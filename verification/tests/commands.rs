use redis_client::command::{build_bulk, build_get_frame, build_set_frame, usage};
use redis_client::echo::{echo_step, EchoStep, ReadOutcome, ECHO_CAPACITY};
use redis_client::frame::Frame;
use redis_client::parse::Parse;

#[test]
fn build_bulk_copies_the_bytes() {
    assert!(matches!(build_bulk(b"abc"), Frame::Bulk(b) if &b[..] == b"abc"));
    assert!(matches!(build_bulk(&[0, 13, 10, 255]), Frame::Bulk(b) if &b[..] == [0, 13, 10, 255]));
    assert!(matches!(build_bulk(b""), Frame::Bulk(b) if b.is_empty()));
}

#[test]
fn set_frame_is_three_bulk_strings() {
    let frame = build_set_frame("foo", "bar");
    assert_eq!(frame.encode(), b"*3\r\n$3\r\nSET\r\n$3\r\nfoo\r\n$3\r\nbar\r\n".to_vec());
    let mut p = Parse::new(frame).unwrap();
    assert_eq!(p.next_string(), Ok("SET".to_string()));
    assert_eq!(p.next_string(), Ok("foo".to_string()));
    assert_eq!(p.next_string(), Ok("bar".to_string()));
    assert_eq!(p.finish(), Ok(()));
}

#[test]
fn get_frame_is_two_bulk_strings() {
    let frame = build_get_frame("héllo");
    assert_eq!(frame.encode(), "*2\r\n$3\r\nGET\r\n$6\r\nhéllo\r\n".as_bytes().to_vec());
    assert_eq!(frame.to_string(), "[GET, héllo]");
}

#[test]
fn usage_names_both_commands() {
    let text = usage();
    assert!(text.starts_with("Usage:\n  redis-client [addr] set <key> <value>\n"));
    assert!(text.contains("redis-client [addr] get <key>"));
    assert!(text.ends_with("If addr omitted, defaults to 127.0.0.1:6379"));
}

#[test]
fn echo_step_decides_on_each_outcome() {
    assert_eq!(ECHO_CAPACITY, 3);
    assert!(matches!(echo_step(ReadOutcome::Received(0)), EchoStep::Closed));
    assert!(matches!(echo_step(ReadOutcome::Received(1)), EchoStep::Echo(1)));
    assert!(matches!(echo_step(ReadOutcome::Received(3)), EchoStep::Echo(3)));
    assert!(matches!(echo_step(ReadOutcome::WouldBlock), EchoStep::Retry));
}

#[test]
fn echo_step_hands_the_error_of_a_failed_read_on() {
    let e = std::io::Error::new(std::io::ErrorKind::ConnectionReset, "reset by test");
    match echo_step(ReadOutcome::Failed(e)) {
        EchoStep::Fail(err) => {
            assert_eq!(err.kind(), std::io::ErrorKind::ConnectionReset);
            assert_eq!(err.to_string(), "reset by test");
        }
        other => panic!("unexpected: {:?}", other),
    }
}
