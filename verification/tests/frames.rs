use bytes::Bytes;
use redis_client::decimal::{read_decimal, write_decimal};
use redis_client::decode::{find_line, parse, FrameError, ProtocolError};
use redis_client::frame::Frame;
use redis_client::roundtrip::{holds_no_crlf, is_encodable};
use redis_client::text::text_from_bytes;
use redis_client::wire::{append_bytes, write_crlf, write_value};

fn bulk(data: &[u8]) -> Frame {
    Frame::Bulk(Bytes::copy_from_slice(data))
}

fn decode_whole(bytes: &[u8]) -> Frame {
    match parse(bytes, 0) {
        Ok((frame, used)) => {
            assert_eq!(used, bytes.len());
            frame
        }
        Err(e) => panic!("no frame: {:?}", e),
    }
}

fn sample_frames() -> Vec<Frame> {
    vec![
        Frame::Simple("OK".to_string()),
        Frame::Simple(String::new()),
        Frame::Error("ERR unknown command".to_string()),
        Frame::Integer(0),
        Frame::Integer(42),
        Frame::Integer(u64::MAX),
        bulk(b"hello"),
        bulk(b""),
        bulk(b"with\r\nbreaks\r\n"),
        bulk(&[0, 159, 146, 150, 255]),
        Frame::Null,
        Frame::Array(vec![]),
        Frame::Array(vec![bulk(b"SET"), bulk(b"k"), bulk(b"v")]),
        Frame::Array(vec![
            Frame::Integer(1),
            Frame::Array(vec![Frame::Null, Frame::Simple("a".to_string()), Frame::Array(vec![])]),
            bulk(b"x"),
        ]),
    ]
}

#[test]
fn encodes_each_variant() {
    assert_eq!(Frame::Simple("OK".to_string()).encode(), b"+OK\r\n".to_vec());
    assert_eq!(Frame::Error("bad".to_string()).encode(), b"-bad\r\n".to_vec());
    assert_eq!(Frame::Integer(1234).encode(), b":1234\r\n".to_vec());
    assert_eq!(bulk(b"hello").encode(), b"$5\r\nhello\r\n".to_vec());
    assert_eq!(bulk(b"").encode(), b"$0\r\n\r\n".to_vec());
    assert_eq!(Frame::Null.encode(), b"$-1\r\n".to_vec());
    assert_eq!(Frame::Array(vec![]).encode(), b"*0\r\n".to_vec());
    assert_eq!(
        Frame::Array(vec![bulk(b"GET"), bulk(b"foo")]).encode(),
        b"*2\r\n$3\r\nGET\r\n$3\r\nfoo\r\n".to_vec()
    );
}

#[test]
fn encodes_nested_arrays_in_order() {
    let frame = Frame::Array(vec![
        Frame::Integer(1),
        Frame::Array(vec![Frame::Null, Frame::Simple("a".to_string())]),
        bulk(b"x"),
    ]);
    assert_eq!(frame.encode(), b"*3\r\n:1\r\n*2\r\n$-1\r\n+a\r\n$1\r\nx\r\n".to_vec());
}

#[test]
fn write_value_appends_to_what_is_there() {
    let mut buf = b"abc".to_vec();
    write_value(&Frame::Integer(7), &mut buf);
    assert_eq!(buf, b"abc:7\r\n".to_vec());
    write_crlf(&mut buf);
    append_bytes(&mut buf, b"xy");
    assert_eq!(buf, b"abc:7\r\n\r\nxy".to_vec());
}

#[test]
fn decodes_each_variant() {
    assert!(matches!(decode_whole(b"+OK\r\n"), Frame::Simple(s) if s == "OK"));
    assert!(matches!(decode_whole(b"-bad\r\n"), Frame::Error(s) if s == "bad"));
    assert!(matches!(decode_whole(b":1234\r\n"), Frame::Integer(1234)));
    assert!(matches!(decode_whole(b":007\r\n"), Frame::Integer(7)));
    assert!(matches!(decode_whole(b"$5\r\nhello\r\n"), Frame::Bulk(b) if &b[..] == b"hello"));
    assert!(matches!(decode_whole(b"$0\r\n\r\n"), Frame::Bulk(b) if b.is_empty()));
    assert!(matches!(decode_whole(b"$-1\r\n"), Frame::Null));
    assert!(matches!(decode_whole(b"*0\r\n"), Frame::Array(v) if v.is_empty()));
}

#[test]
fn bulk_payload_may_hold_line_breaks() {
    let frame = decode_whole(b"$6\r\na\r\nb\r\n\r\n");
    assert!(matches!(frame, Frame::Bulk(b) if &b[..] == b"a\r\nb\r\n"));
}

#[test]
fn decodes_at_a_position_and_reports_the_length() {
    let buf = b"xx:12\r\n+rest\r\n";
    match parse(buf, 2) {
        Ok((Frame::Integer(12), used)) => assert_eq!(used, 5),
        other => panic!("unexpected: {:?}", other),
    }
    match parse(buf, 7) {
        Ok((Frame::Simple(s), used)) => {
            assert_eq!(s, "rest");
            assert_eq!(used, 7);
        }
        other => panic!("unexpected: {:?}", other),
    }
}

#[test]
fn round_trip_keeps_every_frame() {
    for frame in sample_frames() {
        let bytes = frame.encode();
        let back = decode_whole(&bytes);
        assert_eq!(back.encode(), bytes);
        assert_eq!(back.to_string(), frame.to_string());
    }
}

#[test]
fn round_trip_ignores_what_follows() {
    for frame in sample_frames() {
        let mut bytes = frame.encode();
        let len = bytes.len();
        bytes.extend_from_slice(b"+next\r\n");
        match parse(&bytes, 0) {
            Ok((back, used)) => {
                assert_eq!(used, len);
                assert_eq!(back.encode(), frame.encode());
            }
            Err(e) => panic!("no frame: {:?}", e),
        }
    }
}

#[test]
fn every_proper_prefix_is_incomplete() {
    for frame in sample_frames() {
        let bytes = frame.encode();
        for k in 0..bytes.len() {
            assert!(matches!(parse(&bytes[..k], 0), Err(FrameError::Incomplete)));
        }
    }
}

#[test]
fn empty_input_is_incomplete() {
    assert!(matches!(parse(b"", 0), Err(FrameError::Incomplete)));
    assert!(matches!(parse(b"+OK\r\n", 5), Err(FrameError::Incomplete)));
    assert!(matches!(parse(b"+OK\r\n", 9), Err(FrameError::Incomplete)));
}

#[test]
fn bulk_shorter_than_declared_is_incomplete() {
    assert!(matches!(parse(b"$5\r\nab", 0), Err(FrameError::Incomplete)));
    assert!(matches!(parse(b"$5\r\nhello", 0), Err(FrameError::Incomplete)));
    assert!(matches!(parse(b"$5\r\nhello\r", 0), Err(FrameError::Incomplete)));
    assert!(matches!(parse(b"$18446744073709551615\r\nab", 0), Err(FrameError::Incomplete)));
}

#[test]
fn array_with_missing_elements_is_incomplete() {
    assert!(matches!(parse(b"*2\r\n:1\r\n", 0), Err(FrameError::Incomplete)));
    assert!(matches!(parse(b"*2\r\n:1\r\n:2", 0), Err(FrameError::Incomplete)));
}

#[test]
fn unknown_sigil_is_a_protocol_error() {
    assert_eq!(parse(b"?what\r\n", 0).err(), Some(FrameError::Other(ProtocolError::UnknownSigil)));
    assert_eq!(parse(b"x", 0).err(), Some(FrameError::Other(ProtocolError::UnknownSigil)));
}

#[test]
fn non_numeric_fields_are_protocol_errors() {
    let bad = FrameError::Other(ProtocolError::InvalidNumber);
    assert_eq!(parse(b":12a\r\n", 0).err(), Some(bad));
    assert_eq!(parse(b":\r\n", 0).err(), Some(bad));
    assert_eq!(parse(b":-1\r\n", 0).err(), Some(bad));
    assert_eq!(parse(b":+1\r\n", 0).err(), Some(bad));
    assert_eq!(parse(b":18446744073709551616\r\n", 0).err(), Some(bad));
    assert_eq!(parse(b"$abc\r\n", 0).err(), Some(bad));
    assert_eq!(parse(b"$-2\r\n", 0).err(), Some(bad));
    assert_eq!(parse(b"*x\r\n", 0).err(), Some(bad));
    assert_eq!(parse(b"*-1\r\n", 0).err(), Some(bad));
}

#[test]
fn bulk_without_terminator_is_a_protocol_error() {
    let bad = FrameError::Other(ProtocolError::MissingTerminator);
    assert_eq!(parse(b"$2\r\nabXY", 0).err(), Some(bad));
    assert_eq!(parse(b"$2\r\nab\rX", 0).err(), Some(bad));
}

#[test]
fn text_that_is_not_utf8_is_a_protocol_error() {
    let bad = FrameError::Other(ProtocolError::InvalidText);
    assert_eq!(parse(b"+\xff\xfe\r\n", 0).err(), Some(bad));
    assert_eq!(parse(b"-\xc3\r\n", 0).err(), Some(bad));
}

#[test]
fn error_inside_an_array_is_reported() {
    assert_eq!(
        parse(b"*2\r\n:1\r\n?\r\n", 0).err(),
        Some(FrameError::Other(ProtocolError::UnknownSigil))
    );
    assert_eq!(
        parse(b"*2\r\n:x\r\n", 0).err(),
        Some(FrameError::Other(ProtocolError::InvalidNumber))
    );
}

#[test]
fn protocol_errors_have_messages() {
    assert_eq!(ProtocolError::UnknownSigil.message(), "protocol error; invalid frame type byte");
    assert_eq!(ProtocolError::InvalidText.message(), "protocol error; invalid text");
    assert_eq!(ProtocolError::InvalidNumber.message(), "protocol error; invalid number");
    assert_eq!(
        ProtocolError::MissingTerminator.message(),
        "protocol error; missing line terminator"
    );
}

#[test]
fn find_line_gives_the_length_before_the_first_terminator() {
    assert_eq!(find_line(b"abc\r\ndef\r\n", 0), Some(3));
    assert_eq!(find_line(b"abc\r\ndef\r\n", 1), Some(2));
    assert_eq!(find_line(b"abc\r\ndef\r\n", 3), Some(0));
    assert_eq!(find_line(b"abc\r\ndef\r\n", 4), Some(4));
    assert_eq!(find_line(b"abc\r\n", 4), None);
    assert_eq!(find_line(b"abc\r", 0), None);
    assert_eq!(find_line(b"a\rb\nc", 0), None);
    assert_eq!(find_line(b"", 0), None);
    assert_eq!(find_line(b"ab", 7), None);
    assert_eq!(find_line(b"\r\r\n", 0), Some(1));
}

#[test]
fn read_decimal_reads_digits_only() {
    assert_eq!(read_decimal(b"0"), Some(0));
    assert_eq!(read_decimal(b"42"), Some(42));
    assert_eq!(read_decimal(b"0042"), Some(42));
    assert_eq!(read_decimal(b"18446744073709551615"), Some(u64::MAX));
    assert_eq!(read_decimal(b"18446744073709551616"), None);
    assert_eq!(read_decimal(b"99999999999999999999"), None);
    assert_eq!(read_decimal(b""), None);
    assert_eq!(read_decimal(b"4 2"), None);
    assert_eq!(read_decimal(b"-1"), None);
    assert_eq!(read_decimal(b"12x"), None);
}

#[test]
fn write_decimal_writes_the_shortest_numeral() {
    let mut buf = Vec::new();
    write_decimal(&mut buf, 0);
    assert_eq!(buf, b"0".to_vec());
    write_decimal(&mut buf, 10);
    assert_eq!(buf, b"010".to_vec());
    write_decimal(&mut buf, u64::MAX);
    assert_eq!(buf, b"01018446744073709551615".to_vec());
}

#[test]
fn text_from_bytes_decodes_utf8() {
    assert_eq!(text_from_bytes(b"plain"), Some("plain".to_string()));
    assert_eq!(text_from_bytes("héllo ✓".as_bytes()), Some("héllo ✓".to_string()));
    assert_eq!(text_from_bytes(b""), Some(String::new()));
    assert_eq!(text_from_bytes(&[0xff]), None);
    assert_eq!(text_from_bytes(&[0xe2, 0x9c]), None);
}

#[test]
fn renders_each_variant() {
    assert_eq!(Frame::Simple("OK".to_string()).to_string(), "OK");
    assert_eq!(Frame::Error("bad".to_string()).to_string(), "bad");
    assert_eq!(Frame::Integer(0).to_string(), "0");
    assert_eq!(Frame::Integer(90210).to_string(), "90210");
    assert_eq!(Frame::Integer(u64::MAX).to_string(), "18446744073709551615");
    assert_eq!(bulk(b"hello").to_string(), "hello");
    assert_eq!(bulk("héllo".as_bytes()).to_string(), "héllo");
    assert_eq!(bulk(&[0xff, 0x00]).to_string(), "(binary)");
    assert_eq!(Frame::Null.to_string(), "(nil)");
}

#[test]
fn renders_arrays_in_brackets() {
    assert_eq!(Frame::Array(vec![]).to_string(), "[]");
    assert_eq!(Frame::Array(vec![Frame::Integer(1)]).to_string(), "[1]");
    assert_eq!(
        Frame::Array(vec![bulk(b"SET"), bulk(b"k"), Frame::Null]).to_string(),
        "[SET, k, (nil)]"
    );
    assert_eq!(
        Frame::Array(vec![Frame::Array(vec![Frame::Integer(1), Frame::Integer(2)]), bulk(b"x")])
            .to_string(),
        "[[1, 2], x]"
    );
}

#[test]
fn is_encodable_refuses_text_with_a_line_terminator() {
    for frame in sample_frames() {
        assert!(is_encodable(&frame));
    }
    assert!(is_encodable(&Frame::Simple("lone \r and lone \n".to_string())));
    assert!(is_encodable(&Frame::Simple("ends with \r".to_string())));
    assert!(!is_encodable(&Frame::Simple("a\r\nb".to_string())));
    assert!(!is_encodable(&Frame::Error("\r\n".to_string())));
    assert!(!is_encodable(&Frame::Array(vec![
        Frame::Null,
        Frame::Array(vec![Frame::Simple("x\r\n".to_string())]),
    ])));
}

#[test]
fn text_with_a_line_terminator_does_not_come_back() {
    let frame = Frame::Simple("a\r\nb".to_string());
    let bytes = frame.encode();
    match parse(&bytes, 0) {
        Ok((Frame::Simple(s), used)) => {
            assert_eq!(s, "a");
            assert_eq!(used, 4);
        }
        other => panic!("unexpected: {:?}", other),
    }
}

#[test]
fn holds_no_crlf_looks_for_the_pair() {
    assert!(holds_no_crlf(b""));
    assert!(holds_no_crlf(b"\r"));
    assert!(holds_no_crlf(b"\n\r"));
    assert!(holds_no_crlf(b"a\rb\nc"));
    assert!(!holds_no_crlf(b"\r\n"));
    assert!(!holds_no_crlf(b"abc\r\n"));
    assert!(!holds_no_crlf(b"\r\r\nx"));
}

#[test]
fn clone_keeps_the_value() {
    for frame in sample_frames() {
        let copy = frame.clone();
        assert_eq!(copy.encode(), frame.encode());
        assert_eq!(copy.to_string(), frame.to_string());
    }
}
