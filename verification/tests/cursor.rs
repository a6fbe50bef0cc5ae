use bytes::Bytes;
use redis_client::frame::{Frame, FrameKind};
use redis_client::decimal::{is_numeral, read_decimal};
use redis_client::parse::{int_from_parsed, read_number, Parse, ParseError, ParseFault};

fn bulk(data: &[u8]) -> Frame {
    Frame::Bulk(Bytes::copy_from_slice(data))
}

fn cursor(items: Vec<Frame>) -> Parse {
    match Parse::new(Frame::Array(items)) {
        Ok(p) => p,
        Err(e) => panic!("no cursor: {:?}", e),
    }
}

#[test]
fn extraction_follows_the_order_of_the_array() {
    let mut p = cursor(vec![bulk(b"SET"), bulk(b"k"), bulk(b"v")]);
    assert_eq!(p.remaining(), 3);
    assert_eq!(p.next_string(), Ok("SET".to_string()));
    assert_eq!(p.next_string(), Ok("k".to_string()));
    assert_eq!(p.next_string(), Ok("v".to_string()));
    assert_eq!(p.remaining(), 0);
    assert_eq!(p.finish(), Ok(()));
    assert_eq!(p.next_string(), Err(ParseError::EndOfStream));
}

#[test]
fn next_int_coerces_text() {
    let mut p = cursor(vec![bulk(b"42"), bulk(b"nope"), Frame::Simple("7".to_string())]);
    assert_eq!(p.next_int(), Ok(42));
    assert_eq!(p.next_int(), Err(ParseError::Other(ParseFault::InvalidNumber)));
    assert_eq!(p.next_int(), Ok(7));
    assert_eq!(p.next_int(), Err(ParseError::EndOfStream));
}

#[test]
fn next_int_takes_integer_frames_as_they_are() {
    let mut p = cursor(vec![Frame::Integer(0), Frame::Integer(u64::MAX)]);
    assert_eq!(p.next_int(), Ok(0));
    assert_eq!(p.next_int(), Ok(u64::MAX));
}

#[test]
fn next_int_refuses_what_is_no_number() {
    let mut p = cursor(vec![
        bulk(b""),
        bulk(b"18446744073709551616"),
        bulk(b"-5"),
        Frame::Simple("x1".to_string()),
        bulk(b"18446744073709551615"),
    ]);
    let bad = Err(ParseError::Other(ParseFault::InvalidNumber));
    assert_eq!(p.next_int(), bad);
    assert_eq!(p.next_int(), bad);
    assert_eq!(p.next_int(), bad);
    assert_eq!(p.next_int(), bad);
    assert_eq!(p.next_int(), Ok(u64::MAX));
}

#[test]
fn next_int_refuses_bytes_after_the_digits() {
    let mut p = cursor(vec![
        bulk(b"42abc"),
        bulk(b"42 "),
        bulk(b"4 2"),
        bulk(b"42\r\n"),
        Frame::Simple("7x".to_string()),
        Frame::Simple("1.5".to_string()),
    ]);
    let bad = Err(ParseError::Other(ParseFault::InvalidNumber));
    for _ in 0..6 {
        assert_eq!(p.next_int(), bad);
    }
    assert_eq!(p.next_int(), Err(ParseError::EndOfStream));
}

#[test]
fn next_int_refuses_a_sign() {
    let mut p = cursor(vec![
        bulk(b"+7"),
        bulk(b"-0"),
        bulk(b"-"),
        bulk(b"+"),
        bulk(b"-5"),
        Frame::Simple("+0".to_string()),
        Frame::Simple("-1".to_string()),
    ]);
    let bad = Err(ParseError::Other(ParseFault::InvalidNumber));
    for _ in 0..7 {
        assert_eq!(p.next_int(), bad);
    }
    assert_eq!(p.remaining(), 0);
}

#[test]
fn next_int_reads_leading_zeros_and_long_numerals() {
    let mut p = cursor(vec![
        bulk(b"007"),
        bulk(b"0"),
        bulk(b"00000000000000000000000000000000000000001"),
        bulk(b"18446744073709551615"),
        bulk(b"018446744073709551615"),
        bulk(b"18446744073709551616"),
        bulk(b"184467440737095516150"),
        Frame::Simple("99999999999999999999".to_string()),
    ]);
    assert_eq!(p.next_int(), Ok(7));
    assert_eq!(p.next_int(), Ok(0));
    assert_eq!(p.next_int(), Ok(1));
    assert_eq!(p.next_int(), Ok(u64::MAX));
    assert_eq!(p.next_int(), Ok(u64::MAX));
    let bad = Err(ParseError::Other(ParseFault::InvalidNumber));
    assert_eq!(p.next_int(), bad);
    assert_eq!(p.next_int(), bad);
    assert_eq!(p.next_int(), bad);
}

#[test]
fn read_number_agrees_with_read_decimal() {
    let samples: [&[u8]; 12] = [
        b"", b"0", b"42", b"0042", b"42abc", b"+7", b"-0", b"-", b"x1", b"18446744073709551615",
        b"18446744073709551616", b"000000000000000000000000018446744073709551615",
    ];
    for text in samples {
        assert_eq!(read_number(text), read_decimal(text));
    }
    assert_eq!(read_number(b"42"), Some(42));
    assert_eq!(read_number(b"42abc"), None);
    assert_eq!(read_number(b"+7"), None);
}

#[test]
fn is_numeral_wants_digits_only() {
    assert!(is_numeral(b"0"));
    assert!(is_numeral(b"0123456789"));
    assert!(!is_numeral(b""));
    assert!(!is_numeral(b"12a"));
    assert!(!is_numeral(b"a12"));
    assert!(!is_numeral(b"-1"));
    assert!(!is_numeral(b"/"));
    assert!(!is_numeral(b":"));
}

#[test]
fn next_int_refuses_other_kinds() {
    let mut p = cursor(vec![Frame::Null, Frame::Array(vec![]), Frame::Error("1".to_string())]);
    assert_eq!(p.next_int(), Err(ParseError::Other(ParseFault::ExpectedInt(FrameKind::Null))));
    assert_eq!(p.next_int(), Err(ParseError::Other(ParseFault::ExpectedInt(FrameKind::Array))));
    assert_eq!(p.next_int(), Err(ParseError::Other(ParseFault::ExpectedInt(FrameKind::Error))));
    assert_eq!(p.remaining(), 0);
}

#[test]
fn next_int_on_a_wrong_frame_says_that_an_int_was_expected() {
    let mut p = cursor(vec![Frame::Null]);
    match p.next_int() {
        Err(e) => {
            assert!(e.message().starts_with("protocol error; expected int frame but got"));
            assert_eq!(e.message(), "protocol error; expected int frame but got Null");
        }
        Ok(n) => panic!("a number came: {}", n),
    }
}

#[test]
fn next_string_on_a_wrong_frame_says_what_was_expected() {
    let mut p = cursor(vec![Frame::Error("ERR".to_string()), Frame::Integer(1)]);
    match p.next_string() {
        Err(e) => {
            assert!(e.message().starts_with("protocol error; expected simple frame or bulk frame"));
            assert_eq!(e.message(), "protocol error; expected simple frame or bulk frame, got Error");
        }
        Ok(s) => panic!("a string came: {}", s),
    }
    match p.next_bytes() {
        Err(e) => assert_eq!(
            e.message(),
            "protocol error; expected simple frame or bulk frame, got Integer"
        ),
        Ok(b) => panic!("bytes came: {:?}", b),
    }
}

#[test]
fn int_from_parsed_maps_nothing_to_invalid_number() {
    assert_eq!(int_from_parsed(Some(9)), Ok(9));
    assert_eq!(int_from_parsed(None), Err(ParseError::Other(ParseFault::InvalidNumber)));
}

#[test]
fn non_array_root_is_refused() {
    assert!(matches!(
        Parse::new(Frame::Integer(1)),
        Err(ParseError::Other(ParseFault::ExpectedArray(FrameKind::Integer)))
    ));
    assert!(matches!(
        Parse::new(Frame::Null),
        Err(ParseError::Other(ParseFault::ExpectedArray(FrameKind::Null)))
    ));
    assert!(matches!(
        Parse::new(bulk(b"x")),
        Err(ParseError::Other(ParseFault::ExpectedArray(FrameKind::Bulk)))
    ));
    assert!(matches!(
        Parse::new(Frame::Simple("x".to_string())),
        Err(ParseError::Other(ParseFault::ExpectedArray(FrameKind::Simple)))
    ));
}

#[test]
fn empty_array_has_nothing_to_hand_out() {
    let mut p = cursor(vec![]);
    assert_eq!(p.remaining(), 0);
    assert!(matches!(p.next(), Err(ParseError::EndOfStream)));
    assert_eq!(p.next_bytes(), Err(ParseError::EndOfStream));
    assert_eq!(p.finish(), Ok(()));
}

#[test]
fn next_hands_out_frames_in_order() {
    let mut p = cursor(vec![Frame::Integer(1), Frame::Null, Frame::Integer(3)]);
    assert!(matches!(p.next(), Ok(Frame::Integer(1))));
    assert_eq!(p.remaining(), 2);
    assert!(matches!(p.next(), Ok(Frame::Null)));
    assert!(matches!(p.next(), Ok(Frame::Integer(3))));
    assert!(matches!(p.next(), Err(ParseError::EndOfStream)));
}

#[test]
fn next_string_takes_simple_and_bulk() {
    let mut p = cursor(vec![
        Frame::Simple("plain".to_string()),
        bulk("héllo".as_bytes()),
        bulk(&[0xff, 0xfe]),
        Frame::Integer(1),
        Frame::Error("e".to_string()),
    ]);
    assert_eq!(p.next_string(), Ok("plain".to_string()));
    assert_eq!(p.next_string(), Ok("héllo".to_string()));
    assert_eq!(p.next_string(), Err(ParseError::Other(ParseFault::InvalidString)));
    assert_eq!(
        p.next_string(),
        Err(ParseError::Other(ParseFault::ExpectedSimpleOrBulk(FrameKind::Integer)))
    );
    assert_eq!(
        p.next_string(),
        Err(ParseError::Other(ParseFault::ExpectedSimpleOrBulk(FrameKind::Error)))
    );
    assert_eq!(p.next_string(), Err(ParseError::EndOfStream));
}

#[test]
fn next_bytes_takes_simple_and_bulk() {
    let mut p = cursor(vec![
        Frame::Simple("héllo".to_string()),
        bulk(&[0, 255, 13, 10]),
        Frame::Null,
    ]);
    assert_eq!(p.next_bytes(), Ok(Bytes::copy_from_slice("héllo".as_bytes())));
    assert_eq!(p.next_bytes(), Ok(Bytes::copy_from_slice(&[0, 255, 13, 10])));
    assert_eq!(
        p.next_bytes(),
        Err(ParseError::Other(ParseFault::ExpectedSimpleOrBulk(FrameKind::Null)))
    );
    assert_eq!(p.next_bytes(), Err(ParseError::EndOfStream));
}

#[test]
fn finish_refuses_trailing_elements() {
    let mut p = cursor(vec![bulk(b"GET"), bulk(b"k"), bulk(b"extra")]);
    assert_eq!(p.next_string(), Ok("GET".to_string()));
    assert_eq!(p.next_string(), Ok("k".to_string()));
    assert_eq!(p.finish(), Err(ParseError::Other(ParseFault::TrailingData)));
    assert_eq!(p.remaining(), 0);
}

#[test]
fn parse_errors_have_messages() {
    assert_eq!(ParseError::EndOfStream.message(), "protocol error; unexpected end of stream");
    assert_eq!(
        ParseError::Other(ParseFault::ExpectedArray(FrameKind::Integer)).message(),
        "protocol error; expected array, got Integer"
    );
    assert_eq!(
        ParseError::Other(ParseFault::InvalidString).message(),
        "protocol error; invalid string"
    );
    assert_eq!(
        ParseError::Other(ParseFault::ExpectedSimpleOrBulk(FrameKind::Array)).message(),
        "protocol error; expected simple frame or bulk frame, got Array"
    );
    assert_eq!(
        ParseError::Other(ParseFault::ExpectedInt(FrameKind::Simple)).message(),
        "protocol error; expected int frame but got Simple"
    );
    assert_eq!(
        ParseError::Other(ParseFault::InvalidNumber).message(),
        "protocol error; invalid number"
    );
    assert_eq!(
        ParseError::Other(ParseFault::TrailingData).message(),
        "protocol error; expected end of frame, but there was more"
    );
}

#[test]
fn frame_kinds_have_the_names_of_the_variants() {
    assert_eq!(Frame::Simple("s".to_string()).kind(), FrameKind::Simple);
    assert_eq!(Frame::Error("e".to_string()).kind(), FrameKind::Error);
    assert_eq!(Frame::Integer(3).kind(), FrameKind::Integer);
    assert_eq!(bulk(b"b").kind(), FrameKind::Bulk);
    assert_eq!(Frame::Null.kind(), FrameKind::Null);
    assert_eq!(Frame::Array(vec![]).kind(), FrameKind::Array);
    assert_eq!(FrameKind::Simple.name(), "Simple");
    assert_eq!(FrameKind::Error.name(), "Error");
    assert_eq!(FrameKind::Integer.name(), "Integer");
    assert_eq!(FrameKind::Bulk.name(), "Bulk");
    assert_eq!(FrameKind::Null.name(), "Null");
    assert_eq!(FrameKind::Array.name(), "Array");
}
