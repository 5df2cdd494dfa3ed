use simple_redis::{
    BigNumber, BulkError, BulkString, RespArray, RespDouble, RespEncode, RespError, RespFrame,
    RespMap, RespNull, RespNullArray, RespNullBulkString, RespSet, SimpleError, SimpleString,
};

fn decoded(bytes: &[u8]) -> RespFrame {
    let (frame, used) = RespFrame::decode_slice(bytes).unwrap();
    assert_eq!(used, bytes.len());
    frame
}

fn sample_frames() -> Vec<RespFrame> {
    let mut map = RespMap::new();
    map.insert("foo", RespFrame::Boolean(true));
    map.insert("bar", BulkString::new(b"a\r\nb".to_vec()).into());
    let mut nested = RespMap::new();
    nested.insert("inner", RespFrame::Mapping(map.clone()));
    vec![
        SimpleString::new("OK").into(),
        SimpleString::new("").into(),
        SimpleString::new("héllo wörld").into(),
        SimpleError::new("ERR something went wrong").into(),
        BulkError::new(b"SYNTAX invalid\r\nsyntax".to_vec()).into(),
        RespFrame::Integer(0),
        RespFrame::Integer(-1),
        RespFrame::Integer(i64::MAX),
        RespFrame::Integer(i64::MIN),
        BulkString::new(b"hello".to_vec()).into(),
        BulkString::new(Vec::<u8>::new()).into(),
        BulkString::new(vec![0u8, 13, 10, 255]).into(),
        RespNullBulkString.into(),
        RespArray::new(vec![]).into(),
        RespArray::new(vec![RespFrame::Integer(1), RespArray::new(vec![RespNull.into()]).into()])
            .into(),
        RespNullArray.into(),
        RespNull.into(),
        RespFrame::Boolean(true),
        RespFrame::Boolean(false),
        RespDouble::new("+3.15").into(),
        RespDouble::new("-1.23456e-9").into(),
        RespDouble::new("7").into(),
        RespDouble::new("-inf").into(),
        RespDouble::new("nan").into(),
        BigNumber::new(b"3492890328409238509324850943850943825024385".to_vec()).into(),
        RespFrame::Mapping(RespMap::new()),
        RespFrame::Mapping(map),
        RespFrame::Mapping(nested),
        RespSet::new(vec![RespFrame::Integer(2), SimpleString::new("two").into()]).into(),
    ]
}

#[test]
fn round_trip_gives_the_frame_back_with_nothing_left() {
    for frame in sample_frames() {
        let bytes = frame.clone().encode();
        let (back, used) = RespFrame::decode_slice(&bytes).unwrap();
        assert_eq!(back, frame);
        assert_eq!(used, bytes.len());
    }
}

#[test]
fn bytes_behind_a_frame_are_left_alone() {
    for frame in sample_frames() {
        let mut bytes = frame.clone().encode();
        let width = bytes.len();
        bytes.extend_from_slice(b"+next\r\n");
        let (back, used) = RespFrame::decode_slice(&bytes).unwrap();
        assert_eq!(back, frame);
        assert_eq!(used, width);
    }
}

#[test]
fn every_strict_prefix_is_incomplete() {
    for frame in sample_frames() {
        let bytes = frame.clone().encode();
        for k in 0..bytes.len() {
            assert_eq!(
                RespFrame::decode_slice(&bytes[..k]),
                Err(RespError::NotComplete),
                "prefix of {} bytes of {:?}",
                k,
                frame
            );
        }
        assert_eq!(RespFrame::decode_slice(&bytes), Ok((frame, bytes.len())));
    }
}

#[test]
fn unknown_tag_is_invalid() {
    assert_eq!(RespFrame::decode_slice(b"?what\r\n"), Err(RespError::InvalidFrame));
    assert_eq!(RespFrame::decode_slice(b"x"), Err(RespError::InvalidFrame));
    assert_eq!(RespFrame::decode_slice(b"\r\n"), Err(RespError::InvalidFrame));
    assert_eq!(RespFrame::decode_slice(b"(123\r\n"), Err(RespError::InvalidFrame));
}

#[test]
fn empty_buffer_is_incomplete() {
    assert_eq!(RespFrame::decode_slice(b""), Err(RespError::NotComplete));
}

#[test]
fn decodes_simple_strings_and_errors() {
    assert_eq!(decoded(b"+OK\r\n"), SimpleString::new("OK").into());
    assert_eq!(decoded(b"+\r\n"), SimpleString::new("").into());
    assert_eq!(decoded(b"-ERR unknown\r\n"), SimpleError::new("ERR unknown").into());
}

#[test]
fn line_breaks_must_come_as_a_pair() {
    assert_eq!(RespFrame::decode_slice(b"+a\nb\r\n"), Err(RespError::InvalidFrame));
    assert_eq!(RespFrame::decode_slice(b"+a\rb\r\n"), Err(RespError::InvalidFrame));
    assert_eq!(RespFrame::decode_slice(b"+a\n"), Err(RespError::InvalidFrame));
    assert_eq!(RespFrame::decode_slice(b"+a\r"), Err(RespError::NotComplete));
    assert_eq!(RespFrame::decode_slice(b"+a"), Err(RespError::NotComplete));
}

#[test]
fn simple_text_must_be_utf8() {
    assert_eq!(RespFrame::decode_slice(b"+\xff\xfe\r\n"), Err(RespError::InvalidFrame));
    assert_eq!(RespFrame::decode_slice(b"-\xc3\x28\r\n"), Err(RespError::InvalidFrame));
    assert_eq!(
        decoded("+h\u{e9}llo\r\n".as_bytes()),
        SimpleString::new("h\u{e9}llo").into()
    );
    assert_eq!(
        decoded(b"$2\r\n\xff\xfe\r\n"),
        BulkString::new(vec![0xffu8, 0xfe]).into()
    );
}

#[test]
fn decodes_integers() {
    assert_eq!(decoded(b":+123\r\n"), RespFrame::Integer(123));
    assert_eq!(decoded(b":-123\r\n"), RespFrame::Integer(-123));
    assert_eq!(decoded(b":123\r\n"), RespFrame::Integer(123));
    assert_eq!(decoded(b":0\r\n"), RespFrame::Integer(0));
    assert_eq!(decoded(b":-0\r\n"), RespFrame::Integer(0));
    assert_eq!(decoded(b":007\r\n"), RespFrame::Integer(7));
    assert_eq!(decoded(b":9223372036854775807\r\n"), RespFrame::Integer(i64::MAX));
    assert_eq!(decoded(b":-9223372036854775808\r\n"), RespFrame::Integer(i64::MIN));
}

#[test]
fn rejects_what_is_no_integer() {
    for bytes in [
        &b":\r\n"[..],
        b":+\r\n",
        b":-\r\n",
        b":12a\r\n",
        b": 12\r\n",
        b":1.5\r\n",
        b":--1\r\n",
        b":9223372036854775808\r\n",
        b":-9223372036854775809\r\n",
        b":18446744073709551616\r\n",
        b":99999999999999999999999999999\r\n",
    ] {
        assert_eq!(RespFrame::decode_slice(bytes), Err(RespError::InvalidFrame), "{:?}", bytes);
    }
}

#[test]
fn encodes_the_extreme_integers() {
    assert_eq!(RespFrame::Integer(0).encode(), b":+0\r\n");
    assert_eq!(
        RespFrame::Integer(i64::MAX).encode(),
        b":+9223372036854775807\r\n"
    );
    assert_eq!(
        RespFrame::Integer(i64::MIN).encode(),
        b":-9223372036854775808\r\n"
    );
    assert_eq!(10i64.encode(), b":+10\r\n");
    assert_eq!((-1000i64).encode(), b":-1000\r\n");
}

#[test]
fn decodes_bulk_strings() {
    assert_eq!(decoded(b"$5\r\nhello\r\n"), BulkString::new(b"hello".to_vec()).into());
    assert_eq!(decoded(b"$0\r\n\r\n"), BulkString::new(Vec::<u8>::new()).into());
    assert_eq!(decoded(b"$-1\r\n"), RespNullBulkString.into());
    assert_eq!(decoded(b"$4\r\na\r\nb\r\n"), BulkString::new(b"a\r\nb".to_vec()).into());
    assert_eq!(decoded(b"!3\r\nERR\r\n"), BulkError::new(b"ERR".to_vec()).into());
    assert_eq!(decoded(b"b3\r\n123\r\n"), BigNumber::new(b"123".to_vec()).into());
}

#[test]
fn bulk_payload_needs_its_terminator() {
    assert_eq!(RespFrame::decode_slice(b"$5\r\nhel"), Err(RespError::NotComplete));
    assert_eq!(RespFrame::decode_slice(b"$5\r\nhello"), Err(RespError::NotComplete));
    assert_eq!(RespFrame::decode_slice(b"$5\r\nhello\r"), Err(RespError::NotComplete));
    assert_eq!(RespFrame::decode_slice(b"$5\r\nhelloXY"), Err(RespError::InvalidFrame));
    assert_eq!(RespFrame::decode_slice(b"$5\r\nhello\rX"), Err(RespError::InvalidFrame));
    assert_eq!(
        RespFrame::decode_slice(b"$18446744073709551615\r\nabc\r\n"),
        Err(RespError::NotComplete)
    );
}

#[test]
fn rejects_bad_length_fields() {
    for bytes in [
        &b"$-2\r\n"[..],
        b"$\r\n",
        b"$abc\r\n",
        b"$+5\r\nhello\r\n",
        b"$5 \r\nhello\r\n",
        b"$-01\r\n",
        b"$18446744073709551616\r\n",
        b"*-2\r\n",
        b"*x\r\n",
        b"!-1\r\n",
        b"b-1\r\n",
        b"%-1\r\n",
        b"~-1\r\n",
    ] {
        assert_eq!(RespFrame::decode_slice(bytes), Err(RespError::InvalidFrame), "{:?}", bytes);
    }
}

#[test]
fn decodes_null_and_booleans() {
    assert_eq!(decoded(b"_\r\n"), RespNull.into());
    assert_eq!(decoded(b"#t\r\n"), RespFrame::Boolean(true));
    assert_eq!(decoded(b"#f\r\n"), RespFrame::Boolean(false));
    assert_eq!(RespFrame::decode_slice(b"_x\r\n"), Err(RespError::InvalidFrame));
    assert_eq!(RespFrame::decode_slice(b"#\r\n"), Err(RespError::InvalidFrame));
    assert_eq!(RespFrame::decode_slice(b"#T\r\n"), Err(RespError::InvalidFrame));
    assert_eq!(RespFrame::decode_slice(b"#tf\r\n"), Err(RespError::InvalidFrame));
    assert_eq!(RespFrame::decode_slice(b"#t"), Err(RespError::NotComplete));
}

#[test]
fn decodes_doubles_as_their_text() {
    for text in [
        "3.15", "+3.15", "-3.15", "+1.23456e8", "-1.23456e-9", "1E+10", "0", "+0", "10", "inf",
        "+inf", "-inf", "nan", "1e5", "0.000001",
    ] {
        let mut bytes = vec![b','];
        bytes.extend_from_slice(text.as_bytes());
        bytes.extend_from_slice(b"\r\n");
        assert_eq!(decoded(&bytes), RespDouble::new(text).into(), "{}", text);
    }
}

#[test]
fn rejects_what_is_no_double() {
    for text in [
        "", "+", "-", ".", ".5", "5.", "1.e5", "1e", "1e+", "e5", "1.2.3", "1e5x", "abc", "+nan",
        "-nan", "NaN", "in", "infinity", "1 ", " 1", "1e5.5", "--1", "0x10",
    ] {
        let mut bytes = vec![b','];
        bytes.extend_from_slice(text.as_bytes());
        bytes.extend_from_slice(b"\r\n");
        assert_eq!(RespFrame::decode_slice(&bytes), Err(RespError::InvalidFrame), "{:?}", text);
    }
}

#[test]
fn decodes_arrays_and_sets() {
    assert_eq!(
        decoded(b"*3\r\n$2\r\nOK\r\n$5\r\nhello\r\n:+123\r\n"),
        RespArray::new(vec![
            BulkString::new("OK".to_string()).into(),
            BulkString::new(b"hello".to_vec()).into(),
            123.into(),
        ])
        .into()
    );
    assert_eq!(decoded(b"*0\r\n"), RespArray::new(vec![]).into());
    assert_eq!(decoded(b"*-1\r\n"), RespNullArray.into());
    assert_eq!(
        decoded(b"~2\r\n*2\r\n:+1234\r\n#t\r\n$2\r\nOK\r\n"),
        RespSet::new(vec![
            RespArray::new(vec![1234.into(), true.into()]).into(),
            BulkString::new(b"OK".to_vec()).into(),
        ])
        .into()
    );
}

#[test]
fn an_array_is_all_or_nothing() {
    assert_eq!(RespFrame::decode_slice(b"*2\r\n:1\r\n"), Err(RespError::NotComplete));
    assert_eq!(RespFrame::decode_slice(b"*2\r\n:1\r\n:2"), Err(RespError::NotComplete));
    assert_eq!(RespFrame::decode_slice(b"*2\r\n:1\r\n?"), Err(RespError::InvalidFrame));
    assert_eq!(RespFrame::decode_slice(b"*2\r\n:x\r\n:2\r\n"), Err(RespError::InvalidFrame));
    assert_eq!(
        RespFrame::decode_slice(b"*18446744073709551615\r\n:1\r\n"),
        Err(RespError::NotComplete)
    );
    assert_eq!(
        RespFrame::decode_slice(b"*18446744073709551615\r\n:1\r\n?"),
        Err(RespError::InvalidFrame)
    );
}

#[test]
fn decodes_maps_into_key_order() {
    let mut expected = RespMap::new();
    expected.insert("foo", RespDouble::new("-123.456").into());
    expected.insert("hello", BulkString::new("world").into());
    assert_eq!(
        decoded(b"%2\r\n+foo\r\n,-123.456\r\n+hello\r\n$5\r\nworld\r\n"),
        RespFrame::Mapping(expected.clone())
    );
    let (unordered, used) =
        RespFrame::decode_slice(b"%2\r\n+hello\r\n$5\r\nworld\r\n+foo\r\n,-123.456\r\n").unwrap();
    assert_eq!(used, 40);
    assert_eq!(unordered, RespFrame::Mapping(expected));
    assert_eq!(
        unordered.encode(),
        b"%2\r\n+foo\r\n,-123.456\r\n+hello\r\n$5\r\nworld\r\n"
    );
}

#[test]
fn a_later_map_entry_replaces_an_earlier_one() {
    let (frame, used) = RespFrame::decode_slice(b"%3\r\n+a\r\n:1\r\n+b\r\n:2\r\n+a\r\n:3\r\n").unwrap();
    assert_eq!(used, 28);
    let mut expected = RespMap::new();
    expected.insert("a", RespFrame::Integer(3));
    expected.insert("b", RespFrame::Integer(2));
    assert_eq!(frame, RespFrame::Mapping(expected));
    assert_eq!(frame.encode(), b"%2\r\n+a\r\n:+3\r\n+b\r\n:+2\r\n");
}

#[test]
fn map_keys_must_be_simple_strings() {
    assert_eq!(
        RespFrame::decode_slice(b"%1\r\n$1\r\na\r\n:1\r\n"),
        Err(RespError::InvalidFrame)
    );
    assert_eq!(RespFrame::decode_slice(b"%1\r\n:1\r\n:1\r\n"), Err(RespError::InvalidFrame));
    assert_eq!(RespFrame::decode_slice(b"%1\r\n+a\r\n"), Err(RespError::NotComplete));
    assert_eq!(RespFrame::decode_slice(b"%1\r\n"), Err(RespError::NotComplete));
    assert_eq!(RespFrame::decode_slice(b"%1\r\n+a\r\n?"), Err(RespError::InvalidFrame));
}

#[test]
fn map_keys_come_out_in_byte_order() {
    let mut map = RespMap::new();
    for key in ["b", "a", "ab", "", "B", "aa", "a"] {
        map.insert(key, RespFrame::Null(RespNull));
    }
    assert_eq!(map.len(), 6);
    assert_eq!(
        RespFrame::Mapping(map).encode(),
        b"%6\r\n+\r\n_\r\n+B\r\n_\r\n+a\r\n_\r\n+aa\r\n_\r\n+ab\r\n_\r\n+b\r\n_\r\n"
    );
}

#[test]
fn insertion_order_does_not_change_the_bytes() {
    let mut one = RespMap::new();
    one.insert("hello", BulkString::new("world").into());
    one.insert("foo", RespFrame::Integer(1));
    one.insert("bar", RespFrame::Boolean(false));
    let mut other = RespMap::new();
    other.insert("bar", RespFrame::Boolean(false));
    other.insert("foo", RespFrame::Integer(1));
    other.insert("hello", BulkString::new("world").into());
    assert_eq!(one, other);
    assert_eq!(RespFrame::Mapping(one).encode(), RespFrame::Mapping(other).encode());
}

#[test]
fn map_insert_hands_back_what_it_replaces() {
    let mut map = RespMap::new();
    assert_eq!(map.insert("k", RespFrame::Integer(1)), None);
    assert_eq!(map.insert("k", RespFrame::Integer(2)), Some(RespFrame::Integer(1)));
    assert_eq!(map.len(), 1);
    assert_eq!(map.get(b"k"), Some(&RespFrame::Integer(2)));
    assert_eq!(map.get(b"missing"), None);
}

#[test]
fn each_type_encodes_like_its_frame() {
    assert_eq!(SimpleString::new("OK").encode(), b"+OK\r\n");
    assert_eq!(SimpleError::new("ERR").encode(), b"-ERR\r\n");
    assert_eq!(BulkError::new("ERR").encode(), b"!3\r\nERR\r\n");
    assert_eq!(BulkString::new("hello").encode(), b"$5\r\nhello\r\n");
    assert_eq!(BigNumber::new("12345678901234567890").encode(), b"b20\r\n12345678901234567890\r\n");
    assert_eq!(RespDouble::new("+1e9").encode(), b",+1e9\r\n");
    assert_eq!(RespNull.encode(), b"_\r\n");
    assert_eq!(RespNullArray.encode(), b"*-1\r\n");
    assert_eq!(RespNullBulkString.encode(), b"$-1\r\n");
    assert_eq!(true.encode(), b"#t\r\n");
    assert_eq!(RespArray::new(vec![RespFrame::Integer(1)]).encode(), b"*1\r\n:+1\r\n");
    assert_eq!(RespSet::new(vec![RespFrame::Integer(1)]).encode(), b"~1\r\n:+1\r\n");
    assert_eq!(RespMap::new().encode(), b"%0\r\n");
}

#[test]
fn a_long_payload_has_its_length_in_decimal() {
    let data = vec![b'x'; 1234];
    let bytes = BulkString::new(data.clone()).encode();
    assert_eq!(&bytes[..7], b"$1234\r\n");
    assert_eq!(bytes.len(), 7 + 1234 + 2);
    assert_eq!(decoded(&bytes), BulkString::new(data).into());
}

#[test]
fn encode_into_puts_the_frame_behind_what_is_there() {
    let mut out = b"+first\r\n".to_vec();
    RespFrame::Integer(5).encode_into(&mut out);
    assert_eq!(out, b"+first\r\n:+5\r\n");
}

#[test]
fn error_messages_name_the_error() {
    assert_eq!(RespError::NotComplete.message(), "frame is not complete");
    assert_eq!(RespError::InvalidFrame.message(), "invalid frame");
}

#[test]
fn valid_frames_are_told_from_the_others() {
    for frame in sample_frames() {
        assert!(frame.is_valid(), "{:?}", frame);
    }
    let broken: Vec<RespFrame> = vec![
        SimpleString::new("two\r\nlines").into(),
        SimpleString::new("line\n").into(),
        SimpleError::new("cut\r").into(),
        SimpleString::new(vec![0xffu8, 0xfe]).into(),
        RespDouble::new("one").into(),
        RespDouble::new("1\r\n2").into(),
        RespDouble::new("").into(),
        RespArray::new(vec![RespFrame::Integer(1), SimpleString::new("a\nb").into()]).into(),
        RespSet::new(vec![RespDouble::new("x").into()]).into(),
        RespFrame::Mapping(RespMap(vec![
            simple_redis::MapEntry { key: b"b".to_vec(), value: RespFrame::Integer(1) },
            simple_redis::MapEntry { key: b"a".to_vec(), value: RespFrame::Integer(2) },
        ])),
        RespFrame::Mapping(RespMap(vec![
            simple_redis::MapEntry { key: b"a".to_vec(), value: RespFrame::Integer(1) },
            simple_redis::MapEntry { key: b"a".to_vec(), value: RespFrame::Integer(2) },
        ])),
        RespFrame::Mapping(RespMap(vec![simple_redis::MapEntry {
            key: b"a\r\n".to_vec(),
            value: RespFrame::Integer(1),
        }])),
        RespFrame::Mapping(RespMap(vec![simple_redis::MapEntry {
            key: b"a".to_vec(),
            value: RespDouble::new("?").into(),
        }])),
    ];
    for frame in broken {
        assert!(!frame.is_valid(), "{:?}", frame);
        let bytes = frame.clone().encode();
        assert_ne!(RespFrame::decode_slice(&bytes), Ok((frame, bytes.len())));
    }
}

#[test]
fn what_was_decoded_is_valid() {
    for bytes in [
        &b"%3\r\n+b\r\n:1\r\n+a\r\n:2\r\n+b\r\n:3\r\n"[..],
        b"*2\r\n+ok\r\n,1e5\r\n",
        b"~1\r\n%1\r\n+k\r\n$1\r\n\n\r\n",
    ] {
        let (frame, used) = RespFrame::decode_slice(bytes).unwrap();
        assert_eq!(used, bytes.len());
        assert!(frame.is_valid());
        let again = frame.clone().encode();
        assert_eq!(RespFrame::decode_slice(&again), Ok((frame, again.len())));
    }
}

#[test]
fn more_bytes_do_not_change_a_verdict() {
    let tails: [&[u8]; 4] = [b"", b"\r\n", b"+next\r\n", b"?"];
    for frame in sample_frames() {
        let bytes = frame.clone().encode();
        for tail in tails {
            let mut longer = bytes.clone();
            longer.extend_from_slice(tail);
            assert_eq!(RespFrame::decode_slice(&longer), Ok((frame.clone(), bytes.len())));
        }
    }
    for bytes in [
        &b"?"[..],
        b"+a\nb",
        b":12a\r\n",
        b"$3\r\nabcde",
        b"*2\r\n:1\r\n$x\r\n",
        b"%1\r\n:1\r\n",
        b",1.\r\n",
    ] {
        assert_eq!(RespFrame::decode_slice(bytes), Err(RespError::InvalidFrame), "{:?}", bytes);
        for tail in tails {
            let mut longer = bytes.to_vec();
            longer.extend_from_slice(tail);
            assert_eq!(RespFrame::decode_slice(&longer), Err(RespError::InvalidFrame));
        }
    }
}
