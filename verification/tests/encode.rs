use simple_redis::{
    BulkString, RespArray, RespDouble, RespEncode, RespFrame, RespMap, RespNull, RespNullArray,
    RespNullBulkString, RespSet, SimpleError, SimpleString,
};

/// The sign, the significant digits and the decimal exponent of a value.
fn decimal_parts(value: f64) -> (bool, Vec<u8>, i32) {
    let text = format!("{:e}", value.abs());
    let (mantissa, exponent) = text.split_once('e').unwrap();
    let digits: Vec<u8> = mantissa.bytes().filter(u8::is_ascii_digit).collect();
    (value.is_sign_negative(), digits, exponent.parse().unwrap())
}

fn double(value: f64) -> RespFrame {
    let (negative, digits, exponent) = decimal_parts(value);
    RespDouble::from_decimal(negative, &digits, exponent).unwrap().into()
}

#[test]
fn test_simple_string_encode() {
    let frame: RespFrame = SimpleString::new("OK".to_string()).into();
    assert_eq!(frame.encode(), b"+OK\r\n");
}

#[test]
fn test_error_encode() {
    let frame: RespFrame = SimpleError::new("ERROR message".to_string()).into();
    assert_eq!(frame.encode(), b"-ERROR message\r\n");
}

#[test]
fn test_bulk_string_encode() {
    let frame: RespFrame = BulkString::new(b"hello".to_vec()).into();
    assert_eq!(frame.encode(), b"$5\r\nhello\r\n");
}

#[test]
fn test_null_bulk_string_encode() {
    let frame: RespFrame = RespNullBulkString.into();
    assert_eq!(frame.encode(), b"$-1\r\n");
}

#[test]
fn test_array_encode() {
    let frame: RespFrame = RespArray::new(vec![
        BulkString::new("OK".to_string()).into(),
        BulkString::new(b"hello".to_vec()).into(),
        123.into(),
    ])
    .into();
    assert_eq!(
        String::from_utf8_lossy(&frame.encode()),
        "*3\r\n$2\r\nOK\r\n$5\r\nhello\r\n:+123\r\n"
    );
}

#[test]
fn test_null_array_encode() {
    let frame: RespFrame = RespNullArray.into();
    assert_eq!(frame.encode(), b"*-1\r\n");
}

#[test]
fn test_null_encode() {
    let frame: RespFrame = RespNull.into();
    assert_eq!(frame.encode(), b"_\r\n");
}

#[test]
fn test_boolean_encode() {
    let frame: RespFrame = true.into();
    assert_eq!(frame.encode(), b"#t\r\n");

    let frame: RespFrame = false.into();
    assert_eq!(frame.encode(), b"#f\r\n");
}

#[test]
fn test_integer_encode() {
    let frame: RespFrame = 123.into();
    assert_eq!(frame.encode(), b":+123\r\n");

    let frame: RespFrame = (-123).into();
    assert_eq!(frame.encode(), b":-123\r\n");
}

#[test]
fn test_double_encode() {
    let frame: RespFrame = double(3.15);
    assert_eq!(frame.encode(), b",+3.15\r\n");

    let frame: RespFrame = double(-3.15);
    assert_eq!(frame.encode(), b",-3.15\r\n");

    let frame: RespFrame = double(1.23456e+8);
    assert_eq!(String::from_utf8_lossy(&frame.encode()), ",+1.23456e8\r\n");

    let frame: RespFrame = double(1.23456e+8);
    assert_eq!(frame.encode(), b",+1.23456e8\r\n");

    let frame: RespFrame = double(-1.23456e-9);
    assert_eq!(String::from_utf8_lossy(&frame.encode()), ",-1.23456e-9\r\n");

    let frame: RespFrame = double(-1.23456e-9);
    assert_eq!(frame.encode(), b",-1.23456e-9\r\n");
}

#[test]
fn test_map_encode() {
    let mut map = RespMap::new();
    map.insert(
        "hello".to_string(),
        BulkString::new("world".to_string()).into(),
    );
    map.insert("foo".to_string(), double(-123.456));

    let frame: RespFrame = map.into();
    assert_eq!(
        String::from_utf8_lossy(&frame.encode()),
        "%2\r\n+foo\r\n,-123.456\r\n+hello\r\n$5\r\nworld\r\n"
    );

    let mut map = RespMap::new();
    map.insert(
        "hello".to_string(),
        BulkString::new("world".to_string()).into(),
    );
    map.insert("foo".to_string(), double(-123.456));

    let frame: RespFrame = map.into();
    assert_eq!(
        frame.encode(),
        b"%2\r\n+foo\r\n,-123.456\r\n+hello\r\n$5\r\nworld\r\n"
    )
}

#[test]
fn test_set_encode() {
    let frame: RespFrame = RespSet::new(vec![
        RespArray::new(vec![1234.into(), true.into()]).into(),
        BulkString::new(b"OK".to_vec()).into(),
    ])
    .into();
    assert_eq!(
        String::from_utf8_lossy(&frame.encode()),
        "~2\r\n*2\r\n:+1234\r\n#t\r\n$2\r\nOK\r\n"
    );

    let frame: RespFrame = RespSet::new(vec![
        RespArray::new(vec![1234.into(), true.into()]).into(),
        BulkString::new(b"OK".to_vec()).into(),
    ])
    .into();
    assert_eq!(frame.encode(), b"~2\r\n*2\r\n:+1234\r\n#t\r\n$2\r\nOK\r\n");
}

#[test]
fn doubles_take_an_exponent_from_1e8_on_and_below_1e_8() {
    let text = |negative: bool, digits: &str, exponent: i32| {
        RespDouble::from_decimal(negative, digits.as_bytes(), exponent).map(|d| d.encode())
    };
    assert_eq!(text(false, "1", 7), Some(b",+10000000\r\n".to_vec()));
    assert_eq!(text(false, "99999999", 7), Some(b",+99999999\r\n".to_vec()));
    assert_eq!(text(false, "1", 8), Some(b",+1e8\r\n".to_vec()));
    assert_eq!(text(true, "25", 10), Some(b",-2.5e10\r\n".to_vec()));
    assert_eq!(text(false, "1", 308), Some(b",+1e308\r\n".to_vec()));
    assert_eq!(text(false, "1", -8), Some(b",+0.00000001\r\n".to_vec()));
    assert_eq!(text(false, "1", -9), Some(b",+1e-9\r\n".to_vec()));
    assert_eq!(text(true, "999", -9), Some(b",-9.99e-9\r\n".to_vec()));
    assert_eq!(text(false, "5", -324), Some(b",+5e-324\r\n".to_vec()));
}

#[test]
fn doubles_without_exponent_have_the_dot_in_place() {
    let text = |negative: bool, digits: &str, exponent: i32| {
        RespDouble::from_decimal(negative, digits.as_bytes(), exponent).map(|d| d.encode())
    };
    assert_eq!(text(false, "0", 0), Some(b",+0\r\n".to_vec()));
    assert_eq!(text(true, "0", 0), Some(b",-0\r\n".to_vec()));
    assert_eq!(text(false, "0", 12), Some(b",+0\r\n".to_vec()));
    assert_eq!(text(false, "1", 0), Some(b",+1\r\n".to_vec()));
    assert_eq!(text(false, "12", 0), Some(b",+1.2\r\n".to_vec()));
    assert_eq!(text(false, "12", 1), Some(b",+12\r\n".to_vec()));
    assert_eq!(text(false, "12", 3), Some(b",+1200\r\n".to_vec()));
    assert_eq!(text(true, "12", -1), Some(b",-0.12\r\n".to_vec()));
    assert_eq!(text(false, "12", -3), Some(b",+0.0012\r\n".to_vec()));
    assert_eq!(text(true, "123456", 2), Some(b",-123.456\r\n".to_vec()));
    assert_eq!(text(false, "1000", 3), Some(b",+1000\r\n".to_vec()));
    assert_eq!(text(false, "1500", 0), Some(b",+1.500\r\n".to_vec()));
}

#[test]
fn doubles_need_significant_digits() {
    assert_eq!(RespDouble::from_decimal(false, b"", 0), None);
    assert_eq!(RespDouble::from_decimal(false, b"01", 0), None);
    assert_eq!(RespDouble::from_decimal(false, b"00", 0), None);
    assert_eq!(RespDouble::from_decimal(false, b"1a", 0), None);
    assert_eq!(RespDouble::from_decimal(false, b"-1", 0), None);
    assert_eq!(RespDouble::from_decimal(false, b"1.5", 0), None);
}

#[test]
fn rendered_doubles_are_valid_and_read_back() {
    for value in [0.0, -0.0, 1.0, 3.15, -3.15, 1.23456e8, -1.23456e-9, 1e-8, 99999999.0, 1e100, f64::MAX, f64::MIN_POSITIVE, 5e-324, 0.1, 123456789.125] {
        let frame = double(value);
        assert!(frame.is_valid(), "{:?}", frame);
        let bytes = frame.clone().encode();
        assert_eq!(RespFrame::decode_slice(&bytes), Ok((frame, bytes.len())));
        let text = String::from_utf8(bytes[1..bytes.len() - 2].to_vec()).unwrap();
        assert_eq!(text.parse::<f64>().unwrap().to_bits(), value.to_bits(), "{}", text);
    }
}
