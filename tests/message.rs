use lcm::error::{DecodeError, EncodeError};
use lcm::message::{decode_with_hash, encode_with_hash, Marshall};
use lcm::schema::{calculate_hash, combine_hash, Field, Ty};

fn temperature_hash() -> u64 {
    let fields = vec![
        Field { name: "utime".to_string(), base_type: Ty::Int64, dims: vec![] },
        Field { name: "degCelsius".to_string(), base_type: Ty::Double, dims: vec![] },
    ];
    combine_hash(calculate_hash(&fields), &vec![])
}

#[test]
fn decode_string() {
    let s: String = "Hello, world!".into();
    let mut buffer = Vec::new();
    s.encode(&mut buffer).unwrap();

    let (decoded, _) = <String as Marshall>::decode(&buffer, 0).unwrap();
    assert_eq!(decoded, "Hello, world!");
}

#[test]
fn decode_null_string() {
    let buffer: &[u8] = &[255, 0, 0, 0];
    let decoded = <String as Marshall>::decode(buffer, 0);
    assert!(decoded.is_err());
}

#[test]
fn string_wire_format() {
    let s: String = "abc".into();
    let mut buffer = Vec::new();
    s.encode(&mut buffer).unwrap();
    assert_eq!(buffer, vec![0, 0, 0, 4, b'a', b'b', b'c', 0]);
    assert_eq!(s.size(), buffer.len());
}

#[test]
fn string_with_non_positive_length_is_invalid_size() {
    let zero: &[u8] = &[0, 0, 0, 0, 0];
    assert_eq!(<String as Marshall>::decode(zero, 0).unwrap_err(), DecodeError::InvalidSize(0));
    let negative: &[u8] = &[0xff, 0xff, 0xff, 0xfe, 0];
    assert_eq!(
        <String as Marshall>::decode(negative, 0).unwrap_err(),
        DecodeError::InvalidSize(-2)
    );
}

#[test]
fn string_without_terminator() {
    let bytes: &[u8] = &[0, 0, 0, 3, b'h', b'i', b'!'];
    assert_eq!(
        <String as Marshall>::decode(bytes, 0).unwrap_err(),
        DecodeError::MissingNullTerminator
    );
}

#[test]
fn string_with_invalid_utf8() {
    let bytes: &[u8] = &[0, 0, 0, 2, 0xff, 0];
    assert_eq!(<String as Marshall>::decode(bytes, 0).unwrap_err(), DecodeError::Utf8Error);
}

#[test]
fn truncated_input_is_io_error() {
    let bytes: &[u8] = &[0, 0, 1];
    assert_eq!(<i32 as Marshall>::decode(bytes, 0).unwrap_err(), DecodeError::IoError);
    let bytes: &[u8] = &[0, 0, 0, 5, b'a'];
    assert_eq!(<String as Marshall>::decode(bytes, 0).unwrap_err(), DecodeError::IoError);
}

#[test]
fn boolean_values() {
    let mut buffer = Vec::new();
    true.encode(&mut buffer).unwrap();
    false.encode(&mut buffer).unwrap();
    assert_eq!(buffer, vec![1, 0]);
    assert_eq!(<bool as Marshall>::decode(&buffer, 0).unwrap(), (true, 1));
    assert_eq!(<bool as Marshall>::decode(&buffer, 1).unwrap(), (false, 2));
    let bad: &[u8] = &[2];
    assert_eq!(<bool as Marshall>::decode(bad, 0).unwrap_err(), DecodeError::InvalidBoolean(2));
    let bad: &[u8] = &[0xff];
    assert_eq!(<bool as Marshall>::decode(bad, 0).unwrap_err(), DecodeError::InvalidBoolean(-1));
}

#[test]
fn integers_are_big_endian() {
    let mut buffer = Vec::new();
    (-2i16).encode(&mut buffer).unwrap();
    0x0102_0304i32.encode(&mut buffer).unwrap();
    1_000_000i64.encode(&mut buffer).unwrap();
    (-1i8).encode(&mut buffer).unwrap();
    assert_eq!(
        buffer,
        vec![0xff, 0xfe, 1, 2, 3, 4, 0, 0, 0, 0, 0, 0x0f, 0x42, 0x40, 0xff]
    );
    assert_eq!(<i16 as Marshall>::decode(&buffer, 0).unwrap(), (-2, 2));
    assert_eq!(<i32 as Marshall>::decode(&buffer, 2).unwrap(), (0x0102_0304, 6));
    assert_eq!(<i64 as Marshall>::decode(&buffer, 6).unwrap(), (1_000_000, 14));
    assert_eq!(<i8 as Marshall>::decode(&buffer, 14).unwrap(), (-1, 15));
}

#[test]
fn round_trip_of_values() {
    let values: Vec<(i64, String)> =
        vec![(0, String::new()), (-5, "x".to_string()), (i64::MAX, "grüße".to_string())];
    for v in values {
        let mut buffer = Vec::new();
        v.encode(&mut buffer).unwrap();
        assert_eq!(buffer.len(), v.size());
        let (back, end) = <(i64, String) as Marshall>::decode(&buffer, 0).unwrap();
        assert_eq!(back, v);
        assert_eq!(end, buffer.len());
    }
}

#[test]
fn temperature_round_trip() {
    let m: (i64, u64) = (1_000_000, 23.5f64.to_bits());
    let hash = temperature_hash();
    assert_eq!(hash, 0xa07fa3d64cbea6ea);
    let bytes = encode_with_hash(hash, &m).unwrap();
    assert_eq!(
        bytes,
        vec![
            0xa0, 0x7f, 0xa3, 0xd6, 0x4c, 0xbe, 0xa6, 0xea, 0x00, 0x00, 0x00, 0x00, 0x00, 0x0f,
            0x42, 0x40, 0x40, 0x37, 0x80, 0x00, 0x00, 0x00, 0x00, 0x00,
        ]
    );
    let back: (i64, u64) = decode_with_hash(hash, &bytes).unwrap();
    assert_eq!(back.0, 1_000_000);
    assert_eq!(f64::from_bits(back.1), 23.5);
}

#[test]
fn hash_mismatch_is_reported() {
    let bytes = encode_with_hash(7, &5i32).unwrap();
    let r: Result<i32, DecodeError> = decode_with_hash(8, &bytes);
    assert_eq!(r.unwrap_err(), DecodeError::HashMismatch { expected: 8, found: 7 });
    let short: Result<i32, DecodeError> = decode_with_hash(7, &bytes[..5]);
    assert_eq!(short.unwrap_err(), DecodeError::IoError);
}

#[test]
fn size_mismatch_error_carries_field() {
    let e = EncodeError::SizeMismatch { size_var: "npoints".to_string(), expected: 3, found: 2 };
    match e {
        EncodeError::SizeMismatch { size_var, expected, found } => {
            assert_eq!(size_var, "npoints");
            assert_eq!(expected, 3);
            assert_eq!(found, 2);
        }
    }
}
