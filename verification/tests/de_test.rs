use redbin::from_bytes;
use redbin::to_bytes;
use redbin::Deserializer;
use redbin::Error;
use redbin::IntWidth;
use redbin::Value;

fn s(t: &str) -> Value {
    Value::Str(t.chars().collect())
}

#[test]
fn de_test_seq() {
    let j: &[u8] = &[
        0x52, 0x45, 0x44, 0x42, 0x49, 0x4E, 0x02, 0x00, 0x01, 0x00, 0x00, 0x00, 0xAC, 0x00, 0x00,
        0x00, 0x05, 0x00, 0x00, 0x00, 0x00, 0x00, 0x00, 0x00, 0x0C, 0x00, 0x00, 0x00, 0x0B, 0x00,
        0x00, 0x00, 0xFE, 0xFF, 0xFF, 0xFF, 0x0B, 0x00, 0x00, 0x00, 0x2B, 0x01, 0x00, 0x00, 0x0B,
        0x00, 0x00, 0x00, 0x6A, 0x04, 0x01, 0x00, 0x05, 0x00, 0x00, 0x00, 0x00, 0x00, 0x00, 0x00,
        0x02, 0x00, 0x00, 0x00, 0x0B, 0x00, 0x00, 0x00, 0x05, 0x00, 0x00, 0x00, 0x0B, 0x00, 0x00,
        0x00, 0x06, 0x00, 0x00, 0x00, 0x04, 0x00, 0x00, 0x00, 0x01, 0x00, 0x00, 0x00, 0x0C, 0x00,
        0x00, 0x00, 0xA3, 0xD7, 0xFD, 0x40, 0x91, 0xED, 0x7C, 0xBF, 0x00, 0x00, 0x00, 0x00, 0x0C,
        0x00, 0x00, 0x00, 0x00, 0x00, 0x29, 0x40, 0x00, 0x00, 0x00, 0x00, 0x07, 0x01, 0x00, 0x00,
        0x00, 0x00, 0x00, 0x00, 0x02, 0x00, 0x00, 0x00, 0x61, 0x61, 0x00, 0x00, 0x07, 0x02, 0x00,
        0x00, 0x00, 0x00, 0x00, 0x00, 0x01, 0x00, 0x00, 0x00, 0x05, 0x01, 0x00, 0x00, 0x07, 0x04,
        0x00, 0x00, 0x00, 0x00, 0x00, 0x00, 0x01, 0x00, 0x00, 0x00, 0x96, 0xF4, 0x01, 0x00, 0x0A,
        0x00, 0x00, 0x00, 0x61, 0x00, 0x00, 0x00, 0x29, 0x01, 0x00, 0x00, 0x00, 0x00, 0x00, 0x00,
        0x02, 0x00, 0x00, 0x00, 0xCA, 0xFE, 0x00, 0x00,
    ];
    let expected = Value::Block(vec![
        Value::Integer(-2),
        Value::Integer(299),
        Value::Integer(66666),
        Value::Block(vec![Value::Integer(5), Value::Integer(6)]),
        Value::Logic(true),
        Value::Float(122234.23425f64.to_bits()),
        Value::Float((12.5f32 as f64).to_bits()),
        s("aa"),
        s("\u{105}"),
        s("\u{1F496}"),
        Value::Char('a'),
        Value::Binary(vec![0xCA, 0xFE]),
    ]);
    assert_eq!(expected, from_bytes(j).unwrap());

    // the same vector walked with the typed parsers, as a host type with
    // narrow integer fields would drive them
    let mut de = Deserializer::from_bytes(j);
    assert!(de.parse_header().is_ok());
    assert_eq!(de.parse_block_header(), Ok(12));
    assert_eq!(de.parse_i8(), Ok(-2i8));
    assert_eq!(de.parse_i16(), Ok(299i16));
    assert_eq!(de.parse_u32(), Ok(66666u32));
    assert_eq!(de.parse_block_header(), Ok(2));
    assert_eq!(de.parse_i16(), Ok(5i16));
    assert_eq!(de.parse_i16(), Ok(6i16));
    assert_eq!(de.parse_logic(), Ok(true));
    assert_eq!(de.parse_float(), Ok(122234.23425f64.to_bits()));
    assert_eq!(de.parse_float(), Ok((12.5f32 as f64).to_bits()));
    assert_eq!(de.parse_string(), Ok("aa".chars().collect()));
    assert_eq!(de.parse_string(), Ok("\u{105}".chars().collect()));
    assert_eq!(de.parse_string(), Ok("\u{1F496}".chars().collect()));
    assert_eq!(de.parse_char(), Ok('a'));
    assert_eq!(de.parse_binary(), Ok(vec![0xCA, 0xFE]));
    assert_eq!(de.remaining_len(), 0);

    // an unsigned 64-bit value rides in an eight-byte binary blob
    let j: &[u8] = &[
        0x52, 0x45, 0x44, 0x42, 0x49, 0x4E, 0x02, 0x00, 0x01, 0x00, 0x00, 0x00, 0x28, 0x00, 0x00,
        0x00, 0x05, 0x00, 0x00, 0x00, 0x00, 0x00, 0x00, 0x00, 0x02, 0x00, 0x00, 0x00, 0x0B, 0x00,
        0x00, 0x00, 0x6A, 0x04, 0x01, 0x00, 0x29, 0x01, 0x00, 0x00, 0x00, 0x00, 0x00, 0x00, 0x08,
        0x00, 0x00, 0x00, 0xFE, 0xFF, 0xFF, 0xFF, 0xFF, 0xFF, 0xFF, 0xFF,
    ];
    let mut de = Deserializer::from_bytes(j);
    assert!(de.parse_header().is_ok());
    assert_eq!(de.parse_block_header(), Ok(2));
    assert_eq!(de.parse_u32(), Ok(66666u32));
    assert_eq!(de.parse_u64(), Ok(18_446_744_073_709_551_614u64));
    assert_eq!(de.remaining_len(), 0);

    // the unit type, unit structs and None all decode from the sentinel
    assert_eq!(
        Value::NoneVal,
        from_bytes(&[
            0x52, 0x45, 0x44, 0x42, 0x49, 0x4E, 0x02, 0x00, 0x01, 0x00, 0x00, 0x00, 0x04, 0x00,
            0x00, 0x00, 0x03, 0x00, 0x00, 0x00
        ])
        .unwrap()
    );

    // Some(123) is the value alone
    assert_eq!(
        Value::Integer(123),
        from_bytes(&[
            0x52, 0x45, 0x44, 0x42, 0x49, 0x4E, 0x02, 0x00, 0x01, 0x00, 0x00, 0x00, 0x08, 0x00,
            0x00, 0x00, 0x0B, 0x00, 0x00, 0x00, 0x7B, 0x00, 0x00, 0x00
        ])
        .unwrap()
    );

    // a newtype integer
    assert_eq!(
        Value::Integer(15),
        from_bytes(&[
            0x52, 0x45, 0x44, 0x42, 0x49, 0x4E, 0x02, 0x00, 0x01, 0x00, 0x00, 0x00, 0x08, 0x00,
            0x00, 0x00, 0x0B, 0x00, 0x00, 0x00, 0x0F, 0x00, 0x00, 0x00
        ])
        .unwrap()
    );

    // a tuple struct of three bytes, walked with the narrow parser
    let color: &[u8] = &[
        0x52, 0x45, 0x44, 0x42, 0x49, 0x4E, 0x02, 0x00, 0x01, 0x00, 0x00, 0x00, 0x24, 0x00, 0x00,
        0x00, 0x05, 0x00, 0x00, 0x00, 0x00, 0x00, 0x00, 0x00, 0x03, 0x00, 0x00, 0x00, 0x0B, 0x00,
        0x00, 0x00, 0xFF, 0x00, 0x00, 0x00, 0x0B, 0x00, 0x00, 0x00, 0x00, 0x00, 0x00, 0x00, 0x0B,
        0x00, 0x00, 0x00, 0x00, 0x00, 0x00, 0x00,
    ];
    assert_eq!(
        Value::Block(vec![
            Value::Integer(255),
            Value::Integer(0),
            Value::Integer(0)
        ]),
        from_bytes(color).unwrap()
    );
    let mut de = Deserializer::from_bytes(color);
    assert!(de.parse_header().is_ok());
    assert_eq!(de.parse_block_header(), Ok(3));
    assert_eq!(de.parse_u8(), Ok(255u8));
    assert_eq!(de.parse_u8(), Ok(0u8));
    assert_eq!(de.parse_u8(), Ok(0u8));

    // a map: keys carry trailing head-position padding in this producer's
    // output, which the defensive alignment skip swallows
    assert_eq!(
        Value::Block(vec![
            s("a"),
            Value::Float(12.5f64.to_bits()),
            s("b"),
            Value::Float(100.1f64.to_bits()),
        ]),
        from_bytes(&[
            0x52, 0x45, 0x44, 0x42, 0x49, 0x4E, 0x02, 0x00, 0x01, 0x00, 0x00, 0x00, 0x4C, 0x00,
            0x00, 0x00, 0x05, 0x00, 0x00, 0x00, 0x00, 0x00, 0x00, 0x00, 0x04, 0x00, 0x00, 0x00,
            0x07, 0x01, 0x00, 0x00, 0x00, 0x00, 0x00, 0x00, 0x01, 0x00, 0x00, 0x00, 0x61, 0x00,
            0x00, 0x00, 0x00, 0x00, 0x00, 0x00, 0x0C, 0x00, 0x00, 0x00, 0x00, 0x00, 0x29, 0x40,
            0x00, 0x00, 0x00, 0x00, 0x07, 0x01, 0x00, 0x00, 0x00, 0x00, 0x00, 0x00, 0x01, 0x00,
            0x00, 0x00, 0x62, 0x00, 0x00, 0x00, 0x00, 0x00, 0x00, 0x00, 0x0C, 0x00, 0x00, 0x00,
            0x66, 0x06, 0x59, 0x40, 0x66, 0x66, 0x66, 0x66
        ])
        .unwrap()
    );

    // a record with a float and a string field
    assert_eq!(
        Value::Block(vec![
            s("a"),
            Value::Float(12.5f64.to_bits()),
            s("b"),
            s("sdf"),
        ]),
        from_bytes(&[
            0x52, 0x45, 0x44, 0x42, 0x49, 0x4E, 0x02, 0x00, 0x01, 0x00, 0x00, 0x00, 0x50, 0x00,
            0x00, 0x00, 0x05, 0x00, 0x00, 0x00, 0x00, 0x00, 0x00, 0x00, 0x04, 0x00, 0x00, 0x00,
            0x07, 0x01, 0x00, 0x00, 0x00, 0x00, 0x00, 0x00, 0x01, 0x00, 0x00, 0x00, 0x61, 0x00,
            0x00, 0x00, 0x00, 0x00, 0x00, 0x00, 0x0C, 0x00, 0x00, 0x00, 0x00, 0x00, 0x29, 0x40,
            0x00, 0x00, 0x00, 0x00, 0x07, 0x01, 0x00, 0x00, 0x00, 0x00, 0x00, 0x00, 0x01, 0x00,
            0x00, 0x00, 0x62, 0x00, 0x00, 0x00, 0x00, 0x00, 0x00, 0x00, 0x07, 0x01, 0x00, 0x00,
            0x00, 0x00, 0x00, 0x00, 0x03, 0x00, 0x00, 0x00, 0x73, 0x64, 0x66, 0x00
        ])
        .unwrap()
    );

    // the four tagged-union shapes
    assert_eq!(
        Value::Block(vec![
            Value::Paren(vec![s("Unit")]),
            Value::Paren(vec![s("Newtype"), Value::Integer(1)]),
            Value::Paren(vec![
                s("Tuple"),
                Value::Block(vec![Value::Integer(1), Value::Integer(2)]),
            ]),
            Value::Paren(vec![
                s("Struct"),
                Value::Block(vec![s("a"), Value::Integer(1)]),
            ]),
        ]),
        from_bytes(&[
            0x52, 0x45, 0x44, 0x42, 0x49, 0x4E, 0x02, 0x00, 0x01, 0x00, 0x00, 0x00, 0xD0, 0x00,
            0x00, 0x00, 0x05, 0x00, 0x00, 0x00, 0x00, 0x00, 0x00, 0x00, 0x04, 0x00, 0x00, 0x00,
            0x06, 0x00, 0x00, 0x00, 0x00, 0x00, 0x00, 0x00, 0x01, 0x00, 0x00, 0x00, 0x07, 0x01,
            0x00, 0x00, 0x00, 0x00, 0x00, 0x00, 0x04, 0x00, 0x00, 0x00, 0x55, 0x6E, 0x69, 0x74,
            0x06, 0x00, 0x00, 0x00, 0x00, 0x00, 0x00, 0x00, 0x02, 0x00, 0x00, 0x00, 0x07, 0x01,
            0x00, 0x00, 0x00, 0x00, 0x00, 0x00, 0x07, 0x00, 0x00, 0x00, 0x4E, 0x65, 0x77, 0x74,
            0x79, 0x70, 0x65, 0x00, 0x0B, 0x00, 0x00, 0x00, 0x01, 0x00, 0x00, 0x00, 0x06, 0x00,
            0x00, 0x00, 0x00, 0x00, 0x00, 0x00, 0x02, 0x00, 0x00, 0x00, 0x07, 0x01, 0x00, 0x00,
            0x00, 0x00, 0x00, 0x00, 0x05, 0x00, 0x00, 0x00, 0x54, 0x75, 0x70, 0x6C, 0x65, 0x00,
            0x00, 0x00, 0x05, 0x00, 0x00, 0x00, 0x00, 0x00, 0x00, 0x00, 0x02, 0x00, 0x00, 0x00,
            0x0B, 0x00, 0x00, 0x00, 0x01, 0x00, 0x00, 0x00, 0x0B, 0x00, 0x00, 0x00, 0x02, 0x00,
            0x00, 0x00, 0x06, 0x00, 0x00, 0x00, 0x00, 0x00, 0x00, 0x00, 0x02, 0x00, 0x00, 0x00,
            0x07, 0x01, 0x00, 0x00, 0x00, 0x00, 0x00, 0x00, 0x06, 0x00, 0x00, 0x00, 0x53, 0x74,
            0x72, 0x75, 0x63, 0x74, 0x00, 0x00, 0x05, 0x00, 0x00, 0x00, 0x00, 0x00, 0x00, 0x00,
            0x02, 0x00, 0x00, 0x00, 0x07, 0x01, 0x00, 0x00, 0x00, 0x00, 0x00, 0x00, 0x01, 0x00,
            0x00, 0x00, 0x61, 0x00, 0x00, 0x00, 0x0B, 0x00, 0x00, 0x00, 0x01, 0x00, 0x00, 0x00
        ])
        .unwrap()
    );

    // a bare ASCII string
    assert_eq!(
        s("ab"),
        from_bytes(&[
            0x52, 0x45, 0x44, 0x42, 0x49, 0x4E, 0x02, 0x00, 0x01, 0x00, 0x00, 0x00, 0x10, 0x00,
            0x00, 0x00, 0x07, 0x01, 0x00, 0x00, 0x00, 0x00, 0x00, 0x00, 0x02, 0x00, 0x00, 0x00,
            0x61, 0x62, 0x00, 0x00
        ])
        .unwrap()
    );

    // a bare binary blob
    assert_eq!(
        Value::Binary(vec![0xCA, 0xFE]),
        from_bytes(&[
            0x52, 0x45, 0x44, 0x42, 0x49, 0x4E, 0x02, 0x00, 0x01, 0x00, 0x00, 0x00, 0x10, 0x00,
            0x00, 0x00, 0x29, 0x01, 0x00, 0x00, 0x00, 0x00, 0x00, 0x00, 0x02, 0x00, 0x00, 0x00,
            0xCA, 0xFE, 0x00, 0x00
        ])
        .unwrap()
    );

    // a one-character path decodes as the string it is on the wire
    assert_eq!(
        s("a"),
        from_bytes(&[
            0x52, 0x45, 0x44, 0x42, 0x49, 0x4E, 0x02, 0x00, 0x01, 0x00, 0x00, 0x00, 0x10, 0x00,
            0x00, 0x00, 0x07, 0x01, 0x00, 0x00, 0x00, 0x00, 0x00, 0x00, 0x01, 0x00, 0x00, 0x00,
            0x61, 0x00, 0x00, 0x00
        ])
        .unwrap()
    );
}

#[test]
fn round_trip_nested() {
    // a tuple containing a sequence containing every primitive kind
    let v = Value::Block(vec![
        Value::Paren(vec![
            s("Mixed"),
            Value::Block(vec![
                Value::Float(3.25f64.to_bits()),
                s("text"),
                s("\u{105}\u{1F496}"),
                Value::Logic(false),
                Value::Char('\u{105}'),
                Value::Binary(vec![0, 1, 2, 3, 4]),
                Value::NoneVal,
                Value::Block(vec![]),
            ]),
        ]),
        Value::Integer(i32::MIN),
        Value::Integer(i32::MAX),
    ]);
    let bytes = to_bytes(&v).unwrap();
    assert_eq!(v, from_bytes(&bytes).unwrap());
}

#[test]
fn option_sentinel() {
    // None encodes as the bare sentinel tag in a four-byte frame
    let bytes = to_bytes(&Value::NoneVal).unwrap();
    assert_eq!(&bytes[16..], &[0x03, 0x00, 0x00, 0x00]);
    let mut de = Deserializer::from_bytes(&bytes);
    assert!(de.parse_header().is_ok());
    assert_eq!(de.parse_option(), Ok(true));
    assert_eq!(de.remaining_len(), 0);

    // Some(123) encodes as the value directly, with no wrapper
    let bytes = to_bytes(&Value::Integer(123)).unwrap();
    let mut de = Deserializer::from_bytes(&bytes);
    assert!(de.parse_header().is_ok());
    assert_eq!(de.parse_option(), Ok(false));
    assert_eq!(de.parse_integer(), Ok(123));
    assert_eq!(de.remaining_len(), 0);
}

#[test]
fn uneven_map_fails() {
    // a block of three elements read as a map: rejected before any pair
    let payload: &[u8] = &[
        0x05, 0x00, 0x00, 0x00, 0x00, 0x00, 0x00, 0x00, 0x03, 0x00, 0x00, 0x00, 0x0B, 0x00, 0x00,
        0x00, 0x01, 0x00, 0x00, 0x00, 0x0B, 0x00, 0x00, 0x00, 0x02, 0x00, 0x00, 0x00, 0x0B, 0x00,
        0x00, 0x00, 0x03, 0x00, 0x00, 0x00,
    ];
    let mut de = Deserializer::from_bytes(payload);
    assert_eq!(de.parse_map_header(), Err(Error::UnevenMapLength));
}

#[test]
fn malformed_enum_arity_fails() {
    // a paren of three elements read as a tagged union
    let payload: &[u8] = &[
        0x06, 0x00, 0x00, 0x00, 0x00, 0x00, 0x00, 0x00, 0x03, 0x00, 0x00, 0x00,
    ];
    let mut de = Deserializer::from_bytes(payload);
    assert_eq!(de.parse_enum_header(), Err(Error::MalformedEnumArity));

    let payload: &[u8] = &[
        0x06, 0x00, 0x00, 0x00, 0x00, 0x00, 0x00, 0x00, 0x00, 0x00, 0x00, 0x00,
    ];
    let mut de = Deserializer::from_bytes(payload);
    assert_eq!(de.parse_enum_header(), Err(Error::MalformedEnumArity));

    let payload: &[u8] = &[
        0x06, 0x00, 0x00, 0x00, 0x00, 0x00, 0x00, 0x00, 0x02, 0x00, 0x00, 0x00,
    ];
    let mut de = Deserializer::from_bytes(payload);
    assert_eq!(de.parse_enum_header(), Ok(2));
}

#[test]
fn tag_mismatches_name_the_expected_kind() {
    let logic: &[u8] = &[0x04, 0x00, 0x00, 0x00, 0x01, 0x00, 0x00, 0x00];
    let integer: &[u8] = &[0x0B, 0x00, 0x00, 0x00, 0x37, 0x00, 0x00, 0x00];

    let mut de = Deserializer::from_bytes(logic);
    assert_eq!(de.parse_integer(), Err(Error::ExpectedInteger));
    let mut de = Deserializer::from_bytes(integer);
    assert_eq!(de.parse_logic(), Err(Error::ExpectedLogic));
    let mut de = Deserializer::from_bytes(integer);
    assert_eq!(de.parse_float(), Err(Error::ExpectedFloat));
    let mut de = Deserializer::from_bytes(integer);
    assert_eq!(de.parse_char(), Err(Error::ExpectedChar));
    let mut de = Deserializer::from_bytes(integer);
    assert_eq!(de.parse_string(), Err(Error::ExpectedString));
    let mut de = Deserializer::from_bytes(integer);
    assert_eq!(de.parse_binary(), Err(Error::ExpectedBinary));
    let mut de = Deserializer::from_bytes(integer);
    assert_eq!(de.parse_block_header(), Err(Error::ExpectedBlock));
    let mut de = Deserializer::from_bytes(integer);
    assert_eq!(de.parse_paren_header(), Err(Error::ExpectedParen));
    let mut de = Deserializer::from_bytes(integer);
    assert_eq!(de.parse_none(), Err(Error::ExpectedNone));
}

#[test]
fn narrow_integers_range_check_on_decode() {
    // 299 does not fit an i8 or a u8
    let won: &[u8] = &[0x0B, 0x00, 0x00, 0x00, 0x2B, 0x01, 0x00, 0x00];
    let mut de = Deserializer::from_bytes(won);
    assert_eq!(de.parse_i8(), Err(Error::WidthExceeded(IntWidth::I8)));
    let mut de = Deserializer::from_bytes(won);
    assert_eq!(de.parse_u8(), Err(Error::WidthExceeded(IntWidth::U8)));
    let mut de = Deserializer::from_bytes(won);
    assert_eq!(de.parse_i16(), Ok(299i16));

    // -1 fits no unsigned width
    let neg: &[u8] = &[0x0B, 0x00, 0x00, 0x00, 0xFF, 0xFF, 0xFF, 0xFF];
    let mut de = Deserializer::from_bytes(neg);
    assert_eq!(de.parse_u16(), Err(Error::WidthExceeded(IntWidth::U16)));
    let mut de = Deserializer::from_bytes(neg);
    assert_eq!(de.parse_u32(), Err(Error::WidthExceeded(IntWidth::U32)));
    let mut de = Deserializer::from_bytes(neg);
    assert_eq!(de.parse_i64(), Ok(-1i64));

    // a u64 blob must span exactly eight bytes
    let short: &[u8] = &[
        0x29, 0x01, 0x00, 0x00, 0x00, 0x00, 0x00, 0x00, 0x02, 0x00, 0x00, 0x00, 0xCA, 0xFE, 0x00,
        0x00,
    ];
    let mut de = Deserializer::from_bytes(short);
    assert_eq!(de.parse_u64(), Err(Error::WidthExceeded(IntWidth::U64)));
}

#[test]
fn structural_errors() {
    // trailing bytes after the single top-level value
    assert_eq!(
        from_bytes(&[
            0x52, 0x45, 0x44, 0x42, 0x49, 0x4E, 0x02, 0x00, 0x01, 0x00, 0x00, 0x00, 0x08, 0x00,
            0x00, 0x00, 0x0B, 0x00, 0x00, 0x00, 0x7B, 0x00, 0x00, 0x00, 0x0B, 0x00, 0x00, 0x00,
            0x7B, 0x00, 0x00, 0x00
        ]),
        Err(Error::TrailingBytes)
    );

    // a truncated integer
    assert_eq!(
        from_bytes(&[
            0x52, 0x45, 0x44, 0x42, 0x49, 0x4E, 0x02, 0x00, 0x01, 0x00, 0x00, 0x00, 0x08, 0x00,
            0x00, 0x00, 0x0B, 0x00, 0x00, 0x00, 0x7B
        ]),
        Err(Error::Truncated)
    );

    // a block that promises more elements than its bytes hold
    assert_eq!(
        from_bytes(&[
            0x52, 0x45, 0x44, 0x42, 0x49, 0x4E, 0x02, 0x00, 0x01, 0x00, 0x00, 0x00, 0x14, 0x00,
            0x00, 0x00, 0x05, 0x00, 0x00, 0x00, 0x00, 0x00, 0x00, 0x00, 0x02, 0x00, 0x00, 0x00,
            0x0B, 0x00, 0x00, 0x00, 0x01, 0x00, 0x00, 0x00
        ]),
        Err(Error::Truncated)
    );

    // an empty input
    assert_eq!(from_bytes(&[]), Err(Error::Truncated));

    // an unknown tag byte
    assert_eq!(
        from_bytes(&[
            0x52, 0x45, 0x44, 0x42, 0x49, 0x4E, 0x02, 0x00, 0x01, 0x00, 0x00, 0x00, 0x04, 0x00,
            0x00, 0x00, 0xFF, 0x00, 0x00, 0x00
        ]),
        Err(Error::UnsupportedTag)
    );
}

#[test]
fn envelope_errors() {
    // wrong magic
    assert_eq!(
        from_bytes(&[
            0x52, 0x45, 0x44, 0x42, 0x49, 0x4F, 0x02, 0x00, 0x01, 0x00, 0x00, 0x00, 0x04, 0x00,
            0x00, 0x00, 0x03, 0x00, 0x00, 0x00
        ]),
        Err(Error::BadMagic)
    );

    // wrong version
    assert_eq!(
        from_bytes(&[
            0x52, 0x45, 0x44, 0x42, 0x49, 0x4E, 0x03, 0x00, 0x01, 0x00, 0x00, 0x00, 0x04, 0x00,
            0x00, 0x00, 0x03, 0x00, 0x00, 0x00
        ]),
        Err(Error::UnsupportedVersion)
    );

    // a record count other than one
    assert_eq!(
        from_bytes(&[
            0x52, 0x45, 0x44, 0x42, 0x49, 0x4E, 0x02, 0x00, 0x02, 0x00, 0x00, 0x00, 0x04, 0x00,
            0x00, 0x00, 0x03, 0x00, 0x00, 0x00
        ]),
        Err(Error::UnsupportedRecordCount)
    );

    // the flags byte is unconstrained
    assert_eq!(
        from_bytes(&[
            0x52, 0x45, 0x44, 0x42, 0x49, 0x4E, 0x02, 0x7F, 0x01, 0x00, 0x00, 0x00, 0x04, 0x00,
            0x00, 0x00, 0x03, 0x00, 0x00, 0x00
        ]),
        Ok(Value::NoneVal)
    );
}

#[test]
fn reference_and_width_errors() {
    // the reference flag bit marks a shared-series view: unsupported
    let referenced: &[u8] = &[
        0x07, 0x01, 0x08, 0x00, 0x00, 0x00, 0x00, 0x00, 0x02, 0x00, 0x00, 0x00, 0x61, 0x62, 0x00,
        0x00,
    ];
    let mut de = Deserializer::from_bytes(referenced);
    assert_eq!(de.parse_string(), Err(Error::UnsupportedReference));

    // a unit width the format does not define for strings
    let unit3: &[u8] = &[
        0x07, 0x03, 0x00, 0x00, 0x00, 0x00, 0x00, 0x00, 0x00, 0x00, 0x00, 0x00,
    ];
    let mut de = Deserializer::from_bytes(unit3);
    assert_eq!(de.parse_string(), Err(Error::UnsupportedUnitWidth));

    // binary blobs only come in unit width 1
    let unit2: &[u8] = &[
        0x29, 0x02, 0x00, 0x00, 0x00, 0x00, 0x00, 0x00, 0x00, 0x00, 0x00, 0x00,
    ];
    let mut de = Deserializer::from_bytes(unit2);
    assert_eq!(de.parse_binary(), Err(Error::UnsupportedUnitWidth));
}

#[test]
fn transcoding_errors() {
    // an invalid UTF-8 payload under unit width 1
    let bad_utf8: &[u8] = &[
        0x07, 0x01, 0x00, 0x00, 0x00, 0x00, 0x00, 0x00, 0x02, 0x00, 0x00, 0x00, 0xC0, 0x41, 0x00,
        0x00,
    ];
    let mut de = Deserializer::from_bytes(bad_utf8);
    assert_eq!(de.parse_string(), Err(Error::TranscodingFailure));

    // a surrogate code unit under unit width 2
    let surrogate: &[u8] = &[
        0x07, 0x02, 0x00, 0x00, 0x00, 0x00, 0x00, 0x00, 0x01, 0x00, 0x00, 0x00, 0x00, 0xD8, 0x00,
        0x00,
    ];
    let mut de = Deserializer::from_bytes(surrogate);
    assert_eq!(de.parse_string(), Err(Error::TranscodingFailure));

    // a char whose code unit is not a Unicode scalar value
    let bad_char: &[u8] = &[0x0A, 0x00, 0x00, 0x00, 0x00, 0xD8, 0x00, 0x00];
    let mut de = Deserializer::from_bytes(bad_char);
    assert_eq!(de.parse_char(), Err(Error::TranscodingFailure));

    // a code unit beyond the Unicode range under unit width 4
    let too_big: &[u8] = &[
        0x07, 0x04, 0x00, 0x00, 0x00, 0x00, 0x00, 0x00, 0x01, 0x00, 0x00, 0x00, 0x00, 0x00, 0x11,
        0x00,
    ];
    let mut de = Deserializer::from_bytes(too_big);
    assert_eq!(de.parse_string(), Err(Error::TranscodingFailure));
}

#[test]
fn ucs2_text_decodes() {
    // UCS-2LE is consumed on decode though never produced on encode
    let ucs2: &[u8] = &[
        0x07, 0x02, 0x00, 0x00, 0x00, 0x00, 0x00, 0x00, 0x02, 0x00, 0x00, 0x00, 0x61, 0x00, 0x05,
        0x01,
    ];
    let mut de = Deserializer::from_bytes(ucs2);
    assert_eq!(de.parse_string(), Ok("a\u{105}".chars().collect()));
}

#[test]
fn head_position_is_inert_without_reference_flag() {
    // a nonzero head position with the reference flag clear is wire
    // compatibility baggage: the content is read where it stands
    let payload: &[u8] = &[
        0x07, 0x01, 0x00, 0x00, 0x04, 0x00, 0x00, 0x00, 0x02, 0x00, 0x00, 0x00, 0x61, 0x62, 0x00,
        0x00,
    ];
    let mut de = Deserializer::from_bytes(payload);
    assert_eq!(de.parse_string(), Ok("ab".chars().collect()));
}

#[test]
fn reserved_tag_word_bytes_must_be_zero_for_scalars() {
    // scalar and container tag words are compared whole, so a nonzero
    // reserved byte reads as a different kind
    let odd_block: &[u8] = &[
        0x05, 0x01, 0x00, 0x00, 0x00, 0x00, 0x00, 0x00, 0x00, 0x00, 0x00, 0x00,
    ];
    let mut de = Deserializer::from_bytes(odd_block);
    assert_eq!(de.parse_block_header(), Err(Error::ExpectedBlock));

    let odd_logic: &[u8] = &[0x04, 0x00, 0x01, 0x00, 0x01, 0x00, 0x00, 0x00];
    let mut de = Deserializer::from_bytes(odd_logic);
    assert_eq!(de.parse_logic(), Err(Error::ExpectedLogic));
}

#[test]
fn leading_zero_padding_is_skipped() {
    // a run of zero bytes before a tag is alignment padding and is skipped
    assert_eq!(
        Value::Integer(7),
        from_bytes(&[
            0x52, 0x45, 0x44, 0x42, 0x49, 0x4E, 0x02, 0x00, 0x01, 0x00, 0x00, 0x00, 0x0C, 0x00,
            0x00, 0x00, 0x00, 0x00, 0x00, 0x00, 0x0B, 0x00, 0x00, 0x00, 0x07, 0x00, 0x00, 0x00
        ])
        .unwrap()
    );
}

#[test]
fn empty_containers_round_trip() {
    let v = Value::Block(vec![]);
    let bytes = to_bytes(&v).unwrap();
    assert_eq!(
        &bytes[16..],
        &[0x05, 0x00, 0x00, 0x00, 0x00, 0x00, 0x00, 0x00, 0x00, 0x00, 0x00, 0x00]
    );
    assert_eq!(v, from_bytes(&bytes).unwrap());

    let v = Value::Str(vec![]);
    let bytes = to_bytes(&v).unwrap();
    assert_eq!(v, from_bytes(&bytes).unwrap());

    let v = Value::Binary(vec![]);
    let bytes = to_bytes(&v).unwrap();
    assert_eq!(v, from_bytes(&bytes).unwrap());
}
