use scanmem::value::{
    parse_bytearray, parse_int, parse_signed_magnitude, parse_string, ByteOrWildcard, MatchFlags,
    NumberValue, UserValue, Value, ValueParseError,
};

#[test]
fn parse_int_decimal_sets_every_width_it_fits() {
    let value = parse_int("123").unwrap();
    assert_eq!(value.u8, Some(123));
    assert_eq!(value.i8, Some(123));
    assert_eq!(value.u64, Some(123));
    assert_eq!(value.i64, Some(123));
    assert!(value.flags().contains(MatchFlags::integer()));
    assert!(!value.flags().intersects(MatchFlags::float()));
}

#[test]
fn parse_int_hex_prefix() {
    let value = parse_int("0xFF").unwrap();
    assert_eq!(value.u8, Some(0xFF));
    assert_eq!(value.i8, None);
    assert_eq!(value.u16, Some(0xFF));
}

#[test]
fn parse_int_negative_sets_only_signed_widths() {
    let value = parse_int("-5").unwrap();
    assert_eq!(value.i8, Some(-5));
    assert_eq!(value.i64, Some(-5));
    assert_eq!(value.u8, None);
    assert_eq!(value.u64, None);
}

#[test]
fn parse_int_rejects_malformed_input() {
    assert_eq!(parse_int("abc"), Err(ValueParseError::InvalidInt("abc".to_owned())));
    assert_eq!(parse_int(""), Err(ValueParseError::InvalidInt(String::new())));
    assert_eq!(parse_int("12.5"), Err(ValueParseError::InvalidInt("12.5".to_owned())));
}

#[test]
fn parse_int_rejects_values_out_of_every_width() {
    let input = "18446744073709551616";
    assert_eq!(parse_int(input), Err(ValueParseError::IntOutOfRange(input.to_owned())));
}

#[test]
fn parse_int_extremes_fill_exactly_the_widths_they_fit() {
    let max = parse_int("18446744073709551615").unwrap();
    assert_eq!(max.u64, Some(u64::MAX));
    assert_eq!(max.i64, None);
    assert_eq!(max.u32, None);
    let min = parse_int("-9223372036854775808").unwrap();
    assert_eq!(min.i64, Some(i64::MIN));
    assert_eq!(min.i32, None);
    assert_eq!(min.u64, None);
    let below = "-9223372036854775809";
    assert_eq!(parse_int(below), Err(ValueParseError::IntOutOfRange(below.to_owned())));
    let zero = parse_int(" 0 ").unwrap();
    assert_eq!(zero.u8, Some(0));
    assert_eq!(zero.i8, Some(0));
    assert_eq!(zero.f32_bits, None);
    assert_eq!(zero.f64_bits, None);
}

#[test]
fn parse_signed_magnitude_splits_sign_and_radix() {
    assert_eq!(parse_signed_magnitude("-0x10"), Some((true, 16)));
    assert_eq!(parse_signed_magnitude("+7"), Some((false, 7)));
    assert_eq!(parse_signed_magnitude("0X1f"), Some((false, 31)));
    assert_eq!(parse_signed_magnitude("0x"), None);
    assert_eq!(parse_signed_magnitude("1 2"), None);
    assert_eq!(parse_signed_magnitude("++7"), Some((false, 7)));
}

#[test]
fn parse_bytearray_fixed_and_wildcard() {
    let pattern = parse_bytearray(&["de", "??", "EF"]).unwrap();
    assert_eq!(
        pattern,
        vec![
            ByteOrWildcard::Fixed(0xde),
            ByteOrWildcard::Wildcard,
            ByteOrWildcard::Fixed(0xef),
        ]
    );
}

#[test]
fn parse_bytearray_rejects_bad_tokens() {
    assert_eq!(parse_bytearray(&["zz"]), Err(ValueParseError::InvalidByte("zz".to_owned())));
    assert_eq!(parse_bytearray(&["a"]), Err(ValueParseError::InvalidByte("a".to_owned())));
}

#[test]
fn parse_bytearray_takes_only_two_hex_digits() {
    assert_eq!(parse_bytearray(&["+f"]), Err(ValueParseError::InvalidByte("+f".to_owned())));
    assert_eq!(parse_bytearray(&["0a", "Ff"]).unwrap(), vec![ByteOrWildcard::Fixed(0x0a), ByteOrWildcard::Fixed(0xff)]);
}

#[test]
fn parse_bytearray_rejects_empty_pattern() {
    assert_eq!(parse_bytearray(&[]), Err(ValueParseError::EmptyByteArray));
}

#[test]
fn parse_bytearray_reports_the_first_bad_token() {
    assert_eq!(
        parse_bytearray(&["00", "x1", "?"]),
        Err(ValueParseError::InvalidByte("x1".to_owned()))
    );
}

#[test]
fn parse_string_never_fails() {
    assert_eq!(parse_string("hello"), UserValue::Str("hello".to_owned()));
}

#[test]
fn value_flag_matches_its_own_width() {
    assert_eq!(Value::U8(1).flag(), MatchFlags::u8());
    assert_eq!(Value::I64(-1).flag(), MatchFlags::s64());
    assert_eq!(Value::Bytes(vec![1, 2]).flag(), MatchFlags::empty());
}

#[test]
fn value_display_round_trips_through_the_underlying_type() {
    let cases: &[(Value, &str)] = &[
        (Value::U8(42), "42"),
        (Value::I8(-1), "-1"),
        (Value::Str("hi".to_owned()), "hi"),
        (Value::Bytes(vec![0xde, 0xad]), "de ad"),
    ];
    for (value, expected) in cases {
        assert_eq!(value.display_text().as_deref(), Some(*expected));
    }
    // A float value holds its bit pattern; its decimal text is formatted by the caller.
    let float = Value::F64(3.5f64.to_bits());
    assert_eq!(float.display_text(), None);
    match float {
        Value::F64(bits) => assert_eq!(f64::from_bits(bits).to_string(), "3.5"),
        _ => unreachable!(),
    }
}

#[test]
fn match_flags_aggregate_bit_layout() {
    assert_eq!(MatchFlags::i8(), MatchFlags::u8() | MatchFlags::s8());
    assert_eq!(
        MatchFlags::integer(),
        MatchFlags::i8() | MatchFlags::i16() | MatchFlags::i32() | MatchFlags::i64()
    );
    assert_eq!(MatchFlags::all(), MatchFlags::integer() | MatchFlags::float());
}

#[test]
fn number_value_flags_follow_its_populated_widths() {
    let mut n = NumberValue::none();
    assert!(n.flags().is_empty());
    n.u16 = Some(7);
    n.f64_bits = Some(0);
    assert_eq!(n.flags(), MatchFlags::u16() | MatchFlags::float64());
}

#[test]
fn value_error_messages_quote_the_input() {
    assert_eq!(
        ValueParseError::InvalidInt("abc".to_owned()).message(),
        "\"abc\" is not a valid integer"
    );
    assert_eq!(
        ValueParseError::IntOutOfRange("99".to_owned()).message(),
        "\"99\" does not fit any supported integer width"
    );
    assert_eq!(
        ValueParseError::InvalidByte("zz".to_owned()).message(),
        "byte pattern entry \"zz\" is not two hex digits or `??`"
    );
    assert_eq!(
        ValueParseError::EmptyByteArray.message(),
        "byte pattern must have at least one entry"
    );
}

#[test]
fn duplicate_copies_every_kind_of_value() {
    let v = Value::Bytes(vec![1, 2, 3]);
    assert_eq!(v.duplicate(), v);
    let s = Value::Str("x".to_owned());
    assert_eq!(s.duplicate(), s);
    assert_eq!(Value::I16(-3).duplicate(), Value::I16(-3));
}
