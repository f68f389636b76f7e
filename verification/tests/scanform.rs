use scanmem::scanform::{number_expr, parse_concrete_bytes, range_expr, scan_form, ScanForm};
use scanmem::scanroutines::{MatchType, ScanDataType};
use scanmem::session::{ScanCriterion, ScanExpr};
use scanmem::value::{parse_int, ByteOrWildcard, UserValue, ValueParseError};

#[test]
fn a_number_form_leaves_the_text_to_parse() {
    assert_eq!(
        scan_form(ScanDataType::Integer32, MatchType::EqualTo, " 42 "),
        Ok(ScanForm::Number("42".to_owned()))
    );
}

#[test]
fn a_range_form_splits_low_and_high() {
    assert_eq!(
        scan_form(ScanDataType::Integer32, MatchType::Range, "10 20"),
        Ok(ScanForm::Range("10".to_owned(), "20".to_owned()))
    );
    let err = scan_form(ScanDataType::Integer32, MatchType::Range, "10").unwrap_err();
    assert!(err.contains("low and high"), "{err}");
}

#[test]
fn an_empty_value_is_refused_unless_the_match_needs_none() {
    let err = scan_form(ScanDataType::Integer32, MatchType::EqualTo, "  ").unwrap_err();
    assert!(err.contains("requires a value"), "{err}");
    assert_eq!(
        scan_form(ScanDataType::Integer32, MatchType::Changed, ""),
        Ok(ScanForm::Ready(ScanExpr {
            data_type: ScanDataType::Integer32,
            match_type: MatchType::Changed,
            criterion: ScanCriterion::Absent,
        }))
    );
}

#[test]
fn pattern_types_build_their_pattern_directly() {
    assert_eq!(
        scan_form(ScanDataType::ByteArray, MatchType::EqualTo, "de ?? ef"),
        Ok(ScanForm::Ready(ScanExpr {
            data_type: ScanDataType::ByteArray,
            match_type: MatchType::EqualTo,
            criterion: ScanCriterion::Value(UserValue::Bytes(vec![
                ByteOrWildcard::Fixed(0xde),
                ByteOrWildcard::Wildcard,
                ByteOrWildcard::Fixed(0xef),
            ])),
        }))
    );
    assert_eq!(
        scan_form(ScanDataType::String, MatchType::EqualTo, "hello"),
        Ok(ScanForm::Ready(ScanExpr {
            data_type: ScanDataType::String,
            match_type: MatchType::EqualTo,
            criterion: ScanCriterion::Value(UserValue::Str("hello".to_owned())),
        }))
    );
}

#[test]
fn parsed_numbers_become_the_criterion() {
    let n = parse_int("7").unwrap();
    assert_eq!(
        number_expr(ScanDataType::Integer8, MatchType::GreaterThan, Ok(n)),
        Ok(ScanExpr {
            data_type: ScanDataType::Integer8,
            match_type: MatchType::GreaterThan,
            criterion: ScanCriterion::Value(UserValue::Number(n)),
        })
    );
    let lo = parse_int("1").unwrap();
    let hi = parse_int("9").unwrap();
    assert_eq!(
        range_expr(ScanDataType::Integer8, MatchType::Range, Ok(lo), Ok(hi)),
        Ok(ScanExpr {
            data_type: ScanDataType::Integer8,
            match_type: MatchType::Range,
            criterion: ScanCriterion::Range(lo, hi),
        })
    );
    assert_eq!(
        range_expr(
            ScanDataType::Integer8,
            MatchType::Range,
            Ok(lo),
            Err(ValueParseError::InvalidInt("x".to_owned()))
        ),
        Err("\"x\" is not a valid integer".to_owned())
    );
}

#[test]
fn concrete_bytes_are_pairs_of_hex_digits() {
    assert_eq!(parse_concrete_bytes("de ad 01"), Ok(vec![0xde, 0xad, 0x01]));
    assert!(parse_concrete_bytes("de ??").is_err());
    assert!(parse_concrete_bytes("").is_err());
}
