use std::collections::BTreeSet;

use scanmem::sets::{parse_index_set, SetParseError};

#[test]
fn parses_single_indices() {
    let set = parse_index_set("1,3,8", 10).unwrap();
    assert_eq!(set, BTreeSet::from([1, 3, 8]));
}

#[test]
fn parses_ranges() {
    let set = parse_index_set("1,3-5,8", 10).unwrap();
    assert_eq!(set, BTreeSet::from([1, 3, 4, 5, 8]));
}

#[test]
fn parses_hex_indices() {
    let set = parse_index_set("0x1,0xA", 20).unwrap();
    assert_eq!(set, BTreeSet::from([1, 10]));
}

#[test]
fn inverts_the_set() {
    let set = parse_index_set("!0-2", 5).unwrap();
    assert_eq!(set, BTreeSet::from([3, 4]));
}

#[test]
fn rejects_empty_set() {
    assert_eq!(parse_index_set("", 10), Err(SetParseError::Empty));
}

#[test]
fn rejects_duplicate_indices() {
    assert_eq!(parse_index_set("1,1", 10), Err(SetParseError::Duplicate(1)));
    assert_eq!(parse_index_set("1-3,2", 10), Err(SetParseError::Duplicate(2)));
}

#[test]
fn rejects_backwards_range() {
    assert_eq!(
        parse_index_set("5-2", 10),
        Err(SetParseError::InvalidRange("5-2".to_owned()))
    );
}

#[test]
fn rejects_out_of_bounds_index() {
    assert_eq!(parse_index_set("10", 10), Err(SetParseError::OutOfBounds(10, 10)));
}

#[test]
fn rejects_malformed_token() {
    assert_eq!(
        parse_index_set("abc", 10),
        Err(SetParseError::InvalidToken("abc".to_owned()))
    );
}

#[test]
fn rejects_inversion_not_at_start() {
    assert_eq!(parse_index_set("1,!2", 10), Err(SetParseError::InvertNotAtStart));
}

#[test]
fn rejects_inverting_the_entire_range() {
    assert_eq!(
        parse_index_set("!0-4", 5),
        Err(SetParseError::InvertsEntireRange(5))
    );
}

#[test]
fn set_error_messages_read_as_documented() {
    assert_eq!(SetParseError::Empty.message(), "set must have at least one index");
    assert_eq!(
        SetParseError::InvertNotAtStart.message(),
        "`!` inversion must appear at the start of the set"
    );
    assert_eq!(
        SetParseError::InvertsEntireRange(5).message(),
        "inverting a set spanning the entire range 0..5 would leave nothing"
    );
    assert_eq!(
        SetParseError::OutOfBounds(10, 10).message(),
        "index 10 is out of bounds (size is 10)"
    );
    assert_eq!(SetParseError::Duplicate(2).message(), "duplicate index 2");
    assert_eq!(
        SetParseError::InvalidRange("5-2".to_owned()).message(),
        "range \"5-2\" runs backwards (end before start)"
    );
    assert_eq!(
        SetParseError::InvalidToken("abc".to_owned()).message(),
        "invalid token \"abc\""
    );
}

#[test]
fn a_range_needs_both_ends() {
    assert_eq!(
        parse_index_set("-2", 5),
        Err(SetParseError::InvalidToken("-2".to_owned()))
    );
}

#[test]
fn tokens_and_range_ends_are_trimmed_but_empty_tokens_are_rejected() {
    assert_eq!(parse_index_set(" 1 - 3 ", 5).unwrap(), BTreeSet::from([1, 2, 3]));
    assert_eq!(parse_index_set("0X1F", 40).unwrap(), BTreeSet::from([31]));
    assert_eq!(
        parse_index_set("1,,2", 5),
        Err(SetParseError::InvalidToken("".to_owned()))
    );
}

#[test]
fn every_parsed_index_is_below_the_size() {
    for (input, size) in [("0-9", 10), ("!3", 10), ("0x0-0x3,7", 8), ("!0,2-4", 6)] {
        let set = parse_index_set(input, size).unwrap();
        assert!(set.iter().all(|&i| i < size), "{input}");
    }
    assert_eq!(parse_index_set("!3", 10).unwrap().len(), 9);
}

#[test]
fn a_leading_bang_gives_the_complement_of_the_plain_pattern() {
    let plain = parse_index_set(" 0, 2", 4).unwrap();
    assert_eq!(plain, BTreeSet::from([0, 2]));
    assert_eq!(parse_index_set("! 0, 2", 4).unwrap(), BTreeSet::from([1, 3]));
    assert_eq!(parse_index_set("0-3", 4).unwrap().len(), 4);
    assert_eq!(parse_index_set("!0-3", 4), Err(SetParseError::InvertsEntireRange(4)));
}
