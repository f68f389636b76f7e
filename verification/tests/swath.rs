use scanmem::swath::{byte_cell, MatchLocation, SwathEntry, SwathStore};
use scanmem::value::MatchFlags;

fn entry(old_value: u8, flags: MatchFlags) -> SwathEntry {
    SwathEntry { old_value, flags }
}

fn at(swath_index: usize, entry_index: usize) -> MatchLocation {
    MatchLocation { swath_index, entry_index }
}

#[test]
fn add_starts_a_new_swath_for_the_first_byte() {
    let mut store = SwathStore::new();
    store.add(100, 1, MatchFlags::u8());
    assert_eq!(store.swaths().len(), 1);
    assert_eq!(store.swaths()[0].first_byte_in_child, 100);
    assert_eq!(store.swaths()[0].entries, vec![entry(1, MatchFlags::u8())]);
}

#[test]
fn add_appends_contiguous_addresses_to_the_same_swath() {
    let mut store = SwathStore::new();
    store.add(100, 1, MatchFlags::u8());
    store.add(101, 2, MatchFlags::u8());
    store.add(102, 3, MatchFlags::u8());
    assert_eq!(store.swaths().len(), 1);
    assert_eq!(store.swaths()[0].entries.len(), 3);
    assert_eq!(store.swaths()[0].address_of(2), 102);
}

#[test]
fn add_starts_a_new_swath_when_address_is_not_contiguous() {
    let mut store = SwathStore::new();
    store.add(100, 1, MatchFlags::u8());
    store.add(200, 2, MatchFlags::u8());
    assert_eq!(store.swaths().len(), 2);
    assert_eq!(store.swaths()[1].first_byte_in_child, 200);
}

#[test]
fn match_count_ignores_empty_flag_filler_bytes() {
    let mut store = SwathStore::new();
    store.add(100, 1, MatchFlags::u32());
    store.add(101, 0, MatchFlags::empty());
    store.add(102, 0, MatchFlags::empty());
    store.add(103, 0, MatchFlags::empty());
    assert_eq!(store.swaths()[0].entries.len(), 4);
    assert_eq!(store.match_count(), 1);
}

#[test]
fn matches_iterates_addresses_and_entries_in_order() {
    let mut store = SwathStore::new();
    store.add(100, 1, MatchFlags::u8());
    store.add(101, 0, MatchFlags::empty());
    store.add(102, 2, MatchFlags::u8());
    let collected: Vec<(usize, u8)> = store
        .matches()
        .into_iter()
        .map(|(addr, e)| (addr, e.old_value))
        .collect();
    assert_eq!(collected, vec![(100, 1), (102, 2)]);
}

#[test]
fn nth_match_skips_filler_bytes_and_returns_the_right_location() {
    let mut store = SwathStore::new();
    store.add(100, 1, MatchFlags::u8());
    store.add(101, 0, MatchFlags::empty());
    store.add(102, 2, MatchFlags::u8());
    store.add(500, 3, MatchFlags::u8());

    let first = store.nth_match(0).unwrap();
    assert_eq!(store.entry_at(first), Some((100, &entry(1, MatchFlags::u8()))));

    let second = store.nth_match(1).unwrap();
    assert_eq!(store.entry_at(second), Some((102, &entry(2, MatchFlags::u8()))));

    let third = store.nth_match(2).unwrap();
    assert_eq!(third.swath_index, 1);
    assert_eq!(store.entry_at(third), Some((500, &entry(3, MatchFlags::u8()))));

    assert_eq!(store.nth_match(3), None);
}

#[test]
fn entry_at_returns_none_for_an_out_of_bounds_location() {
    let mut store = SwathStore::new();
    store.add(100, 1, MatchFlags::u8());
    assert_eq!(store.entry_at(at(1, 0)), None);
    assert_eq!(store.entry_at(at(0, 5)), None);
}

#[test]
fn delete_in_range_removes_only_addresses_within_the_range() {
    let mut store = SwathStore::new();
    for (addr, val) in [(100, 1), (101, 2), (102, 3), (103, 4), (104, 5)] {
        store.add(addr, val, MatchFlags::u8());
    }
    store.delete_in_range(102, 104);

    let remaining: Vec<(usize, u8)> = store
        .matches()
        .into_iter()
        .map(|(addr, e)| (addr, e.old_value))
        .collect();
    assert_eq!(remaining, vec![(100, 1), (101, 2), (104, 5)]);
}

#[test]
fn delete_in_range_splits_a_swath_when_the_middle_is_removed() {
    let mut store = SwathStore::new();
    for (addr, val) in [(100, 1), (101, 2), (102, 3), (103, 4), (104, 5)] {
        store.add(addr, val, MatchFlags::u8());
    }
    store.delete_in_range(102, 103);

    assert_eq!(store.swaths().len(), 2);
    assert_eq!(store.swaths()[0].first_byte_in_child, 100);
    assert_eq!(store.swaths()[0].entries.len(), 2);
    assert_eq!(store.swaths()[1].first_byte_in_child, 103);
    assert_eq!(store.swaths()[1].entries.len(), 2);
}

#[test]
fn delete_in_range_with_no_overlap_leaves_the_store_unchanged() {
    let mut store = SwathStore::new();
    store.add(100, 1, MatchFlags::u8());
    store.add(101, 2, MatchFlags::u8());
    let before = store.clone();

    store.delete_in_range(200, 300);

    assert_eq!(store, before);
}

#[test]
fn delete_in_range_can_empty_the_store() {
    let mut store = SwathStore::new();
    store.add(100, 1, MatchFlags::u8());
    store.add(101, 2, MatchFlags::u8());

    store.delete_in_range(0, usize::MAX);

    assert_eq!(store.swaths().len(), 0);
    assert_eq!(store.match_count(), 0);
}

#[test]
fn printable_string_replaces_non_printable_bytes_with_a_dot() {
    let mut store = SwathStore::new();
    for (i, b) in (*b"Hi\x01!").into_iter().enumerate() {
        store.add(100 + i, b, MatchFlags::u8());
    }
    assert_eq!(store.printable_string(at(0, 0), 4).as_deref(), Some("Hi.!"));
}

#[test]
fn printable_string_stops_early_at_the_end_of_the_swath() {
    let mut store = SwathStore::new();
    store.add(100, b'a', MatchFlags::u8());
    store.add(101, b'b', MatchFlags::u8());
    assert_eq!(store.printable_string(at(0, 0), 10).as_deref(), Some("ab"));
}

#[test]
fn printable_string_returns_none_for_an_out_of_bounds_swath() {
    let store = SwathStore::new();
    assert_eq!(store.printable_string(at(0, 0), 4), None);
}

#[test]
fn bytearray_text_renders_space_separated_lowercase_hex() {
    let mut store = SwathStore::new();
    store.add(100, 0xde, MatchFlags::u8());
    store.add(101, 0xad, MatchFlags::u8());
    store.add(102, 0xbe, MatchFlags::u8());
    store.add(103, 0xef, MatchFlags::u8());
    assert_eq!(store.bytearray_text(at(0, 0), 4).as_deref(), Some("de ad be ef"));
}

#[test]
fn bytearray_text_reads_starting_from_a_non_zero_entry_index() {
    let mut store = SwathStore::new();
    store.add(100, 0x01, MatchFlags::u8());
    store.add(101, 0x02, MatchFlags::u8());
    store.add(102, 0x03, MatchFlags::u8());
    assert_eq!(store.bytearray_text(at(0, 1), 2).as_deref(), Some("02 03"));
}

#[test]
fn deleting_twice_changes_nothing_more() {
    let mut store = SwathStore::new();
    for addr in 100..110 {
        store.add(addr, addr as u8, MatchFlags::u8());
    }
    store.delete_in_range(103, 106);
    let once = store.clone();
    store.delete_in_range(103, 106);
    assert_eq!(store, once);
    assert_eq!(store.match_count(), 7);
}

#[test]
fn an_empty_range_deletes_nothing() {
    let mut store = SwathStore::new();
    store.add(100, 1, MatchFlags::u8());
    store.add(101, 2, MatchFlags::u8());
    let before = store.clone();
    store.delete_in_range(101, 101);
    assert_eq!(store, before);
    store.delete_in_range(105, 100);
    assert_eq!(store, before);
}

#[test]
fn match_bytes_and_groups_read_a_multi_byte_match_with_its_filler() {
    let mut store = SwathStore::new();
    store.add(100, 0x78, MatchFlags::u32());
    store.add(101, 0x56, MatchFlags::empty());
    store.add(102, 0x34, MatchFlags::empty());
    store.add(103, 0x12, MatchFlags::empty());
    store.add(200, 0x09, MatchFlags::u8());
    assert_eq!(store.match_bytes(at(0, 0)), Some(vec![0x78, 0x56, 0x34, 0x12]));
    assert_eq!(store.match_bytes(at(1, 0)), Some(vec![0x09]));
    assert_eq!(store.match_bytes(at(2, 0)), None);
    let groups = store.match_groups();
    assert_eq!(
        groups,
        vec![
            (100, MatchFlags::u32(), vec![0x78, 0x56, 0x34, 0x12]),
            (200, MatchFlags::u8(), vec![0x09]),
        ]
    );
}

#[test]
fn hex_helpers_render_lowercase_digits() {
    assert_eq!(scanmem::swath::hex_digit(11), 'b');
    assert_eq!(scanmem::swath::hex_string(&[0x00, 0x0f, 0xa0]), "00 0f a0");
    assert_eq!(scanmem::swath::hex_string(&[]), "");
}

#[test]
fn add_keeps_swaths_in_ascending_address_order() {
    let mut store = SwathStore::new();
    store.add(200, 2, MatchFlags::u8());
    store.add(100, 1, MatchFlags::u8());
    assert_eq!(store.swaths().len(), 2);
    assert_eq!(store.swaths()[0].first_byte_in_child, 100);
    assert_eq!(store.swaths()[1].first_byte_in_child, 200);
    assert_eq!(store.swaths()[0].entries, vec![entry(1, MatchFlags::u8())]);
}

#[test]
fn add_out_of_order_merges_with_contiguous_neighbours() {
    let mut store = SwathStore::new();
    store.add(100, 1, MatchFlags::u8());
    store.add(102, 3, MatchFlags::u8());
    store.add(101, 2, MatchFlags::empty());
    assert_eq!(store.swaths().len(), 1);
    assert_eq!(store.swaths()[0].first_byte_in_child, 100);
    assert_eq!(
        store.swaths()[0].entries,
        vec![entry(1, MatchFlags::u8()), entry(2, MatchFlags::empty()), entry(3, MatchFlags::u8())]
    );
    store.add(99, 0, MatchFlags::u8());
    assert_eq!(store.swaths().len(), 1);
    assert_eq!(store.swaths()[0].first_byte_in_child, 99);
    assert_eq!(store.swaths()[0].entries.len(), 4);
}

#[test]
fn add_at_a_recorded_address_replaces_its_byte() {
    let mut store = SwathStore::new();
    store.add(100, 1, MatchFlags::u8());
    store.add(101, 2, MatchFlags::u8());
    store.add(100, 9, MatchFlags::empty());
    assert_eq!(store.swaths().len(), 1);
    assert_eq!(
        store.swaths()[0].entries,
        vec![entry(9, MatchFlags::empty()), entry(2, MatchFlags::u8())]
    );
}

#[test]
fn printable_string_with_the_largest_length_stops_at_the_swath_end() {
    let mut store = SwathStore::new();
    store.add(100, b'a', MatchFlags::u8());
    store.add(101, b'b', MatchFlags::u8());
    assert_eq!(store.printable_string(at(0, 1), usize::MAX), Some("b".to_owned()));
    assert_eq!(store.bytes_from(at(0, 0), usize::MAX), Some(vec![b'a', b'b']));
    assert_eq!(store.bytearray_text(at(0, 1), usize::MAX), Some("62".to_owned()));
}

#[test]
fn deleting_the_same_range_twice_changes_nothing_the_second_time() {
    let mut store = SwathStore::new();
    for address in 100..110 {
        store.add(address, address as u8, MatchFlags::u8());
    }
    store.delete_in_range(103, 106);
    let once = store.clone();
    store.delete_in_range(103, 106);
    assert_eq!(store, once);
    assert_eq!(store.swaths().len(), 2);
}

#[test]
fn the_nth_match_location_holds_the_nth_of_matches() {
    let mut store = SwathStore::new();
    store.add(100, 1, MatchFlags::u8());
    store.add(101, 0, MatchFlags::empty());
    store.add(102, 2, MatchFlags::u8());
    store.add(500, 3, MatchFlags::u8());
    let matches = store.matches();
    assert_eq!(store.match_count(), matches.len());
    for (n, expected) in matches.iter().enumerate() {
        let location = store.nth_match(n).unwrap();
        let (address, entry) = store.entry_at(location).unwrap();
        assert_eq!((address, *entry), *expected);
    }
    assert_eq!(store.nth_match(matches.len()), None);
}

#[test]
fn hex_view_cells_show_two_hex_digits_and_a_printable_char() {
    assert_eq!(byte_cell(0x41), ("41".to_owned(), 'A'));
    assert_eq!(byte_cell(0x0a), ("0a".to_owned(), '.'));
    assert_eq!(byte_cell(0xff), ("ff".to_owned(), '.'));
    assert_eq!(byte_cell(b' '), ("20".to_owned(), ' '));
}
