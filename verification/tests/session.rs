use std::collections::HashMap;

use scanmem::appstate::ScanJob;
use scanmem::error::ScanmemError;
use scanmem::jobs::{plan_pass, ScanPass};
use scanmem::maps::{Perms, Region};
use scanmem::changes::same_value;
use scanmem::matchlist::{filter_match_rows, order_by_address};
use scanmem::scanroutines::{Endianness, FloatVerdicts, MatchType, ScanDataType};
use scanmem::session::{
    batch_entries_end, first_scan_step, narrow_step, refresh_step, refresh_swath_into, scan_region_into, considered_regions, narrow_swath, reconstruct_value, scan_buffer_chunk,
    validate, value_to_bytes, MatchView, RegionFilter, ScanCriterion, ScanExpr, Session,
    SessionOption, SessionOptions,
};
use scanmem::swath::{Swath, SwathEntry, SwathStore};
use scanmem::value::{parse_int, MatchFlags, UserValue, Value};

const NO_FLOATS: FloatVerdicts = FloatVerdicts { float32_matched: false, float64_matched: false };

/// Float verdicts for every byte of a buffer scanned with an integer expression.
fn no_floats(n: usize) -> Vec<FloatVerdicts> {
    vec![NO_FLOATS; n]
}

fn writable_region() -> Region {
    Region {
        start: 0x1000,
        end: 0x2000,
        perms: Perms { read: true, write: true, execute: false, shared: false },
        path: None,
    }
}

fn read_only_region() -> Region {
    Region {
        start: 0x3000,
        end: 0x4000,
        perms: Perms { read: true, write: false, execute: true, shared: false },
        path: Some("/usr/bin/x".to_owned()),
    }
}

fn equal_to_expr(literal: &str) -> ScanExpr {
    ScanExpr {
        data_type: ScanDataType::Integer32,
        match_type: MatchType::EqualTo,
        criterion: ScanCriterion::Value(UserValue::Number(parse_int(literal).unwrap())),
    }
}

fn four_byte_match(first: u8) -> Swath {
    Swath {
        first_byte_in_child: 0x1000,
        entries: vec![
            SwathEntry { old_value: first, flags: MatchFlags::u32() | MatchFlags::s32() },
            SwathEntry { old_value: 0, flags: MatchFlags::empty() },
            SwathEntry { old_value: 0, flags: MatchFlags::empty() },
            SwathEntry { old_value: 0, flags: MatchFlags::empty() },
        ],
    }
}

#[test]
fn region_filter_writable_only_excludes_read_only_regions() {
    assert!(RegionFilter::WritableOnly.includes(&writable_region()));
    assert!(!RegionFilter::WritableOnly.includes(&read_only_region()));
}

#[test]
fn region_filter_all_includes_every_readable_region() {
    assert!(RegionFilter::All.includes(&writable_region()));
    assert!(RegionFilter::All.includes(&read_only_region()));
}

#[test]
fn region_filters_skip_unreadable_regions() {
    let mut guard = writable_region();
    guard.perms.read = false;
    assert!(!RegionFilter::All.includes(&guard));
    assert!(!RegionFilter::WritableOnly.includes(&guard));
    let regions = [writable_region(), read_only_region(), guard];
    assert_eq!(considered_regions(RegionFilter::WritableOnly, &regions), vec![0]);
    assert_eq!(considered_regions(RegionFilter::All, &regions), vec![0, 1]);
}

#[test]
fn validate_rejects_bytearray_without_a_pattern() {
    let expr = ScanExpr {
        data_type: ScanDataType::ByteArray,
        match_type: MatchType::EqualTo,
        criterion: ScanCriterion::Absent,
    };
    assert!(matches!(validate(&expr), Err(ScanmemError::InvalidExpr(_))));
}

#[test]
fn validate_rejects_string_without_a_pattern() {
    let expr = ScanExpr {
        data_type: ScanDataType::String,
        match_type: MatchType::EqualTo,
        criterion: ScanCriterion::Absent,
    };
    assert!(matches!(validate(&expr), Err(ScanmemError::InvalidExpr(_))));
}

#[test]
fn validate_rejects_range_without_bounds() {
    let expr = ScanExpr {
        data_type: ScanDataType::Integer32,
        match_type: MatchType::Range,
        criterion: ScanCriterion::Absent,
    };
    match validate(&expr) {
        Err(ScanmemError::InvalidExpr(text)) => {
            assert_eq!(text, "range match requires low/high bounds")
        }
        other => panic!("unexpected {other:?}"),
    }
}

#[test]
fn validate_accepts_a_well_formed_equal_to_expr() {
    assert!(validate(&equal_to_expr("42")).is_ok());
}

#[test]
fn value_to_bytes_native_matches_to_ne_bytes() {
    let value = Value::U32(0x0102_0304);
    assert_eq!(
        value_to_bytes(&value, Endianness::Native),
        0x0102_0304u32.to_ne_bytes().to_vec()
    );
}

#[test]
fn value_to_bytes_swapped_reverses_the_bytes() {
    let value = Value::U32(0x0102_0304);
    let mut expected = 0x0102_0304u32.to_ne_bytes().to_vec();
    expected.reverse();
    assert_eq!(value_to_bytes(&value, Endianness::Swapped), expected);
}

#[test]
fn value_to_bytes_bytes_and_str_pass_through_unchanged() {
    assert_eq!(value_to_bytes(&Value::Bytes(vec![1, 2, 3]), Endianness::Native), vec![1, 2, 3]);
    assert_eq!(
        value_to_bytes(&Value::Str("hi".to_owned()), Endianness::Native),
        b"hi".to_vec()
    );
}

#[test]
fn value_to_bytes_writes_signed_and_float_bit_patterns() {
    assert_eq!(
        value_to_bytes(&Value::I16(-2), Endianness::Native),
        (-2i16).to_ne_bytes().to_vec()
    );
    assert_eq!(
        value_to_bytes(&Value::F64(1.5f64.to_bits()), Endianness::Native),
        1.5f64.to_ne_bytes().to_vec()
    );
}

#[test]
fn scan_buffer_finds_a_single_equal_to_match() {
    let expr = equal_to_expr("42");
    let bytes = 42i32.to_ne_bytes();
    let results =
        scan_buffer_chunk(0x1000, &bytes, &expr, Endianness::Native, usize::MAX, &no_floats(4));

    assert_eq!(results.len(), 4);
    assert_eq!(results[0].0, 0x1000);
    assert!(!results[0].2.is_empty());
    assert!(results[1].2.is_empty());
    assert!(results[2].2.is_empty());
    assert!(results[3].2.is_empty());
}

#[test]
fn scan_buffer_finds_no_matches() {
    let expr = equal_to_expr("42");
    let bytes = 7i32.to_ne_bytes();
    assert!(scan_buffer_chunk(0x1000, &bytes, &expr, Endianness::Native, usize::MAX, &no_floats(4))
        .is_empty());
}

#[test]
fn scan_buffer_records_overlapping_matches_at_adjacent_addresses() {
    let expr = ScanExpr {
        data_type: ScanDataType::Integer8,
        match_type: MatchType::EqualTo,
        criterion: ScanCriterion::Value(UserValue::Number(parse_int("0x11").unwrap())),
    };
    let bytes = [0x11u8, 0x11, 0x11];
    let results =
        scan_buffer_chunk(0x1000, &bytes, &expr, Endianness::Native, usize::MAX, &no_floats(3));

    let addresses: Vec<usize> = results.iter().map(|(address, _, _)| *address).collect();
    assert_eq!(addresses, vec![0x1000, 0x1001, 0x1002]);
    assert!(results.iter().all(|(_, _, flags)| !flags.is_empty()));
}

#[test]
fn scan_buffer_chunk_matches_an_unchunked_scan_across_a_synthetic_boundary() {
    let bytes: [u8; 8] = [0xAA, 0xBB, 42, 0, 0, 0, 0xCC, 0xDD];
    let floats = no_floats(8);
    let expr = equal_to_expr("42");
    let reference = scan_buffer_chunk(0, &bytes, &expr, Endianness::Native, usize::MAX, &floats);

    let mut chunked =
        scan_buffer_chunk(0, &bytes[0..7], &expr, Endianness::Native, 4, &floats[0..7]);
    chunked.extend(scan_buffer_chunk(
        4,
        &bytes[4..8],
        &expr,
        Endianness::Native,
        4,
        &floats[4..8],
    ));

    assert_eq!(chunked, reference);
}

#[test]
fn scan_buffer_chunk_excludes_a_group_starting_at_or_after_keep_before() {
    let expr = equal_to_expr("42");
    let bytes = 42i32.to_ne_bytes();

    assert!(scan_buffer_chunk(0x1000, &bytes, &expr, Endianness::Native, 0, &no_floats(4))
        .is_empty());
    assert_eq!(
        scan_buffer_chunk(0x1000, &bytes, &expr, Endianness::Native, 1, &no_floats(4)).len(),
        4
    );
}

#[test]
fn scan_buffer_chunk_keeps_the_full_filler_tail_of_a_boundary_straddling_match() {
    let bytes: [u8; 7] = [0xAA, 0xBB, 42, 0, 0, 0, 0xCC];
    let expr = equal_to_expr("42");

    let results = scan_buffer_chunk(0, &bytes, &expr, Endianness::Native, 4, &no_floats(7));

    let addresses: Vec<usize> = results.iter().map(|(address, _, _)| *address).collect();
    assert_eq!(addresses, vec![2, 3, 4, 5]);
}

#[test]
fn scan_buffer_chunk_reads_float_matches_from_the_verdicts() {
    let expr = ScanExpr {
        data_type: ScanDataType::Float32,
        match_type: MatchType::Any,
        criterion: ScanCriterion::Absent,
    };
    let bytes = 2.0f32.to_ne_bytes();
    let mut floats = no_floats(4);
    floats[0].float32_matched = true;
    let results = scan_buffer_chunk(0, &bytes, &expr, Endianness::Native, usize::MAX, &floats);
    assert_eq!(results.len(), 4);
    assert_eq!(results[0].2, MatchFlags::float32());
}

#[test]
fn batch_entries_end_stops_at_the_first_group_boundary_at_or_after_max_len() {
    let entries = vec![
        SwathEntry { old_value: 1, flags: MatchFlags::u8() },
        SwathEntry { old_value: 2, flags: MatchFlags::u8() },
        SwathEntry { old_value: 3, flags: MatchFlags::empty() },
        SwathEntry { old_value: 4, flags: MatchFlags::u8() },
    ];

    assert_eq!(batch_entries_end(&entries, 0, 2), 3);
    assert_eq!(batch_entries_end(&entries, 0, 1), 1);
}

#[test]
fn batch_entries_end_always_includes_at_least_the_first_whole_group() {
    let entries = vec![
        SwathEntry { old_value: 1, flags: MatchFlags::u8() },
        SwathEntry { old_value: 2, flags: MatchFlags::empty() },
        SwathEntry { old_value: 3, flags: MatchFlags::empty() },
    ];

    assert_eq!(batch_entries_end(&entries, 0, 0), 3);
}

#[test]
fn narrow_swath_keeps_a_match_that_still_equals_the_new_criterion() {
    let old_swath = four_byte_match(42);
    let fresh = 42i32.to_ne_bytes();

    let results = narrow_swath(
        &old_swath,
        &fresh,
        &equal_to_expr("42"),
        Endianness::Native,
        &no_floats(4),
    );
    assert_eq!(results.len(), 4);
    assert_eq!(results[0].0, 0x1000);
    assert!(!results[0].2.is_empty());
}

#[test]
fn narrow_swath_drops_a_match_that_no_longer_equals_the_new_criterion() {
    let old_swath = four_byte_match(42);
    let fresh = 7i32.to_ne_bytes();

    let results = narrow_swath(
        &old_swath,
        &fresh,
        &equal_to_expr("42"),
        Endianness::Native,
        &no_floats(4),
    );
    assert!(results.is_empty());
}

#[test]
fn session_matches_and_nth_match_read_the_swath_store() {
    let mut session = Session::new();
    session.record(0x1000, 42, MatchFlags::u8());
    session.record(0x2000, 0, MatchFlags::empty());

    let matches: Vec<MatchView> = session.matches();
    assert_eq!(matches.len(), 1);
    assert_eq!(matches[0].address, 0x1000);
    assert_eq!(matches[0].old_value, Value::U8(42));

    let first = session.nth_match(0).expect("one match recorded");
    assert_eq!(first.address, 0x1000);
    assert_eq!(first.old_value, Value::U8(42));
    assert!(session.nth_match(1).is_none());
}

#[test]
fn session_matches_reconstructs_the_full_width_value_of_a_multi_byte_match() {
    let mut session = Session::new();
    let expr = ScanExpr {
        data_type: ScanDataType::Integer32,
        match_type: MatchType::EqualTo,
        criterion: ScanCriterion::Value(UserValue::Number(parse_int("54276").unwrap())),
    };
    let bytes = 54276i32.to_ne_bytes();
    for (address, byte, flags) in
        scan_buffer_chunk(0x1000, &bytes, &expr, Endianness::Native, usize::MAX, &no_floats(4))
    {
        session.record(address, byte, flags);
    }

    let matches: Vec<MatchView> = session.matches();
    assert_eq!(matches.len(), 1);
    assert_eq!(matches[0].address, 0x1000);
    assert_eq!(matches[0].old_value, Value::I32(54276));

    let first = session.nth_match(0).expect("one match recorded");
    assert_eq!(first.old_value, Value::I32(54276));
}

#[test]
fn reconstruct_value_prefers_signed_wide_and_float_at_matching_widths() {
    let bytes = 54276i32.to_ne_bytes();
    assert_eq!(
        reconstruct_value(&bytes, MatchFlags::u32() | MatchFlags::s32(), Endianness::Native),
        Value::I32(54276)
    );

    let float_bytes = 1.5f64.to_ne_bytes();
    assert_eq!(
        reconstruct_value(&float_bytes, MatchFlags::float64(), Endianness::Native),
        Value::F64(1.5f64.to_bits())
    );
}

#[test]
fn reconstruct_value_treats_a_multi_byte_all_flags_match_as_raw_bytes() {
    let bytes = b"hi!!".to_vec();
    assert_eq!(
        reconstruct_value(&bytes, MatchFlags::all(), Endianness::Native),
        Value::Bytes(bytes)
    );
}

#[test]
fn reconstruct_value_treats_a_single_byte_all_flags_candidate_as_signed() {
    assert_eq!(reconstruct_value(&[7], MatchFlags::all(), Endianness::Native), Value::I8(7));
}

#[test]
fn reconstruct_value_falls_back_to_the_widest_decodable_width_when_flags_overclaim() {
    assert_eq!(
        reconstruct_value(&[42, 0], MatchFlags::u32(), Endianness::Native),
        Value::U16(42)
    );
}

#[test]
fn session_delete_in_range_reports_how_many_matches_were_removed() {
    let mut session = Session::new();
    session.record(0x1000, 42, MatchFlags::u8());
    session.record(0x2000, 7, MatchFlags::u8());

    let removed = session.delete_in_range(0x1000..0x1001);
    assert_eq!(removed, 1);
    assert_eq!(session.matches().len(), 1);
}

#[test]
fn a_written_value_reads_back_as_the_same_value() {
    for value in [Value::U8(200), Value::I16(-300), Value::I32(54276), Value::U64(1 << 40)] {
        for endianness in [Endianness::Native, Endianness::Swapped] {
            let bytes = value_to_bytes(&value, endianness);
            assert_eq!(reconstruct_value(&bytes, value.flag(), endianness), value);
        }
    }
}

#[test]
fn set_option_changes_one_option_and_keeps_the_matches() {
    let mut session = Session::new();
    session.record(0x10, 1, MatchFlags::u8());
    assert_eq!(session.options(), SessionOptions::default());
    session.set_option(SessionOption::RegionFilter(RegionFilter::All));
    assert_eq!(
        session.options(),
        SessionOptions { endianness: Endianness::Native, region_filter: RegionFilter::All }
    );
    session.set_option(SessionOption::Endianness(Endianness::Swapped));
    assert_eq!(session.options().region_filter, RegionFilter::All);
    assert_eq!(session.options().endianness, Endianness::Swapped);
    assert_eq!(session.match_count(), 1);
}

#[test]
fn scanning_a_region_into_a_store_records_each_match_group() {
    let mut store = SwathStore::new();
    let bytes: [u8; 8] = [42, 0, 0, 0, 9, 42, 0, 0];
    scan_region_into(&mut store, 0x1000, &bytes, &equal_to_expr("42"), Endianness::Native, &no_floats(8));
    assert_eq!(store.match_count(), 1);
    assert_eq!(store.matches()[0].0, 0x1000);
}

#[test]
fn refreshing_a_swath_keeps_its_flags_and_takes_the_fresh_bytes() {
    let mut store = SwathStore::new();
    refresh_swath_into(&mut store, &four_byte_match(42), &[7, 1, 2, 3]);
    assert_eq!(store.swaths().len(), 1);
    assert_eq!(
        store.swaths()[0].entries[0],
        SwathEntry { old_value: 7, flags: MatchFlags::u32() | MatchFlags::s32() }
    );
    assert_eq!(store.swaths()[0].entries[3].old_value, 3);
}

#[test]
fn the_match_filter_reads_addresses_in_hex_and_values_as_shown() {
    let addresses = [0x1000, 0xdead0, 0x2000];
    let texts = ["42".to_owned(), "7".to_owned(), "-420".to_owned()];
    assert_eq!(filter_match_rows(&addresses, &texts, ""), vec![0, 1, 2]);
    assert_eq!(filter_match_rows(&addresses, &texts, "42"), vec![0, 2]);
    assert_eq!(filter_match_rows(&addresses, &texts, "DEAD"), vec![1]);
    assert_eq!(filter_match_rows(&addresses, &texts, "0x2"), vec![2]);
    assert_eq!(filter_match_rows(&addresses, &texts, "zz"), Vec::<usize>::new());
}

#[test]
fn match_rows_order_by_address_keeping_equal_addresses_in_row_order() {
    let rows = vec![(0x3000, 0), (0x1000, 1), (0x2000, 2), (0x1000, 3)];
    assert_eq!(order_by_address(rows), vec![(0x1000, 1), (0x1000, 3), (0x2000, 2), (0x3000, 0)]);
    assert_eq!(order_by_address(Vec::new()), Vec::<(usize, usize)>::new());
}

#[test]
fn narrowing_records_matches_only_where_matches_were_recorded() {
    let old_swath = Swath {
        first_byte_in_child: 0x1000,
        entries: vec![
            SwathEntry { old_value: 1, flags: MatchFlags::u32() },
            SwathEntry { old_value: 0, flags: MatchFlags::empty() },
            SwathEntry { old_value: 0, flags: MatchFlags::empty() },
            SwathEntry { old_value: 0, flags: MatchFlags::empty() },
            SwathEntry { old_value: 2, flags: MatchFlags::u32() },
            SwathEntry { old_value: 0, flags: MatchFlags::empty() },
        ],
    };
    let anything = ScanExpr {
        data_type: ScanDataType::AnyInteger,
        match_type: MatchType::Any,
        criterion: ScanCriterion::Absent,
    };
    let fresh = [9u8, 9, 9, 9, 9, 9];
    let narrowed = narrow_swath(&old_swath, &fresh, &anything, Endianness::Native, &no_floats(6));
    let matched: Vec<usize> =
        narrowed.iter().filter(|(_, _, flags)| !flags.is_empty()).map(|(a, _, _)| *a).collect();
    assert_eq!(matched, vec![0x1000, 0x1004]);
    // A first scan of the same bytes finds a match at every offset.
    let first = scan_buffer_chunk(0x1000, &fresh, &anything, Endianness::Native, usize::MAX, &no_floats(6));
    assert_eq!(first.iter().filter(|(_, _, flags)| !flags.is_empty()).count(), 6);
}

#[test]
fn a_scan_job_narrows_once_matches_are_recorded() {
    let expr = equal_to_expr("42");
    assert_eq!(plan_pass(ScanJob::Run(expr.clone()), 0).ok(), Some(ScanPass::First(expr.clone())));
    assert_eq!(plan_pass(ScanJob::Run(expr.clone()), 3).ok(), Some(ScanPass::Narrow(expr.clone())));
    assert_eq!(plan_pass(ScanJob::New(expr.clone()), 3).ok(), Some(ScanPass::First(expr)));
    assert_eq!(plan_pass(ScanJob::Refresh, 3).ok(), Some(ScanPass::Refresh));
    match plan_pass(ScanJob::Snapshot, 5) {
        Ok(ScanPass::First(x)) => {
            assert_eq!(x.data_type, ScanDataType::AnyNumber);
            assert_eq!(x.match_type, MatchType::Any);
        }
        other => panic!("unexpected {other:?}"),
    }
    let bad = ScanExpr {
        data_type: ScanDataType::ByteArray,
        match_type: MatchType::EqualTo,
        criterion: ScanCriterion::Absent,
    };
    assert!(matches!(plan_pass(ScanJob::Run(bad), 0), Err(ScanmemError::InvalidExpr(_))));
}

#[test]
fn a_match_is_marked_changed_when_its_value_differs_from_the_last_listing() {
    let view = |address: usize, old_value: Value| MatchView {
        address,
        old_value,
        flags: MatchFlags::u32(),
    };
    let first = [view(0x10, Value::U32(1)), view(0x20, Value::Bytes(vec![1, 2]))];
    let (changed, remembered) = scanmem::changes::track_changes(&HashMap::new(), &first);
    assert!(changed.is_empty());
    assert_eq!(remembered.len(), 2);
    let second = [
        view(0x10, Value::U32(2)),
        view(0x20, Value::Bytes(vec![1, 2])),
        view(0x30, Value::U32(9)),
    ];
    let (changed, remembered) = scanmem::changes::track_changes(&remembered, &second);
    assert_eq!(changed.into_iter().collect::<Vec<_>>(), vec![0x10]);
    assert_eq!(remembered.get(&0x10), Some(&Value::U32(2)));
    assert_eq!(remembered.len(), 3);
}

#[test]
fn session_handles_share_the_sessions_own_flag_and_counters() {
    let session = Session::new();
    let stop = session.stop_handle();
    assert!(!session.stop_handle().requested());
    session.request_stop();
    assert!(stop.requested());
    stop.reset();
    assert!(!session.stop_handle().requested());

    let progress = session.progress_handle();
    progress.reset(10);
    session.progress_handle().add(4);
    assert_eq!(progress.get(), (4, 10));
}

#[test]
fn scan_steps_skip_what_could_not_be_read_and_scan_what_was() {
    let mut store = SwathStore::new();
    let bytes: [u8; 8] = [42, 0, 0, 0, 9, 42, 0, 0];
    let expr = equal_to_expr("42");
    first_scan_step(&mut store, 0x1000, None, &expr, Endianness::Native, &[]);
    assert_eq!(store, SwathStore::new());
    first_scan_step(&mut store, 0x1000, Some(&bytes), &expr, Endianness::Native, &no_floats(8));
    assert_eq!(store.match_count(), 1);

    let old = four_byte_match(42);
    let mut narrowed = SwathStore::new();
    narrow_step(&mut narrowed, &old, None, &expr, Endianness::Native, &[]);
    assert_eq!(narrowed, SwathStore::new());

    let mut refreshed = SwathStore::new();
    refresh_step(&mut refreshed, &old, None);
    assert_eq!(refreshed, SwathStore::new());
    refresh_step(&mut refreshed, &old, Some(&[7, 1, 2, 3, 4, 5]));
    assert_eq!(refreshed, SwathStore::new());
    refresh_step(&mut refreshed, &old, Some(&[7, 1, 2, 3]));
    assert_eq!(refreshed.swaths()[0].entries[0].old_value, 7);
}

#[test]
fn floats_compare_as_numbers_when_tracking_changes() {
    let plus_zero = Value::F32(0.0f32.to_bits());
    let minus_zero = Value::F32((-0.0f32).to_bits());
    let nan = Value::F32(f32::NAN.to_bits());
    assert!(same_value(&plus_zero, &minus_zero));
    assert!(!same_value(&nan, &nan));
    assert!(same_value(&Value::F32(1.5f32.to_bits()), &Value::F32(1.5f32.to_bits())));
    assert!(!same_value(&Value::F32(1.5f32.to_bits()), &Value::F32(2.5f32.to_bits())));
    assert!(same_value(&Value::F64(0.0f64.to_bits()), &Value::F64((-0.0f64).to_bits())));
    assert!(!same_value(&Value::F64(f64::NAN.to_bits()), &Value::F64(f64::NAN.to_bits())));
    assert!(!same_value(&Value::F32(0), &Value::F64(0)));

    let view = |old_value: Value| MatchView { address: 0x10, old_value, flags: MatchFlags::float32() };
    let (_, remembered) = scanmem::changes::track_changes(&HashMap::new(), &[view(nan.clone())]);
    let (changed, remembered) = scanmem::changes::track_changes(&remembered, &[view(nan.clone())]);
    assert_eq!(changed.into_iter().collect::<Vec<_>>(), vec![0x10]);
    let (_, remembered) = scanmem::changes::track_changes(&remembered, &[view(plus_zero)]);
    let (changed, _) = scanmem::changes::track_changes(&remembered, &[view(minus_zero)]);
    assert!(changed.is_empty());
}
