use scanmem::maps::{parse_line, parse_maps, Perms, RegionKind};

/// A `/proc/<pid>/maps` listing of a small dynamically linked program: thirteen regions.
const BASIC: &str = "\
00400000-00452000 r-xp 00000000 08:02 173521      /usr/bin/example
00651000-00652000 r--p 00051000 08:02 173521      /usr/bin/example
00652000-00653000 rw-p 00052000 08:02 173521      /usr/bin/example
00653000-00655000 rw-p 00000000 00:00 0
0209b000-020bc000 rw-p 00000000 00:00 0           [heap]
7f1c3a000000-7f1c3a1c0000 r-xp 00000000 08:02 135522 /lib/x86_64-linux-gnu/libc-2.31.so
7f1c3a1c0000-7f1c3a3c0000 ---p 001c0000 08:02 135522 /lib/x86_64-linux-gnu/libc-2.31.so
7f1c3a3c0000-7f1c3a3c4000 r--p 001c0000 08:02 135522 /lib/x86_64-linux-gnu/libc-2.31.so
7f1c3a3c4000-7f1c3a3c6000 rw-p 001c4000 08:02 135522 /lib/x86_64-linux-gnu/libc-2.31.so
7f1c3a3c6000-7f1c3a3ca000 rw-p 00000000 00:00 0
7ffc1e3b0000-7ffc1e3d1000 rw-p 00000000 00:00 0   [stack]
7ffc1e3f5000-7ffc1e3f8000 r--p 00000000 00:00 0   [vvar]
7ffc1e3f8000-7ffc1e3fa000 r-xp 00000000 00:00 0   [vdso]
";

/// Three good lines among blank, truncated and garbled ones.
const MALFORMED: &str = "\
00400000-00452000 r-xp 00000000 08:02 173521      /usr/bin/example

this line is not a mapping
zzzz-00452000 r-xp 00000000 08:02 173521 /bad/start
00400000-yyyy r-xp 00000000 08:02 173521 /bad/end
00400000-00452000 r-
00652000-00653000 rw-p 00052000 08:02 173521      /usr/bin/example
   
0209b000-020bc000 rw-p 00000000 00:00 0           [heap]
";

#[test]
fn parses_every_region_in_the_fixture() {
    let regions = parse_maps(BASIC);
    assert_eq!(regions.len(), 13);
}

#[test]
fn parses_address_range_and_permissions() {
    let regions = parse_maps(BASIC);
    let exe = &regions[0];
    assert_eq!(exe.start, 0x00400000);
    assert_eq!(exe.end, 0x00452000);
    assert_eq!(exe.size(), 0x52000);
    assert_eq!(
        exe.perms,
        Perms {
            read: true,
            write: false,
            execute: true,
            shared: false,
        }
    );
    assert_eq!(exe.path.as_deref(), Some("/usr/bin/example"));
}

#[test]
fn parses_anonymous_region_with_no_path() {
    let regions = parse_maps(BASIC);
    let anon = regions.iter().find(|r| r.start == 0x00653000).unwrap();
    assert_eq!(anon.path, None);
    assert_eq!(anon.kind(), RegionKind::Anonymous);
}

#[test]
fn classifies_heap_and_stack() {
    let regions = parse_maps(BASIC);
    assert!(regions.iter().any(|r| r.kind() == RegionKind::Heap));
    assert!(regions.iter().any(|r| r.kind() == RegionKind::Stack));
    assert!(regions
        .iter()
        .any(|r| r.path.as_deref() == Some("/usr/bin/example") && r.kind() == RegionKind::File));
}

#[test]
fn is_writable_reflects_the_w_permission_bit() {
    let regions = parse_maps(BASIC);
    let read_only = regions.iter().find(|r| r.start == 0x00651000).unwrap();
    let writable = regions.iter().find(|r| r.start == 0x00652000).unwrap();
    assert!(!read_only.is_writable());
    assert!(writable.is_writable());
}

#[test]
fn skips_malformed_and_blank_lines() {
    let regions = parse_maps(MALFORMED);
    assert_eq!(regions.len(), 3);
}

#[test]
fn returns_none_for_a_line_with_no_dash_in_the_range() {
    assert_eq!(parse_line("not-a-range-at-all"), None);
    assert_eq!(parse_line(""), None);
}

#[test]
fn parse_line_reads_a_shared_mapping_and_trims_the_path() {
    let r = parse_line("7f00-7f10 rw-s 00000000 00:05 42   /dev/shm/buffer   ").unwrap();
    assert_eq!(r.start, 0x7f00);
    assert_eq!(r.end, 0x7f10);
    assert!(r.perms.shared);
    assert!(r.perms.write);
    assert!(!r.perms.execute);
    assert_eq!(r.path.as_deref(), Some("/dev/shm/buffer"));
    assert_eq!(r.kind(), RegionKind::File);
}

#[test]
fn parse_line_rejects_too_short_permissions() {
    assert_eq!(parse_line("1000-2000 rw"), None);
    assert_eq!(parse_line("1000-2000"), None);
}

#[test]
fn parse_maps_accepts_crlf_line_endings() {
    let regions = parse_maps("1000-2000 r--p 0 00:00 0 [heap]\r\n3000-4000 rw-p 0 00:00 0\r\n");
    assert_eq!(regions.len(), 2);
    assert_eq!(regions[0].kind(), RegionKind::Heap);
    assert_eq!(regions[1].path, None);
}

#[test]
fn parsing_two_joined_listings_gives_both_in_order() {
    let a = "00400000-00452000 r-xp 00000000 08:02 173521      /usr/bin/example\nbogus line";
    let b = "0209b000-020bc000 rw-p 00000000 00:00 0           [heap]\n";
    let joined = format!("{a}\n{b}");
    let mut expected = parse_maps(a);
    expected.extend(parse_maps(b));
    assert_eq!(parse_maps(&joined), expected);
    assert_eq!(parse_maps(&joined).len(), 2);
}

#[test]
fn a_carriage_return_before_the_joining_newline_changes_nothing() {
    let a = "00400000-00452000 r-xp 00000000 08:02 173521      /usr/bin/example\r";
    let b = "0209b000-020bc000 rw-p 00000000 00:00 0           [heap]";
    let joined = format!("{a}\n{b}");
    let mut expected = parse_maps(a);
    expected.extend(parse_maps(b));
    assert_eq!(parse_maps(&joined), expected);
    assert_eq!(parse_maps(a)[0].path.as_deref(), Some("/usr/bin/example"));
}
