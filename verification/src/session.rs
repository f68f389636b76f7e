//! Scan expressions, the per-buffer scan and narrowing steps, value (de)serialization, and the
//! [`Session`]: the recorded match set plus the options scans run with.
//!
//! Reading and writing the target's memory is I/O and happens outside this library; what is
//! read is handed to the functions here, which decide what is recorded.

use vstd::prelude::*;

use vstd::string::StringSliceAdditionalSpecFns;

use crate::error::ScanmemError;
use crate::interrupt::{ScanProgress, StopFlag};
use crate::maps::Region;
use crate::scanroutines::{
    bytearray_matches, decode_number, decode_spec, reads_little, scan, scan_bytearray, scan_spec,
    scan_string, Endianness, FloatVerdicts, MatchType, ScanDataType,
};
use crate::swath::{
    group_bytes, insert_pair, insert_pairs, is_match, pairs_ascending, lemma_next_match_from, match_pairs,
    match_slots, next_match_from, slots_of, without_range, Slot, Swath, SwathEntry, SwathStore,
};
use crate::value::{all_bits, ByteOrWildcard, MatchFlags, NumberValue, UserValue, Value, ValueView};
use crate::scanroutines::{be_value, pow256, unsigned_of};

verus! {

/// A comparison value for a [`ScanExpr`].
#[derive(Debug, Clone, PartialEq)]
pub enum ScanCriterion {
    /// No comparison value needed, e.g. [`MatchType::Any`]/[`MatchType::Update`].
    Absent,
    Value(UserValue),
    /// Inclusive `[low, high]` bounds, for [`MatchType::Range`].
    Range(NumberValue, NumberValue),
}

/// One scan request: what to look for, and how.
#[derive(Debug, Clone, PartialEq)]
pub struct ScanExpr {
    pub data_type: ScanDataType,
    pub match_type: MatchType,
    pub criterion: ScanCriterion,
}

/// The number a criterion compares against, if it holds one.
pub open spec fn expr_number(e: ScanExpr) -> Option<NumberValue> {
    match e.criterion {
        ScanCriterion::Value(UserValue::Number(n)) => Some(n),
        _ => None,
    }
}

/// The bounds a criterion holds, if it is a range.
pub open spec fn expr_range(e: ScanExpr) -> Option<(NumberValue, NumberValue)> {
    match e.criterion {
        ScanCriterion::Range(lo, hi) => Some((lo, hi)),
        _ => None,
    }
}

/// The byte pattern a criterion holds, if any.
pub open spec fn expr_bytes(e: ScanExpr) -> Option<Seq<ByteOrWildcard>> {
    match e.criterion {
        ScanCriterion::Value(UserValue::Bytes(p)) => Some(p@),
        _ => None,
    }
}

/// The UTF-8 bytes of the string a criterion holds, if any.
pub open spec fn expr_string_bytes(e: ScanExpr) -> Option<Seq<u8>> {
    match e.criterion {
        ScanCriterion::Value(UserValue::Str(s)) => Some(vstd::utf8::encode_utf8(s@)),
        _ => None,
    }
}

impl ScanExpr {
    /// The number to compare against, if the criterion is a number.
    pub fn number(&self) -> (r: Option<&NumberValue>)
        ensures
            r == (match expr_number(*self) {
                Some(n) => Some(&n),
                None => None,
            }),
    {
        match &self.criterion {
            ScanCriterion::Value(UserValue::Number(number)) => Some(number),
            _ => None,
        }
    }

    /// The bounds, if the criterion is a range.
    pub fn range(&self) -> (r: Option<(&NumberValue, &NumberValue)>)
        ensures
            r == (match expr_range(*self) {
                Some((lo, hi)) => Some((&lo, &hi)),
                None => None,
            }),
    {
        match &self.criterion {
            ScanCriterion::Range(low, high) => Some((low, high)),
            _ => None,
        }
    }

    /// The byte pattern, if the criterion is one.
    pub fn bytes_pattern(&self) -> (r: Option<&[ByteOrWildcard]>)
        ensures
            r matches Some(p) ==> expr_bytes(*self) == Some(p@),
            r is None ==> expr_bytes(*self) is None,
    {
        match &self.criterion {
            ScanCriterion::Value(UserValue::Bytes(pattern)) => Some(pattern.as_slice()),
            _ => None,
        }
    }

    /// The string pattern, if the criterion is one.
    pub fn string_pattern(&self) -> (r: Option<&str>)
        ensures
            r matches Some(p) ==> expr_string_bytes(*self) == Some(p.spec_bytes()),
            r is None ==> expr_string_bytes(*self) is None,
    {
        match &self.criterion {
            ScanCriterion::Value(UserValue::Str(pattern)) => Some(pattern.as_str()),
            _ => None,
        }
    }
}

/// Which `/proc/<pid>/maps` regions a scan considers.
#[derive(Debug, Clone, Copy, PartialEq, Eq, Structural)]
pub enum RegionFilter {
    /// Only readable regions the target could itself write to.
    WritableOnly,
    /// Every readable region, including read-only/executable code and mapped files.
    All,
}

impl RegionFilter {
    /// Whether a scan with this filter considers `region`: it must be readable, and writable too
    /// for [`RegionFilter::WritableOnly`].
    pub fn includes(self, region: &Region) -> (r: bool)
        ensures
            r == (region.perms.read && (self == RegionFilter::All || region.perms.write)),
    {
        region.perms.read && match self {
            RegionFilter::All => true,
            RegionFilter::WritableOnly => region.is_writable(),
        }
    }
}

/// Resolved session behavior.
#[derive(Debug, Clone, Copy, PartialEq, Eq, Structural)]
pub struct SessionOptions {
    pub endianness: Endianness,
    pub region_filter: RegionFilter,
}

impl Default for SessionOptions {
    /// Native byte order, writable regions only.
    fn default() -> (r: SessionOptions)
        ensures
            r == (SessionOptions {
                endianness: Endianness::Native,
                region_filter: RegionFilter::WritableOnly,
            }),
    {
        SessionOptions { endianness: Endianness::Native, region_filter: RegionFilter::WritableOnly }
    }
}

/// A single option to change on a [`Session`] via [`Session::set_option`].
#[derive(Debug, Clone, Copy, PartialEq, Eq, Structural)]
pub enum SessionOption {
    Endianness(Endianness),
    RegionFilter(RegionFilter),
}

/// Outcome of a scan.
#[derive(Debug, Clone, Copy, PartialEq, Eq, Default, Structural)]
pub struct ScanStats {
    pub matches: usize,
}

/// A recorded match: its address, the full value last observed there, and its flags.
#[derive(Debug, Clone, PartialEq)]
pub struct MatchView {
    pub address: usize,
    pub old_value: Value,
    pub flags: MatchFlags,
}

/// What [`validate`] rejects: a byte-array scan without a byte pattern, a string scan without
/// a string, a range match without bounds (checked in that order).
pub open spec fn expr_problem(e: ScanExpr) -> Option<Seq<char>> {
    if e.data_type == ScanDataType::ByteArray && expr_bytes(e) is None {
        Some("BYTEARRAY scan requires a byte pattern"@)
    } else if e.data_type == ScanDataType::String && expr_string_bytes(e) is None {
        Some("STRING scan requires a string pattern"@)
    } else if e.match_type == MatchType::Range && expr_range(e) is None {
        Some("range match requires low/high bounds"@)
    } else {
        None
    }
}

/// Rejects an `expr` whose data type/match type needs a criterion it doesn't have.
pub fn validate(expr: &ScanExpr) -> (r: Result<(), ScanmemError>)
    ensures
        match expr_problem(*expr) {
            None => r is Ok,
            Some(text) => r matches Err(ScanmemError::InvalidExpr(s)) && s@ == text,
        },
{
    if expr.data_type == ScanDataType::ByteArray && expr.bytes_pattern().is_none() {
        return Err(ScanmemError::InvalidExpr(String::from_str("BYTEARRAY scan requires a byte pattern")));
    }
    if expr.data_type == ScanDataType::String && expr.string_pattern().is_none() {
        return Err(ScanmemError::InvalidExpr(String::from_str("STRING scan requires a string pattern")));
    }
    if expr.match_type == MatchType::Range && expr.range().is_none() {
        return Err(ScanmemError::InvalidExpr(String::from_str("range match requires low/high bounds")));
    }
    Ok(())
}

/// What [`probe`] returns: a pattern match for byte-array and string scans (every flag set),
/// otherwise the numeric scan of `memory` against the expression, with `old` decoded as the
/// previous value.
pub open spec fn probe_spec(
    memory: Seq<u8>,
    e: ScanExpr,
    old: Option<Seq<u8>>,
    little: bool,
    floats: FloatVerdicts,
) -> Option<(usize, MatchFlags)> {
    if e.data_type == ScanDataType::ByteArray {
        match expr_bytes(e) {
            Some(p) => if bytearray_matches(memory, p) {
                Some((p.len() as usize, MatchFlags { bits: all_bits() }))
            } else {
                None
            },
            None => None,
        }
    } else if e.data_type == ScanDataType::String {
        match expr_string_bytes(e) {
            Some(p) => if memory.len() >= p.len() && memory.take(p.len() as int) == p {
                Some((p.len() as usize, MatchFlags { bits: all_bits() }))
            } else {
                None
            },
            None => None,
        }
    } else {
        scan_spec(
            memory,
            e.data_type,
            e.match_type,
            little,
            match old {
                Some(o) => Some(decode_spec(o, little)),
                None => None,
            },
            expr_number(e),
            expr_range(e),
            floats,
        )
    }
}

/// Tests `expr` against `memory` at one position, optionally against `old` raw bytes recorded
/// at that same position by a previous scan; returns the matched width in bytes and which flags
/// to record, or `None` if nothing matched. `floats` carries the float widths' outcomes.
pub fn probe(
    memory: &[u8],
    expr: &ScanExpr,
    old: Option<&[u8]>,
    endianness: Endianness,
    floats: FloatVerdicts,
) -> (r: Option<(usize, MatchFlags)>)
    ensures
        r == probe_spec(
            memory@,
            *expr,
            match old {
                Some(o) => Some(o@),
                None => None,
            },
            reads_little(endianness),
            floats,
        ),
{
    if expr.data_type == ScanDataType::ByteArray {
        match expr.bytes_pattern() {
            Some(pattern) => match scan_bytearray(memory, pattern) {
                Some(width) => Some((width, MatchFlags::all())),
                None => None,
            },
            None => None,
        }
    } else if expr.data_type == ScanDataType::String {
        match expr.string_pattern() {
            Some(pattern) => match scan_string(memory, pattern) {
                Some(width) => Some((width, MatchFlags::all())),
                None => None,
            },
            None => None,
        }
    } else {
        let old_number = match old {
            Some(bytes) => Some(decode_number(bytes, endianness)),
            None => None,
        };
        let on = match &old_number {
            Some(n) => Some(n),
            None => None,
        };
        scan(memory, expr.data_type, expr.match_type, endianness, on, expr.number(), expr.range(), floats)
    }
}

/// A probe never reports a width wider than the memory it was given.
pub proof fn lemma_probe_width_bound(
    memory: Seq<u8>,
    e: ScanExpr,
    old: Option<Seq<u8>>,
    little: bool,
    floats: FloatVerdicts,
)
    ensures
        probe_spec(memory, e, old, little, floats) matches Some((w, f)) ==> w <= memory.len(),
{
    crate::scanroutines::lemma_scan_width_bound(
        memory,
        e.data_type,
        e.match_type,
        little,
        match old {
            Some(o) => Some(decode_spec(o, little)),
            None => None,
        },
        expr_number(e),
        expr_range(e),
        floats,
    );
}

/// The outcome of probing offset `o` of `bytes` on its own (no previous value).
pub open spec fn own_match(
    bytes: Seq<u8>,
    o: int,
    e: ScanExpr,
    little: bool,
    floats: Seq<FloatVerdicts>,
) -> Option<(usize, MatchFlags)> {
    probe_spec(bytes.skip(o), e, None, little, floats[o])
}

/// The records a chunk scan has produced after offsets `0..n`, and how far the last kept
/// match's bytes reach. An offset is kept when it starts its own match before `keep_before`,
/// or lies within the bytes of a match already kept (then with its own flags, or none).
pub open spec fn chunk_state(
    base: int,
    bytes: Seq<u8>,
    e: ScanExpr,
    little: bool,
    keep_before: int,
    floats: Seq<FloatVerdicts>,
    n: int,
) -> (Seq<(usize, u8, MatchFlags)>, int)
    decreases n,
{
    if n <= 0 {
        (Seq::empty(), 0)
    } else {
        let (res, reach) = chunk_state(base, bytes, e, little, keep_before, floats, n - 1);
        let o = n - 1;
        let own = own_match(bytes, o, e, little, floats);
        if o >= reach && (own is None || o >= keep_before) {
            (res, reach)
        } else {
            let flags = match own {
                Some((w, f)) => f,
                None => MatchFlags { bits: 0 },
            };
            let reach2 = match own {
                Some((w, f)) => if o + w > reach { o + w } else { reach },
                None => reach,
            };
            (res.push(((base + o) as usize, bytes[o], flags)), reach2)
        }
    }
}

/// Scans `bytes` (read from the target starting at `base`) for a first scan, returning
/// `(address, byte, flags)` triples in ascending address order. A byte is included either
/// because it starts its own match at an offset before `keep_before`, or because it lies within
/// the width of a match already included — such a filler byte carries empty flags unless it
/// starts a match of its own. `floats[o]` carries the float widths' outcomes at offset `o`.
pub fn scan_buffer_chunk(
    base: usize,
    bytes: &[u8],
    expr: &ScanExpr,
    endianness: Endianness,
    keep_before: usize,
    floats: &[FloatVerdicts],
) -> (r: Vec<(usize, u8, MatchFlags)>)
    requires
        floats@.len() == bytes@.len(),
        base + bytes@.len() <= usize::MAX + 1,
    ensures
        r@ == chunk_state(
            base as int,
            bytes@,
            *expr,
            reads_little(endianness),
            keep_before as int,
            floats@,
            bytes@.len() as int,
        ).0,
{
    let ghost little = reads_little(endianness);
    let n = bytes.len();
    let mut results: Vec<(usize, u8, MatchFlags)> = Vec::new();
    let mut reach: usize = 0;
    let mut o: usize = 0;
    while o < n
        invariant
            n == bytes@.len(),
            floats@.len() == n,
            base + n <= usize::MAX + 1,
            little == reads_little(endianness),
            0 <= o <= n,
            (results@, reach as int) == chunk_state(base as int, bytes@, *expr, little, keep_before as int, floats@, o as int),
            reach <= n,
        decreases n - o,
    {
        let rest = vstd::slice::slice_subrange(bytes, o, n);
        proof {
            assert(rest@ == bytes@.skip(o as int));
            lemma_probe_width_bound(bytes@.skip(o as int), *expr, None, little, floats@[o as int]);
        }
        let own = probe(rest, expr, None, endianness, floats[o]);
        let starts_no_group = o >= reach && (own.is_none() || o >= keep_before);
        if !starts_no_group {
            let flags = match own {
                Some((_, f)) => f,
                None => MatchFlags::empty(),
            };
            match own {
                Some((w, _)) => {
                    if o + w > reach {
                        reach = o + w;
                    }
                },
                None => {},
            }
            results.push((base + o, bytes[o], flags));
        }
        o = o + 1;
    }
    results
}

/// The end of the batch of entries starting at `start` that spans at least `max_len` entries (at
/// least one), extended over filler entries so no match is split from its filler tail.
pub open spec fn batch_end_spec(es: Seq<SwathEntry>, start: int, max_len: int) -> int {
    let want = if max_len == 0 {
        start + 1
    } else {
        start + max_len
    };
    if want >= es.len() {
        es.len() as int
    } else {
        next_match_from(es, want)
    }
}

/// Where a batch of entries starting at `start` and spanning at least `max_len` entries (at
/// least one) ends, extended to the next match boundary so a match is never split from its
/// filler tail.
pub fn batch_entries_end(entries: &[SwathEntry], start: usize, max_len: usize) -> (r: usize)
    requires
        start <= entries@.len(),
    ensures
        r == batch_end_spec(entries@, start as int, max_len as int),
        start <= r <= entries@.len(),
{
    let n = entries.len();
    let want_len = if max_len == 0 {
        1
    } else {
        max_len
    };
    if want_len >= n - start {
        return n;
    }
    let mut end = start + want_len;
    proof {
        lemma_next_match_from(entries@, end as int);
    }
    while end < n && entries[end].flags.is_empty()
        invariant
            start < end <= n,
            n == entries@.len(),
            next_match_from(entries@, end as int) == batch_end_spec(entries@, start as int, max_len as int),
        decreases n - end,
    {
        end = end + 1;
    }
    end
}

/// The records a narrowing scan produces for the match starting at entry `start` of `w` (its
/// filler tail running to `end`): nothing unless `fresh` covers the group and the group's
/// fresh bytes still match, tested against its recorded bytes as the previous value; then one
/// record per byte of the matched width, the first carrying the flags.
pub open spec fn group_records(
    w: Swath,
    fresh: Seq<u8>,
    e: ScanExpr,
    little: bool,
    floats: Seq<FloatVerdicts>,
    start: int,
    end: int,
) -> Seq<(usize, u8, MatchFlags)> {
    if fresh.len() < end {
        Seq::empty()
    } else {
        let window = fresh.subrange(start, end);
        let old = w.entries@.subrange(start, end).map_values(|x: SwathEntry| x.old_value);
        match probe_spec(window, e, Some(old), little, floats[start]) {
            None => Seq::empty(),
            Some((width, flags)) => Seq::new(
                width as nat,
                |k: int|
                    (
                        (w.first_byte_in_child + start + k) as usize,
                        window[k],
                        if k == 0 {
                            flags
                        } else {
                            MatchFlags { bits: 0 }
                        },
                    ),
            ),
        }
    }
}

/// The records a narrowing scan of `w` produces from entry `i` on.
pub open spec fn narrow_from(
    w: Swath,
    fresh: Seq<u8>,
    e: ScanExpr,
    little: bool,
    floats: Seq<FloatVerdicts>,
    i: int,
) -> Seq<(usize, u8, MatchFlags)>
    decreases w.entries@.len() - i,
{
    if i < 0 || i >= w.entries@.len() {
        Seq::empty()
    } else if !crate::swath::is_match(w.entries@[i]) {
        narrow_from(w, fresh, e, little, floats, i + 1)
    } else {
        let end = next_match_from(w.entries@, i + 1);
        proof {
            lemma_next_match_from(w.entries@, i + 1);
        }
        group_records(w, fresh, e, little, floats, i, end) + narrow_from(w, fresh, e, little, floats, end)
    }
}

/// Re-tests every previously matched position in `old_swath` against `fresh` (the same address
/// range, freshly read), returning `(address, byte, flags)` records for a narrowed store. Only
/// positions that already matched are re-tested; a match whose bytes `fresh` does not cover
/// is dropped. `floats[i]` carries the float widths' outcomes for the match starting at entry `i`.
pub fn narrow_swath(
    old_swath: &Swath,
    fresh: &[u8],
    expr: &ScanExpr,
    endianness: Endianness,
    floats: &[FloatVerdicts],
) -> (r: Vec<(usize, u8, MatchFlags)>)
    requires
        floats@.len() == old_swath.entries@.len(),
        old_swath.first_byte_in_child + old_swath.entries@.len() <= usize::MAX,
    ensures
        r@ == narrow_from(*old_swath, fresh@, *expr, reads_little(endianness), floats@, 0),
{
    let ghost little = reads_little(endianness);
    let ghost whole = narrow_from(*old_swath, fresh@, *expr, little, floats@, 0);
    let n = old_swath.entries.len();
    let mut results: Vec<(usize, u8, MatchFlags)> = Vec::new();
    let mut index: usize = 0;
    while index < n
        invariant
            n == old_swath.entries@.len(),
            floats@.len() == n,
            old_swath.first_byte_in_child + n <= usize::MAX,
            little == reads_little(endianness),
            0 <= index <= n,
            whole == narrow_from(*old_swath, fresh@, *expr, little, floats@, 0),
            results@ + narrow_from(*old_swath, fresh@, *expr, little, floats@, index as int) == whole,
        decreases n - index,
    {
        if old_swath.entries[index].flags.is_empty() {
            index = index + 1;
            continue;
        }
        let start = index;
        let mut end = index + 1;
        proof {
            lemma_next_match_from(old_swath.entries@, end as int);
        }
        while end < n && old_swath.entries[end].flags.is_empty()
            invariant
                start < end <= n,
                n == old_swath.entries@.len(),
                next_match_from(old_swath.entries@, end as int) == next_match_from(old_swath.entries@, start + 1),
            decreases n - end,
        {
            end = end + 1;
        }
        let ghost group = group_records(*old_swath, fresh@, *expr, little, floats@, start as int, end as int);
        let ghost before = results@;
        if end <= fresh.len() {
            let window = vstd::slice::slice_subrange(fresh, start, end);
            let mut old_bytes: Vec<u8> = Vec::new();
            let mut j = start;
            while j < end
                invariant
                    start <= j <= end <= n,
                    n == old_swath.entries@.len(),
                    old_bytes@ == old_swath.entries@.subrange(start as int, j as int).map_values(|x: SwathEntry| x.old_value),
                decreases end - j,
            {
                old_bytes.push(old_swath.entries[j].old_value);
                proof {
                    assert(old_swath.entries@.subrange(start as int, j + 1).map_values(|x: SwathEntry| x.old_value)
                        =~= old_swath.entries@.subrange(start as int, j as int).map_values(|x: SwathEntry| x.old_value).push(old_swath.entries@[j as int].old_value));
                }
                j = j + 1;
            }
            proof {
                lemma_probe_width_bound(window@, *expr, Some(old_bytes@), little, floats@[start as int]);
            }
            let probed = probe(window, expr, Some(old_bytes.as_slice()), endianness, floats[start]);
            match probed {
                Some((matched_width, flags)) => {
                    let mut k: usize = 0;
                    while k < matched_width
                        invariant
                            0 <= k <= matched_width <= end - start,
                            window@ == fresh@.subrange(start as int, end as int),
                            start < end <= n,
                            old_swath.first_byte_in_child + n <= usize::MAX,
                            end <= fresh@.len(),
                            group == Seq::new(
                                matched_width as nat,
                                |q: int|
                                    (
                                        (old_swath.first_byte_in_child + start + q) as usize,
                                        window@[q],
                                        if q == 0 {
                                            flags
                                        } else {
                                            MatchFlags { bits: 0 }
                                        },
                                    ),
                            ),
                            results@ == before + group.take(k as int),
                        decreases matched_width - k,
                    {
                        let entry_flags = if k == 0 {
                            flags
                        } else {
                            MatchFlags::empty()
                        };
                        results.push((old_swath.first_byte_in_child + start + k, window[k], entry_flags));
                        proof {
                            assert(group.take(k + 1) =~= group.take(k as int).push(group[k as int]));
                        }
                        k = k + 1;
                    }
                    proof {
                        assert(group.take(matched_width as int) =~= group);
                    }
                },
                None => {
                    proof {
                        assert(results@ =~= before + group);
                    }
                },
            }
        } else {
            proof {
                assert(results@ =~= before + group);
            }
        }
        proof {
            assert(narrow_from(*old_swath, fresh@, *expr, little, floats@, start as int) == group + narrow_from(*old_swath, fresh@, *expr, little, floats@, end as int));
            assert(before + (group + narrow_from(*old_swath, fresh@, *expr, little, floats@, end as int)) =~= (before + group) + narrow_from(*old_swath, fresh@, *expr, little, floats@, end as int));
        }
        index = end;
    }
    proof {
        assert(results@ + Seq::<(usize, u8, MatchFlags)>::empty() =~= results@);
    }
    results
}

/// The full-width value `bytes` (a match's recorded bytes) represent given its `flags`: raw
/// bytes for a multi-byte match carrying every flag (a byte-array/string match); otherwise the
/// first interpretation that both is flagged and fits, in the order 64-bit float, 32-bit float,
/// `i64, u64, i32, u32, i16, u16, i8, u8`; otherwise (flags claiming more than was recorded) the
/// widest unsigned width that fits; otherwise the raw bytes.
pub open spec fn reconstruct_spec(bytes: Seq<u8>, flags: MatchFlags, little: bool) -> ValueView {
    let n = decode_spec(bytes, little);
    let has = |bit: u16| flags.bits & bit == bit;
    if bytes.len() > 1 && flags.bits == all_bits() {
        ValueView::Bytes(bytes)
    } else if has(0x200) && n.f64_bits is Some {
        ValueView::F64(n.f64_bits.unwrap())
    } else if has(0x100) && n.f32_bits is Some {
        ValueView::F32(n.f32_bits.unwrap())
    } else if has(0x80) && n.i64 is Some {
        ValueView::I64(n.i64.unwrap())
    } else if has(0x40) && n.u64 is Some {
        ValueView::U64(n.u64.unwrap())
    } else if has(0x20) && n.i32 is Some {
        ValueView::I32(n.i32.unwrap())
    } else if has(0x10) && n.u32 is Some {
        ValueView::U32(n.u32.unwrap())
    } else if has(0x8) && n.i16 is Some {
        ValueView::I16(n.i16.unwrap())
    } else if has(0x4) && n.u16 is Some {
        ValueView::U16(n.u16.unwrap())
    } else if has(0x2) && n.i8 is Some {
        ValueView::I8(n.i8.unwrap())
    } else if has(0x1) && n.u8 is Some {
        ValueView::U8(n.u8.unwrap())
    } else if n.u64 is Some {
        ValueView::U64(n.u64.unwrap())
    } else if n.u32 is Some {
        ValueView::U32(n.u32.unwrap())
    } else if n.u16 is Some {
        ValueView::U16(n.u16.unwrap())
    } else if n.u8 is Some {
        ValueView::U8(n.u8.unwrap())
    } else {
        ValueView::Bytes(bytes)
    }
}

/// Reconstructs the full-width [`Value`] a match's raw `bytes` represent, honoring
/// `endianness` and the flags recorded for the match's first byte; see [`reconstruct_spec`].
pub fn reconstruct_value(bytes: &[u8], flags: MatchFlags, endianness: Endianness) -> (r: Value)
    ensures
        r@ == reconstruct_spec(bytes@, flags, reads_little(endianness)),
{
    if bytes.len() > 1 && flags.bits == 0x3ff {
        return Value::Bytes(vstd::slice::slice_to_vec(bytes));
    }
    let numbers = decode_number(bytes, endianness);
    if flags.contains(MatchFlags::float64()) {
        if let Some(v) = numbers.f64_bits {
            return Value::F64(v);
        }
    }
    if flags.contains(MatchFlags::float32()) {
        if let Some(v) = numbers.f32_bits {
            return Value::F32(v);
        }
    }
    if flags.contains(MatchFlags::s64()) {
        if let Some(v) = numbers.i64 {
            return Value::I64(v);
        }
    }
    if flags.contains(MatchFlags::u64()) {
        if let Some(v) = numbers.u64 {
            return Value::U64(v);
        }
    }
    if flags.contains(MatchFlags::s32()) {
        if let Some(v) = numbers.i32 {
            return Value::I32(v);
        }
    }
    if flags.contains(MatchFlags::u32()) {
        if let Some(v) = numbers.u32 {
            return Value::U32(v);
        }
    }
    if flags.contains(MatchFlags::s16()) {
        if let Some(v) = numbers.i16 {
            return Value::I16(v);
        }
    }
    if flags.contains(MatchFlags::u16()) {
        if let Some(v) = numbers.u16 {
            return Value::U16(v);
        }
    }
    if flags.contains(MatchFlags::s8()) {
        if let Some(v) = numbers.i8 {
            return Value::I8(v);
        }
    }
    if flags.contains(MatchFlags::u8()) {
        if let Some(v) = numbers.u8 {
            return Value::U8(v);
        }
    }
    if let Some(v) = numbers.u64 {
        return Value::U64(v);
    }
    if let Some(v) = numbers.u32 {
        return Value::U32(v);
    }
    if let Some(v) = numbers.u16 {
        return Value::U16(v);
    }
    if let Some(v) = numbers.u8 {
        return Value::U8(v);
    }
    Value::Bytes(vstd::slice::slice_to_vec(bytes))
}

/// The `w` bytes of `u`, least significant first.
pub open spec fn le_bytes(u: nat, w: nat) -> Seq<u8>
    decreases w,
{
    if w == 0 {
        Seq::empty()
    } else {
        seq![(u % 256) as u8] + le_bytes(u / 256, (w - 1) as nat)
    }
}

/// The `w` bytes of `u` in `little` (least significant first) or big-endian order.
pub open spec fn ordered_bytes(u: nat, w: nat, little: bool) -> Seq<u8> {
    if little {
        le_bytes(u, w)
    } else {
        le_bytes(u, w).reverse()
    }
}

/// The raw bytes of a value: numeric widths as their (two's-complement, or IEEE-754 bit
/// pattern) unsigned representation in `little` order; byte arrays as they are; strings as UTF-8.
pub open spec fn value_bytes_spec(v: ValueView, little: bool) -> Seq<u8> {
    match v {
        ValueView::U8(x) => ordered_bytes(x as nat, 1, little),
        ValueView::I8(x) => ordered_bytes(x as u8 as nat, 1, little),
        ValueView::U16(x) => ordered_bytes(x as nat, 2, little),
        ValueView::I16(x) => ordered_bytes(x as u16 as nat, 2, little),
        ValueView::U32(x) => ordered_bytes(x as nat, 4, little),
        ValueView::I32(x) => ordered_bytes(x as u32 as nat, 4, little),
        ValueView::U64(x) => ordered_bytes(x as nat, 8, little),
        ValueView::I64(x) => ordered_bytes(x as u64 as nat, 8, little),
        ValueView::F32(x) => ordered_bytes(x as nat, 4, little),
        ValueView::F64(x) => ordered_bytes(x as nat, 8, little),
        ValueView::Bytes(b) => b,
        ValueView::Str(s) => vstd::utf8::encode_utf8(s),
    }
}

/// The `w` bytes of `u` (`u < 256^w`) in `little` order.
fn unsigned_to_bytes(u: u64, w: usize, little: bool) -> (r: Vec<u8>)
    requires
        1 <= w <= 8,
    ensures
        r@ == ordered_bytes(u as nat, w as nat, little),
{
    let mut le: Vec<u8> = Vec::new();
    let mut rest = u;
    let mut i: usize = 0;
    while i < w
        invariant
            0 <= i <= w <= 8,
            le@ + le_bytes(rest as nat, (w - i) as nat) == le_bytes(u as nat, w as nat),
        decreases w - i,
    {
        proof {
            assert(le_bytes(rest as nat, (w - i) as nat) == seq![(rest % 256) as u8] + le_bytes(
                (rest / 256) as nat,
                (w - i - 1) as nat,
            ));
            assert(le@.push((rest % 256) as u8) + le_bytes((rest / 256) as nat, (w - i - 1) as nat)
                =~= le@ + (seq![(rest % 256) as u8] + le_bytes((rest / 256) as nat, (w - i - 1) as nat)));
        }
        le.push((rest % 256) as u8);
        rest = rest / 256;
        i = i + 1;
    }
    proof {
        assert(le_bytes(rest as nat, 0) =~= Seq::<u8>::empty());
        assert(le@ + Seq::<u8>::empty() =~= le@);
    }
    if little {
        le
    } else {
        let mut out: Vec<u8> = Vec::new();
        let mut j = le.len();
        while j > 0
            invariant
                0 <= j <= le@.len(),
                out@ == le@.subrange(j as int, le@.len() as int).reverse(),
            decreases j,
        {
            j = j - 1;
            out.push(le[j]);
            proof {
                assert(le@.subrange(j as int, le@.len() as int).reverse() =~= le@.subrange(
                    j + 1,
                    le@.len() as int,
                ).reverse().push(le@[j as int]));
            }
        }
        proof {
            assert(le@.subrange(0, le@.len() as int) =~= le@);
        }
        out
    }
}

/// Converts a [`Value`] to its raw byte representation, honoring `endianness` for numeric
/// widths; byte arrays and strings have no numeric byte order and pass through as-is.
pub fn value_to_bytes(value: &Value, endianness: Endianness) -> (r: Vec<u8>)
    ensures
        r@ == value_bytes_spec(value@, reads_little(endianness)),
{
    let little = crate::scanroutines::is_little(endianness);
    match value {
        Value::U8(v) => unsigned_to_bytes(*v as u64, 1, little),
        Value::I8(v) => unsigned_to_bytes(*v as u8 as u64, 1, little),
        Value::U16(v) => unsigned_to_bytes(*v as u64, 2, little),
        Value::I16(v) => unsigned_to_bytes(*v as u16 as u64, 2, little),
        Value::U32(v) => unsigned_to_bytes(*v as u64, 4, little),
        Value::I32(v) => unsigned_to_bytes(*v as u32 as u64, 4, little),
        Value::U64(v) => unsigned_to_bytes(*v, 8, little),
        Value::I64(v) => unsigned_to_bytes(*v as u64, 8, little),
        Value::F32(v) => unsigned_to_bytes(*v as u64, 4, little),
        Value::F64(v) => unsigned_to_bytes(*v, 8, little),
        Value::Bytes(bytes) => bytes.clone(),
        Value::Str(s) => vstd::slice::slice_to_vec(s.as_str().as_bytes()),
    }
}

proof fn lemma_le_bytes_len(u: nat, w: nat)
    ensures
        le_bytes(u, w).len() == w,
    decreases w,
{
    if w > 0 {
        lemma_le_bytes_len(u / 256, (w - 1) as nat);
    }
}

proof fn lemma_le_bytes_value(u: nat, w: nat)
    requires
        u < pow256(w),
    ensures
        be_value(le_bytes(u, w).reverse()) == u,
    decreases w,
{
    if w == 0 {
        assert(le_bytes(u, w).reverse() =~= Seq::<u8>::empty());
    } else {
        let rest = le_bytes(u / 256, (w - 1) as nat);
        assert(u / 256 < pow256((w - 1) as nat)) by (nonlinear_arith)
            requires
                u < 256 * pow256((w - 1) as nat),
        ;
        lemma_le_bytes_value(u / 256, (w - 1) as nat);
        let b = (u % 256) as u8;
        assert(le_bytes(u, w).reverse() =~= rest.reverse().push(b));
        assert(rest.reverse().push(b).drop_last() =~= rest.reverse());
        assert(be_value(rest.reverse().push(b)) == be_value(rest.reverse()) * 256 + b as nat);
        assert((u / 256) * 256 + u % 256 == u) by (nonlinear_arith);
    }
}

/// Reading `w` bytes written in `little` order in the same order gives the number back.
pub proof fn lemma_ordered_bytes_round_trip(u: nat, w: nat, little: bool)
    requires
        u < pow256(w),
    ensures
        ordered_bytes(u, w, little).len() == w,
        unsigned_of(ordered_bytes(u, w, little), little) == u,
{
    lemma_le_bytes_len(u, w);
    lemma_le_bytes_value(u, w);
    if !little {
        assert(le_bytes(u, w).reverse() =~= le_bytes(u, w).reverse());
    }
}

/// Writing a numeric value and reading its bytes back as a match of that value's own width (in
/// the same byte order) reconstructs the value exactly.
pub proof fn lemma_write_then_read(v: Value, little: bool)
    requires
        !(v is Bytes) && !(v is Str),
    ensures
        reconstruct_spec(
            value_bytes_spec(v@, little),
            MatchFlags { bits: crate::value::value_flag_bits(v) },
            little,
        ) == v@,
{
    crate::scanroutines::lemma_pow256_values_pub();
    let bytes = value_bytes_spec(v@, little);
    match v {
        Value::U8(x) => {
            lemma_ordered_bytes_round_trip(x as nat, 1, little);
            assert(bytes.take(1) =~= bytes);
            assert(0x1u16 & 0x200u16 != 0x200u16 && 0x1u16 & 0x100u16 != 0x100u16 && 0x1u16 & 0x80u16 != 0x80u16 && 0x1u16 & 0x40u16 != 0x40u16
                && 0x1u16 & 0x20u16 != 0x20u16 && 0x1u16 & 0x10u16 != 0x10u16 && 0x1u16 & 0x8u16 != 0x8u16 && 0x1u16 & 0x4u16 != 0x4u16
                && 0x1u16 & 0x2u16 != 0x2u16 && 0x1u16 & 0x1u16 == 0x1u16) by (bit_vector);
        },
        Value::I8(x) => {
            let u = x as u8;
            assert(x < 0 ==> (x as u8) as int == x + 256) by (bit_vector);
            assert(x >= 0 ==> (x as u8) as int == x) by (bit_vector);
            lemma_ordered_bytes_round_trip(u as nat, 1, little);
            assert(bytes.take(1) =~= bytes);
            assert(0x2u16 & 0x200u16 != 0x200u16 && 0x2u16 & 0x100u16 != 0x100u16 && 0x2u16 & 0x80u16 != 0x80u16 && 0x2u16 & 0x40u16 != 0x40u16
                && 0x2u16 & 0x20u16 != 0x20u16 && 0x2u16 & 0x10u16 != 0x10u16 && 0x2u16 & 0x8u16 != 0x8u16 && 0x2u16 & 0x4u16 != 0x4u16
                && 0x2u16 & 0x2u16 == 0x2u16) by (bit_vector);
        },
        Value::U16(x) => {
            lemma_ordered_bytes_round_trip(x as nat, 2, little);
            assert(bytes.take(2) =~= bytes);
            assert(0x4u16 & 0x200u16 != 0x200u16 && 0x4u16 & 0x100u16 != 0x100u16 && 0x4u16 & 0x80u16 != 0x80u16 && 0x4u16 & 0x40u16 != 0x40u16
                && 0x4u16 & 0x20u16 != 0x20u16 && 0x4u16 & 0x10u16 != 0x10u16 && 0x4u16 & 0x8u16 != 0x8u16 && 0x4u16 & 0x4u16 == 0x4u16) by (bit_vector);
        },
        Value::I16(x) => {
            let u = x as u16;
            assert(x < 0 ==> (x as u16) as int == x + 65536) by (bit_vector);
            assert(x >= 0 ==> (x as u16) as int == x) by (bit_vector);
            lemma_ordered_bytes_round_trip(u as nat, 2, little);
            assert(bytes.take(2) =~= bytes);
            assert(0x8u16 & 0x200u16 != 0x200u16 && 0x8u16 & 0x100u16 != 0x100u16 && 0x8u16 & 0x80u16 != 0x80u16 && 0x8u16 & 0x40u16 != 0x40u16
                && 0x8u16 & 0x20u16 != 0x20u16 && 0x8u16 & 0x10u16 != 0x10u16 && 0x8u16 & 0x8u16 == 0x8u16) by (bit_vector);
        },
        Value::U32(x) => {
            lemma_ordered_bytes_round_trip(x as nat, 4, little);
            assert(bytes.take(4) =~= bytes);
            assert(0x10u16 & 0x200u16 != 0x200u16 && 0x10u16 & 0x100u16 != 0x100u16 && 0x10u16 & 0x80u16 != 0x80u16 && 0x10u16 & 0x40u16 != 0x40u16
                && 0x10u16 & 0x20u16 != 0x20u16 && 0x10u16 & 0x10u16 == 0x10u16) by (bit_vector);
        },
        Value::I32(x) => {
            let u = x as u32;
            assert(x < 0 ==> (x as u32) as int == x + 4294967296) by (bit_vector);
            assert(x >= 0 ==> (x as u32) as int == x) by (bit_vector);
            lemma_ordered_bytes_round_trip(u as nat, 4, little);
            assert(bytes.take(4) =~= bytes);
            assert(0x20u16 & 0x200u16 != 0x200u16 && 0x20u16 & 0x100u16 != 0x100u16 && 0x20u16 & 0x80u16 != 0x80u16 && 0x20u16 & 0x40u16 != 0x40u16
                && 0x20u16 & 0x20u16 == 0x20u16) by (bit_vector);
        },
        Value::U64(x) => {
            lemma_ordered_bytes_round_trip(x as nat, 8, little);
            assert(bytes.take(8) =~= bytes);
            assert(0x40u16 & 0x200u16 != 0x200u16 && 0x40u16 & 0x100u16 != 0x100u16 && 0x40u16 & 0x80u16 != 0x80u16 && 0x40u16 & 0x40u16 == 0x40u16) by (bit_vector);
        },
        Value::I64(x) => {
            let u = x as u64;
            assert(x < 0 ==> (x as u64) as int == x + 18446744073709551616) by (bit_vector);
            assert(x >= 0 ==> (x as u64) as int == x) by (bit_vector);
            lemma_ordered_bytes_round_trip(u as nat, 8, little);
            assert(bytes.take(8) =~= bytes);
            assert(0x80u16 & 0x200u16 != 0x200u16 && 0x80u16 & 0x100u16 != 0x100u16 && 0x80u16 & 0x80u16 == 0x80u16) by (bit_vector);
        },
        Value::F32(x) => {
            lemma_ordered_bytes_round_trip(x as nat, 4, little);
            assert(bytes.take(4) =~= bytes);
            assert(0x100u16 & 0x200u16 != 0x200u16 && 0x100u16 & 0x100u16 == 0x100u16) by (bit_vector);
        },
        Value::F64(x) => {
            lemma_ordered_bytes_round_trip(x as nat, 8, little);
            assert(bytes.take(8) =~= bytes);
            assert(0x200u16 & 0x200u16 == 0x200u16) by (bit_vector);
        },
        _ => {},
    }
}


/// The match state of one target: the recorded matches, the options scans run with, and the
/// stop flag and progress counters shared with whoever runs its scans.
#[derive(Debug)]
pub struct Session {
    matches: SwathStore,
    options: SessionOptions,
    stop_flag: StopFlag,
    progress: ScanProgress,
}

/// The mathematical form of a [`MatchView`].
pub open spec fn match_view_spec(m: MatchView) -> (int, ValueView, MatchFlags) {
    (m.address as int, m.old_value@, m.flags)
}

/// What a session reports of the match in slot `s`: its address, the value its recorded bytes
/// decode to under its flags, and its flags.
pub open spec fn slot_view(sw: Seq<Swath>, s: Slot, little: bool) -> (int, ValueView, MatchFlags) {
    let g = crate::swath::slot_group(sw, s);
    (g.0, reconstruct_spec(g.2, g.1, little), g.1)
}

impl Session {
    #[verifier::type_invariant]
    spec fn store_wf(self) -> bool {
        self.matches.wf()
    }

    /// The recorded matches.
    pub closed spec fn store(self) -> SwathStore {
        self.matches
    }

    /// The options scans and reads run with.
    pub closed spec fn opts(self) -> SessionOptions {
        self.options
    }

    /// The counters this session's scans report their progress to.
    pub closed spec fn progress_counters(self) -> ScanProgress {
        self.progress
    }

    /// The flag this session's scans check to stop early.
    pub closed spec fn stop_request_flag(self) -> StopFlag {
        self.stop_flag
    }

    /// Every recorded match as the session reports it, in recording order.
    pub open spec fn views(self) -> Seq<(int, ValueView, MatchFlags)> {
        self.store().match_slot_seq().map_values(
            |s: Slot| slot_view(self.store()@, s, reads_little(self.opts().endianness)),
        )
    }

    /// A session with no recorded matches and the default options.
    pub fn new() -> (r: Session)
        ensures
            r.store()@ == Seq::<Swath>::empty(),
            r.store().pairs() == Seq::<(int, SwathEntry)>::empty(),
            r.opts() == (SessionOptions {
                endianness: Endianness::Native,
                region_filter: RegionFilter::WritableOnly,
            }),
    {
        Session {
            matches: SwathStore::new(),
            options: SessionOptions::default(),
            stop_flag: StopFlag::new(),
            progress: ScanProgress::new(),
        }
    }

    /// A handle to this session's scan progress, readable from another thread while a scan runs.
    pub fn progress_handle(&self) -> (r: ScanProgress)
        ensures
            r == self.progress_counters(),
    {
        self.progress.share()
    }

    /// A handle that asks the running (or next) scan to stop early, usable from another thread.
    pub fn stop_handle(&self) -> (r: StopFlag)
        ensures
            r == self.stop_request_flag(),
    {
        self.stop_flag.share()
    }

    /// Asks the running (or next) scan to stop as soon as possible.
    pub fn request_stop(&self) {
        self.stop_flag.request();
    }

    /// The options scans and reads run with.
    pub fn options(&self) -> (r: SessionOptions)
        ensures
            r == self.opts(),
    {
        self.options
    }

    /// Changes one option, leaving the other and the recorded matches as they are.
    pub fn set_option(&mut self, option: SessionOption)
        ensures
            final(self).store() == old(self).store(),
            final(self).opts() == (match option {
                SessionOption::Endianness(e) => SessionOptions { endianness: e, ..old(self).opts() },
                SessionOption::RegionFilter(f) => SessionOptions {
                    region_filter: f,
                    ..old(self).opts()
                },
            }),
    {
        proof {
            use_type_invariant(&*self);
        }
        match option {
            SessionOption::Endianness(endianness) => self.options.endianness = endianness,
            SessionOption::RegionFilter(region_filter) => self.options.region_filter = region_filter,
        }
    }

    /// Records one byte at `address` (see [`SwathStore::add`]).
    pub fn record(&mut self, address: usize, byte: u8, flags: MatchFlags)
        requires
            address < usize::MAX,
        ensures
            final(self).store().wf(),
            final(self).store().pairs() == insert_pair(
                old(self).store().pairs(),
                (address as int, SwathEntry { old_value: byte, flags }),
            ),
            final(self).opts() == old(self).opts(),
    {
        proof {
            use_type_invariant(&*self);
        }
        let mut store = SwathStore::new();
        std::mem::swap(&mut store, &mut self.matches);
        store.add(address, byte, flags);
        self.matches = store;
    }

    /// Replaces the recorded matches by `store`, e.g. once a scan has built it, and reports how
    /// many matches it holds.
    pub fn replace_matches(&mut self, store: SwathStore) -> (r: ScanStats)
        requires
            store.wf(),
        ensures
            final(self).store() == store,
            final(self).opts() == old(self).opts(),
            r.matches == match_pairs(store.pairs()).len(),
    {
        self.matches = store;
        ScanStats { matches: self.matches.match_count() }
    }

    /// Hands out the recorded matches, e.g. for a narrowing scan to read, leaving none recorded.
    pub fn take_matches(&mut self) -> (r: SwathStore)
        ensures
            r == old(self).store(),
            r.wf(),
            final(self).store()@ == Seq::<Swath>::empty(),
            final(self).store().pairs() == Seq::<(int, SwathEntry)>::empty(),
            final(self).opts() == old(self).opts(),
    {
        proof {
            use_type_invariant(&*self);
        }
        let mut store = SwathStore::new();
        std::mem::swap(&mut store, &mut self.matches);
        store
    }

    /// The number of recorded matches (filler bytes not counted).
    pub fn match_count(&self) -> (r: usize)
        ensures
            r == match_pairs(self.store().pairs()).len(),
            r == self.views().len(),
    {
        proof {
            use_type_invariant(self);
            self.matches.lemma_match_count();
        }
        self.matches.match_count()
    }

    /// Every recorded match, with its full old value decoded from its recorded bytes under the
    /// session's byte order, in recording order.
    pub fn matches(&self) -> (r: Vec<MatchView>)
        ensures
            r@.map_values(|m: MatchView| match_view_spec(m)) == self.views(),
    {
        proof {
            use_type_invariant(self);
        }
        let groups = self.matches.match_groups();
        let endianness = self.options.endianness;
        let ghost little = reads_little(endianness);
        let ghost slots = self.store().match_slot_seq();
        let ghost sw = self.store()@;
        assert(groups@.len() == slots.len()) by {
            assert(groups@.map_values(|g: (usize, MatchFlags, Vec<u8>)| crate::swath::group_view(g)).len() == slots.map_values(|s: Slot| crate::swath::slot_group(sw, s)).len());
        }
        let mut out: Vec<MatchView> = Vec::new();
        let mut i: usize = 0;
        while i < groups.len()
            invariant
                0 <= i <= groups@.len(),
                groups@.len() == slots.len(),
                little == reads_little(endianness),
                out@.len() == i,
                forall|j: int|
                    0 <= j < i ==> #[trigger] match_view_spec(out@[j]) == (
                        groups@[j].0 as int,
                        reconstruct_spec(groups@[j].2@, groups@[j].1, little),
                        groups@[j].1,
                    ),
            decreases groups@.len() - i,
        {
            let g = &groups[i];
            let value = reconstruct_value(g.2.as_slice(), g.1, endianness);
            out.push(MatchView { address: g.0, old_value: value, flags: g.1 });
            i = i + 1;
        }
        proof {
            assert forall|j: int| 0 <= j < slots.len() implies crate::swath::group_view(groups@[j])
                == crate::swath::slot_group(sw, slots[j]) by {
                assert(groups@.map_values(|g: (usize, MatchFlags, Vec<u8>)| crate::swath::group_view(g))[j]
                    == slots.map_values(|s: Slot| crate::swath::slot_group(sw, s))[j]);
            }
            assert(out@.map_values(|m: MatchView| match_view_spec(m)) =~= self.views()) by {
                assert forall|j: int| 0 <= j < slots.len() implies out@.map_values(|m: MatchView| match_view_spec(m))[j] == self.views()[j] by {
                    assert(match_view_spec(out@[j]) == (
                        groups@[j].0 as int,
                        reconstruct_spec(groups@[j].2@, groups@[j].1, little),
                        groups@[j].1,
                    ));
                }
            }
        }
        out
    }

    /// The `n`th recorded match (0-indexed), or `None` if there are fewer than `n + 1`.
    pub fn nth_match(&self, n: usize) -> (r: Option<MatchView>)
        ensures
            r is Some <==> n < self.views().len(),
            r matches Some(m) ==> match_view_spec(m) == self.views()[n as int],
    {
        proof {
            use_type_invariant(self);
        }
        let ghost slots = self.store().match_slot_seq();
        assert(self.views().len() == slots.len());
        let location = match self.matches.nth_match(n) {
            Some(location) => location,
            None => return None,
        };
        let ghost slot = slots[n as int];
        let swath_count = self.matches.swaths().len();
        proof {
            crate::swath::lemma_match_slot_facts(self.store()@, n as int);
            assert(crate::swath::swath_end(self.store()@[slot.swath_index]) <= usize::MAX);
            assert(swath_count == self.store()@.len());
            assert(self.views()[n as int] == slot_view(
                self.store()@,
                slot,
                reads_little(self.opts().endianness),
            ));
        }
        let (address, entry) = match self.matches.entry_at(location) {
            Some(found) => found,
            None => return None,
        };
        let bytes = match self.matches.match_bytes(location) {
            Some(bytes) => bytes,
            None => return None,
        };
        let flags = entry.flags;
        let value = reconstruct_value(bytes.as_slice(), flags, self.options.endianness);
        Some(MatchView { address, old_value: value, flags })
    }

    /// Removes every recorded byte whose address lies in `range`, returning how many matches
    /// were removed.
    pub fn delete_in_range(&mut self, range: std::ops::Range<usize>) -> (r: usize)
        ensures
            final(self).store().wf(),
            final(self).store().pairs() == without_range(
                old(self).store().pairs(),
                range.start as int,
                range.end as int,
            ),
            final(self).opts() == old(self).opts(),
            r == crate::swath::matches_in(old(self).store().pairs(), range.start as int, range.end as int),
    {
        proof {
            use_type_invariant(&*self);
        }
        let ghost before_pairs = self.matches.pairs();
        let before = self.matches.match_count();
        let mut store = SwathStore::new();
        std::mem::swap(&mut store, &mut self.matches);
        store.delete_in_range(range.start, range.end);
        let after = store.match_count();
        self.matches = store;
        proof {
            crate::swath::lemma_without_range_matches(before_pairs, range.start as int, range.end as int);
        }
        before - after
    }
}


/// The `(address, entry)` pairs that recording `records` in order adds to a store.
pub open spec fn record_pairs(records: Seq<(usize, u8, MatchFlags)>) -> Seq<(int, SwathEntry)> {
    records.map_values(
        |t: (usize, u8, MatchFlags)| (t.0 as int, SwathEntry { old_value: t.1, flags: t.2 }),
    )
}

/// Records every `(address, byte, flags)` of `records` into `store`, in order, each at its
/// place by address (see [`SwathStore::add`]).
pub fn record_all(store: &mut SwathStore, records: &[(usize, u8, MatchFlags)])
    requires
        old(store).wf(),
        forall|j: int| 0 <= j < records@.len() ==> #[trigger] records@[j].0 < usize::MAX,
    ensures
        final(store).wf(),
        final(store).pairs() == insert_pairs(old(store).pairs(), record_pairs(records@)),
        pairs_ascending(old(store).pairs() + record_pairs(records@)) ==> final(store).pairs()
            == old(store).pairs() + record_pairs(records@),
{
    let ghost start = store.pairs();
    let mut i: usize = 0;
    while i < records.len()
        invariant
            0 <= i <= records@.len(),
            store.wf(),
            forall|j: int| 0 <= j < records@.len() ==> #[trigger] records@[j].0 < usize::MAX,
            store.pairs() == insert_pairs(start, record_pairs(records@.take(i as int))),
        decreases records@.len() - i,
    {
        let (address, byte, flags) = records[i];
        store.add(address, byte, flags);
        proof {
            assert(records@.take(i + 1) =~= records@.take(i as int).push(records@[i as int]));
            let q = record_pairs(records@.take(i + 1));
            assert(q =~= record_pairs(records@.take(i as int)).push(
                (address as int, SwathEntry { old_value: byte, flags }),
            ));
            assert(q.drop_last() =~= record_pairs(records@.take(i as int)));
        }
        i = i + 1;
    }
    proof {
        assert(records@.take(records@.len() as int) =~= records@);
        if pairs_ascending(start + record_pairs(records@)) {
            crate::swath::lemma_insert_pairs_after(start, record_pairs(records@));
        }
    }
}

/// Every record a first scan of a buffer produces lies inside the buffer's address range.
pub proof fn lemma_chunk_addresses(
    base: int,
    bytes: Seq<u8>,
    e: ScanExpr,
    little: bool,
    keep_before: int,
    floats: Seq<FloatVerdicts>,
    n: int,
)
    requires
        0 <= base,
        0 <= n <= bytes.len(),
        base + bytes.len() <= usize::MAX,
    ensures
        forall|j: int|
            0 <= j < chunk_state(base, bytes, e, little, keep_before, floats, n).0.len() ==> base
                <= #[trigger] chunk_state(base, bytes, e, little, keep_before, floats, n).0[j].0 < base
                + n,
    decreases n,
{
    if n > 0 {
        lemma_chunk_addresses(base, bytes, e, little, keep_before, floats, n - 1);
        let prev = chunk_state(base, bytes, e, little, keep_before, floats, n - 1).0;
        let cur = chunk_state(base, bytes, e, little, keep_before, floats, n).0;
        assert(((base + n - 1) as usize) as int == base + n - 1);
        assert forall|j: int| 0 <= j < cur.len() implies base <= #[trigger] cur[j].0 < base + n by {
            if j < prev.len() {
                assert(cur[j] == prev[j]);
            }
        }
    }
}

/// Every record a narrowing of swath `w` produces lies inside the swath's address range.
pub proof fn lemma_narrow_addresses(
    w: Swath,
    fresh: Seq<u8>,
    e: ScanExpr,
    little: bool,
    floats: Seq<FloatVerdicts>,
    i: int,
)
    requires
        0 <= i,
        crate::swath::swath_end(w) <= usize::MAX,
    ensures
        forall|j: int|
            0 <= j < narrow_from(w, fresh, e, little, floats, i).len() ==> w.first_byte_in_child
                <= #[trigger] narrow_from(w, fresh, e, little, floats, i)[j].0
                < crate::swath::swath_end(w),
    decreases w.entries@.len() - i,
{
    if i < w.entries@.len() {
        if !is_match(w.entries@[i]) {
            lemma_narrow_addresses(w, fresh, e, little, floats, i + 1);
            assert(narrow_from(w, fresh, e, little, floats, i) == narrow_from(
                w,
                fresh,
                e,
                little,
                floats,
                i + 1,
            ));
        } else {
            let end = next_match_from(w.entries@, i + 1);
            lemma_next_match_from(w.entries@, i + 1);
            lemma_narrow_addresses(w, fresh, e, little, floats, end);
            let g = group_records(w, fresh, e, little, floats, i, end);
            let rest = narrow_from(w, fresh, e, little, floats, end);
            if fresh.len() >= end {
                let window = fresh.subrange(i, end);
                let old = w.entries@.subrange(i, end).map_values(|x: SwathEntry| x.old_value);
                lemma_probe_width_bound(window, e, Some(old), little, floats[i]);
            }
            assert forall|j: int| 0 <= j < g.len() implies w.first_byte_in_child
                <= #[trigger] g[j].0 < crate::swath::swath_end(w) by {
                assert(((w.first_byte_in_child + i + j) as usize) as int == w.first_byte_in_child + i
                    + j);
            }
            assert(narrow_from(w, fresh, e, little, floats, i) == g + rest);
            assert forall|j: int| 0 <= j < (g + rest).len() implies w.first_byte_in_child
                <= #[trigger] (g + rest)[j].0 < crate::swath::swath_end(w) by {
                if j >= g.len() {
                    assert((g + rest)[j] == rest[j - g.len()]);
                } else {
                    assert((g + rest)[j] == g[j]);
                }
            }
        }
    }
}

/// Every byte a narrowing scan records is the byte freshly read at its address: the record at
/// address `a` carries `fresh[a - start]`, where `start` is the swath's first address (never the
/// byte recorded there before).
pub proof fn lemma_narrow_records_fresh_bytes(
    w: Swath,
    fresh: Seq<u8>,
    e: ScanExpr,
    little: bool,
    floats: Seq<FloatVerdicts>,
    i: int,
)
    requires
        0 <= i,
        crate::swath::swath_end(w) <= usize::MAX,
    ensures
        forall|j: int|
            0 <= j < narrow_from(w, fresh, e, little, floats, i).len() ==> {
                let r = #[trigger] narrow_from(w, fresh, e, little, floats, i)[j];
                &&& w.first_byte_in_child <= r.0 < w.first_byte_in_child + fresh.len()
                &&& r.1 == fresh[r.0 - w.first_byte_in_child]
            },
    decreases w.entries@.len() - i,
{
    if i < w.entries@.len() {
        if !is_match(w.entries@[i]) {
            lemma_narrow_records_fresh_bytes(w, fresh, e, little, floats, i + 1);
            assert(narrow_from(w, fresh, e, little, floats, i) == narrow_from(
                w,
                fresh,
                e,
                little,
                floats,
                i + 1,
            ));
        } else {
            let end = next_match_from(w.entries@, i + 1);
            lemma_next_match_from(w.entries@, i + 1);
            lemma_narrow_records_fresh_bytes(w, fresh, e, little, floats, end);
            let g = group_records(w, fresh, e, little, floats, i, end);
            let rest = narrow_from(w, fresh, e, little, floats, end);
            if fresh.len() >= end {
                let window = fresh.subrange(i, end);
                let old = w.entries@.subrange(i, end).map_values(|x: SwathEntry| x.old_value);
                lemma_probe_width_bound(window, e, Some(old), little, floats[i]);
                assert forall|j: int| 0 <= j < g.len() implies {
                    let r = #[trigger] g[j];
                    &&& w.first_byte_in_child <= r.0 < w.first_byte_in_child + fresh.len()
                    &&& r.1 == fresh[r.0 - w.first_byte_in_child]
                } by {
                    assert(((w.first_byte_in_child + i + j) as usize) as int == w.first_byte_in_child
                        + i + j);
                    assert(g[j].1 == window[j]);
                    assert(window[j] == fresh[i + j]);
                }
            }
            assert(narrow_from(w, fresh, e, little, floats, i) == g + rest);
            assert forall|j: int| 0 <= j < (g + rest).len() implies {
                let r = #[trigger] (g + rest)[j];
                &&& w.first_byte_in_child <= r.0 < w.first_byte_in_child + fresh.len()
                &&& r.1 == fresh[r.0 - w.first_byte_in_child]
            } by {
                if j >= g.len() {
                    assert((g + rest)[j] == rest[j - g.len()]);
                } else {
                    assert((g + rest)[j] == g[j]);
                }
            }
        }
    }
}

/// A narrowing scan only narrows: every match it records (a record with flags) sits at an
/// address where the swath recorded a match before; it never finds a new one.
pub proof fn lemma_narrow_keeps_only_old_matches(
    w: Swath,
    fresh: Seq<u8>,
    e: ScanExpr,
    little: bool,
    floats: Seq<FloatVerdicts>,
    i: int,
)
    requires
        0 <= i,
        crate::swath::swath_end(w) <= usize::MAX,
    ensures
        forall|j: int|
            0 <= j < narrow_from(w, fresh, e, little, floats, i).len() && (#[trigger] narrow_from(
                w,
                fresh,
                e,
                little,
                floats,
                i,
            )[j]).2.bits != 0 ==> {
                let a = narrow_from(w, fresh, e, little, floats, i)[j].0 - w.first_byte_in_child;
                &&& i <= a < w.entries@.len()
                &&& is_match(w.entries@[a])
            },
    decreases w.entries@.len() - i,
{
    if i < w.entries@.len() {
        if !is_match(w.entries@[i]) {
            lemma_narrow_keeps_only_old_matches(w, fresh, e, little, floats, i + 1);
            assert(narrow_from(w, fresh, e, little, floats, i) == narrow_from(
                w,
                fresh,
                e,
                little,
                floats,
                i + 1,
            ));
        } else {
            let end = next_match_from(w.entries@, i + 1);
            lemma_next_match_from(w.entries@, i + 1);
            lemma_narrow_keeps_only_old_matches(w, fresh, e, little, floats, end);
            let g = group_records(w, fresh, e, little, floats, i, end);
            let rest = narrow_from(w, fresh, e, little, floats, end);
            if fresh.len() >= end {
                let window = fresh.subrange(i, end);
                let old = w.entries@.subrange(i, end).map_values(|x: SwathEntry| x.old_value);
                lemma_probe_width_bound(window, e, Some(old), little, floats[i]);
            }
            assert forall|j: int| 0 <= j < g.len() && (#[trigger] g[j]).2.bits != 0 implies g[j].0
                == w.first_byte_in_child + i by {
                assert(((w.first_byte_in_child + i + j) as usize) as int == w.first_byte_in_child + i
                    + j);
            }
            assert(narrow_from(w, fresh, e, little, floats, i) == g + rest);
            assert forall|j: int|
                0 <= j < (g + rest).len() && (#[trigger] (g + rest)[j]).2.bits != 0 implies {
                let a = (g + rest)[j].0 - w.first_byte_in_child;
                &&& i <= a < w.entries@.len()
                &&& is_match(w.entries@[a])
            } by {
                if j >= g.len() {
                    assert((g + rest)[j] == rest[j - g.len()]);
                } else {
                    assert((g + rest)[j] == g[j]);
                }
            }
        }
    }
}

/// Records into `store` what a first scan finds in `bytes`, read from address `base`.
pub fn scan_region_into(
    store: &mut SwathStore,
    base: usize,
    bytes: &[u8],
    expr: &ScanExpr,
    endianness: Endianness,
    floats: &[FloatVerdicts],
)
    requires
        old(store).wf(),
        floats@.len() == bytes@.len(),
        base + bytes@.len() <= usize::MAX,
    ensures
        final(store).wf(),
        final(store).pairs() == insert_pairs(old(store).pairs(), record_pairs(
            chunk_state(
                base as int,
                bytes@,
                *expr,
                reads_little(endianness),
                usize::MAX as int,
                floats@,
                bytes@.len() as int,
            ).0,
        )),
{
    let records = scan_buffer_chunk(base, bytes, expr, endianness, usize::MAX, floats);
    proof {
        lemma_chunk_addresses(
            base as int,
            bytes@,
            *expr,
            reads_little(endianness),
            usize::MAX as int,
            floats@,
            bytes@.len() as int,
        );
    }
    record_all(store, records.as_slice());
}

/// Records into `store` what a narrowing scan keeps of `old_swath`, given `fresh`, the bytes
/// now at its addresses.
pub fn narrow_swath_into(
    store: &mut SwathStore,
    old_swath: &Swath,
    fresh: &[u8],
    expr: &ScanExpr,
    endianness: Endianness,
    floats: &[FloatVerdicts],
)
    requires
        old(store).wf(),
        floats@.len() == old_swath.entries@.len(),
        old_swath.first_byte_in_child + old_swath.entries@.len() <= usize::MAX,
    ensures
        final(store).wf(),
        final(store).pairs() == insert_pairs(old(store).pairs(), record_pairs(
            narrow_from(*old_swath, fresh@, *expr, reads_little(endianness), floats@, 0),
        )),
{
    let records = narrow_swath(old_swath, fresh, expr, endianness, floats);
    proof {
        lemma_narrow_addresses(*old_swath, fresh@, *expr, reads_little(endianness), floats@, 0);
    }
    record_all(store, records.as_slice());
}

/// What refreshing `old_swath` with `fresh`, the bytes now at its first addresses, records:
/// each fresh byte at its address, with the flags recorded there before.
pub open spec fn refresh_records(old_swath: Swath, fresh: Seq<u8>) -> Seq<(int, SwathEntry)> {
    Seq::new(
        fresh.len(),
        |i: int|
            (
                old_swath.first_byte_in_child + i,
                SwathEntry { old_value: fresh[i], flags: old_swath.entries@[i].flags },
            ),
    )
}

/// Records into `store` the fresh value of every byte of `old_swath`, keeping its flags.
pub fn refresh_swath_into(store: &mut SwathStore, old_swath: &Swath, fresh: &[u8])
    requires
        old(store).wf(),
        fresh@.len() <= old_swath.entries@.len(),
        old_swath.first_byte_in_child + old_swath.entries@.len() <= usize::MAX,
    ensures
        final(store).wf(),
        final(store).pairs() == insert_pairs(old(store).pairs(), refresh_records(*old_swath, fresh@)),
{
    let ghost start = store.pairs();
    let mut i: usize = 0;
    while i < fresh.len()
        invariant
            0 <= i <= fresh@.len() <= old_swath.entries@.len(),
            old_swath.first_byte_in_child + old_swath.entries@.len() <= usize::MAX,
            store.wf(),
            store.pairs() == insert_pairs(start, refresh_records(*old_swath, fresh@).take(i as int)),
        decreases fresh@.len() - i,
    {
        store.add(old_swath.address_of(i), fresh[i], old_swath.entries[i].flags);
        proof {
            let q = refresh_records(*old_swath, fresh@).take(i + 1);
            assert(q =~= refresh_records(
                *old_swath,
                fresh@,
            ).take(i as int).push(refresh_records(*old_swath, fresh@)[i as int]));
            assert(q.drop_last() =~= refresh_records(*old_swath, fresh@).take(i as int));
        }
        i = i + 1;
    }
    proof {
        assert(refresh_records(*old_swath, fresh@).take(fresh@.len() as int) =~= refresh_records(
            *old_swath,
            fresh@,
        ));
    }
}


/// One region of a first scan: `read` is what reading its bytes from `base` gave (`None` when
/// the region could not be read). Bytes that were read, and whose addresses all fit, are scanned
/// into `store`; otherwise the region is skipped and `store` stays as it was.
pub fn first_scan_step(
    store: &mut SwathStore,
    base: usize,
    read: Option<&[u8]>,
    expr: &ScanExpr,
    endianness: Endianness,
    floats: &[FloatVerdicts],
)
    requires
        old(store).wf(),
        read matches Some(b) ==> floats@.len() == b@.len(),
    ensures
        final(store).wf(),
        match read {
            Some(b) => if base + b@.len() <= usize::MAX {
                final(store).pairs() == insert_pairs(old(store).pairs(), record_pairs(
                    chunk_state(
                        base as int,
                        b@,
                        *expr,
                        reads_little(endianness),
                        usize::MAX as int,
                        floats@,
                        b@.len() as int,
                    ).0,
                ))
            } else {
                *final(store) == *old(store)
            },
            None => *final(store) == *old(store),
        },
{
    if let Some(bytes) = read {
        if base.checked_add(bytes.len()).is_some() {
            scan_region_into(store, base, bytes, expr, endianness, floats);
        }
    }
}

/// One swath of a narrowing scan: `read` is what reading the bytes at `old_swath`'s addresses
/// gave (`None` when they could not be read). What the swath keeps is recorded into `store`
/// when they were read; otherwise the swath is dropped and `store` stays as it was.
pub fn narrow_step(
    store: &mut SwathStore,
    old_swath: &Swath,
    read: Option<&[u8]>,
    expr: &ScanExpr,
    endianness: Endianness,
    floats: &[FloatVerdicts],
)
    requires
        old(store).wf(),
        read is Some ==> floats@.len() == old_swath.entries@.len(),
    ensures
        final(store).wf(),
        match read {
            Some(b) => if old_swath.first_byte_in_child + old_swath.entries@.len() <= usize::MAX {
                final(store).pairs() == insert_pairs(old(store).pairs(), record_pairs(
                    narrow_from(*old_swath, b@, *expr, reads_little(endianness), floats@, 0),
                ))
            } else {
                *final(store) == *old(store)
            },
            None => *final(store) == *old(store),
        },
{
    if let Some(fresh) = read {
        if old_swath.first_byte_in_child.checked_add(old_swath.entries.len()).is_some() {
            narrow_swath_into(store, old_swath, fresh, expr, endianness, floats);
        }
    }
}

/// One swath of a refresh: `read` is what reading the bytes at `old_swath`'s addresses gave
/// (`None` when they could not be read). Fresh bytes, no more than the swath holds, are
/// recorded into `store` with the swath's flags; otherwise the swath is dropped and `store`
/// stays as it was.
pub fn refresh_step(store: &mut SwathStore, old_swath: &Swath, read: Option<&[u8]>)
    requires
        old(store).wf(),
    ensures
        final(store).wf(),
        match read {
            Some(b) => if b@.len() <= old_swath.entries@.len() && old_swath.first_byte_in_child
                + old_swath.entries@.len() <= usize::MAX {
                final(store).pairs() == insert_pairs(
                    old(store).pairs(),
                    refresh_records(*old_swath, b@),
                )
            } else {
                *final(store) == *old(store)
            },
            None => *final(store) == *old(store),
        },
{
    if let Some(fresh) = read {
        if fresh.len() <= old_swath.entries.len() && old_swath.first_byte_in_child.checked_add(
            old_swath.entries.len(),
        ).is_some() {
            refresh_swath_into(store, old_swath, fresh);
        }
    }
}

/// Whether a scan with `filter` considers `region` (see [`RegionFilter::includes`]).
pub open spec fn considers(filter: RegionFilter, region: Region) -> bool {
    region.perms.read && (filter == RegionFilter::All || region.perms.write)
}

/// The indices of the regions among `regions` that a scan with `filter` considers, in order.
pub fn considered_regions(filter: RegionFilter, regions: &[Region]) -> (r: Vec<usize>)
    ensures
        forall|j: int|
            0 <= j < r@.len() ==> #[trigger] r@[j] < regions@.len() && considers(
                filter,
                regions@[r@[j] as int],
            ),
        forall|j: int, k: int| 0 <= j < k < r@.len() ==> r@[j] < r@[k],
        forall|i: int|
            0 <= i < regions@.len() && considers(filter, #[trigger] regions@[i]) ==> r@.contains(
                i as usize,
            ),
{
    let mut out: Vec<usize> = Vec::new();
    let mut i: usize = 0;
    while i < regions.len()
        invariant
            0 <= i <= regions@.len(),
            forall|j: int|
                0 <= j < out@.len() ==> #[trigger] out@[j] < i && considers(
                    filter,
                    regions@[out@[j] as int],
                ),
            forall|j: int, k: int| 0 <= j < k < out@.len() ==> out@[j] < out@[k],
            forall|m: int|
                0 <= m < i && considers(filter, #[trigger] regions@[m]) ==> out@.contains(
                    m as usize,
                ),
        decreases regions@.len() - i,
    {
        if filter.includes(&regions[i]) {
            let ghost before = out@;
            out.push(i);
            proof {
                assert(out@[out@.len() - 1] == i);
                assert forall|m: int|
                    0 <= m < i + 1 && considers(filter, #[trigger] regions@[m]) implies out@.contains(
                    m as usize,
                ) by {
                    if m < i {
                        let w = choose|w: int| 0 <= w < before.len() && before[w] == m as usize;
                        assert(out@[w] == m as usize);
                    } else {
                        assert(out@[out@.len() - 1] == m as usize);
                    }
                }
            }
        }
        i = i + 1;
    }
    out
}

} // verus!
