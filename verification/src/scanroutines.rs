//! Scan-match routines: decoding numbers out of raw memory in a chosen byte order, and testing a
//! memory position against a match type and criterion.
//!
//! Integer widths are decided here. Floating-point comparison is not: for the two float widths,
//! the caller supplies whether the float interpretation matched ([`FloatVerdicts`]) and this
//! module decides everything else (which widths a data type covers, which widths fit in the
//! bytes available, and the resulting width/flags).

use vstd::prelude::*;

use vstd::string::StringSliceAdditionalSpecFns;

use crate::value::{ByteOrWildcard, MatchFlags, NumberValue};

verus! {

/// Byte order to interpret raw memory in.
#[derive(Debug, Clone, Copy, PartialEq, Eq, Structural)]
pub enum Endianness {
    /// The host's native byte order.
    Native,
    /// The host's byte order reversed, e.g. to scan a target of the opposite endianness.
    Swapped,
}

/// How a memory value is compared.
#[derive(Debug, Clone, Copy, PartialEq, Eq, Structural)]
pub enum MatchType {
    /// Matches unconditionally; used for an initial, unconstrained scan.
    Any,
    EqualTo,
    NotEqualTo,
    GreaterThan,
    LessThan,
    Range,
    /// Matches whenever a value existed for this width in the previous scan.
    Update,
    NotChanged,
    Changed,
    Increased,
    Decreased,
    IncreasedBy,
    DecreasedBy,
}

/// Which interpretation(s) of memory a scan considers.
#[derive(Debug, Clone, Copy, PartialEq, Eq, Structural)]
pub enum ScanDataType {
    AnyNumber,
    AnyInteger,
    AnyFloat,
    Integer8,
    Integer16,
    Integer32,
    Integer64,
    Float32,
    Float64,
    ByteArray,
    String,
}

/// A user- or previous-scan-supplied criterion a decoded memory value is compared against.
#[derive(Debug, Clone, Copy, PartialEq, Eq)]
pub enum NumberCriterion<T> {
    /// No comparison value.
    Absent,
    Value(T),
    Range(T, T),
}

impl<T: Copy> NumberCriterion<T> {
    /// The single comparison value, if this is one.
    pub fn value(&self) -> (r: Option<T>)
        ensures
            r == (match *self {
                NumberCriterion::Value(v) => Some(v),
                _ => None,
            }),
    {
        match self {
            NumberCriterion::Value(v) => Some(*v),
            _ => None,
        }
    }

    /// The inclusive bounds, if this is a range.
    pub fn range(&self) -> (r: Option<(T, T)>)
        ensures
            r == (match *self {
                NumberCriterion::Range(lo, hi) => Some((lo, hi)),
                _ => None,
            }),
    {
        match self {
            NumberCriterion::Range(lo, hi) => Some((*lo, *hi)),
            _ => None,
        }
    }
}

/// Whether the memory value `m` matches, given the previous value `old` and criterion `c`.
pub open spec fn number_matches(m: int, old: Option<int>, mt: MatchType, c: NumberCriterion<int>) -> bool {
    match mt {
        MatchType::Any => true,
        MatchType::EqualTo => c matches NumberCriterion::Value(v) && m == v,
        MatchType::NotEqualTo => c matches NumberCriterion::Value(v) && m != v,
        MatchType::GreaterThan => c matches NumberCriterion::Value(v) && m > v,
        MatchType::LessThan => c matches NumberCriterion::Value(v) && m < v,
        MatchType::Range => c matches NumberCriterion::Range(lo, hi) && lo <= m <= hi,
        MatchType::Update => old is Some,
        MatchType::NotChanged => old matches Some(o) && m == o,
        MatchType::Changed => old matches Some(o) && m != o,
        MatchType::Increased => old matches Some(o) && m > o,
        MatchType::Decreased => old matches Some(o) && m < o,
        MatchType::IncreasedBy => old matches Some(o) && c matches NumberCriterion::Value(d) && m == o + d,
        MatchType::DecreasedBy => old matches Some(o) && c matches NumberCriterion::Value(d) && m == o - d,
    }
}

/// Compares one decoded integer memory value against `old`/`criterion` for `match_type`. Every
/// integer width is widened to `i128` first; `IncreasedBy`/`DecreasedBy` compare against the
/// exact sum/difference.
pub fn matches_number(
    memory: i128,
    old: Option<i128>,
    match_type: MatchType,
    criterion: NumberCriterion<i128>,
) -> (r: bool)
    requires
        i64::MIN <= memory <= u64::MAX,
        old matches Some(o) ==> i64::MIN <= o <= u64::MAX,
        criterion matches NumberCriterion::Value(v) ==> i64::MIN <= v <= u64::MAX,
    ensures
        r == number_matches(
            memory as int,
            match old {
                Some(o) => Some(o as int),
                None => None,
            },
            match_type,
            match criterion {
                NumberCriterion::Absent => NumberCriterion::Absent,
                NumberCriterion::Value(v) => NumberCriterion::Value(v as int),
                NumberCriterion::Range(lo, hi) => NumberCriterion::Range(lo as int, hi as int),
            },
        ),
{
    match match_type {
        MatchType::Any => true,
        MatchType::EqualTo => match criterion.value() {
            Some(c) => memory == c,
            None => false,
        },
        MatchType::NotEqualTo => match criterion.value() {
            Some(c) => memory != c,
            None => false,
        },
        MatchType::GreaterThan => match criterion.value() {
            Some(c) => memory > c,
            None => false,
        },
        MatchType::LessThan => match criterion.value() {
            Some(c) => memory < c,
            None => false,
        },
        MatchType::Range => match criterion.range() {
            Some((lo, hi)) => memory >= lo && memory <= hi,
            None => false,
        },
        MatchType::Update => old.is_some(),
        MatchType::NotChanged => match old {
            Some(o) => memory == o,
            None => false,
        },
        MatchType::Changed => match old {
            Some(o) => memory != o,
            None => false,
        },
        MatchType::Increased => match old {
            Some(o) => memory > o,
            None => false,
        },
        MatchType::Decreased => match old {
            Some(o) => memory < o,
            None => false,
        },
        MatchType::IncreasedBy => match (old, criterion.value()) {
            (Some(o), Some(d)) => memory == o + d,
            _ => false,
        },
        MatchType::DecreasedBy => match (old, criterion.value()) {
            (Some(o), Some(d)) => memory == o - d,
            _ => false,
        },
    }
}

/// The big-endian value of `s`: first byte most significant.
pub open spec fn be_value(s: Seq<u8>) -> nat
    decreases s.len(),
{
    if s.len() == 0 {
        0
    } else {
        be_value(s.drop_last()) * 256 + s.last() as nat
    }
}

/// The value of `s` read little-endian (`little`) or big-endian.
pub open spec fn unsigned_of(s: Seq<u8>, little: bool) -> nat {
    if little {
        be_value(s.reverse())
    } else {
        be_value(s)
    }
}

/// `256` to the power `n`.
pub open spec fn pow256(n: nat) -> nat
    decreases n,
{
    if n == 0 {
        1
    } else {
        256 * pow256((n - 1) as nat)
    }
}

proof fn lemma_be_bound(s: Seq<u8>)
    ensures
        be_value(s) < pow256(s.len()),
    decreases s.len(),
{
    if s.len() > 0 {
        lemma_be_bound(s.drop_last());
        let p = pow256((s.len() - 1) as nat);
        let v = be_value(s.drop_last());
        assert(v * 256 + 255 < p * 256) by (nonlinear_arith)
            requires
                v < p,
        ;
    }
}

/// Whether the host stores integers least significant byte first.
pub open spec fn host_little() -> bool {
    vstd::endian::endianness() is Little
}

/// Whether `endianness` means reading memory least significant byte first.
pub open spec fn reads_little(endianness: Endianness) -> bool {
    match endianness {
        Endianness::Native => host_little(),
        Endianness::Swapped => !host_little(),
    }
}

/// `u16::from_ne_bytes([b0, b1])`: the two bytes read in the host's byte order.
#[verifier::external_body]
fn u16_from_ne_bytes(b0: u8, b1: u8) -> (r: u16)
    ensures
        host_little() ==> r == b0 + 256 * b1,
        !host_little() ==> r == 256 * b0 + b1,
{
    u16::from_ne_bytes([b0, b1])
}

/// Whether memory in `endianness` order is read least significant byte first.
pub fn is_little(endianness: Endianness) -> (r: bool)
    ensures
        r == reads_little(endianness),
{
    let probe = u16_from_ne_bytes(1, 0);
    let host = probe == 1;
    match endianness {
        Endianness::Native => host,
        Endianness::Swapped => !host,
    }
}

/// The unsigned value of the first `width` bytes of `bytes`, least significant first when
/// `little`.
pub fn decode_unsigned(bytes: &[u8], width: usize, little: bool) -> (r: u64)
    requires
        1 <= width <= 8,
        width <= bytes@.len(),
    ensures
        r == unsigned_of(bytes@.take(width as int), little),
{
    let ghost s = bytes@.take(width as int);
    let mut acc: u64 = 0;
    if little {
        let mut i = width;
        while i > 0
            invariant
                0 <= i <= width <= 8,
                width <= bytes@.len(),
                s == bytes@.take(width as int),
                acc == be_value(s.subrange(i as int, width as int).reverse()),
            decreases i,
        {
            i = i - 1;
            proof {
                let t = s.subrange(i + 1, width as int).reverse();
                let u = s.subrange(i as int, width as int).reverse();
                assert(u.drop_last() =~= t);
                assert(u.last() == bytes@[i as int]);
                lemma_be_bound(t);
                assert(t.len() <= 7);
                lemma_pow256_mono(t.len(), 7);
                lemma_pow256_values();
            }
            acc = acc * 256 + bytes[i] as u64;
        }
        proof {
            assert(s.subrange(0, width as int) =~= s);
        }
    } else {
        let mut i: usize = 0;
        while i < width
            invariant
                0 <= i <= width <= 8,
                width <= bytes@.len(),
                s == bytes@.take(width as int),
                acc == be_value(s.take(i as int)),
            decreases width - i,
        {
            proof {
                let t = s.take(i as int);
                assert(s.take(i + 1).drop_last() =~= t);
                assert(s.take(i + 1).last() == bytes@[i as int]);
                lemma_be_bound(t);
                lemma_pow256_mono(t.len(), 7);
                lemma_pow256_values();
            }
            acc = acc * 256 + bytes[i] as u64;
            i = i + 1;
        }
        proof {
            assert(s.take(width as int) =~= s);
        }
    }
    acc
}

proof fn lemma_pow256_values()
    ensures
        pow256(1) == 256,
        pow256(2) == 65536,
        pow256(4) == 4294967296,
        pow256(7) == 72057594037927936,
        pow256(8) == 18446744073709551616,
{
    assert(pow256(0) == 1);
    assert(pow256(1) == 256);
    assert(pow256(2) == 65536);
    assert(pow256(3) == 16777216);
    assert(pow256(4) == 4294967296);
    assert(pow256(5) == 1099511627776);
    assert(pow256(6) == 281474976710656);
    assert(pow256(7) == 72057594037927936);
    assert(pow256(8) == 18446744073709551616);
}

/// The powers of 256 at the widths used.
pub proof fn lemma_pow256_values_pub()
    ensures
        pow256(1) == 256,
        pow256(2) == 65536,
        pow256(4) == 4294967296,
        pow256(8) == 18446744073709551616,
{
    lemma_pow256_values();
}

proof fn lemma_pow256_mono(a: nat, b: nat)
    requires
        a <= b,
    ensures
        pow256(a) <= pow256(b),
    decreases b,
{
    if a < b {
        lemma_pow256_mono(a, (b - 1) as nat);
    }
}

/// The number of bytes of width `k`, in the flag order `u8, i8, u16, i16, u32, i32, u64, i64`,
/// then the 32-bit and 64-bit floats.
pub open spec fn width_bytes(k: int) -> nat {
    if k < 2 {
        1
    } else if k < 4 {
        2
    } else if k < 6 {
        4
    } else if k < 8 {
        8
    } else if k == 8 {
        4
    } else {
        8
    }
}

/// The unsigned value `u` of `w` bytes as two's complement.
pub open spec fn signed_from(u: nat, w: nat) -> int {
    if u >= pow256(w) / 2 {
        u - pow256(w)
    } else {
        u as int
    }
}

/// Integer width `k < 8` of `memory`, read in `little` order (odd `k` are signed).
pub open spec fn int_value_at(memory: Seq<u8>, k: int, little: bool) -> int {
    let u = unsigned_of(memory.take(width_bytes(k) as int), little);
    if k % 2 == 1 {
        signed_from(u, width_bytes(k))
    } else {
        u as int
    }
}

/// Integer width `k < 8` of a number, if populated.
pub open spec fn field_of(n: NumberValue, k: int) -> Option<int> {
    if k == 0 {
        match n.u8 { Some(v) => Some(v as int), None => None }
    } else if k == 1 {
        match n.i8 { Some(v) => Some(v as int), None => None }
    } else if k == 2 {
        match n.u16 { Some(v) => Some(v as int), None => None }
    } else if k == 3 {
        match n.i16 { Some(v) => Some(v as int), None => None }
    } else if k == 4 {
        match n.u32 { Some(v) => Some(v as int), None => None }
    } else if k == 5 {
        match n.i32 { Some(v) => Some(v as int), None => None }
    } else if k == 6 {
        match n.u64 { Some(v) => Some(v as int), None => None }
    } else {
        match n.i64 { Some(v) => Some(v as int), None => None }
    }
}

/// The criterion integer width `k` is compared against: both bounds of `range` for a range
/// match, else the single value of `user`; none where that width is absent.
pub open spec fn criterion_at(
    k: int,
    mt: MatchType,
    user: Option<NumberValue>,
    range: Option<(NumberValue, NumberValue)>,
) -> NumberCriterion<int> {
    if mt == MatchType::Range {
        match range {
            Some((lo, hi)) => match (field_of(lo, k), field_of(hi, k)) {
                (Some(a), Some(b)) => NumberCriterion::Range(a, b),
                _ => NumberCriterion::Absent,
            },
            None => NumberCriterion::Absent,
        }
    } else {
        match user {
            Some(u) => match field_of(u, k) {
                Some(v) => NumberCriterion::Value(v),
                None => NumberCriterion::Absent,
            },
            None => NumberCriterion::Absent,
        }
    }
}

/// Whether the data type considers width `k`.
pub open spec fn type_has_width(dt: ScanDataType, k: int) -> bool {
    match dt {
        ScanDataType::Integer8 => k == 0 || k == 1,
        ScanDataType::Integer16 => k == 2 || k == 3,
        ScanDataType::Integer32 => k == 4 || k == 5,
        ScanDataType::Integer64 => k == 6 || k == 7,
        ScanDataType::Float32 => k == 8,
        ScanDataType::Float64 => k == 9,
        ScanDataType::AnyInteger => 0 <= k < 8,
        ScanDataType::AnyFloat => k == 8 || k == 9,
        ScanDataType::AnyNumber => 0 <= k < 10,
        ScanDataType::ByteArray => false,
        ScanDataType::String => false,
    }
}

/// Whether each float interpretation of the memory position matched, decided by the caller
/// with floating-point comparison.
#[derive(Debug, Clone, Copy, PartialEq, Eq, Structural)]
pub struct FloatVerdicts {
    pub float32_matched: bool,
    pub float64_matched: bool,
}

/// Whether width `k` matched at `memory`.
pub open spec fn width_hit(
    k: int,
    memory: Seq<u8>,
    dt: ScanDataType,
    mt: MatchType,
    little: bool,
    old: Option<NumberValue>,
    user: Option<NumberValue>,
    range: Option<(NumberValue, NumberValue)>,
    floats: FloatVerdicts,
) -> bool {
    &&& type_has_width(dt, k)
    &&& memory.len() >= width_bytes(k)
    &&& if k == 8 {
        floats.float32_matched
    } else if k == 9 {
        floats.float64_matched
    } else {
        number_matches(
            int_value_at(memory, k, little),
            match old {
                Some(o) => field_of(o, k),
                None => None,
            },
            mt,
            criterion_at(k, mt, user, range),
        )
    }
}

/// The flag bit of width `k`.
pub open spec fn bit_of(k: int) -> u16 {
    if k == 0 { 0x1 } else if k == 1 { 0x2 } else if k == 2 { 0x4 } else if k == 3 { 0x8 }
    else if k == 4 { 0x10 } else if k == 5 { 0x20 } else if k == 6 { 0x40 } else if k == 7 { 0x80 }
    else if k == 8 { 0x100 } else { 0x200 }
}

/// The flags and widest width (in bytes) among widths `0..n` that matched.
pub open spec fn hits_upto(
    n: int,
    memory: Seq<u8>,
    dt: ScanDataType,
    mt: MatchType,
    little: bool,
    old: Option<NumberValue>,
    user: Option<NumberValue>,
    range: Option<(NumberValue, NumberValue)>,
    floats: FloatVerdicts,
) -> (u16, nat)
    decreases n,
{
    if n <= 0 {
        (0, 0)
    } else {
        let (bits, best) = hits_upto(n - 1, memory, dt, mt, little, old, user, range, floats);
        if width_hit(n - 1, memory, dt, mt, little, old, user, range, floats) {
            (bits | bit_of(n - 1), if width_bytes(n - 1) > best { width_bytes(n - 1) } else { best })
        } else {
            (bits, best)
        }
    }
}

proof fn lemma_hits_best_bound(
    n: int,
    memory: Seq<u8>,
    dt: ScanDataType,
    mt: MatchType,
    little: bool,
    old: Option<NumberValue>,
    user: Option<NumberValue>,
    range: Option<(NumberValue, NumberValue)>,
    floats: FloatVerdicts,
)
    ensures
        hits_upto(n, memory, dt, mt, little, old, user, range, floats).1 <= memory.len(),
        hits_upto(n, memory, dt, mt, little, old, user, range, floats).1 <= 8,
    decreases n,
{
    if n > 0 {
        lemma_hits_best_bound(n - 1, memory, dt, mt, little, old, user, range, floats);
    }
}

/// A numeric scan never reports a width wider than the memory it was given.
pub proof fn lemma_scan_width_bound(
    memory: Seq<u8>,
    dt: ScanDataType,
    mt: MatchType,
    little: bool,
    old: Option<NumberValue>,
    user: Option<NumberValue>,
    range: Option<(NumberValue, NumberValue)>,
    floats: FloatVerdicts,
)
    ensures
        scan_spec(memory, dt, mt, little, old, user, range, floats) matches Some((w, f)) ==> 1 <= w
            <= memory.len() && w <= 8,
{
    lemma_hits_best_bound(10, memory, dt, mt, little, old, user, range, floats);
}

/// What [`scan`] returns: the widest matching width in bytes and which widths matched, or
/// nothing when no width matched.
pub open spec fn scan_spec(
    memory: Seq<u8>,
    dt: ScanDataType,
    mt: MatchType,
    little: bool,
    old: Option<NumberValue>,
    user: Option<NumberValue>,
    range: Option<(NumberValue, NumberValue)>,
    floats: FloatVerdicts,
) -> Option<(usize, MatchFlags)> {
    let (bits, best) = hits_upto(10, memory, dt, mt, little, old, user, range, floats);
    if best > 0 {
        Some((best as usize, MatchFlags { bits }))
    } else {
        None
    }
}

/// Integer width `k` of `n` as an `i128`.
fn field_at(n: &NumberValue, k: usize) -> (r: Option<i128>)
    requires
        k < 8,
    ensures
        r == (match field_of(*n, k as int) {
            Some(v) => Some(v as i128),
            None => None,
        }),
        field_of(*n, k as int) matches Some(v) ==> i64::MIN <= v <= u64::MAX,
{
    if k == 0 {
        match n.u8 { Some(v) => Some(v as i128), None => None }
    } else if k == 1 {
        match n.i8 { Some(v) => Some(v as i128), None => None }
    } else if k == 2 {
        match n.u16 { Some(v) => Some(v as i128), None => None }
    } else if k == 3 {
        match n.i16 { Some(v) => Some(v as i128), None => None }
    } else if k == 4 {
        match n.u32 { Some(v) => Some(v as i128), None => None }
    } else if k == 5 {
        match n.i32 { Some(v) => Some(v as i128), None => None }
    } else if k == 6 {
        match n.u64 { Some(v) => Some(v as i128), None => None }
    } else {
        match n.i64 { Some(v) => Some(v as i128), None => None }
    }
}

/// The byte count of width `k`.
fn bytes_of_width(k: usize) -> (r: usize)
    requires
        k < 10,
    ensures
        r == width_bytes(k as int),
{
    if k < 2 {
        1
    } else if k < 4 {
        2
    } else if k < 6 {
        4
    } else if k < 8 {
        8
    } else if k == 8 {
        4
    } else {
        8
    }
}

/// The flag bit of width `k`.
fn flag_bit(k: usize) -> (r: u16)
    requires
        k < 10,
    ensures
        r == bit_of(k as int),
{
    if k == 0 { 0x1 } else if k == 1 { 0x2 } else if k == 2 { 0x4 } else if k == 3 { 0x8 }
    else if k == 4 { 0x10 } else if k == 5 { 0x20 } else if k == 6 { 0x40 } else if k == 7 { 0x80 }
    else if k == 8 { 0x100 } else { 0x200 }
}

/// Whether the data type considers width `k`.
fn has_width(dt: ScanDataType, k: usize) -> (r: bool)
    ensures
        r == type_has_width(dt, k as int),
{
    match dt {
        ScanDataType::Integer8 => k == 0 || k == 1,
        ScanDataType::Integer16 => k == 2 || k == 3,
        ScanDataType::Integer32 => k == 4 || k == 5,
        ScanDataType::Integer64 => k == 6 || k == 7,
        ScanDataType::Float32 => k == 8,
        ScanDataType::Float64 => k == 9,
        ScanDataType::AnyInteger => k < 8,
        ScanDataType::AnyFloat => k == 8 || k == 9,
        ScanDataType::AnyNumber => k < 10,
        ScanDataType::ByteArray => false,
        ScanDataType::String => false,
    }
}

/// Integer width `k` of `memory` as an `i128`.
fn int_at(memory: &[u8], k: usize, little: bool) -> (r: i128)
    requires
        k < 8,
        memory@.len() >= width_bytes(k as int),
    ensures
        r == int_value_at(memory@, k as int, little),
        i64::MIN <= r <= u64::MAX,
{
    let w = bytes_of_width(k);
    let u = decode_unsigned(memory, w, little);
    proof {
        lemma_be_bound(memory@.take(w as int));
        lemma_be_bound(memory@.take(w as int).reverse());
        lemma_pow256_values();
    }
    if k % 2 == 1 {
        let full: i128 = if w == 1 {
            0x100
        } else if w == 2 {
            0x1_0000
        } else if w == 4 {
            0x1_0000_0000
        } else {
            0x1_0000_0000_0000_0000
        };
        if (u as i128) >= full / 2 {
            (u as i128) - full
        } else {
            u as i128
        }
    } else {
        u as i128
    }
}

/// Whether width `k` matched at `memory`.
fn try_width(
    k: usize,
    memory: &[u8],
    data_type: ScanDataType,
    match_type: MatchType,
    little: bool,
    old: Option<&NumberValue>,
    user: Option<&NumberValue>,
    user_range: Option<(&NumberValue, &NumberValue)>,
    floats: FloatVerdicts,
) -> (r: bool)
    requires
        k < 10,
    ensures
        r == width_hit(
            k as int,
            memory@,
            data_type,
            match_type,
            little,
            match old { Some(o) => Some(*o), None => None },
            match user { Some(u) => Some(*u), None => None },
            match user_range { Some((lo, hi)) => Some((*lo, *hi)), None => None },
            floats,
        ),
{
    if !has_width(data_type, k) {
        return false;
    }
    if memory.len() < bytes_of_width(k) {
        return false;
    }
    if k == 8 {
        return floats.float32_matched;
    }
    if k == 9 {
        return floats.float64_matched;
    }
    let mem_val = int_at(memory, k, little);
    let old_val = match old {
        Some(o) => field_at(o, k),
        None => None,
    };
    let criterion = if match_type == MatchType::Range {
        match user_range {
            Some((lo, hi)) => match (field_at(lo, k), field_at(hi, k)) {
                (Some(a), Some(b)) => NumberCriterion::Range(a, b),
                _ => NumberCriterion::Absent,
            },
            None => NumberCriterion::Absent,
        }
    } else {
        match user {
            Some(u) => match field_at(u, k) {
                Some(v) => NumberCriterion::Value(v),
                None => NumberCriterion::Absent,
            },
            None => NumberCriterion::Absent,
        }
    };
    matches_number(mem_val, old_val, match_type, criterion)
}

/// Scans one memory position for a numeric [`ScanDataType`], returning the widest matching width
/// in bytes and which specific widths matched, or `None` if nothing matched (or `data_type` is
/// [`ScanDataType::ByteArray`]/[`ScanDataType::String`]). `user_range` supplies the bounds for
/// [`MatchType::Range`]; `user` supplies the comparison value (or, for
/// `IncreasedBy`/`DecreasedBy`, the delta) for every other value-comparing match type; `floats`
/// supplies the float widths' comparison outcomes.
pub fn scan(
    memory: &[u8],
    data_type: ScanDataType,
    match_type: MatchType,
    endianness: Endianness,
    old: Option<&NumberValue>,
    user: Option<&NumberValue>,
    user_range: Option<(&NumberValue, &NumberValue)>,
    floats: FloatVerdicts,
) -> (r: Option<(usize, MatchFlags)>)
    ensures
        r == scan_spec(
            memory@,
            data_type,
            match_type,
            reads_little(endianness),
            match old { Some(o) => Some(*o), None => None },
            match user { Some(u) => Some(*u), None => None },
            match user_range { Some((lo, hi)) => Some((*lo, *hi)), None => None },
            floats,
        ),
{
    let little = is_little(endianness);
    let ghost o = match old { Some(o) => Some(*o), None => None };
    let ghost u = match user { Some(u) => Some(*u), None => None };
    let ghost g = match user_range { Some((lo, hi)) => Some((*lo, *hi)), None => None };
    let mut bits: u16 = 0;
    let mut best: usize = 0;
    let mut k: usize = 0;
    while k < 10
        invariant
            0 <= k <= 10,
            little == reads_little(endianness),
            o == (match old { Some(o) => Some(*o), None => None }),
            u == (match user { Some(u) => Some(*u), None => None }),
            g == (match user_range { Some((lo, hi)) => Some((*lo, *hi)), None => None }),
            (bits, best as nat) == hits_upto(k as int, memory@, data_type, match_type, little, o, u, g, floats),
            best <= 8,
        decreases 10 - k,
    {
        if try_width(k, memory, data_type, match_type, little, old, user, user_range, floats) {
            bits = bits | flag_bit(k);
            let w = bytes_of_width(k);
            if w > best {
                best = w;
            }
        }
        k = k + 1;
    }
    if best > 0 {
        Some((best, MatchFlags { bits }))
    } else {
        None
    }
}

/// Matches a fixed byte pattern (with `??` wildcards) at the start of `memory`.
pub open spec fn bytearray_matches(memory: Seq<u8>, pattern: Seq<ByteOrWildcard>) -> bool {
    memory.len() >= pattern.len() && forall|i: int|
        0 <= i < pattern.len() ==> (#[trigger] pattern[i] matches ByteOrWildcard::Fixed(b) ==> b
            == memory[i])
}

/// Matches a fixed byte pattern (with `??` wildcards) at the start of `memory`, returning the
/// pattern's length on a match.
pub fn scan_bytearray(memory: &[u8], pattern: &[ByteOrWildcard]) -> (r: Option<usize>)
    ensures
        r == (if bytearray_matches(memory@, pattern@) {
            Some(pattern@.len() as usize)
        } else {
            None
        }),
{
    if memory.len() < pattern.len() {
        return None;
    }
    let mut i: usize = 0;
    while i < pattern.len()
        invariant
            0 <= i <= pattern@.len() <= memory@.len(),
            forall|j: int|
                0 <= j < i ==> (#[trigger] pattern@[j] matches ByteOrWildcard::Fixed(b) ==> b
                    == memory@[j]),
        decreases pattern@.len() - i,
    {
        match pattern[i] {
            ByteOrWildcard::Fixed(b) => {
                if b != memory[i] {
                    return None;
                }
            },
            ByteOrWildcard::Wildcard => {},
        }
        i = i + 1;
    }
    Some(pattern.len())
}

/// Matches a fixed string (its UTF-8 bytes) at the start of `memory`, returning its byte
/// length on a match.
pub fn scan_string(memory: &[u8], pattern: &str) -> (r: Option<usize>)
    ensures
        r == (if memory@.len() >= pattern.spec_bytes().len() && memory@.take(
            pattern.spec_bytes().len() as int,
        ) == pattern.spec_bytes() {
            Some(pattern.spec_bytes().len() as usize)
        } else {
            None
        }),
{
    let p = pattern.as_bytes();
    if memory.len() < p.len() {
        return None;
    }
    let mut i: usize = 0;
    while i < p.len()
        invariant
            p@ == pattern.spec_bytes(),
            0 <= i <= p@.len() <= memory@.len(),
            forall|j: int| 0 <= j < i ==> p@[j] == memory@[j],
        decreases p@.len() - i,
    {
        if p[i] != memory[i] {
            proof {
                assert(memory@.take(p@.len() as int)[i as int] != p@[i as int]);
            }
            return None;
        }
        i = i + 1;
    }
    proof {
        assert(memory@.take(p@.len() as int) =~= p@);
    }
    Some(p.len())
}

/// Every width of `bytes` decoded in `little` order, where enough bytes are present; the float
/// widths as bit patterns.
pub open spec fn decode_spec(bytes: Seq<u8>, little: bool) -> NumberValue {
    NumberValue {
        u8: if bytes.len() >= 1 { Some(int_value_at(bytes, 0, little) as u8) } else { None },
        i8: if bytes.len() >= 1 { Some(int_value_at(bytes, 1, little) as i8) } else { None },
        u16: if bytes.len() >= 2 { Some(int_value_at(bytes, 2, little) as u16) } else { None },
        i16: if bytes.len() >= 2 { Some(int_value_at(bytes, 3, little) as i16) } else { None },
        u32: if bytes.len() >= 4 { Some(int_value_at(bytes, 4, little) as u32) } else { None },
        i32: if bytes.len() >= 4 { Some(int_value_at(bytes, 5, little) as i32) } else { None },
        u64: if bytes.len() >= 8 { Some(int_value_at(bytes, 6, little) as u64) } else { None },
        i64: if bytes.len() >= 8 { Some(int_value_at(bytes, 7, little) as i64) } else { None },
        f32_bits: if bytes.len() >= 4 { Some(int_value_at(bytes, 4, little) as u32) } else { None },
        f64_bits: if bytes.len() >= 8 { Some(int_value_at(bytes, 6, little) as u64) } else { None },
    }
}

/// Decodes every width of `bytes` that fits (reading from the start), in `endianness` order;
/// the float widths come out as bit patterns.
pub fn decode_number(bytes: &[u8], endianness: Endianness) -> (r: NumberValue)
    ensures
        r == decode_spec(bytes@, reads_little(endianness)),
{
    let little = is_little(endianness);
    let n = bytes.len();
    let mut v = NumberValue::none();
    if n >= 1 {
        v.u8 = Some(int_at(bytes, 0, little) as u8);
        v.i8 = Some(int_at(bytes, 1, little) as i8);
    }
    if n >= 2 {
        v.u16 = Some(int_at(bytes, 2, little) as u16);
        v.i16 = Some(int_at(bytes, 3, little) as i16);
    }
    if n >= 4 {
        v.u32 = Some(int_at(bytes, 4, little) as u32);
        v.i32 = Some(int_at(bytes, 5, little) as i32);
        v.f32_bits = Some(int_at(bytes, 4, little) as u32);
    }
    if n >= 8 {
        v.u64 = Some(int_at(bytes, 6, little) as u64);
        v.i64 = Some(int_at(bytes, 7, little) as i64);
        v.f64_bits = Some(int_at(bytes, 6, little) as u64);
    }
    v
}

} // verus!
