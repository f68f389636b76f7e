//! Values as read from or written to target memory, values as typed by the user, and the
//! [`MatchFlags`] set recording which numeric interpretations matched.
//!
//! Floating-point widths are carried as their IEEE-754 bit patterns (`u32` for the 32-bit
//! width, `u64` for the 64-bit one): every float this library stores comes out of raw memory bytes or goes back into them,
//! so the bit pattern is the value.

use vstd::prelude::*;

use crate::sets::has_hex_prefix;
use crate::text::{
    chars_of, debug_quote, debug_quoted, digit_of, digit_value, parse_radix, radix_parse, trim_at,
    trim_seq,
};

verus! {

/// Which numeric width(s) a value could be interpreted as: one bit per width, in the order
/// `u8, i8, u16, i16, u32, i32, u64, i64`, then the 32-bit and 64-bit floats, from bit 0 up.
#[derive(Debug, Clone, Copy, PartialEq, Eq, Hash, Default, Structural)]
pub struct MatchFlags {
    pub bits: u16,
}

/// The bits every defined width occupies.
pub open spec fn all_bits() -> u16 {
    0x3ff
}

impl MatchFlags {
    /// The flag set with exactly `bits`.
    pub fn from_bits(bits: u16) -> (r: MatchFlags)
        ensures
            r.bits == bits,
    {
        MatchFlags { bits }
    }

    /// No width at all.
    pub fn empty() -> (r: MatchFlags)
        ensures
            r.bits == 0,
    {
        MatchFlags { bits: 0 }
    }

    /// Every defined width.
    pub fn all() -> (r: MatchFlags)
        ensures
            r.bits == all_bits(),
    {
        MatchFlags { bits: 0x3ff }
    }

    /// Unsigned 8-bit.
    pub fn u8() -> (r: MatchFlags)
        ensures
            r.bits == 0x1,
    {
        MatchFlags { bits: 0x1 }
    }

    /// Signed 8-bit.
    pub fn s8() -> (r: MatchFlags)
        ensures
            r.bits == 0x2,
    {
        MatchFlags { bits: 0x2 }
    }

    /// Unsigned 16-bit.
    pub fn u16() -> (r: MatchFlags)
        ensures
            r.bits == 0x4,
    {
        MatchFlags { bits: 0x4 }
    }

    /// Signed 16-bit.
    pub fn s16() -> (r: MatchFlags)
        ensures
            r.bits == 0x8,
    {
        MatchFlags { bits: 0x8 }
    }

    /// Unsigned 32-bit.
    pub fn u32() -> (r: MatchFlags)
        ensures
            r.bits == 0x10,
    {
        MatchFlags { bits: 0x10 }
    }

    /// Signed 32-bit.
    pub fn s32() -> (r: MatchFlags)
        ensures
            r.bits == 0x20,
    {
        MatchFlags { bits: 0x20 }
    }

    /// Unsigned 64-bit.
    pub fn u64() -> (r: MatchFlags)
        ensures
            r.bits == 0x40,
    {
        MatchFlags { bits: 0x40 }
    }

    /// Signed 64-bit.
    pub fn s64() -> (r: MatchFlags)
        ensures
            r.bits == 0x80,
    {
        MatchFlags { bits: 0x80 }
    }

    /// 32-bit float.
    pub fn float32() -> (r: MatchFlags)
        ensures
            r.bits == 0x100,
    {
        MatchFlags { bits: 0x100 }
    }

    /// 64-bit float.
    pub fn float64() -> (r: MatchFlags)
        ensures
            r.bits == 0x200,
    {
        MatchFlags { bits: 0x200 }
    }

    /// Both 8-bit integer widths.
    pub fn i8() -> (r: MatchFlags)
        ensures
            r.bits == 0x3,
    {
        MatchFlags { bits: 0x3 }
    }

    /// Both 16-bit integer widths.
    pub fn i16() -> (r: MatchFlags)
        ensures
            r.bits == 0xc,
    {
        MatchFlags { bits: 0xc }
    }

    /// Both 32-bit integer widths.
    pub fn i32() -> (r: MatchFlags)
        ensures
            r.bits == 0x30,
    {
        MatchFlags { bits: 0x30 }
    }

    /// Both 64-bit integer widths.
    pub fn i64() -> (r: MatchFlags)
        ensures
            r.bits == 0xc0,
    {
        MatchFlags { bits: 0xc0 }
    }

    /// Every integer width.
    pub fn integer() -> (r: MatchFlags)
        ensures
            r.bits == 0xff,
    {
        MatchFlags { bits: 0xff }
    }

    /// Both float widths.
    pub fn float() -> (r: MatchFlags)
        ensures
            r.bits == 0x300,
    {
        MatchFlags { bits: 0x300 }
    }

    /// The raw bits.
    pub fn bits(&self) -> (r: u16)
        ensures
            r == self.bits,
    {
        self.bits
    }

    /// `true` when no width is set.
    pub fn is_empty(&self) -> (r: bool)
        ensures
            r == (self.bits == 0),
    {
        self.bits == 0
    }

    /// `true` when every width of `other` is also set here.
    pub fn contains(&self, other: MatchFlags) -> (r: bool)
        ensures
            r == (self.bits & other.bits == other.bits),
    {
        self.bits & other.bits == other.bits
    }

    /// `true` when some width is set both here and in `other`.
    pub fn intersects(&self, other: MatchFlags) -> (r: bool)
        ensures
            r == (self.bits & other.bits != 0),
    {
        self.bits & other.bits != 0
    }

    /// The widths set here or in `other`.
    pub fn union(self, other: MatchFlags) -> (r: MatchFlags)
        ensures
            r.bits == self.bits | other.bits,
    {
        MatchFlags { bits: self.bits | other.bits }
    }

    /// Adds every width of `other`.
    pub fn insert(&mut self, other: MatchFlags)
        ensures
            final(self).bits == old(self).bits | other.bits,
    {
        self.bits = self.bits | other.bits;
    }

    /// Adds (when `value`) or removes (otherwise) every width of `other`.
    pub fn set(&mut self, other: MatchFlags, value: bool)
        ensures
            final(self).bits == (if value {
                old(self).bits | other.bits
            } else {
                old(self).bits & !other.bits
            }),
    {
        if value {
            self.bits = self.bits | other.bits;
        } else {
            self.bits = self.bits & !other.bits;
        }
    }
}

impl core::ops::BitOr for MatchFlags {
    type Output = MatchFlags;

    fn bitor(self, rhs: MatchFlags) -> (r: MatchFlags) {
        MatchFlags { bits: self.bits | rhs.bits }
    }
}

impl vstd::std_specs::ops::BitOrSpecImpl for MatchFlags {
    open spec fn obeys_bitor_spec() -> bool {
        true
    }

    open spec fn bitor_req(self, rhs: MatchFlags) -> bool {
        true
    }

    open spec fn bitor_spec(self, rhs: MatchFlags) -> MatchFlags {
        MatchFlags { bits: self.bits | rhs.bits }
    }
}

/// A single concrete value, e.g. one read from target memory or a resolved match. `F32`/`F64`
/// hold IEEE-754 bit patterns.
#[derive(Debug, Clone, PartialEq)]
pub enum Value {
    U8(u8),
    I8(i8),
    U16(u16),
    I16(i16),
    U32(u32),
    I32(i32),
    U64(u64),
    I64(i64),
    F32(u32),
    F64(u64),
    Bytes(Vec<u8>),
    Str(String),
}

/// A [`Value`] with its bytes/text as sequences.
pub enum ValueView {
    U8(u8),
    I8(i8),
    U16(u16),
    I16(i16),
    U32(u32),
    I32(i32),
    U64(u64),
    I64(i64),
    F32(u32),
    F64(u64),
    Bytes(Seq<u8>),
    Str(Seq<char>),
}

impl View for Value {
    type V = ValueView;

    open spec fn view(&self) -> ValueView {
        match self {
            Value::U8(v) => ValueView::U8(*v),
            Value::I8(v) => ValueView::I8(*v),
            Value::U16(v) => ValueView::U16(*v),
            Value::I16(v) => ValueView::I16(*v),
            Value::U32(v) => ValueView::U32(*v),
            Value::I32(v) => ValueView::I32(*v),
            Value::U64(v) => ValueView::U64(*v),
            Value::I64(v) => ValueView::I64(*v),
            Value::F32(v) => ValueView::F32(*v),
            Value::F64(v) => ValueView::F64(*v),
            Value::Bytes(b) => ValueView::Bytes(b@),
            Value::Str(s) => ValueView::Str(s@),
        }
    }
}

/// The flag bit of a value's own width; none for bytes and strings.
pub open spec fn value_flag_bits(v: Value) -> u16 {
    match v {
        Value::U8(_) => 0x1,
        Value::I8(_) => 0x2,
        Value::U16(_) => 0x4,
        Value::I16(_) => 0x8,
        Value::U32(_) => 0x10,
        Value::I32(_) => 0x20,
        Value::U64(_) => 0x40,
        Value::I64(_) => 0x80,
        Value::F32(_) => 0x100,
        Value::F64(_) => 0x200,
        Value::Bytes(_) => 0,
        Value::Str(_) => 0,
    }
}

impl Value {
    /// The single [`MatchFlags`] bit this value's own width/signedness corresponds to; empty for
    /// [`Value::Bytes`] and [`Value::Str`].
    pub fn flag(&self) -> (r: MatchFlags)
        ensures
            r.bits == value_flag_bits(*self),
    {
        match self {
            Value::U8(_) => MatchFlags::u8(),
            Value::I8(_) => MatchFlags::s8(),
            Value::U16(_) => MatchFlags::u16(),
            Value::I16(_) => MatchFlags::s16(),
            Value::U32(_) => MatchFlags::u32(),
            Value::I32(_) => MatchFlags::s32(),
            Value::U64(_) => MatchFlags::u64(),
            Value::I64(_) => MatchFlags::s64(),
            Value::F32(_) => MatchFlags::float32(),
            Value::F64(_) => MatchFlags::float64(),
            Value::Bytes(_) | Value::Str(_) => MatchFlags::empty(),
        }
    }
}

/// Every numeric width a user-typed number could simultaneously be interpreted as; `f32_bits`/`f64_bits`
/// hold IEEE-754 bit patterns.
#[derive(Debug, Clone, Copy, PartialEq, Eq, Default)]
pub struct NumberValue {
    pub u8: Option<u8>,
    pub i8: Option<i8>,
    pub u16: Option<u16>,
    pub i16: Option<i16>,
    pub u32: Option<u32>,
    pub i32: Option<i32>,
    pub u64: Option<u64>,
    pub i64: Option<i64>,
    pub f32_bits: Option<u32>,
    pub f64_bits: Option<u64>,
}

/// One flag bit per populated width.
pub open spec fn number_flag_bits(n: NumberValue) -> u16 {
    (if n.u8 is Some { 0x1u16 } else { 0 }) | (if n.i8 is Some { 0x2u16 } else { 0 }) | (if n.u16 is Some { 0x4u16 } else { 0 })
        | (if n.i16 is Some { 0x8u16 } else { 0 }) | (if n.u32 is Some { 0x10u16 } else { 0 }) | (if n.i32 is Some { 0x20u16 } else { 0 })
        | (if n.u64 is Some { 0x40u16 } else { 0 }) | (if n.i64 is Some { 0x80u16 } else { 0 }) | (if n.f32_bits is Some { 0x100u16 } else { 0 })
        | (if n.f64_bits is Some { 0x200u16 } else { 0 })
}

impl NumberValue {
    /// A number with no width populated.
    pub fn none() -> (r: NumberValue)
        ensures
            r == (NumberValue {
                u8: None,
                i8: None,
                u16: None,
                i16: None,
                u32: None,
                i32: None,
                u64: None,
                i64: None,
                f32_bits: None,
                f64_bits: None,
            }),
    {
        NumberValue {
            u8: None,
            i8: None,
            u16: None,
            i16: None,
            u32: None,
            i32: None,
            u64: None,
            i64: None,
            f32_bits: None,
            f64_bits: None,
        }
    }

    /// The set of widths that are populated.
    pub fn flags(&self) -> (r: MatchFlags)
        ensures
            r.bits == number_flag_bits(*self),
    {
        let bits: u16 = (if self.u8.is_some() { 0x1u16 } else { 0 }) | (if self.i8.is_some() { 0x2u16 } else { 0 })
            | (if self.u16.is_some() { 0x4u16 } else { 0 }) | (if self.i16.is_some() { 0x8u16 } else { 0 })
            | (if self.u32.is_some() { 0x10u16 } else { 0 }) | (if self.i32.is_some() { 0x20u16 } else { 0 })
            | (if self.u64.is_some() { 0x40u16 } else { 0 }) | (if self.i64.is_some() { 0x80u16 } else { 0 })
            | (if self.f32_bits.is_some() { 0x100u16 } else { 0 }) | (if self.f64_bits.is_some() { 0x200u16 } else { 0 });
        MatchFlags { bits }
    }
}

/// One entry of a byte-array scan pattern: a fixed byte to match exactly, or `??` to match anything.
#[derive(Debug, Clone, Copy, PartialEq, Eq, Structural)]
pub enum ByteOrWildcard {
    Fixed(u8),
    Wildcard,
}

/// A value as typed by the user, before it is narrowed to a single [`Value`] width.
#[derive(Debug, Clone, PartialEq)]
pub enum UserValue {
    Number(NumberValue),
    Bytes(Vec<ByteOrWildcard>),
    Str(String),
}

/// Failure parsing user-provided scan/write input.
#[derive(Debug, Clone, PartialEq, Eq)]
pub enum ValueParseError {
    InvalidInt(String),
    IntOutOfRange(String),
    InvalidFloat(String),
    InvalidByte(String),
    EmptyByteArray,
}

/// [`ValueParseError`] with its texts as char sequences.
pub enum ValueError {
    InvalidInt(Seq<char>),
    IntOutOfRange(Seq<char>),
    InvalidFloat(Seq<char>),
    InvalidByte(Seq<char>),
    EmptyByteArray,
}

impl View for ValueParseError {
    type V = ValueError;

    open spec fn view(&self) -> ValueError {
        match self {
            ValueParseError::InvalidInt(s) => ValueError::InvalidInt(s@),
            ValueParseError::IntOutOfRange(s) => ValueError::IntOutOfRange(s@),
            ValueParseError::InvalidFloat(s) => ValueError::InvalidFloat(s@),
            ValueParseError::InvalidByte(s) => ValueError::InvalidByte(s@),
            ValueParseError::EmptyByteArray => ValueError::EmptyByteArray,
        }
    }
}

/// The message text of each error.
pub open spec fn value_error_message(e: ValueError) -> Seq<char> {
    match e {
        ValueError::InvalidInt(s) => debug_quote(s) + " is not a valid integer"@,
        ValueError::IntOutOfRange(s) => debug_quote(s) + " does not fit any supported integer width"@,
        ValueError::InvalidFloat(s) => debug_quote(s) + " is not a valid floating-point number"@,
        ValueError::InvalidByte(s) => "byte pattern entry "@ + debug_quote(s)
            + " is not two hex digits or `??`"@,
        ValueError::EmptyByteArray => "byte pattern must have at least one entry"@,
    }
}

impl ValueParseError {
    /// The human-readable description of this error.
    pub fn message(&self) -> (r: String)
        ensures
            r@ == value_error_message(self@),
    {
        match self {
            ValueParseError::InvalidInt(s) => {
                let mut m = debug_quoted(s.as_str());
                m.append(" is not a valid integer");
                m
            },
            ValueParseError::IntOutOfRange(s) => {
                let mut m = debug_quoted(s.as_str());
                m.append(" does not fit any supported integer width");
                m
            },
            ValueParseError::InvalidFloat(s) => {
                let mut m = debug_quoted(s.as_str());
                m.append(" is not a valid floating-point number");
                m
            },
            ValueParseError::InvalidByte(s) => {
                let mut m = String::from_str("byte pattern entry ");
                let q = debug_quoted(s.as_str());
                m.append(q.as_str());
                m.append(" is not two hex digits or `??`");
                m
            },
            ValueParseError::EmptyByteArray => String::from_str(
                "byte pattern must have at least one entry",
            ),
        }
    }
}

/// The sign and the remainder of trimmed `t`: a leading `-` makes it negative, else one
/// leading `+` is dropped.
pub open spec fn sign_split(t: Seq<char>) -> (bool, Seq<char>) {
    if t.len() > 0 && t[0] == '-' {
        (true, t.drop_first())
    } else if t.len() > 0 && t[0] == '+' {
        (false, t.drop_first())
    } else {
        (false, t)
    }
}

/// What [`parse_signed_magnitude`] returns: an optional sign, then decimal or `0x`/`0X`
/// hexadecimal digits (as `u128::from_str_radix` reads them), surrounding whitespace ignored.
pub open spec fn signed_magnitude_spec(input: Seq<char>) -> Option<(bool, nat)> {
    let (negative, rest) = sign_split(trim_seq(input));
    let hex = has_hex_prefix(rest);
    let digits = if hex { rest.skip(2) } else { rest };
    if digits.len() == 0 {
        None
    } else {
        match radix_parse(digits, if hex { 16 } else { 10 }, u128::MAX as nat) {
            Some(m) => Some((negative, m)),
            None => None,
        }
    }
}

/// Splits an optional sign and `0x`/`0X` hex prefix off `input`, returning `(negative, magnitude)`.
pub fn parse_signed_magnitude(input: &str) -> (r: Option<(bool, u128)>)
    ensures
        r == (match signed_magnitude_spec(input@) {
            Some((n, m)) => Some((n, m as u128)),
            None => None,
        }),
        signed_magnitude_spec(input@) matches Some((n, m)) ==> m <= u128::MAX,
{
    let s = chars_of(input);
    proof {
        assert(s@.subrange(0, s@.len() as int) =~= input@);
    }
    let (a, b) = trim_at(&s, 0, s.len());
    let ghost t = s@.subrange(a as int, b as int);
    let mut lo = a;
    let mut negative = false;
    if a < b && s[a] == '-' {
        negative = true;
        lo = a + 1;
    } else if a < b && s[a] == '+' {
        lo = a + 1;
    }
    proof {
        if a < b {
            assert(t[0] == s@[a as int]);
        }
        if lo == a + 1 {
            assert(t.drop_first() =~= s@.subrange(lo as int, b as int));
        } else {
            assert(t =~= s@.subrange(lo as int, b as int));
        }
    }
    let ghost rest = s@.subrange(lo as int, b as int);
    let hex = b - lo >= 2 && s[lo] == '0' && (s[lo + 1] == 'x' || s[lo + 1] == 'X');
    proof {
        if b - lo >= 2 {
            assert(rest[0] == s@[lo as int] && rest[1] == s@[lo + 1]);
        }
    }
    let start = if hex {
        lo + 2
    } else {
        lo
    };
    proof {
        if hex {
            assert(rest.skip(2) =~= s@.subrange(start as int, b as int));
        } else {
            assert(rest =~= s@.subrange(start as int, b as int));
        }
    }
    if start == b {
        return None;
    }
    let radix: u32 = if hex {
        16
    } else {
        10
    };
    match parse_radix(&s, start, b, radix, u128::MAX) {
        Some(m) => Some((negative, m)),
        None => None,
    }
}

/// The signed value `(negative, m)` denote.
pub open spec fn signed_of(negative: bool, m: nat) -> int {
    if negative {
        -(m as int)
    } else {
        m as int
    }
}

/// Every width `(negative, m)` fits in: unsigned widths only for non-negative values.
pub open spec fn number_of(negative: bool, m: nat) -> NumberValue {
    let v = signed_of(negative, m);
    NumberValue {
        u8: if !negative && m <= u8::MAX { Some(m as u8) } else { None },
        i8: if i8::MIN <= v <= i8::MAX { Some(v as i8) } else { None },
        u16: if !negative && m <= u16::MAX { Some(m as u16) } else { None },
        i16: if i16::MIN <= v <= i16::MAX { Some(v as i16) } else { None },
        u32: if !negative && m <= u32::MAX { Some(m as u32) } else { None },
        i32: if i32::MIN <= v <= i32::MAX { Some(v as i32) } else { None },
        u64: if !negative && m <= u64::MAX { Some(m as u64) } else { None },
        i64: if i64::MIN <= v <= i64::MAX { Some(v as i64) } else { None },
        f32_bits: None,
        f64_bits: None,
    }
}

/// Whether any width of `n` is populated.
pub open spec fn has_any_width(n: NumberValue) -> bool {
    n.u8 is Some || n.i8 is Some || n.u16 is Some || n.i16 is Some || n.u32 is Some || n.i32 is Some
        || n.u64 is Some || n.i64 is Some || n.f32_bits is Some || n.f64_bits is Some
}

/// What [`parse_int`] returns for `input`.
pub open spec fn int_spec(input: Seq<char>) -> Result<NumberValue, ValueError> {
    match signed_magnitude_spec(input) {
        None => Err(ValueError::InvalidInt(input)),
        Some((negative, m)) => if has_any_width(number_of(negative, m)) {
            Ok(number_of(negative, m))
        } else {
            Err(ValueError::IntOutOfRange(input))
        },
    }
}

/// Parses a decimal or `0x`-prefixed hexadecimal integer, populating every width it fits in.
pub fn parse_int(input: &str) -> (r: Result<NumberValue, ValueParseError>)
    ensures
        match int_spec(input@) {
            Ok(v) => r == Ok::<NumberValue, ValueParseError>(v),
            Err(e) => r matches Err(f) && f@ == e,
        },
{
    let (negative, magnitude) = match parse_signed_magnitude(input) {
        None => {
            return Err(ValueParseError::InvalidInt(input.to_owned()));
        },
        Some(p) => p,
    };
    let mut value = NumberValue::none();
    if !negative {
        value.u8 = if magnitude <= 0xff { Some(magnitude as u8) } else { None };
        value.u16 = if magnitude <= 0xffff { Some(magnitude as u16) } else { None };
        value.u32 = if magnitude <= 0xffff_ffff { Some(magnitude as u32) } else { None };
        value.u64 = if magnitude <= 0xffff_ffff_ffff_ffff { Some(magnitude as u64) } else { None };
    }
    // the value as an i128, where it fits one
    let signed: Option<i128> = if magnitude <= 0x7fff_ffff_ffff_ffff_ffff_ffff_ffff_ffff {
        if negative {
            Some(-(magnitude as i128))
        } else {
            Some(magnitude as i128)
        }
    } else {
        None
    };
    if let Some(v) = signed {
        value.i8 = if -128 <= v && v <= 127 { Some(v as i8) } else { None };
        value.i16 = if -32768 <= v && v <= 32767 { Some(v as i16) } else { None };
        value.i32 = if -2147483648 <= v && v <= 2147483647 { Some(v as i32) } else { None };
        value.i64 = if -9223372036854775808 <= v && v <= 9223372036854775807 { Some(v as i64) } else { None };
    }
    proof {
        assert(value == number_of(negative, magnitude as nat));
    }
    if value.u8.is_none() && value.i8.is_none() && value.u16.is_none() && value.i16.is_none()
        && value.u32.is_none() && value.i32.is_none() && value.u64.is_none() && value.i64.is_none() {
        return Err(ValueParseError::IntOutOfRange(input.to_owned()));
    }
    Ok(value)
}

/// What one byte-pattern token parses to: `??` is a wildcard; exactly two ASCII hex digits (of
/// either case) are a fixed byte, the first digit the high nibble; anything else is no token.
pub open spec fn byte_token_spec(token: Seq<char>) -> Option<ByteOrWildcard> {
    if token == "??"@ {
        Some(ByteOrWildcard::Wildcard)
    } else if token.len() == 2 && digit_of(token[0]) < 16 && digit_of(token[1]) < 16 {
        Some(ByteOrWildcard::Fixed((digit_of(token[0]) * 16 + digit_of(token[1])) as u8))
    } else {
        None
    }
}

/// Parses a byte-array pattern from already-split tokens, each either two hex digits or `??`.
/// The first token that is neither is reported; an empty pattern is an error.
pub fn parse_bytearray(tokens: &[&str]) -> (r: Result<Vec<ByteOrWildcard>, ValueParseError>)
    ensures
        (exists|i: int| 0 <= i < tokens@.len() && byte_token_spec(#[trigger] tokens@[i]@) is None)
            ==> exists|i: int|
            0 <= i < tokens@.len() && byte_token_spec(#[trigger] tokens@[i]@) is None && (forall|j: int|
                0 <= j < i ==> byte_token_spec(#[trigger] tokens@[j]@) is Some) && (r matches Err(f)
                && f@ == ValueError::InvalidByte(tokens@[i]@)),
        (forall|i: int| 0 <= i < tokens@.len() ==> byte_token_spec(#[trigger] tokens@[i]@) is Some)
            ==> if tokens@.len() == 0 {
            (r matches Err(f) && f@ == ValueError::EmptyByteArray)
        } else {
            (r matches Ok(v) && v@.len() == tokens@.len() && forall|i: int|
                0 <= i < tokens@.len() ==> byte_token_spec(#[trigger] tokens@[i]@) == Some(v@[i]))
        },
{
    let mut pattern: Vec<ByteOrWildcard> = Vec::new();
    let mut i: usize = 0;
    while i < tokens.len()
        invariant
            0 <= i <= tokens@.len(),
            pattern@.len() == i,
            forall|j: int| 0 <= j < i ==> byte_token_spec(#[trigger] tokens@[j]@) == Some(pattern@[j]),
        decreases tokens@.len() - i,
    {
        let token = tokens[i];
        match parse_byte_token(token) {
            Some(b) => {
                pattern.push(b);
            },
            None => {
                proof {
                    assert(byte_token_spec(tokens@[i as int]@) is None);
                    assert forall|j: int| 0 <= j < i implies byte_token_spec(#[trigger] tokens@[j]@) is Some by {
                        assert(byte_token_spec(tokens@[j]@) == Some(pattern@[j]));
                    }
                }
                return Err(ValueParseError::InvalidByte(token.to_owned()));
            },
        }
        i = i + 1;
    }
    if pattern.len() == 0 {
        return Err(ValueParseError::EmptyByteArray);
    }
    Ok(pattern)
}

/// [`byte_token_spec`], computed.
fn parse_byte_token(token: &str) -> (r: Option<ByteOrWildcard>)
    ensures
        r == byte_token_spec(token@),
{
    let s = chars_of(token);
    proof {
        reveal_strlit("??");
        assert(s@.subrange(0, s@.len() as int) =~= token@);
    }
    if s.len() == 2 && s[0] == '?' && s[1] == '?' {
        proof {
            assert(token@ =~= "??"@);
        }
        return Some(ByteOrWildcard::Wildcard);
    }
    proof {
        if token@ == "??"@ {
            assert(s@[0] == '?' && s@[1] == '?');
        }
    }
    if s.len() != 2 {
        return None;
    }
    let high = digit_value(s[0]);
    let low = digit_value(s[1]);
    if high < 16 && low < 16 {
        Some(ByteOrWildcard::Fixed((high * 16 + low) as u8))
    } else {
        None
    }
}

/// Wraps arbitrary user input as a string scan/write value; strings never fail to parse.
pub fn parse_string(input: &str) -> (r: UserValue)
    ensures
        r matches UserValue::Str(s) && s@ == input@,
{
    UserValue::Str(input.to_owned())
}


/// The text a value displays as: decimal for integers, space-separated pairs of lowercase hex
/// digits for bytes, the string itself for a string. Floats are formatted outside this library,
/// so there is none for them.
pub open spec fn value_text(v: ValueView) -> Option<Seq<char>> {
    match v {
        ValueView::U8(x) => Some(crate::text::signed_text(x as int)),
        ValueView::I8(x) => Some(crate::text::signed_text(x as int)),
        ValueView::U16(x) => Some(crate::text::signed_text(x as int)),
        ValueView::I16(x) => Some(crate::text::signed_text(x as int)),
        ValueView::U32(x) => Some(crate::text::signed_text(x as int)),
        ValueView::I32(x) => Some(crate::text::signed_text(x as int)),
        ValueView::U64(x) => Some(crate::text::signed_text(x as int)),
        ValueView::I64(x) => Some(crate::text::signed_text(x as int)),
        ValueView::F32(_) => None,
        ValueView::F64(_) => None,
        ValueView::Bytes(b) => Some(crate::swath::hex_text(b)),
        ValueView::Str(s) => Some(s),
    }
}

/// The decimal text of `n` is made of ASCII digits, and reads back as `n`.
pub proof fn lemma_decimal_text_reads_back(n: nat)
    ensures
        crate::text::decimal_text(n).len() > 0,
        forall|i: int|
            0 <= i < crate::text::decimal_text(n).len() ==> 0x30 <= (#[trigger] crate::text::decimal_text(n)[i]) as u32 <= 0x39,
        crate::text::all_digits(crate::text::decimal_text(n), 10),
        crate::text::digits_value(crate::text::decimal_text(n), 10) == n,
    decreases n,
{
    let t = crate::text::decimal_text(n);
    let last = crate::text::decimal_digit_char(n % 10);
    assert(last as u32 == 0x30 + n % 10);
    assert(digit_of(last) == n % 10);
    if n < 10 {
        assert(t[0] == crate::text::decimal_digit_char(n));
        assert(t.drop_last() =~= Seq::<char>::empty());
        assert(t.last() == last);
        assert(crate::text::digits_value(t, 10) == crate::text::digits_value(t.drop_last(), 10) * 10
            + digit_of(t.last()));
    } else {
        lemma_decimal_text_reads_back(n / 10);
        let h = crate::text::decimal_text(n / 10);
        assert(t == h.push(crate::text::decimal_digit_char(n % 10)));
        assert(t.drop_last() =~= h);
        assert(t.last() == last);
        assert(crate::text::digits_value(t, 10) == crate::text::digits_value(h, 10) * 10 + digit_of(
            last,
        ));
        assert(n / 10 * 10 + n % 10 == n);
        assert forall|i: int| 0 <= i < t.len() implies 0x30 <= (#[trigger] t[i]) as u32 <= 0x39 by {
            if i < h.len() {
                assert(t[i] == h[i]);
            }
        }
        assert forall|i: int| 0 <= i < t.len() implies #[trigger] digit_of(t[i]) < 10 by {
            if i < h.len() {
                assert(t[i] == h[i]);
                assert(digit_of(h[i]) < 10);
            }
        }
    }
}

/// A signed decimal text, as values display: it parses back, as `parse_int` reads it, to the
/// sign and magnitude of `x`.
pub proof fn lemma_signed_text_reads_back(x: int)
    requires
        -(u128::MAX as int) <= x <= u128::MAX,
    ensures
        signed_magnitude_spec(crate::text::signed_text(x)) == Some(
            (x < 0, (if x < 0 { -x } else { x }) as nat),
        ),
{
    let m: nat = (if x < 0 { -x } else { x }) as nat;
    let d = crate::text::decimal_text(m);
    lemma_decimal_text_reads_back(m);
    let t = crate::text::signed_text(x);
    assert(!crate::text::is_ws(d[0]) && !crate::text::is_ws(d.last())) by {
        assert(0x30 <= d[0] as u32 <= 0x39);
        assert(0x30 <= d[d.len() - 1] as u32 <= 0x39);
    }
    assert(!crate::text::is_ws('-'));
    assert(t.len() > 0 && !crate::text::is_ws(t[0]) && !crate::text::is_ws(t.last())) by {
        if x < 0 {
            assert(t == seq!['-'] + d);
            assert(t[0] == '-');
            assert(t.last() == d.last());
        }
    }
    assert(crate::text::trim_start_seq(t) == t);
    assert(crate::text::trim_end_seq(t) == t);
    assert(trim_seq(t) == t);
    if x < 0 {
        assert(t.drop_first() =~= d);
    }
    assert(sign_split(t) == (x < 0, d)) by {
        assert(0x30 <= d[0] as u32 <= 0x39);
    }
    assert(!has_hex_prefix(d)) by {
        if d.len() >= 2 {
            assert(0x30 <= d[1] as u32 <= 0x39);
        }
    }
    assert(crate::text::plus_stripped(d) == d) by {
        assert(0x30 <= d[0] as u32 <= 0x39);
    }
}

/// What an integer value displays as reads back, with `parse_int`, to a number whose field of
/// that value's own width is that value: the text is the value's decimal, sign included.
pub proof fn lemma_int_text_reads_back(v: ValueView)
    requires
        !(v is F32 || v is F64 || v is Bytes || v is Str),
    ensures
        value_text(v) matches Some(t) && int_spec(t) matches Ok(n) && match v {
            ValueView::U8(x) => n.u8 == Some(x),
            ValueView::I8(x) => n.i8 == Some(x),
            ValueView::U16(x) => n.u16 == Some(x),
            ValueView::I16(x) => n.i16 == Some(x),
            ValueView::U32(x) => n.u32 == Some(x),
            ValueView::I32(x) => n.i32 == Some(x),
            ValueView::U64(x) => n.u64 == Some(x),
            ValueView::I64(x) => n.i64 == Some(x),
            _ => false,
        },
{
    let x: int = match v {
        ValueView::U8(x) => x as int,
        ValueView::I8(x) => x as int,
        ValueView::U16(x) => x as int,
        ValueView::I16(x) => x as int,
        ValueView::U32(x) => x as int,
        ValueView::I32(x) => x as int,
        ValueView::U64(x) => x as int,
        ValueView::I64(x) => x as int,
        _ => 0,
    };
    lemma_signed_text_reads_back(x);
    assert(value_text(v) == Some(crate::text::signed_text(x)));
}

/// A copy of `bytes`.
pub fn copy_bytes(bytes: &[u8]) -> (r: Vec<u8>)
    ensures
        r@ == bytes@,
{
    let mut out: Vec<u8> = Vec::new();
    let mut i: usize = 0;
    while i < bytes.len()
        invariant
            0 <= i <= bytes@.len(),
            out@ == bytes@.take(i as int),
        decreases bytes@.len() - i,
    {
        out.push(bytes[i]);
        proof {
            assert(bytes@.take(i + 1) =~= bytes@.take(i as int).push(bytes@[i as int]));
        }
        i = i + 1;
    }
    proof {
        assert(bytes@.take(bytes@.len() as int) =~= bytes@);
    }
    out
}

impl Value {
    /// A copy of this value.
    pub fn duplicate(&self) -> (r: Value)
        ensures
            r@ == self@,
    {
        match self {
            Value::U8(v) => Value::U8(*v),
            Value::I8(v) => Value::I8(*v),
            Value::U16(v) => Value::U16(*v),
            Value::I16(v) => Value::I16(*v),
            Value::U32(v) => Value::U32(*v),
            Value::I32(v) => Value::I32(*v),
            Value::U64(v) => Value::U64(*v),
            Value::I64(v) => Value::I64(*v),
            Value::F32(v) => Value::F32(*v),
            Value::F64(v) => Value::F64(*v),
            Value::Bytes(b) => Value::Bytes(copy_bytes(b.as_slice())),
            Value::Str(s) => Value::Str(s.clone()),
        }
    }

    /// The text this value displays as (see [`value_text`]); `None` for floats.
    pub fn display_text(&self) -> (r: Option<String>)
        ensures
            r is Some <==> value_text(self@) is Some,
            r matches Some(s) ==> s@ == value_text(self@)->0,
    {
        match self {
            Value::U8(v) => Some(crate::text::signed_decimal_string(*v as i128)),
            Value::I8(v) => Some(crate::text::signed_decimal_string(*v as i128)),
            Value::U16(v) => Some(crate::text::signed_decimal_string(*v as i128)),
            Value::I16(v) => Some(crate::text::signed_decimal_string(*v as i128)),
            Value::U32(v) => Some(crate::text::signed_decimal_string(*v as i128)),
            Value::I32(v) => Some(crate::text::signed_decimal_string(*v as i128)),
            Value::U64(v) => Some(crate::text::signed_decimal_string(*v as i128)),
            Value::I64(v) => Some(crate::text::signed_decimal_string(*v as i128)),
            Value::F32(_) => None,
            Value::F64(_) => None,
            Value::Bytes(b) => Some(crate::swath::hex_string(b.as_slice())),
            Value::Str(s) => Some(s.clone()),
        }
    }
}

} // verus!
