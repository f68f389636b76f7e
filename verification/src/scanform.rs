//! The Scan Panel's form: a data type, a match type and a free-text value turned into a
//! [`ScanExpr`], and a cheat's typed-in value turned into a [`Value`] of the cheat's width.
//!
//! Numbers may be floats, and floats are parsed outside this library: a form that needs a number
//! comes back as the text to parse, and the parsed result is handed back in.

use vstd::prelude::*;

use crate::scanroutines::{MatchType, ScanDataType};
use crate::session::{ScanCriterion, ScanExpr};
use crate::text::{
    chars_of, debug_quote, debug_quoted, parse_radix, radix_parse, split_words, string_from_chars,
    trim_at, trim_seq, words,
};
use crate::value::{
    byte_token_spec, parse_bytearray, value_error_message, ByteOrWildcard, NumberValue, UserValue,
    Value, ValueError, ValueParseError, ValueView,
};

verus! {

/// A scan form read so far: a finished expression, or the text of the number(s) it still needs.
#[derive(Debug, Clone, PartialEq)]
pub enum ScanForm {
    /// Nothing left to parse.
    Ready(ScanExpr),
    /// A value criterion: this text, parsed as a number.
    Number(String),
    /// A range criterion: these two texts, parsed as numbers, low first.
    Range(String, String),
}

/// Data types whose value is a pattern, not a number.
pub open spec fn is_pattern_type(dt: ScanDataType) -> bool {
    dt == ScanDataType::ByteArray || dt == ScanDataType::String
}

/// Match types that compare against nothing the user types.
pub open spec fn takes_no_value(mt: MatchType) -> bool {
    mt == MatchType::Any || mt == MatchType::Update || mt == MatchType::NotChanged || mt
        == MatchType::Changed || mt == MatchType::Increased || mt == MatchType::Decreased
}

/// What a byte-array pattern's words parse to: the first word that is neither two hex digits
/// nor `??` is reported; no words at all is an error.
pub open spec fn pattern_from(ws: Seq<Seq<char>>, i: int) -> Result<Seq<ByteOrWildcard>, ValueError>
    decreases ws.len() - i,
{
    if i < 0 || i >= ws.len() {
        Ok(Seq::empty())
    } else {
        match byte_token_spec(ws[i]) {
            None => Err(ValueError::InvalidByte(ws[i])),
            Some(b) => match pattern_from(ws, i + 1) {
                Ok(rest) => Ok(seq![b] + rest),
                Err(e) => Err(e),
            },
        }
    }
}

/// What [`parse_bytearray`] gives for the words `ws`.
pub open spec fn pattern_spec(ws: Seq<Seq<char>>) -> Result<Seq<ByteOrWildcard>, ValueError> {
    match pattern_from(ws, 0) {
        Ok(p) => if p.len() == 0 {
            Err(ValueError::EmptyByteArray)
        } else {
            Ok(p)
        },
        Err(e) => Err(e),
    }
}

/// [`pattern_from`] reports the first bad word, and otherwise parses every word.
proof fn lemma_pattern_from(ws: Seq<Seq<char>>, i: int)
    requires
        0 <= i <= ws.len(),
    ensures
        (forall|k: int| i <= k < ws.len() ==> byte_token_spec(#[trigger] ws[k]) is Some) ==> (
        pattern_from(ws, i) matches Ok(p) && p.len() == ws.len() - i && forall|k: int|
            i <= k < ws.len() ==> byte_token_spec(#[trigger] ws[k]) == Some(p[k - i])),
        forall|k: int|
            i <= k < ws.len() && byte_token_spec(#[trigger] ws[k]) is None && (forall|j: int|
                i <= j < k ==> byte_token_spec(#[trigger] ws[j]) is Some) ==> pattern_from(ws, i)
                == Err::<Seq<ByteOrWildcard>, ValueError>(ValueError::InvalidByte(ws[k])),
    decreases ws.len() - i,
{
    if i < ws.len() {
        lemma_pattern_from(ws, i + 1);
        if byte_token_spec(ws[i]) is Some {
            if forall|k: int| i <= k < ws.len() ==> byte_token_spec(#[trigger] ws[k]) is Some {
                let p = pattern_from(ws, i + 1)->Ok_0;
                assert forall|k: int| i <= k < ws.len() implies byte_token_spec(#[trigger] ws[k])
                    == Some((seq![byte_token_spec(ws[i])->0] + p)[k - i]) by {
                    if k > i {
                        assert((seq![byte_token_spec(ws[i])->0] + p)[k - i] == p[k - i - 1]);
                    }
                }
            }
            assert forall|k: int|
                i <= k < ws.len() && byte_token_spec(#[trigger] ws[k]) is None && (forall|j: int|
                    i <= j < k ==> byte_token_spec(#[trigger] ws[j]) is Some) implies pattern_from(ws, i)
                == Err::<Seq<ByteOrWildcard>, ValueError>(ValueError::InvalidByte(ws[k])) by {
                assert(k != i);
                assert forall|j: int| i + 1 <= j < k implies byte_token_spec(#[trigger] ws[j]) is Some by {}
            }
        } else {
            assert forall|k: int|
                i <= k < ws.len() && byte_token_spec(#[trigger] ws[k]) is None && (forall|j: int|
                    i <= j < k ==> byte_token_spec(#[trigger] ws[j]) is Some) implies pattern_from(ws, i)
                == Err::<Seq<ByteOrWildcard>, ValueError>(ValueError::InvalidByte(ws[k])) by {
                if k > i {
                    assert(byte_token_spec(ws[i]) is Some);
                }
            }
        }
    }
}

/// What a scan form still needs, or holds.
pub enum FormSpec {
    /// A finished expression comparing against nothing.
    Absent,
    /// A finished expression with this string pattern.
    Str(Seq<char>),
    /// A finished expression with this byte pattern.
    Bytes(Seq<ByteOrWildcard>),
    /// This text still to be parsed as the number to compare against.
    Number(Seq<char>),
    /// These texts still to be parsed as the range's low and high bounds.
    Range(Seq<char>, Seq<char>),
}

/// `f` is the form `fs` describes for `data_type` and `match_type`.
pub open spec fn form_matches(f: ScanForm, data_type: ScanDataType, match_type: MatchType, fs: FormSpec) -> bool {
    match fs {
        FormSpec::Absent => f == ScanForm::Ready(
            ScanExpr { data_type, match_type, criterion: ScanCriterion::Absent },
        ),
        FormSpec::Str(t) => f matches ScanForm::Ready(x) && x.data_type == data_type
            && x.match_type == match_type && (x.criterion matches ScanCriterion::Value(
            UserValue::Str(y),
        ) && y@ == t),
        FormSpec::Bytes(p) => f matches ScanForm::Ready(x) && x.data_type == data_type
            && x.match_type == match_type && (x.criterion matches ScanCriterion::Value(
            UserValue::Bytes(q),
        ) && q@ == p),
        FormSpec::Number(t) => f matches ScanForm::Number(y) && y@ == t,
        FormSpec::Range(a, b) => f matches ScanForm::Range(x, y) && x@ == a && y@ == b,
    }
}

/// What the Scan Panel's form reads as, or the message for why it does not.
pub open spec fn scan_form_spec(data_type: ScanDataType, match_type: MatchType, input: Seq<char>) -> Result<FormSpec, Seq<char>> {
    let t = trim_seq(input);
    if is_pattern_type(data_type) {
        if match_type != MatchType::EqualTo {
            Err("byte/string scans only support the equal-to match type"@)
        } else if data_type == ScanDataType::ByteArray {
            match pattern_spec(words(t)) {
                Ok(p) => Ok(FormSpec::Bytes(p)),
                Err(e) => Err(value_error_message(e)),
            }
        } else if t.len() == 0 {
            Err("string scan requires a value"@)
        } else {
            Ok(FormSpec::Str(t))
        }
    } else if takes_no_value(match_type) {
        if t.len() == 0 {
            Ok(FormSpec::Absent)
        } else {
            Err("this match type takes no value"@)
        }
    } else if match_type == MatchType::Range {
        if words(t).len() == 2 {
            Ok(FormSpec::Range(words(t)[0], words(t)[1]))
        } else {
            Err("range match requires a low and high bound"@)
        }
    } else if t.len() == 0 {
        Err("this match type requires a value"@)
    } else {
        Ok(FormSpec::Number(t))
    }
}

/// References to the words, for [`parse_bytearray`].
fn word_refs(ws: &Vec<String>) -> (r: Vec<&str>)
    ensures
        r@.len() == ws@.len(),
        forall|i: int| 0 <= i < ws@.len() ==> (#[trigger] r@[i])@ == ws@[i]@,
{
    let mut out: Vec<&str> = Vec::new();
    let mut i: usize = 0;
    while i < ws.len()
        invariant
            0 <= i <= ws@.len(),
            out@.len() == i,
            forall|k: int| 0 <= k < i ==> (#[trigger] out@[k])@ == ws@[k]@,
        decreases ws@.len() - i,
    {
        out.push(ws[i].as_str());
        i = i + 1;
    }
    out
}

/// The byte-array pattern the words of `text` give (see [`pattern_spec`]), or the message of
/// why they give none.
fn pattern_of(text: &str) -> (r: Result<Vec<ByteOrWildcard>, String>)
    ensures
        match pattern_spec(words(text@)) {
            Ok(p) => r matches Ok(v) && v@ == p,
            Err(e) => r matches Err(m) && m@ == value_error_message(e),
        },
{
    let ws = split_words(text);
    let refs = word_refs(&ws);
    let ghost wsv = words(text@);
    proof {
        assert(ws@.map_values(|w: String| w@).len() == ws@.len());
        assert forall|i: int| 0 <= i < ws@.len() implies refs@[i]@ == wsv[i] by {
            assert(ws@.map_values(|w: String| w@)[i] == ws@[i]@);
        }
    }
    let res = parse_bytearray(refs.as_slice());
    proof {
        lemma_pattern_from(wsv, 0);
        assert(refs@.len() == wsv.len());
        assert forall|i: int| 0 <= i < wsv.len() implies byte_token_spec(wsv[i])
            == byte_token_spec(#[trigger] refs@[i]@) by {}
        if exists|i: int| 0 <= i < wsv.len() && byte_token_spec(#[trigger] wsv[i]) is None {
            let i0 = choose|i: int| 0 <= i < wsv.len() && byte_token_spec(#[trigger] wsv[i]) is None;
            assert(byte_token_spec(refs@[i0]@) is None);
            let k = choose|k: int|
                0 <= k < refs@.len() && byte_token_spec(#[trigger] refs@[k]@) is None && (forall|j: int|
                    0 <= j < k ==> byte_token_spec(#[trigger] refs@[j]@) is Some) && (res matches Err(f)
                    && f@ == ValueError::InvalidByte(refs@[k]@));
            assert(byte_token_spec(wsv[k]) is None);
            assert forall|j: int| 0 <= j < k implies byte_token_spec(#[trigger] wsv[j]) is Some by {
                assert(byte_token_spec(refs@[j]@) is Some);
            }
        } else {
            assert forall|i: int| 0 <= i < refs@.len() implies byte_token_spec(#[trigger] refs@[i]@) is Some by {
                assert(byte_token_spec(wsv[i]) is Some);
            }
            if wsv.len() > 0 {
                let v = res->Ok_0;
                let p = pattern_from(wsv, 0)->Ok_0;
                assert forall|i: int| 0 <= i < wsv.len() implies v@[i] == p[i] by {
                    assert(byte_token_spec(refs@[i]@) == Some(v@[i]));
                }
                assert(v@ =~= p);
            }
        }
    }
    match res {
        Ok(pattern) => Ok(pattern),
        Err(e) => Err(e.message()),
    }
}

/// Reads the Scan Panel's form: `data_type`, `match_type` and the value text `input` (see
/// [`scan_form_spec`]).
pub fn scan_form(data_type: ScanDataType, match_type: MatchType, input: &str) -> (r: Result<
    ScanForm,
    String,
>)
    ensures
        match scan_form_spec(data_type, match_type, input@) {
            Ok(fs) => r matches Ok(f) && form_matches(f, data_type, match_type, fs),
            Err(m) => r matches Err(e) && e@ == m,
        },
{
    let chars = chars_of(input);
    let (lo, hi) = trim_at(&chars, 0, chars.len());
    proof {
        assert(chars@.subrange(0, chars@.len() as int) =~= input@);
    }
    let trimmed = string_from_chars(crate::text::subslice(&chars, lo, hi));
    let is_pattern = match data_type {
        ScanDataType::ByteArray => true,
        ScanDataType::String => true,
        _ => false,
    };
    if is_pattern {
        let equal_to = match match_type {
            MatchType::EqualTo => true,
            _ => false,
        };
        if !equal_to {
            return Err(String::from_str("byte/string scans only support the equal-to match type"));
        }
        let is_bytes = match data_type {
            ScanDataType::ByteArray => true,
            _ => false,
        };
        if is_bytes {
            return match pattern_of(trimmed.as_str()) {
                Ok(pattern) => Ok(
                    ScanForm::Ready(
                        ScanExpr {
                            data_type,
                            match_type,
                            criterion: ScanCriterion::Value(UserValue::Bytes(pattern)),
                        },
                    ),
                ),
                Err(m) => Err(m),
            };
        }
        if hi == lo {
            return Err(String::from_str("string scan requires a value"));
        }
        return Ok(
            ScanForm::Ready(
                ScanExpr {
                    data_type,
                    match_type,
                    criterion: ScanCriterion::Value(UserValue::Str(trimmed)),
                },
            ),
        );
    }
    match match_type {
        MatchType::Any | MatchType::Update | MatchType::NotChanged | MatchType::Changed
        | MatchType::Increased | MatchType::Decreased => {
            if hi == lo {
                Ok(
                    ScanForm::Ready(
                        ScanExpr { data_type, match_type, criterion: ScanCriterion::Absent },
                    ),
                )
            } else {
                Err(String::from_str("this match type takes no value"))
            }
        },
        MatchType::Range => {
            let mut ws = split_words(trimmed.as_str());
            proof {
                assert(ws@.map_values(|w: String| w@).len() == ws@.len());
            }
            if ws.len() != 2 {
                return Err(String::from_str("range match requires a low and high bound"));
            }
            let ghost w = ws@;
            let high = ws.pop().unwrap();
            let low = ws.pop().unwrap();
            proof {
                assert(w.map_values(|x: String| x@)[0] == w[0]@);
                assert(w.map_values(|x: String| x@)[1] == w[1]@);
            }
            Ok(ScanForm::Range(low, high))
        },
        _ => {
            if hi == lo {
                Err(String::from_str("this match type requires a value"))
            } else {
                Ok(ScanForm::Number(trimmed))
            }
        },
    }
}

/// A value-criterion expression from a parsed number; the parse error's message otherwise.
pub fn number_expr(
    data_type: ScanDataType,
    match_type: MatchType,
    number: Result<NumberValue, ValueParseError>,
) -> (r: Result<ScanExpr, String>)
    ensures
        number matches Err(e) ==> (r matches Err(m) && m@ == value_error_message(e@)),
        number matches Ok(v) ==> r == Ok::<ScanExpr, String>(
            ScanExpr {
                data_type,
                match_type,
                criterion: ScanCriterion::Value(UserValue::Number(v)),
            },
        ),
{
    match number {
        Ok(v) => Ok(
            ScanExpr { data_type, match_type, criterion: ScanCriterion::Value(UserValue::Number(v)) },
        ),
        Err(e) => Err(e.message()),
    }
}

/// A range-criterion expression from two parsed numbers; the first parse error's message
/// otherwise (the low bound's first).
pub fn range_expr(
    data_type: ScanDataType,
    match_type: MatchType,
    low: Result<NumberValue, ValueParseError>,
    high: Result<NumberValue, ValueParseError>,
) -> (r: Result<ScanExpr, String>)
    ensures
        low matches Err(e) ==> (r matches Err(m) && m@ == value_error_message(e@)),
        low is Ok ==> (high matches Err(e) ==> (r matches Err(m) && m@ == value_error_message(e@))),
        low matches Ok(a) ==> (high matches Ok(b) ==> r == Ok::<ScanExpr, String>(
            ScanExpr { data_type, match_type, criterion: ScanCriterion::Range(a, b) },
        )),
{
    match low {
        Err(e) => Err(e.message()),
        Ok(a) => match high {
            Err(e) => Err(e.message()),
            Ok(b) => Ok(ScanExpr { data_type, match_type, criterion: ScanCriterion::Range(a, b) }),
        },
    }
}

/// The bytes that hex-byte words stand for, or the message for the first word that is not one.
pub open spec fn concrete_bytes_from(ws: Seq<Seq<char>>, i: int) -> Result<Seq<u8>, Seq<char>>
    decreases ws.len() - i,
{
    if i < 0 || i >= ws.len() {
        Ok(Seq::empty())
    } else {
        match radix_parse(ws[i], 16, 255) {
            None => Err(debug_quote(ws[i]) + " is not two hex digits"@),
            Some(b) => match concrete_bytes_from(ws, i + 1) {
                Ok(rest) => Ok(seq![b as u8] + rest),
                Err(e) => Err(e),
            },
        }
    }
}

/// What [`parse_concrete_bytes`] gives for `input`.
pub open spec fn concrete_bytes_spec(input: Seq<char>) -> Result<Seq<u8>, Seq<char>> {
    match concrete_bytes_from(words(input), 0) {
        Ok(b) => if b.len() == 0 {
            Err("byte value must not be empty"@)
        } else {
            Ok(b)
        },
        Err(e) => Err(e),
    }
}

/// The bytes of whitespace-separated hex bytes (as a byte value displays), with no wildcards.
pub fn parse_concrete_bytes(input: &str) -> (r: Result<Vec<u8>, String>)
    ensures
        match concrete_bytes_spec(input@) {
            Ok(b) => r matches Ok(v) && v@ == b,
            Err(m) => r matches Err(e) && e@ == m,
        },
{
    let ws = split_words(input);
    let ghost w = ws@.map_values(|x: String| x@);
    proof {
        assert(w.len() == ws@.len());
    }
    // Results of the words from `i` on, built back to front.
    let mut i = ws.len();
    let mut tail: Result<Vec<u8>, String> = Ok(Vec::new());
    let mut tail_rev: Vec<u8> = Vec::new();
    while i > 0
        invariant
            0 <= i <= ws@.len(),
            w == ws@.map_values(|x: String| x@),
            w == words(input@),
            match concrete_bytes_from(w, i as int) {
                Ok(b) => tail is Ok && tail_rev@.reverse() == b,
                Err(m) => tail matches Err(e) && e@ == m,
            },
        decreases i,
    {
        i = i - 1;
        let chars = chars_of(ws[i].as_str());
        proof {
            assert(w[i as int] == ws@[i as int]@);
            assert(chars@.subrange(0, chars@.len() as int) =~= chars@);
        }
        match parse_radix(&chars, 0, chars.len(), 16, 255) {
            None => {
                let mut m = debug_quoted(ws[i].as_str());
                m.append(" is not two hex digits");
                tail = Err(m);
            },
            Some(b) => {
                if tail.is_ok() {
                    let ghost before = tail_rev@;
                    tail_rev.push(b as u8);
                    proof {
                        assert(tail_rev@.reverse() =~= seq![b as u8] + before.reverse());
                    }
                }
            },
        }
    }
    match tail {
        Err(e) => Err(e),
        Ok(_) => {
            if tail_rev.len() == 0 {
                Err(String::from_str("byte value must not be empty"))
            } else {
                let mut out: Vec<u8> = Vec::new();
                let mut k = tail_rev.len();
                while k > 0
                    invariant
                        0 <= k <= tail_rev@.len(),
                        out@ == tail_rev@.subrange(k as int, tail_rev@.len() as int).reverse(),
                    decreases k,
                {
                    k = k - 1;
                    out.push(tail_rev[k]);
                    proof {
                        assert(tail_rev@.subrange(k as int, tail_rev@.len() as int).reverse()
                            =~= tail_rev@.subrange(k + 1, tail_rev@.len() as int).reverse().push(
                            tail_rev@[k as int],
                        ));
                    }
                }
                proof {
                    assert(tail_rev@.subrange(0, tail_rev@.len() as int) =~= tail_rev@);
                }
                Ok(out)
            }
        },
    }
}

/// A string scan looks for the whole text typed, whitespace around it dropped and whitespace
/// inside it kept: with only whitespace typed it is refused; otherwise its pattern is the text
/// from the first char that is not whitespace to the last one, the input being that pattern
/// with nothing but whitespace before and after it.
pub proof fn lemma_string_scan_takes_the_whole_text(input: Seq<char>)
    ensures
        (forall|i: int| 0 <= i < input.len() ==> crate::text::is_ws(#[trigger] input[i]))
            ==> scan_form_spec(ScanDataType::String, MatchType::EqualTo, input) is Err,
        (exists|i: int| 0 <= i < input.len() && !crate::text::is_ws(#[trigger] input[i]))
            ==> scan_form_spec(ScanDataType::String, MatchType::EqualTo, input) is Ok,
        scan_form_spec(ScanDataType::String, MatchType::EqualTo, input) matches Ok(f) ==> (
        f matches FormSpec::Str(p) && {
            &&& p.len() > 0
            &&& !crate::text::is_ws(p[0])
            &&& !crate::text::is_ws(p.last())
            &&& exists|a: int|
                0 <= a && a + p.len() <= input.len() && #[trigger] input.subrange(a, a + p.len()) == p
                    && (forall|k: int| 0 <= k < a ==> crate::text::is_ws(#[trigger] input[k]))
                    && (forall|k: int| a + p.len() <= k < input.len() ==> crate::text::is_ws(
                    #[trigger] input[k],
                ))
        }),
{
    let k = crate::maps::lemma_trim_start_shape(input);
    let t = crate::text::trim_start_seq(input);
    let j = crate::maps::lemma_trim_end_shape(t);
    let p = trim_seq(input);
    assert(p == t.take(j));
    assert(t == input.skip(k));
    if exists|i: int| 0 <= i < input.len() && !crate::text::is_ws(#[trigger] input[i]) {
        let i = choose|i: int| 0 <= i < input.len() && !crate::text::is_ws(#[trigger] input[i]);
        assert(k <= i);
        assert(t[i - k] == input[i]);
        assert(j > i - k);
    }
    if forall|i: int| 0 <= i < input.len() ==> crate::text::is_ws(#[trigger] input[i]) {
        assert(k == input.len()) by {
            if k < input.len() {
                assert(crate::text::is_ws(input[k]));
            }
        }
        assert(p.len() == 0);
    }
    if j > 0 {
        assert(input.subrange(k, k + j) =~= p) by {
            assert forall|q: int| 0 <= q < j implies input.subrange(k, k + j)[q] == p[q] by {
                assert(t[q] == input[k + q]);
            }
        }
        assert forall|q: int| k + j <= q < input.len() implies crate::text::is_ws(#[trigger] input[q]) by {
            assert(t[q - k] == input[q]);
        }
        assert(p[0] == input[k]);
        assert(p.last() == t[j - 1]);
        assert(0 <= k && k + p.len() <= input.len() && input.subrange(k, k + p.len()) == p);
    }
}

} // verus!
