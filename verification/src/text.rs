//! Character-level helpers shared by the parsers: Unicode whitespace, trimming, and radix
//! digit parsing over `char` sequences, each with a spec of its own.

use vstd::prelude::*;

verus! {

/// Unicode `White_Space`, the set `char::is_whitespace` recognizes.
pub open spec fn is_ws(c: char) -> bool {
    let u = c as u32;
    ||| 0x09 <= u <= 0x0d
    ||| u == 0x20
    ||| u == 0x85
    ||| u == 0xa0
    ||| u == 0x1680
    ||| 0x2000 <= u <= 0x200a
    ||| u == 0x2028
    ||| u == 0x2029
    ||| u == 0x202f
    ||| u == 0x205f
    ||| u == 0x3000
}

/// Whether `c` is Unicode whitespace.
pub fn is_whitespace(c: char) -> (r: bool)
    ensures
        r == is_ws(c),
{
    let u = c as u32;
    (0x09 <= u && u <= 0x0d) || u == 0x20 || u == 0x85 || u == 0xa0 || u == 0x1680 || (0x2000
        <= u && u <= 0x200a) || u == 0x2028 || u == 0x2029 || u == 0x202f || u == 0x205f || u
        == 0x3000
}

/// `s` without its leading whitespace.
pub open spec fn trim_start_seq(s: Seq<char>) -> Seq<char>
    decreases s.len(),
{
    if s.len() > 0 && is_ws(s[0]) {
        trim_start_seq(s.drop_first())
    } else {
        s
    }
}

/// `s` without its trailing whitespace.
pub open spec fn trim_end_seq(s: Seq<char>) -> Seq<char>
    decreases s.len(),
{
    if s.len() > 0 && is_ws(s.last()) {
        trim_end_seq(s.drop_last())
    } else {
        s
    }
}

/// `s` without leading or trailing whitespace.
pub open spec fn trim_seq(s: Seq<char>) -> Seq<char> {
    trim_end_seq(trim_start_seq(s))
}

/// Index of the first char of `s` (from `from` on) that satisfies nothing but being whitespace,
/// i.e. how far `trim_start_seq` skips.
pub proof fn lemma_trim_start_step(s: Seq<char>, i: int, hi: int)
    requires
        0 <= i < hi <= s.len(),
        is_ws(s[i]),
    ensures
        trim_start_seq(s.subrange(i, hi)) == trim_start_seq(s.subrange(i + 1, hi)),
{
    assert(s.subrange(i, hi).drop_first() =~= s.subrange(i + 1, hi));
}

pub proof fn lemma_trim_end_step(s: Seq<char>, lo: int, j: int)
    requires
        0 <= lo < j <= s.len(),
        is_ws(s[j - 1]),
    ensures
        trim_end_seq(s.subrange(lo, j)) == trim_end_seq(s.subrange(lo, j - 1)),
{
    assert(s.subrange(lo, j).drop_last() =~= s.subrange(lo, j - 1));
}

/// The start of `s[lo..hi]` once leading whitespace is skipped.
pub fn trim_start_at(s: &Vec<char>, lo: usize, hi: usize) -> (r: usize)
    requires
        lo <= hi <= s@.len(),
    ensures
        lo <= r <= hi,
        s@.subrange(r as int, hi as int) == trim_start_seq(s@.subrange(lo as int, hi as int)),
        r < hi ==> !is_ws(s@[r as int]),
{
    let mut i = lo;
    while i < hi && is_whitespace(s[i])
        invariant
            lo <= i <= hi <= s@.len(),
            trim_start_seq(s@.subrange(i as int, hi as int)) == trim_start_seq(
                s@.subrange(lo as int, hi as int),
            ),
        decreases hi - i,
    {
        proof {
            lemma_trim_start_step(s@, i as int, hi as int);
        }
        i = i + 1;
    }
    proof {
        let t = s@.subrange(i as int, hi as int);
        if t.len() > 0 {
            assert(t[0] == s@[i as int]);
        }
    }
    i
}

/// The end of `s[lo..hi]` once trailing whitespace is dropped.
pub fn trim_end_at(s: &Vec<char>, lo: usize, hi: usize) -> (r: usize)
    requires
        lo <= hi <= s@.len(),
    ensures
        lo <= r <= hi,
        s@.subrange(lo as int, r as int) == trim_end_seq(s@.subrange(lo as int, hi as int)),
{
    let mut j = hi;
    while j > lo && is_whitespace(s[j - 1])
        invariant
            lo <= j <= hi <= s@.len(),
            trim_end_seq(s@.subrange(lo as int, j as int)) == trim_end_seq(
                s@.subrange(lo as int, hi as int),
            ),
        decreases j - lo,
    {
        proof {
            lemma_trim_end_step(s@, lo as int, j as int);
        }
        j = j - 1;
    }
    proof {
        let t = s@.subrange(lo as int, j as int);
        if t.len() > 0 {
            assert(t.last() == s@[j - 1]);
        }
    }
    j
}

/// The bounds of `s[lo..hi]` once surrounding whitespace is dropped.
pub fn trim_at(s: &Vec<char>, lo: usize, hi: usize) -> (r: (usize, usize))
    requires
        lo <= hi <= s@.len(),
    ensures
        lo <= r.0 <= r.1 <= hi,
        s@.subrange(r.0 as int, r.1 as int) == trim_seq(s@.subrange(lo as int, hi as int)),
{
    let a = trim_start_at(s, lo, hi);
    let b = trim_end_at(s, a, hi);
    (a, b)
}

/// The chars of `s`, in order.
pub fn chars_of(s: &str) -> (v: Vec<char>)
    ensures
        v@ == s@,
{
    let mut v: Vec<char> = Vec::new();
    for c in it: s.chars()
        invariant
            it.seq() == s@,
            v@ == s@.take(it.index() as int),
    {
        proof {
            assert(s@.take(it.index() + 1) =~= s@.take(it.index() as int).push(c));
        }
        v.push(c);
    }
    proof {
        assert(s@.take(s@.len() as int) =~= s@);
    }
    v
}

/// Whether `a` and `b` hold the same chars.
pub fn same_chars(a: &str, b: &str) -> (r: bool)
    ensures
        r == (a@ == b@),
{
    let x = chars_of(a);
    let y = chars_of(b);
    if x.len() != y.len() {
        return false;
    }
    let mut i: usize = 0;
    while i < x.len()
        invariant
            x@ == a@,
            y@ == b@,
            x@.len() == y@.len(),
            0 <= i <= x@.len(),
            forall|j: int| 0 <= j < i ==> x@[j] == y@[j],
        decreases x@.len() - i,
    {
        if x[i] != y[i] {
            return false;
        }
        i = i + 1;
    }
    proof {
        assert(x@ =~= y@);
    }
    true
}

/// A `String` holding exactly the chars of `chars`.
#[verifier::external_body]
pub(crate) fn string_from_chars(chars: &[char]) -> (s: String)
    ensures
        s@ == chars@,
{
    String::from_iter(chars)
}

/// The value of an ASCII digit or letter as `char::to_digit` reads it (letters count from 10,
/// case-insensitively); 36 for every other char.
pub open spec fn digit_of(c: char) -> nat {
    let u = c as u32;
    if 0x30 <= u <= 0x39 {
        (u - 0x30) as nat
    } else if 0x61 <= u <= 0x7a {
        (u - 0x61 + 10) as nat
    } else if 0x41 <= u <= 0x5a {
        (u - 0x41 + 10) as nat
    } else {
        36
    }
}

/// `digit_of`, computed.
pub fn digit_value(c: char) -> (r: u32)
    ensures
        r == digit_of(c),
        r <= 36,
{
    let u = c as u32;
    if 0x30 <= u && u <= 0x39 {
        u - 0x30
    } else if 0x61 <= u && u <= 0x7a {
        u - 0x61 + 10
    } else if 0x41 <= u && u <= 0x5a {
        u - 0x41 + 10
    } else {
        36
    }
}

/// Every char of `s` is a digit in base `radix`.
pub open spec fn all_digits(s: Seq<char>, radix: nat) -> bool {
    forall|i: int| 0 <= i < s.len() ==> #[trigger] digit_of(s[i]) < radix
}

/// The number the digits `s` spell in base `radix`, most significant first.
pub open spec fn digits_value(s: Seq<char>, radix: nat) -> nat
    decreases s.len(),
{
    if s.len() == 0 {
        0
    } else {
        digits_value(s.drop_last(), radix) * radix + digit_of(s.last())
    }
}

/// `s` without one leading `+`, if it has one.
pub open spec fn plus_stripped(s: Seq<char>) -> Seq<char> {
    if s.len() > 0 && s[0] == '+' {
        s.drop_first()
    } else {
        s
    }
}

/// What `from_str_radix` gives for an unsigned type whose maximum is `max`: an optional leading
/// `+`, then at least one digit of `radix`, the whole not above `max`.
pub open spec fn radix_parse(s: Seq<char>, radix: nat, max: nat) -> Option<nat> {
    let body = plus_stripped(s);
    if body.len() == 0 || !all_digits(body, radix) || digits_value(body, radix) > max {
        None
    } else {
        Some(digits_value(body, radix))
    }
}

proof fn lemma_digits_value_grows(s: Seq<char>, radix: nat, i: int)
    requires
        0 <= i < s.len(),
        radix >= 1,
    ensures
        digits_value(s.take(i + 1), radix) >= digits_value(s.take(i), radix),
        digits_value(s.take(i + 1), radix) == digits_value(s.take(i), radix) * radix + digit_of(
            s[i],
        ),
{
    assert(s.take(i + 1).drop_last() =~= s.take(i));
    assert(digits_value(s.take(i), radix) * radix >= digits_value(s.take(i), radix)) by (
    nonlinear_arith)
        requires
            radix >= 1,
    ;
}

proof fn lemma_digits_value_monotone(s: Seq<char>, radix: nat, i: int, j: int)
    requires
        0 <= i <= j <= s.len(),
        radix >= 1,
    ensures
        digits_value(s.take(j), radix) >= digits_value(s.take(i), radix),
    decreases j - i,
{
    if i < j {
        lemma_digits_value_monotone(s, radix, i, j - 1);
        lemma_digits_value_grows(s, radix, j - 1);
    }
}

/// `radix_parse` of `s[lo..hi]`, computed.
pub fn parse_radix(s: &Vec<char>, lo: usize, hi: usize, radix: u32, max: u128) -> (r: Option<u128>)
    requires
        lo <= hi <= s@.len(),
        2 <= radix <= 36,
    ensures
        r == (match radix_parse(s@.subrange(lo as int, hi as int), radix as nat, max as nat) {
            Some(v) => Some(v as u128),
            None => None,
        }),
{
    let ghost whole = s@.subrange(lo as int, hi as int);
    let mut start = lo;
    if lo < hi && s[lo] == '+' {
        start = lo + 1;
    }
    let ghost body = s@.subrange(start as int, hi as int);
    proof {
        if lo < hi && s@[lo as int] == '+' {
            assert(whole[0] == s@[lo as int]);
            assert(whole.drop_first() =~= body);
        } else {
            if lo < hi {
                assert(whole[0] == s@[lo as int]);
            }
            assert(whole =~= body);
        }
        assert(plus_stripped(whole) == body);
    }
    if start == hi {
        return None;
    }
    // every char must be a digit
    let mut k = start;
    while k < hi
        invariant
            start <= k <= hi <= s@.len(),
            body == s@.subrange(start as int, hi as int),
            plus_stripped(whole) == body,
            whole == s@.subrange(lo as int, hi as int),
            forall|t: int| start <= t < k ==> #[trigger] digit_of(s@[t]) < radix,
        decreases hi - k,
    {
        if digit_value(s[k]) >= radix {
            proof {
                assert(body[k - start] == s@[k as int]);
            }
            return None;
        }
        k = k + 1;
    }
    assert(all_digits(body, radix as nat)) by {
        assert forall|t: int| 0 <= t < body.len() implies #[trigger] digit_of(body[t])
            < radix as nat by {
            assert(body[t] == s@[start + t]);
        }
    }
    let mut acc: u128 = 0;
    let mut i = start;
    while i < hi
        invariant
            start <= i <= hi <= s@.len(),
            body == s@.subrange(start as int, hi as int),
            plus_stripped(whole) == body,
            whole == s@.subrange(lo as int, hi as int),
            body.len() > 0,
            all_digits(body, radix as nat),
            2 <= radix <= 36,
            acc as nat == digits_value(body.take(i - start), radix as nat),
        decreases hi - i,
    {
        let d = digit_value(s[i]);
        proof {
            assert(body[i - start] == s@[i as int]);
            lemma_digits_value_grows(body, radix as nat, i - start);
        }
        let m = acc.checked_mul(radix as u128);
        match m {
            None => {
                proof {
                    let nx = digits_value(body.take(i - start + 1), radix as nat);
                    assert(nx >= acc * radix);
                    assert(nx > max);
                    lemma_digits_value_monotone(body, radix as nat, i - start + 1, body.len() as int);
                    assert(body.take(body.len() as int) =~= body);
                }
                return None;
            },
            Some(m) => {
                let a = m.checked_add(d as u128);
                match a {
                    None => {
                        proof {
                            let nx = digits_value(body.take(i - start + 1), radix as nat);
                            assert(nx == m + d);
                            assert(nx > max);
                            lemma_digits_value_monotone(body, radix as nat, i - start + 1, body.len() as int);
                            assert(body.take(body.len() as int) =~= body);
                        }
                        return None;
                    },
                    Some(a) => {
                        acc = a;
                    },
                }
            },
        }
        i = i + 1;
    }
    proof {
        assert(body.take(i - start) =~= body);
    }
    if acc > max {
        None
    } else {
        Some(acc)
    }
}

/// `s[lo..hi]`.
pub fn subslice(s: &Vec<char>, lo: usize, hi: usize) -> (r: &[char])
    requires
        lo <= hi <= s@.len(),
    ensures
        r@ == s@.subrange(lo as int, hi as int),
{
    vstd::slice::slice_subrange(s.as_slice(), lo, hi)
}

/// The name of what `{:?}` prints for a string: the text in double quotes, with quotes,
/// backslashes and control characters escaped.
pub uninterp spec fn debug_quote(s: Seq<char>) -> Seq<char>;

/// `format!("{s:?}")`: `s` as a quoted, escaped string literal.
#[verifier::external_body]
pub(crate) fn debug_quoted(s: &str) -> (r: String)
    ensures
        r@ == debug_quote(s@),
{
    format!("{s:?}")
}

/// The ASCII digit for `d < 10`.
pub open spec fn decimal_digit_char(d: nat) -> char {
    (0x30 + d) as char
}

/// `n` in decimal, without leading zeros (`"0"` for zero).
pub open spec fn decimal_text(n: nat) -> Seq<char>
    decreases n,
{
    if n < 10 {
        seq![decimal_digit_char(n)]
    } else {
        decimal_text(n / 10).push(decimal_digit_char(n % 10))
    }
}

/// `n` in decimal.
pub fn decimal_string(n: u128) -> (s: String)
    ensures
        s@ == decimal_text(n as nat),
{
    // digits least significant first
    let mut rev: Vec<char> = Vec::new();
    let mut m = n;
    loop
        invariant_except_break
            decimal_text(n as nat) == decimal_text(m as nat) + rev@.reverse(),
        ensures
            decimal_text(n as nat) == rev@.reverse(),
        decreases m,
    {
        let d = (m % 10) as u8;
        let c = (0x30u8 + d) as char;
        proof {
            assert(c == decimal_digit_char((m % 10) as nat));
        }
        let ghost before = rev@;
        rev.push(c);
        proof {
            assert(rev@.reverse() =~= seq![c] + before.reverse());
        }
        if m < 10 {
            proof {
                assert(decimal_text(m as nat) =~= seq![c]);
                assert(decimal_text(m as nat) + before.reverse() =~= rev@.reverse());
            }
            break;
        }
        proof {
            assert(decimal_text(m as nat) == decimal_text((m / 10) as nat).push(c));
            assert(decimal_text(m as nat) + before.reverse() =~= decimal_text((m / 10) as nat)
                + rev@.reverse());
        }
        m = m / 10;
    }
    let mut out: Vec<char> = Vec::new();
    let mut i = rev.len();
    while i > 0
        invariant
            0 <= i <= rev@.len(),
            out@ == rev@.subrange(i as int, rev@.len() as int).reverse(),
        decreases i,
    {
        i = i - 1;
        out.push(rev[i]);
        proof {
            assert(rev@.subrange(i as int, rev@.len() as int).reverse() =~= rev@.subrange(
                i + 1,
                rev@.len() as int,
            ).reverse().push(rev@[i as int]));
        }
    }
    proof {
        assert(rev@.subrange(0, rev@.len() as int) =~= rev@);
    }
    string_from_chars(out.as_slice())
}


/// The lowercase hex digit for `d < 16`.
pub open spec fn hex_char(d: nat) -> char {
    if d < 10 {
        ((0x30 + d) as u8) as char
    } else {
        ((0x57 + d) as u8) as char
    }
}

/// `n` in lowercase hex digits, without leading zeros.
pub open spec fn hex_digits(n: nat) -> Seq<char>
    decreases n,
{
    if n < 16 {
        seq![hex_char(n)]
    } else {
        hex_digits(n / 16).push(hex_char(n % 16))
    }
}

/// `n` as `format!("{n:#x}")` writes it: `0x`, then lowercase hex digits without leading zeros.
pub fn hex_number_string(n: u128) -> (s: String)
    ensures
        s@ == "0x"@ + hex_digits(n as nat),
{
    let mut rev: Vec<char> = Vec::new();
    let mut m = n;
    loop
        invariant_except_break
            hex_digits(n as nat) == hex_digits(m as nat) + rev@.reverse(),
        ensures
            hex_digits(n as nat) == rev@.reverse(),
        decreases m,
    {
        let d = (m % 16) as u8;
        let c = if d < 10 {
            (0x30u8 + d) as char
        } else {
            (0x57u8 + d) as char
        };
        proof {
            assert(c == hex_char((m % 16) as nat));
        }
        let ghost before = rev@;
        rev.push(c);
        proof {
            assert(rev@.reverse() =~= seq![c] + before.reverse());
        }
        if m < 16 {
            proof {
                assert(hex_digits(m as nat) =~= seq![c]);
                assert(hex_digits(m as nat) + before.reverse() =~= rev@.reverse());
            }
            break;
        }
        proof {
            assert(hex_digits(m as nat) == hex_digits((m / 16) as nat).push(c));
            assert(hex_digits(m as nat) + before.reverse() =~= hex_digits((m / 16) as nat)
                + rev@.reverse());
        }
        m = m / 16;
    }
    let mut out: Vec<char> = vec!['0', 'x'];
    let mut i = rev.len();
    while i > 0
        invariant
            0 <= i <= rev@.len(),
            out@ == seq!['0', 'x'] + rev@.subrange(i as int, rev@.len() as int).reverse(),
        decreases i,
    {
        i = i - 1;
        out.push(rev[i]);
        proof {
            assert(rev@.subrange(i as int, rev@.len() as int).reverse() =~= rev@.subrange(
                i + 1,
                rev@.len() as int,
            ).reverse().push(rev@[i as int]));
        }
    }
    proof {
        assert(rev@.subrange(0, rev@.len() as int) =~= rev@);
        reveal_strlit("0x");
        assert(out@ =~= "0x"@ + hex_digits(n as nat));
    }
    string_from_chars(out.as_slice())
}

/// A byte as `format!("{b:#04x}")` writes it: `0x`, then exactly two lowercase hex digits.
pub open spec fn byte_hex_text(b: u8) -> Seq<char> {
    seq!['0', 'x', hex_char((b / 16) as nat), hex_char((b % 16) as nat)]
}

/// A byte as `format!("{b:#04x}")` writes it.
pub fn byte_hex_string(b: u8) -> (s: String)
    ensures
        s@ == byte_hex_text(b),
{
    let hi = b / 16;
    let lo = b % 16;
    let h = if hi < 10 {
        (0x30u8 + hi) as char
    } else {
        (0x57u8 + hi) as char
    };
    let l = if lo < 10 {
        (0x30u8 + lo) as char
    } else {
        (0x57u8 + lo) as char
    };
    let out: Vec<char> = vec!['0', 'x', h, l];
    proof {
        assert(out@ =~= byte_hex_text(b));
    }
    string_from_chars(out.as_slice())
}

/// The decimal text of a possibly negative number.
pub open spec fn signed_text(v: int) -> Seq<char> {
    if v < 0 {
        seq!['-'] + decimal_text((-v) as nat)
    } else {
        decimal_text(v as nat)
    }
}

/// `v` in decimal, with a leading `-` when negative.
pub fn signed_decimal_string(v: i128) -> (s: String)
    requires
        v > i128::MIN,
    ensures
        s@ == signed_text(v as int),
{
    if v < 0 {
        let mut m = String::from_str("-");
        let d = decimal_string((-v) as u128);
        m.append(d.as_str());
        proof {
            reveal_strlit("-");
            assert(m@ =~= signed_text(v as int));
        }
        m
    } else {
        decimal_string(v as u128)
    }
}


/// Where the word starting at `i` of `s` ends: the first whitespace at or after `i`, or the end.
pub open spec fn word_end(s: Seq<char>, i: int) -> int
    decreases s.len() - i,
{
    if i < 0 || i >= s.len() || is_ws(s[i]) {
        i
    } else {
        word_end(s, i + 1)
    }
}

pub proof fn lemma_word_end(s: Seq<char>, i: int)
    requires
        0 <= i <= s.len(),
    ensures
        i <= word_end(s, i) <= s.len(),
        i < s.len() && !is_ws(s[i]) ==> i < word_end(s, i),
        forall|k: int| i <= k < word_end(s, i) ==> !is_ws(#[trigger] s[k]),
    decreases s.len() - i,
{
    if i < s.len() && !is_ws(s[i]) {
        lemma_word_end(s, i + 1);
    }
}

/// The whitespace-separated words of `s` from index `i` on, in order.
pub open spec fn words_from(s: Seq<char>, i: int) -> Seq<Seq<char>>
    decreases s.len() - i,
{
    if i < 0 || i >= s.len() {
        Seq::empty()
    } else if is_ws(s[i]) {
        words_from(s, i + 1)
    } else {
        proof {
            lemma_word_end(s, i);
        }
        seq![s.subrange(i, word_end(s, i))] + words_from(s, word_end(s, i))
    }
}

/// The whitespace-separated words of `s`, as `str::split_whitespace` gives them.
pub open spec fn words(s: Seq<char>) -> Seq<Seq<char>> {
    words_from(s, 0)
}

/// The whitespace-separated words of `s`.
pub fn split_words(s: &str) -> (r: Vec<String>)
    ensures
        r@.map_values(|w: String| w@) == words(s@),
{
    let c = chars_of(s);
    let n = c.len();
    let mut out: Vec<String> = Vec::new();
    let mut i: usize = 0;
    while i < n
        invariant
            0 <= i <= n,
            n == c@.len(),
            c@ == s@,
            out@.map_values(|w: String| w@) + words_from(c@, i as int) == words(c@),
        decreases n - i,
    {
        if is_whitespace(c[i]) {
            i = i + 1;
        } else {
            let mut j = i + 1;
            proof {
                lemma_word_end(c@, i as int);
            }
            while j < n && !is_whitespace(c[j])
                invariant
                    i < j <= n,
                    n == c@.len(),
                    word_end(c@, j as int) == word_end(c@, i as int),
                decreases n - j,
            {
                j = j + 1;
            }
            let word = string_from_chars(subslice(&c, i, j));
            let ghost before = out@;
            out.push(word);
            proof {
                assert(out@.map_values(|w: String| w@) =~= before.map_values(|w: String| w@).push(
                    c@.subrange(i as int, j as int),
                ));
                assert(words_from(c@, i as int) == seq![c@.subrange(i as int, j as int)]
                    + words_from(c@, j as int));
                assert(before.map_values(|w: String| w@).push(c@.subrange(i as int, j as int))
                    + words_from(c@, j as int) =~= before.map_values(|w: String| w@) + (seq![
                    c@.subrange(i as int, j as int),
                ] + words_from(c@, j as int)));
            }
            i = j;
        }
    }
    proof {
        assert(out@.map_values(|w: String| w@) + words_from(c@, n as int) =~= out@.map_values(
            |w: String| w@,
        ));
    }
    out
}


/// `s` without leading and trailing whitespace, as `str::trim` gives it.
pub fn trim_string(s: &str) -> (r: String)
    ensures
        r@ == trim_seq(s@),
{
    let chars = chars_of(s);
    let (lo, hi) = trim_at(&chars, 0, chars.len());
    proof {
        assert(chars@.subrange(0, chars@.len() as int) =~= s@);
    }
    string_from_chars(subslice(&chars, lo, hi))
}

} // verus!
