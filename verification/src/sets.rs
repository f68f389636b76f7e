//! Comma/range index-set parser (e.g. `"1,3-5,8"`, `"!2-4"`).

use std::collections::BTreeSet;

use vstd::prelude::*;

use crate::text::{
    chars_of, is_ws, parse_radix, radix_parse, string_from_chars, trim_at, trim_end_seq,
    trim_seq, trim_start_seq,
};

verus! {

broadcast use vstd::std_specs::btree::group_btree_axioms, vstd::laws_cmp::group_laws_cmp;

/// Failure parsing an index-set expression.
#[derive(Debug, Clone, PartialEq, Eq)]
pub enum SetParseError {
    Empty,
    InvertNotAtStart,
    InvertsEntireRange(usize),
    OutOfBounds(usize, usize),
    Duplicate(usize),
    InvalidRange(String),
    InvalidToken(String),
}

/// [`SetParseError`] with its texts as char sequences.
pub enum SetError {
    Empty,
    InvertNotAtStart,
    InvertsEntireRange(usize),
    OutOfBounds(usize, usize),
    Duplicate(usize),
    InvalidRange(Seq<char>),
    InvalidToken(Seq<char>),
}

impl View for SetParseError {
    type V = SetError;

    open spec fn view(&self) -> SetError {
        match self {
            SetParseError::Empty => SetError::Empty,
            SetParseError::InvertNotAtStart => SetError::InvertNotAtStart,
            SetParseError::InvertsEntireRange(n) => SetError::InvertsEntireRange(*n),
            SetParseError::OutOfBounds(i, n) => SetError::OutOfBounds(*i, *n),
            SetParseError::Duplicate(i) => SetError::Duplicate(*i),
            SetParseError::InvalidRange(s) => SetError::InvalidRange(s@),
            SetParseError::InvalidToken(s) => SetError::InvalidToken(s@),
        }
    }
}

impl SetParseError {
    /// The human-readable description of this error.
    pub fn message(&self) -> (r: String)
        ensures
            r@ == set_error_message(self@),
    {
        match self {
            SetParseError::Empty => String::from_str("set must have at least one index"),
            SetParseError::InvertNotAtStart => String::from_str(
                "`!` inversion must appear at the start of the set",
            ),
            SetParseError::InvertsEntireRange(n) => {
                let mut s = String::from_str(
                    "inverting a set spanning the entire range 0..",
                );
                let d = crate::text::decimal_string(*n as u128);
                s.append(d.as_str());
                s.append(" would leave nothing");
                s
            },
            SetParseError::OutOfBounds(i, n) => {
                let mut s = String::from_str("index ");
                let d = crate::text::decimal_string(*i as u128);
                s.append(d.as_str());
                s.append(" is out of bounds (size is ");
                let e = crate::text::decimal_string(*n as u128);
                s.append(e.as_str());
                s.append(")");
                s
            },
            SetParseError::Duplicate(i) => {
                let mut s = String::from_str("duplicate index ");
                let d = crate::text::decimal_string(*i as u128);
                s.append(d.as_str());
                s
            },
            SetParseError::InvalidRange(t) => {
                let mut s = String::from_str("range ");
                let q = crate::text::debug_quoted(t.as_str());
                s.append(q.as_str());
                s.append(" runs backwards (end before start)");
                s
            },
            SetParseError::InvalidToken(t) => {
                let mut s = String::from_str("invalid token ");
                let q = crate::text::debug_quoted(t.as_str());
                s.append(q.as_str());
                s
            },
        }
    }
}

/// The message text of each error.
pub open spec fn set_error_message(e: SetError) -> Seq<char> {
    match e {
        SetError::Empty => "set must have at least one index"@,
        SetError::InvertNotAtStart => "`!` inversion must appear at the start of the set"@,
        SetError::InvertsEntireRange(n) => "inverting a set spanning the entire range 0.."@
            + crate::text::decimal_text(n as nat) + " would leave nothing"@,
        SetError::OutOfBounds(i, n) => "index "@ + crate::text::decimal_text(i as nat)
            + " is out of bounds (size is "@ + crate::text::decimal_text(n as nat) + ")"@,
        SetError::Duplicate(i) => "duplicate index "@ + crate::text::decimal_text(i as nat),
        SetError::InvalidRange(t) => "range "@ + crate::text::debug_quote(t)
            + " runs backwards (end before start)"@,
        SetError::InvalidToken(t) => "invalid token "@ + crate::text::debug_quote(t),
    }
}

/// `0x`/`0X`-prefixed text is hexadecimal, anything else decimal.
pub open spec fn has_hex_prefix(t: Seq<char>) -> bool {
    t.len() >= 2 && t[0] == '0' && (t[1] == 'x' || t[1] == 'X')
}

/// A single decimal or `0x`-prefixed hexadecimal index, surrounding whitespace ignored.
pub open spec fn index_spec(text: Seq<char>) -> Option<nat> {
    let t = trim_seq(text);
    if has_hex_prefix(t) {
        radix_parse(t.skip(2), 16, usize::MAX as nat)
    } else {
        radix_parse(t, 10, usize::MAX as nat)
    }
}

/// Index of the first `c` in `s`, if any.
pub open spec fn find_char(s: Seq<char>, c: char) -> Option<int>
    decreases s.len(),
{
    if s.len() == 0 {
        None
    } else if s[0] == c {
        Some(0)
    } else {
        match find_char(s.drop_first(), c) {
            Some(i) => Some(i + 1),
            None => None,
        }
    }
}

/// Inserts `lo..=hi` into `set` one index at a time, stopping at the first index that is out of
/// bounds or already present.
pub open spec fn insert_range(set: Set<usize>, lo: int, hi: int, size: usize) -> Result<
    Set<usize>,
    SetError,
>
    decreases hi - lo + 1,
{
    if lo > hi {
        Ok(set)
    } else if lo >= size {
        Err(SetError::OutOfBounds(lo as usize, size))
    } else if set.contains(lo as usize) {
        Err(SetError::Duplicate(lo as usize))
    } else {
        insert_range(set.insert(lo as usize), lo + 1, hi, size)
    }
}

/// The inclusive bounds an entry names: `a-b`, or `a` alone for `a-a`.
pub open spec fn token_bounds(token: Seq<char>) -> Option<(nat, nat)> {
    match find_char(token, '-') {
        Some(k) => match (index_spec(token.take(k)), index_spec(token.skip(k + 1))) {
            (Some(a), Some(b)) => Some((a, b)),
            _ => None,
        },
        None => match index_spec(token) {
            Some(a) => Some((a, a)),
            None => None,
        },
    }
}

/// Adds one comma-separated entry (`raw`, untrimmed) to `set`.
pub open spec fn apply_token(set: Set<usize>, raw: Seq<char>, size: usize) -> Result<
    Set<usize>,
    SetError,
> {
    let token = trim_seq(raw);
    match token_bounds(token) {
        None => Err(SetError::InvalidToken(token)),
        Some((a, b)) => if b < a {
            Err(SetError::InvalidRange(token))
        } else {
            insert_range(set, a as int, b as int, size)
        },
    }
}

/// Adds every entry of `tokens`, left to right, to the empty set.
pub open spec fn apply_tokens(tokens: Seq<Seq<char>>, size: usize) -> Result<Set<usize>, SetError>
    decreases tokens.len(),
{
    if tokens.len() == 0 {
        Ok(Set::empty())
    } else {
        match apply_tokens(tokens.drop_last(), size) {
            Err(e) => Err(e),
            Ok(set) => apply_token(set, tokens.last(), size),
        }
    }
}

/// `s` cut at every `sep` (an empty `s` is one empty piece).
pub open spec fn split_on(s: Seq<char>, sep: char) -> Seq<Seq<char>>
    decreases s.len(),
{
    if s.len() == 0 {
        seq![Seq::empty()]
    } else {
        let rest = split_on(s.drop_last(), sep);
        if s.last() == sep {
            rest.push(Seq::empty())
        } else {
            rest.update(rest.len() - 1, rest.last().push(s.last()))
        }
    }
}

/// The body of a set expression: trimmed, with one leading `!` removed.
pub open spec fn set_body(input: Seq<char>) -> Seq<char> {
    let t = trim_seq(input);
    if t.len() > 0 && t[0] == '!' {
        t.drop_first()
    } else {
        t
    }
}

/// Whether the trimmed expression starts with `!`.
pub open spec fn set_inverted(input: Seq<char>) -> bool {
    let t = trim_seq(input);
    t.len() > 0 && t[0] == '!'
}

/// What [`parse_index_set`] returns for `input` bounded by `size`.
pub open spec fn index_set_spec(input: Seq<char>, size: usize) -> Result<Set<usize>, SetError> {
    let body = set_body(input);
    if body.contains('!') {
        Err(SetError::InvertNotAtStart)
    } else if body.len() == 0 {
        Err(SetError::Empty)
    } else {
        match apply_tokens(split_on(body, ','), size) {
            Err(e) => Err(e),
            Ok(set) => if !set_inverted(input) {
                Ok(set)
            } else if forall|i: usize| i < size ==> set.contains(i) {
                Err(SetError::InvertsEntireRange(size))
            } else {
                Ok(Set::new(|i: usize| i < size && !set.contains(i)))
            },
        }
    }
}

/// Parses a single decimal or `0x`-prefixed hexadecimal index from `s[lo..hi]`.
fn parse_index(s: &Vec<char>, lo: usize, hi: usize) -> (r: Option<usize>)
    requires
        lo <= hi <= s@.len(),
    ensures
        r == (match index_spec(s@.subrange(lo as int, hi as int)) {
            Some(v) => Some(v as usize),
            None => None,
        }),
        index_spec(s@.subrange(lo as int, hi as int)) matches Some(v) ==> v <= usize::MAX,
{
    let (a, b) = trim_at(s, lo, hi);
    let ghost t = s@.subrange(a as int, b as int);
    if b - a >= 2 && s[a] == '0' && (s[a + 1] == 'x' || s[a + 1] == 'X') {
        proof {
            assert(t[0] == s@[a as int] && t[1] == s@[a + 1]);
            assert(t.skip(2) =~= s@.subrange(a + 2, b as int));
        }
        match parse_radix(s, a + 2, b, 16, usize::MAX as u128) {
            Some(v) => Some(v as usize),
            None => None,
        }
    } else {
        proof {
            if b - a >= 2 {
                assert(t[0] == s@[a as int] && t[1] == s@[a + 1]);
            }
        }
        match parse_radix(s, a, b, 10, usize::MAX as u128) {
            Some(v) => Some(v as usize),
            None => None,
        }
    }
}

proof fn lemma_find_char_bounds(s: Seq<char>, c: char)
    ensures
        find_char(s, c) matches Some(j) ==> 0 <= j < s.len() && s[j] == c,
    decreases s.len(),
{
    if s.len() > 0 && s[0] != c {
        lemma_find_char_bounds(s.drop_first(), c);
    }
}

proof fn lemma_find_char_step(s: Seq<char>, lo: int, i: int, hi: int, c: char)
    requires
        0 <= lo <= i < hi <= s.len(),
        s[i] != c,
        find_char(s.subrange(lo, hi), c) == (match find_char(s.subrange(i, hi), c) {
            Some(j) => Some(j + (i - lo)),
            None => None,
        }),
    ensures
        find_char(s.subrange(lo, hi), c) == (match find_char(s.subrange(i + 1, hi), c) {
            Some(j) => Some(j + (i + 1 - lo)),
            None => None,
        }),
{
    assert(s.subrange(i, hi).drop_first() =~= s.subrange(i + 1, hi));
    assert(s.subrange(i, hi)[0] == s[i]);
}

/// The first `c` in `s[lo..hi]`, as an index into `s`.
pub fn find_in_chars(s: &Vec<char>, lo: usize, hi: usize, c: char) -> (r: Option<usize>)
    requires
        lo <= hi <= s@.len(),
    ensures
        r == (match find_char(s@.subrange(lo as int, hi as int), c) {
            Some(j) => Some((j + lo) as usize),
            None => None,
        }),
        r matches Some(k) ==> lo <= k < hi && s@[k as int] == c,
        find_char(s@.subrange(lo as int, hi as int), c) matches Some(j) ==> 0 <= j < hi - lo,
{
    proof {
        lemma_find_char_bounds(s@.subrange(lo as int, hi as int), c);
    }
    let mut i = lo;
    while i < hi
        invariant
            lo <= i <= hi <= s@.len(),
            find_char(s@.subrange(lo as int, hi as int), c) matches Some(j) ==> 0 <= j < hi - lo,
            find_char(s@.subrange(lo as int, hi as int), c) == (match find_char(
                s@.subrange(i as int, hi as int),
                c,
            ) {
                Some(j) => Some(j + (i - lo)),
                None => None,
            }),
        decreases hi - i,
    {
        if s[i] == c {
            proof {
                assert(s@.subrange(i as int, hi as int)[0] == c);
            }
            return Some(i);
        }
        proof {
            lemma_find_char_step(s@, lo as int, i as int, hi as int, c);
        }
        i = i + 1;
    }
    None
}

/// Adds `lo..=hi` to `indices`; see [`insert_range`].
fn insert_indices(indices: &mut BTreeSet<usize>, lo: usize, hi: usize, size: usize) -> (r: Result<(), SetParseError>)
    requires
        lo <= hi,
    ensures
        match insert_range(old(indices)@, lo as int, hi as int, size) {
            Ok(set) => r is Ok && final(indices)@ == set,
            Err(e) => r matches Err(f) && f@ == e,
        },
{
    let mut index = lo;
    loop
        invariant
            lo <= index <= hi,
            insert_range(old(indices)@, lo as int, hi as int, size) == insert_range(
                indices@,
                index as int,
                hi as int,
                size,
            ),
        decreases hi - index,
    {
        if index >= size {
            return Err(SetParseError::OutOfBounds(index, size));
        }
        if !indices.insert(index) {
            return Err(SetParseError::Duplicate(index));
        }
        if index == hi {
            return Ok(());
        }
        index = index + 1;
    }
}

/// [`token_bounds`] of `s[a..b]`, computed.
fn bounds_at(s: &Vec<char>, a: usize, b: usize) -> (r: Option<(usize, usize)>)
    requires
        a <= b <= s@.len(),
    ensures
        r == (match token_bounds(s@.subrange(a as int, b as int)) {
            Some((x, y)) => Some((x as usize, y as usize)),
            None => None,
        }),
        token_bounds(s@.subrange(a as int, b as int)) matches Some((x, y)) ==> x <= usize::MAX && y
            <= usize::MAX,
{
    let ghost token = s@.subrange(a as int, b as int);
    match find_in_chars(s, a, b, '-') {
        Some(k) => {
            let ghost j = (k - a) as int;
            proof {
                assert(find_char(token, '-') == Some(j));
                assert(token.take(j) =~= s@.subrange(a as int, k as int));
                assert(token.skip(j + 1) =~= s@.subrange(k + 1, b as int));
            }
            let x = parse_index(s, a, k);
            let y = parse_index(s, k + 1, b);
            match (x, y) {
                (Some(x), Some(y)) => Some((x, y)),
                _ => None,
            }
        },
        None => {
            proof {
                assert(find_char(token, '-') is None);
            }
            match parse_index(s, a, b) {
                Some(x) => Some((x, x)),
                None => None,
            }
        },
    }
}

/// Adds the entry `s[lo..hi]` to `indices`; see [`apply_token`].
fn add_token(indices: &mut BTreeSet<usize>, s: &Vec<char>, lo: usize, hi: usize, size: usize) -> (r: Result<(), SetParseError>)
    requires
        lo <= hi <= s@.len(),
    ensures
        match apply_token(old(indices)@, s@.subrange(lo as int, hi as int), size) {
            Ok(set) => r is Ok && final(indices)@ == set,
            Err(e) => r matches Err(f) && f@ == e,
        },
{
    let (a, b) = trim_at(s, lo, hi);
    match bounds_at(s, a, b) {
        None => Err(SetParseError::InvalidToken(string_from_chars(crate::text::subslice(s, a, b)))),
        Some((x, y)) => {
            if y < x {
                Err(SetParseError::InvalidRange(string_from_chars(crate::text::subslice(s, a, b))))
            } else {
                insert_indices(indices, x, y, size)
            }
        },
    }
}

/// Adds every comma-separated entry of `s[lo..hi]`, left to right, to an empty set.
fn add_tokens(s: &Vec<char>, lo: usize, b: usize, size: usize) -> (r: Result<BTreeSet<usize>, SetParseError>)
    requires
        lo <= b <= s@.len(),
    ensures
        match apply_tokens(split_on(s@.subrange(lo as int, b as int), ','), size) {
            Ok(set) => r matches Ok(got) && got@ == set,
            Err(e) => r matches Err(f) && f@ == e,
        },
{
    let ghost body = s@.subrange(lo as int, b as int);
    let mut indices: BTreeSet<usize> = BTreeSet::new();
    let ghost mut done: Seq<Seq<char>> = Seq::empty();
    let mut token_start = lo;
    let mut i = lo;
    proof {
        assert(body.take(0) =~= Seq::<char>::empty());
        assert(s@.subrange(lo as int, lo as int) =~= Seq::<char>::empty());
        assert(split_on(Seq::<char>::empty(), ',') == seq![Seq::<char>::empty()]);
        assert(done.push(Seq::<char>::empty()) =~= seq![Seq::<char>::empty()]);
    }
    while i < b
        invariant
            lo <= token_start <= i <= b <= s@.len(),
            body == s@.subrange(lo as int, b as int),
            split_on(body.take(i - lo), ',') == done.push(s@.subrange(token_start as int, i as int)),
            apply_tokens(done, size) == Ok::<Set<usize>, SetError>(indices@),
        decreases b - i,
    {
        proof {
            assert(body.take(i - lo + 1).drop_last() =~= body.take(i - lo));
            assert(body.take(i - lo + 1).last() == s@[i as int]);
        }
        if s[i] == ',' {
            let res = add_token(&mut indices, s, token_start, i, size);
            let ghost p = done.push(s@.subrange(token_start as int, i as int));
            proof {
                assert(p.drop_last() =~= done);
                assert(split_on(body.take(i - lo + 1), ',') == split_on(body.take(i - lo), ',').push(Seq::empty()));
                assert(split_on(body.take(i - lo + 1), ',').drop_last() =~= p);
            }
            match res {
                Err(e) => {
                    proof {
                        lemma_split_prefix(body, i - lo + 1, ',');
                        lemma_apply_tokens_err_sticks(p, split_on(body, ','), size);
                    }
                    return Err(e);
                },
                Ok(()) => {},
            }
            proof {
                done = p;
                assert(s@.subrange(i + 1, i + 1) =~= Seq::<char>::empty());
                assert(split_on(body.take(i - lo + 1), ',') =~= done.push(s@.subrange(i + 1, i + 1)));
            }
            token_start = i + 1;
        } else {
            proof {
                let cur = s@.subrange(token_start as int, i as int);
                assert(s@.subrange(token_start as int, i + 1) =~= cur.push(s@[i as int]));
                assert(done.push(cur).update(done.len() as int, cur.push(s@[i as int])) =~= done.push(
                    s@.subrange(token_start as int, i + 1),
                ));
            }
        }
        i = i + 1;
    }
    let last = add_token(&mut indices, s, token_start, b, size);
    proof {
        assert(body.take(b - lo) =~= body);
        assert(done.push(s@.subrange(token_start as int, b as int)).drop_last() =~= done);
    }
    match last {
        Err(e) => Err(e),
        Ok(()) => Ok(indices),
    }
}

/// Parses a comma/range index-set expression, e.g. `"1,3-5,8"`, bounded by `size` (exclusive).
///
/// A leading `!` inverts the set to every index in `0..size` *not* listed. Individual entries
/// are either a single index or an inclusive `start-end` range; indices may be decimal or
/// `0x`-prefixed hexadecimal. Duplicate indices are rejected rather than silently merged.
pub fn parse_index_set(input: &str, size: usize) -> (r: Result<BTreeSet<usize>, SetParseError>)
    ensures
        match index_set_spec(input@, size) {
            Ok(set) => r matches Ok(got) && got@ == set,
            Err(e) => r matches Err(f) && f@ == e,
        },
{
    let s = chars_of(input);
    let (a, b) = trim_at(&s, 0, s.len());
    let ghost t = s@.subrange(a as int, b as int);
    proof {
        assert(s@.subrange(0, s@.len() as int) =~= input@);
    }
    let invert = a < b && s[a] == '!';
    let lo = if invert {
        a + 1
    } else {
        a
    };
    proof {
        if a < b {
            assert(t[0] == s@[a as int]);
        }
        if invert {
            assert(t.drop_first() =~= s@.subrange(lo as int, b as int));
        } else {
            assert(t =~= s@.subrange(lo as int, b as int));
        }
    }
    let ghost body = s@.subrange(lo as int, b as int);
    if let Some(k) = find_in_chars(&s, lo, b, '!') {
        proof {
            assert(body[k - lo] == '!');
        }
        return Err(SetParseError::InvertNotAtStart);
    }
    proof {
        if body.contains('!') {
            let j = choose|j: int| 0 <= j < body.len() && body[j] == '!';
            lemma_find_char_some(body, '!', j);
        }
    }
    if lo == b {
        return Err(SetParseError::Empty);
    }
    let indices = match add_tokens(&s, lo, b, size) {
        Err(e) => {
            return Err(e);
        },
        Ok(set) => set,
    };
    if !invert {
        return Ok(indices);
    }
    let mut inverted: BTreeSet<usize> = BTreeSet::new();
    let mut j: usize = 0;
    while j < size
        invariant
            0 <= j <= size,
            inverted@ == Set::new(|x: usize| x < j && !indices@.contains(x)),
        decreases size - j,
    {
        if !indices.contains(&j) {
            inverted.insert(j);
            proof {
                assert(inverted@ =~= Set::new(|x: usize| x < j + 1 && !indices@.contains(x)));
            }
        } else {
            proof {
                assert(inverted@ =~= Set::new(|x: usize| x < j + 1 && !indices@.contains(x)));
            }
        }
        j = j + 1;
    }
    if inverted.is_empty() {
        proof {
            assert forall|x: usize| x < size implies indices@.contains(x) by {
                if !indices@.contains(x) {
                    assert(inverted@.contains(x));
                }
            }
        }
        return Err(SetParseError::InvertsEntireRange(size));
    }
    proof {
        let x = inverted@.choose();
        assert(inverted@.contains(x));
    }
    Ok(inverted)
}

proof fn lemma_find_char_some(s: Seq<char>, c: char, j: int)
    requires
        0 <= j < s.len(),
        s[j] == c,
    ensures
        find_char(s, c) is Some,
    decreases s.len(),
{
    if s[0] != c {
        lemma_find_char_some(s.drop_first(), c, j - 1);
    }
}

/// Once a prefix of the tokens fails, processing more of them keeps that failure.
proof fn lemma_apply_tokens_err_sticks(p: Seq<Seq<char>>, q: Seq<Seq<char>>, size: usize)
    requires
        apply_tokens(p, size) is Err,
        p.len() <= q.len(),
        q.take(p.len() as int) == p,
    ensures
        apply_tokens(q, size) == apply_tokens(p, size),
    decreases q.len() - p.len(),
{
    if q.len() > p.len() {
        assert(q.drop_last().take(p.len() as int) =~= p);
        lemma_apply_tokens_err_sticks(p, q.drop_last(), size);
    } else {
        assert(q =~= p);
    }
}

/// The complete pieces of a prefix are a prefix of the pieces of the whole.
proof fn lemma_split_prefix(s: Seq<char>, n: int, sep: char)
    requires
        0 <= n <= s.len(),
    ensures
        split_on(s.take(n), sep).len() >= 1,
        split_on(s.take(n), sep).len() - 1 <= split_on(s, sep).len(),
        split_on(s, sep).take(split_on(s.take(n), sep).len() - 1) == split_on(s.take(n), sep).drop_last(),
    decreases s.len() - n,
{
    lemma_split_nonempty(s.take(n), sep);
    if n == s.len() {
        assert(s.take(n) =~= s);
        assert(split_on(s, sep).take(split_on(s, sep).len() - 1) =~= split_on(s, sep).drop_last());
    } else {
        lemma_split_prefix(s, n + 1, sep);
        assert(s.take(n + 1).drop_last() =~= s.take(n));
        let a = split_on(s.take(n), sep);
        let b = split_on(s.take(n + 1), sep);
        if s.take(n + 1).last() == sep {
            assert(b.drop_last() =~= a);
            assert(split_on(s, sep).take(a.len() - 1) =~= b.drop_last().take(a.len() - 1));
            assert(a.take(a.len() - 1) =~= a.drop_last());
        } else {
            assert(b.drop_last() =~= a.drop_last());
        }
    }
}

proof fn lemma_split_nonempty(s: Seq<char>, sep: char)
    ensures
        split_on(s, sep).len() >= 1,
    decreases s.len(),
{
    if s.len() > 0 {
        lemma_split_nonempty(s.drop_last(), sep);
    }
}

/// Every index below `size` stays so when a range is inserted.
proof fn lemma_insert_range_bounded(set: Set<usize>, lo: int, hi: int, size: usize)
    requires
        0 <= lo,
        forall|i: usize| set.contains(i) ==> i < size,
    ensures
        insert_range(set, lo, hi, size) matches Ok(r) ==> forall|i: usize| r.contains(i) ==> i < size,
    decreases hi - lo + 1,
{
    if lo <= hi && lo < size && !set.contains(lo as usize) {
        lemma_insert_range_bounded(set.insert(lo as usize), lo + 1, hi, size);
    }
}

/// Every index of the set the entries build is below `size`.
proof fn lemma_apply_tokens_bounded(tokens: Seq<Seq<char>>, size: usize)
    ensures
        apply_tokens(tokens, size) matches Ok(r) ==> forall|i: usize| r.contains(i) ==> i < size,
    decreases tokens.len(),
{
    if tokens.len() > 0 {
        lemma_apply_tokens_bounded(tokens.drop_last(), size);
        if let Ok(set) = apply_tokens(tokens.drop_last(), size) {
            let token = trim_seq(tokens.last());
            if let Some((a, b)) = token_bounds(token) {
                lemma_insert_range_bounded(set, a as int, b as int, size);
            }
        }
    }
}

/// Trailing whitespace is trimmed from the end only: text before it stays, as long as something
/// that is not whitespace is left at the end.
proof fn lemma_trim_end_join(x: Seq<char>, y: Seq<char>)
    requires
        trim_end_seq(y).len() > 0 || (x.len() > 0 && !is_ws(x.last())),
    ensures
        trim_end_seq(x + y) == x + trim_end_seq(y),
    decreases y.len(),
{
    if y.len() == 0 {
        assert(x + y =~= x);
    } else {
        assert((x + y).last() == y.last());
        assert((x + y).drop_last() =~= x + y.drop_last());
        if is_ws(y.last()) {
            lemma_trim_end_join(x, y.drop_last());
        }
    }
}

/// Leading whitespace trimmed from `s` is a prefix of whitespace.
proof fn lemma_trim_start_prefix(s: Seq<char>) -> (k: int)
    ensures
        0 <= k <= s.len(),
        trim_start_seq(s) == s.skip(k),
        forall|i: int| 0 <= i < k ==> is_ws(#[trigger] s[i]),
    decreases s.len(),
{
    if s.len() > 0 && is_ws(s[0]) {
        let j = lemma_trim_start_prefix(s.drop_first());
        assert(s.drop_first().skip(j) =~= s.skip(j + 1));
        assert forall|i: int| 0 <= i < j + 1 implies is_ws(#[trigger] s[i]) by {
            if i > 0 {
                assert(s[i] == s.drop_first()[i - 1]);
            }
        }
        j + 1
    } else {
        assert(s.skip(0) =~= s);
        0
    }
}

/// Whitespace in front of `t` makes no difference once trimmed.
proof fn lemma_trim_ws_prefix(w: Seq<char>, t: Seq<char>)
    requires
        forall|i: int| 0 <= i < w.len() ==> is_ws(#[trigger] w[i]),
    ensures
        trim_start_seq(w + t) == trim_start_seq(t),
        trim_seq(w + t) == trim_seq(t),
    decreases w.len(),
{
    if w.len() == 0 {
        assert(w + t =~= t);
    } else {
        assert((w + t)[0] == w[0]);
        assert((w + t).drop_first() =~= w.drop_first() + t);
        assert forall|i: int| 0 <= i < w.drop_first().len() implies is_ws(#[trigger] w.drop_first()[i]) by {
            assert(w.drop_first()[i] == w[i + 1]);
        }
        lemma_trim_ws_prefix(w.drop_first(), t);
    }
}

/// Text without the separator is one piece.
proof fn lemma_split_no_sep(w: Seq<char>, sep: char)
    requires
        !w.contains(sep),
    ensures
        split_on(w, sep) == seq![w],
    decreases w.len(),
{
    if w.len() > 0 {
        assert(!w.drop_last().contains(sep)) by {
            if w.drop_last().contains(sep) {
                let i = choose|i: int| 0 <= i < w.drop_last().len() && w.drop_last()[i] == sep;
                assert(w[i] == sep);
            }
        }
        lemma_split_no_sep(w.drop_last(), sep);
        assert(w[w.len() - 1] != sep);
        assert(w.drop_last().push(w.last()) =~= w);
        assert(seq![w.drop_last()].update(0, w.drop_last().push(w.last())) =~= seq![w]);
    } else {
        assert(w =~= Seq::<char>::empty());
    }
}

/// Trailing whitespace trimmed from `s` leaves a prefix of it.
proof fn lemma_trim_end_prefix(s: Seq<char>) -> (j: int)
    ensures
        0 <= j <= s.len(),
        trim_end_seq(s) == s.take(j),
    decreases s.len(),
{
    if s.len() > 0 && is_ws(s.last()) {
        let j = lemma_trim_end_prefix(s.drop_last());
        assert(s.drop_last().take(j) =~= s.take(j));
        j
    } else {
        assert(s.take(s.len() as int) =~= s);
        s.len() as int
    }
}

/// Text without the separator in front of `x` joins the first piece of `x`.
proof fn lemma_split_after_prefix(w: Seq<char>, x: Seq<char>, sep: char)
    requires
        !w.contains(sep),
    ensures
        split_on(x, sep).len() >= 1,
        split_on(w + x, sep) == split_on(x, sep).update(0, w + split_on(x, sep)[0]),
    decreases x.len(),
{
    if x.len() == 0 {
        assert(w + x =~= w);
        lemma_split_no_sep(w, sep);
        assert(seq![Seq::<char>::empty()].update(0, w + Seq::<char>::empty()) =~= seq![w]);
    } else {
        lemma_split_after_prefix(w, x.drop_last(), sep);
        let z = w + x;
        assert(z.drop_last() =~= w + x.drop_last());
        assert(z.last() == x.last());
        let sx = split_on(x.drop_last(), sep);
        let sz = sx.update(0, w + sx[0]);
        if x.last() == sep {
            assert(sz.push(Seq::<char>::empty()) =~= sx.push(Seq::<char>::empty()).update(
                0,
                w + sx.push(Seq::<char>::empty())[0],
            ));
        } else {
            let nx = sx.update(sx.len() - 1, sx.last().push(x.last()));
            if sx.len() == 1 {
                assert(sz.update(sz.len() - 1, sz.last().push(x.last())) =~= nx.update(0, w + nx[0]));
            } else {
                assert(sz.update(sz.len() - 1, sz.last().push(x.last())) =~= nx.update(0, w + nx[0]));
            }
        }
    }
}

/// Entries that trim to the same text add the same indices.
proof fn lemma_apply_tokens_trimmed(a: Seq<Seq<char>>, b: Seq<Seq<char>>, size: usize)
    requires
        a.len() == b.len(),
        forall|i: int| 0 <= i < a.len() ==> trim_seq(#[trigger] a[i]) == trim_seq(b[i]),
    ensures
        apply_tokens(a, size) == apply_tokens(b, size),
    decreases a.len(),
{
    if a.len() > 0 {
        assert forall|i: int| 0 <= i < a.drop_last().len() implies trim_seq(#[trigger] a.drop_last()[i])
            == trim_seq(b.drop_last()[i]) by {
            assert(trim_seq(a[i]) == trim_seq(b[i]));
        }
        lemma_apply_tokens_trimmed(a.drop_last(), b.drop_last(), size);
        assert(trim_seq(a[a.len() - 1]) == trim_seq(b[b.len() - 1]));
    }
}

/// A leading `!` inverts a set: if a pattern without `!` parses to `set`, the same pattern
/// after `!` parses to the indices below `size` that `set` lacks, or, when `set` holds every
/// index below `size`, to the error that it would invert the entire range.
pub proof fn lemma_inverted_set(body: Seq<char>, size: usize)
    requires
        !body.contains('!'),
    ensures
        index_set_spec(body, size) matches Ok(set) ==> index_set_spec(seq!['!'] + body, size) == (
        if forall|i: usize| i < size ==> set.contains(i) {
            Err(SetError::InvertsEntireRange(size))
        } else {
            Ok(Set::new(|i: usize| i < size && !set.contains(i)))
        }),
{
    if index_set_spec(body, size) is Ok {
        let k = lemma_trim_start_prefix(body);
        let w = body.take(k);
        let t = body.skip(k);
        assert(body =~= w + t);
        assert forall|i: int| 0 <= i < w.len() implies is_ws(#[trigger] w[i]) by {
            assert(w[i] == body[i]);
        }
        let b1 = trim_end_seq(t);
        assert(trim_seq(body) == b1);
        assert(set_body(body) == b1) by {
            let j = lemma_trim_end_prefix(t);
            if b1.len() > 0 {
                assert(b1[0] == body[k]);
            }
        }
        assert(b1.len() > 0);
        let input = seq!['!'] + body;
        assert(!is_ws('!'));
        assert(trim_start_seq(input) == input);
        lemma_trim_end_join(seq!['!'], body);
        lemma_trim_end_join(w, t);
        assert(trim_seq(input) == seq!['!'] + w + b1) by {
            assert(seq!['!'] + (w + b1) =~= seq!['!'] + w + b1);
        }
        let t2 = seq!['!'] + w + b1;
        assert(t2[0] == '!');
        assert(t2.drop_first() =~= w + b1);
        assert(set_body(input) == w + b1);
        assert(set_inverted(input));
        assert(!(w + b1).contains('!')) by {
            if (w + b1).contains('!') {
                let i = choose|i: int| 0 <= i < (w + b1).len() && (w + b1)[i] == '!';
                if i < w.len() {
                    assert(w[i] == '!');
                } else {
                    assert(b1[i - w.len()] == '!');
                }
            }
        }
        assert(!w.contains(',')) by {
            if w.contains(',') {
                let i = choose|i: int| 0 <= i < w.len() && w[i] == ',';
                assert(is_ws(w[i]));
            }
        }
        lemma_split_after_prefix(w, b1, ',');
        let p1 = split_on(b1, ',');
        let p2 = split_on(w + b1, ',');
        lemma_trim_ws_prefix(w, p1[0]);
        assert forall|i: int| 0 <= i < p2.len() implies trim_seq(#[trigger] p2[i]) == trim_seq(p1[i]) by {
            if i == 0 {
                assert(p2[0] == w + p1[0]);
            } else {
                assert(p2[i] == p1[i]);
            }
        }
        lemma_apply_tokens_trimmed(p2, p1, size);
    }
}

/// Every index a parsed set holds is below the size it was parsed against, inverted or not.
pub proof fn lemma_index_set_bounded(input: Seq<char>, size: usize)
    ensures
        index_set_spec(input, size) matches Ok(set) ==> forall|i: usize| set.contains(i) ==> i < size,
{
    lemma_apply_tokens_bounded(split_on(set_body(input), ','), size);
}

} // verus!
