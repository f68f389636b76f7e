//! `/proc/<pid>/maps` parsing into [`Region`]s.

use vstd::prelude::*;

use crate::sets::{find_char, split_on};
use crate::text::{
    same_chars,
    chars_of, is_whitespace, is_ws, radix_parse, string_from_chars, subslice, trim_at,
    trim_start_at, trim_end_seq, trim_seq, trim_start_seq,
};

verus! {

/// One entry from `/proc/<pid>/maps`: an address range, its permissions, and the backing path.
#[derive(Debug, Clone, PartialEq, Eq)]
pub struct Region {
    pub start: usize,
    pub end: usize,
    pub perms: Perms,
    /// The backing file, or a pseudo-path like `[heap]`/`[stack]`; `None` for anonymous mappings.
    pub path: Option<String>,
}

/// The `rwsp` permission bits of a [`Region`].
#[derive(Debug, Clone, Copy, PartialEq, Eq, Default, Structural)]
pub struct Perms {
    pub read: bool,
    pub write: bool,
    pub execute: bool,
    /// `true` for a shared (`s`) mapping, `false` for private (`p`).
    pub shared: bool,
}

/// Coarse classification of a [`Region`].
#[derive(Debug, Clone, Copy, PartialEq, Eq, Structural)]
pub enum RegionKind {
    /// `[heap]`.
    Heap,
    /// `[stack]`.
    Stack,
    /// No backing file (e.g. an anonymous `mmap`), and not heap or stack.
    Anonymous,
    /// Backed by a file on disk (executable, shared library, or other mapped file).
    File,
}

/// A [`Region`] with its path as a char sequence.
pub struct RegionView {
    pub start: usize,
    pub end: usize,
    pub perms: Perms,
    pub path: Option<Seq<char>>,
}

impl View for Region {
    type V = RegionView;

    open spec fn view(&self) -> RegionView {
        RegionView {
            start: self.start,
            end: self.end,
            perms: self.perms,
            path: match self.path {
                Some(p) => Some(p@),
                None => None,
            },
        }
    }
}

/// The kind of region a path names.
pub open spec fn kind_of(path: Option<Seq<char>>) -> RegionKind {
    match path {
        None => RegionKind::Anonymous,
        Some(p) => if p == "[heap]"@ {
            RegionKind::Heap
        } else if p == "[stack]"@ {
            RegionKind::Stack
        } else {
            RegionKind::File
        },
    }
}

impl Region {
    /// Number of bytes covered by this region.
    pub fn size(&self) -> (r: usize)
        requires
            self.start <= self.end,
        ensures
            r == self.end - self.start,
    {
        self.end - self.start
    }

    /// Whether the region is mapped writable.
    pub fn is_writable(&self) -> (r: bool)
        ensures
            r == self.perms.write,
    {
        self.perms.write
    }

    /// Classifies the region the way scan-level filtering needs: heap/stack/anonymous/file-backed.
    pub fn kind(&self) -> (r: RegionKind)
        ensures
            r == kind_of(self@.path),
    {
        match &self.path {
            None => RegionKind::Anonymous,
            Some(p) => {
                if same_chars(p.as_str(), "[heap]") {
                    RegionKind::Heap
                } else if same_chars(p.as_str(), "[stack]") {
                    RegionKind::Stack
                } else {
                    RegionKind::File
                }
            },
        }
    }
}

/// `s` without one trailing `\r`, if it has one.
pub open spec fn strip_cr(s: Seq<char>) -> Seq<char> {
    if s.len() > 0 && s.last() == '\r' {
        s.drop_last()
    } else {
        s
    }
}

/// What `str::lines` yields: the text cut at each `\n` (a `\r` right before it dropped too),
/// with no empty piece after a final `\n`.
pub open spec fn lines_of(s: Seq<char>) -> Seq<Seq<char>> {
    let pieces = split_on(s, '\n');
    let full = pieces.drop_last().map_values(|p: Seq<char>| strip_cr(p));
    if pieces.last().len() == 0 {
        full
    } else {
        full.push(pieces.last())
    }
}

/// Index of the first whitespace char of `s`, if any.
pub open spec fn find_ws(s: Seq<char>) -> Option<int>
    decreases s.len(),
{
    if s.len() == 0 {
        None
    } else if is_ws(s[0]) {
        Some(0)
    } else {
        match find_ws(s.drop_first()) {
            Some(i) => Some(i + 1),
            None => None,
        }
    }
}

/// `(first word, rest)` of `s`, leading whitespace skipped; `rest` keeps its leading whitespace.
pub open spec fn first_word(s: Seq<char>) -> (Seq<char>, Seq<char>) {
    let t = trim_start_seq(s);
    match find_ws(t) {
        Some(k) => (t.take(k), t.skip(k)),
        None => (t, Seq::empty()),
    }
}

/// What one line of a maps file parses to, if it parses.
pub open spec fn line_spec(line: Seq<char>) -> Option<RegionView> {
    let (range, r1) = first_word(line);
    let (perms, r2) = first_word(r1);
    let (offset, r3) = first_word(r2);
    let (dev, r4) = first_word(r3);
    let (inode, r5) = first_word(r4);
    let path = trim_seq(r5);
    match find_char(range, '-') {
        None => None,
        Some(k) => match (
            radix_parse(range.take(k), 16, usize::MAX as nat),
            radix_parse(range.skip(k + 1), 16, usize::MAX as nat),
        ) {
            (Some(start), Some(end)) => if perms.len() < 4 {
                None
            } else {
                Some(
                    RegionView {
                        start: start as usize,
                        end: end as usize,
                        perms: Perms {
                            read: perms[0] == 'r',
                            write: perms[1] == 'w',
                            execute: perms[2] == 'x',
                            shared: perms[3] == 's',
                        },
                        path: if path.len() == 0 {
                            None
                        } else {
                            Some(path)
                        },
                    },
                )
            },
            _ => None,
        },
    }
}

/// The regions of the lines that parse, in order.
pub open spec fn regions_of(lines: Seq<Seq<char>>) -> Seq<RegionView>
    decreases lines.len(),
{
    if lines.len() == 0 {
        Seq::empty()
    } else {
        match line_spec(lines.last()) {
            Some(r) => regions_of(lines.drop_last()).push(r),
            None => regions_of(lines.drop_last()),
        }
    }
}

/// What [`parse_maps`] returns for `text`.
pub open spec fn maps_spec(text: Seq<char>) -> Seq<RegionView> {
    regions_of(lines_of(text))
}

proof fn lemma_find_ws_bounds(s: Seq<char>)
    ensures
        find_ws(s) matches Some(j) ==> 0 <= j < s.len() && is_ws(s[j]),
        find_ws(s) is None ==> forall|j: int| 0 <= j < s.len() ==> !is_ws(#[trigger] s[j]),
    decreases s.len(),
{
    if s.len() > 0 {
        lemma_find_ws_bounds(s.drop_first());
        if !is_ws(s[0]) && find_ws(s.drop_first()) is None {
            assert forall|j: int| 0 <= j < s.len() implies !is_ws(#[trigger] s[j]) by {
                if j > 0 {
                    assert(s[j] == s.drop_first()[j - 1]);
                }
            }
        }
    }
}

/// The first whitespace char in `s[lo..hi]`, as an index into `s`.
fn find_ws_in(s: &Vec<char>, lo: usize, hi: usize) -> (r: Option<usize>)
    requires
        lo <= hi <= s@.len(),
    ensures
        r == (match find_ws(s@.subrange(lo as int, hi as int)) {
            Some(j) => Some((j + lo) as usize),
            None => None,
        }),
        find_ws(s@.subrange(lo as int, hi as int)) matches Some(j) ==> 0 <= j < hi - lo,
{
    proof {
        lemma_find_ws_bounds(s@.subrange(lo as int, hi as int));
    }
    let mut i = lo;
    while i < hi
        invariant
            lo <= i <= hi <= s@.len(),
            find_ws(s@.subrange(lo as int, hi as int)) matches Some(j) ==> 0 <= j < hi - lo,
            find_ws(s@.subrange(lo as int, hi as int)) == (match find_ws(
                s@.subrange(i as int, hi as int),
            ) {
                Some(j) => Some(j + (i - lo)),
                None => None,
            }),
        decreases hi - i,
    {
        if is_whitespace(s[i]) {
            proof {
                assert(s@.subrange(i as int, hi as int)[0] == s@[i as int]);
            }
            return Some(i);
        }
        proof {
            assert(s@.subrange(i as int, hi as int).drop_first() =~= s@.subrange(i + 1, hi as int));
            assert(s@.subrange(i as int, hi as int)[0] == s@[i as int]);
        }
        i = i + 1;
    }
    None
}

/// Splits the first whitespace-delimited word off `s[lo..hi]`: returns where the word starts,
/// where it ends (which is also where the rest starts).
fn split_first_word(s: &Vec<char>, lo: usize, hi: usize) -> (r: (usize, usize))
    requires
        lo <= hi <= s@.len(),
    ensures
        lo <= r.0 <= r.1 <= hi,
        s@.subrange(r.0 as int, r.1 as int) == first_word(s@.subrange(lo as int, hi as int)).0,
        s@.subrange(r.1 as int, hi as int) == first_word(s@.subrange(lo as int, hi as int)).1,
{
    let a = trim_start_at(s, lo, hi);
    let ghost t = s@.subrange(a as int, hi as int);
    match find_ws_in(s, a, hi) {
        Some(k) => {
            proof {
                assert(t.take(k - a) =~= s@.subrange(a as int, k as int));
                assert(t.skip(k - a) =~= s@.subrange(k as int, hi as int));
            }
            (a, k)
        },
        None => {
            proof {
                assert(s@.subrange(hi as int, hi as int) =~= Seq::<char>::empty());
            }
            (a, hi)
        },
    }
}

/// Parses the line `s[lo..hi]` of a maps file.
fn parse_line_at(s: &Vec<char>, lo: usize, hi: usize) -> (r: Option<Region>)
    requires
        lo <= hi <= s@.len(),
    ensures
        match line_spec(s@.subrange(lo as int, hi as int)) {
            Some(v) => r matches Some(got) && got@ == v,
            None => r is None,
        },
{
    let (r0, r1) = split_first_word(s, lo, hi);
    let (p0, p1) = split_first_word(s, r1, hi);
    let (o0, o1) = split_first_word(s, p1, hi);
    let (d0, d1) = split_first_word(s, o1, hi);
    let (i0, i1) = split_first_word(s, d1, hi);
    let (t0, t1) = trim_at(s, i1, hi);
    let ghost range = s@.subrange(r0 as int, r1 as int);
    let ghost perms = s@.subrange(p0 as int, p1 as int);
    let path = if t0 == t1 {
        None
    } else {
        Some(string_from_chars(subslice(s, t0, t1)))
    };
    let dash = match crate::sets::find_in_chars(s, r0, r1, '-') {
        None => {
            return None;
        },
        Some(k) => k,
    };
    proof {
        let j = (dash - r0) as int;
        assert(range.take(j) =~= s@.subrange(r0 as int, dash as int));
        assert(range.skip(j + 1) =~= s@.subrange(dash + 1, r1 as int));
    }
    let start = match crate::text::parse_radix(s, r0, dash, 16, usize::MAX as u128) {
        None => {
            return None;
        },
        Some(v) => v as usize,
    };
    let end = match crate::text::parse_radix(s, dash + 1, r1, 16, usize::MAX as u128) {
        None => {
            return None;
        },
        Some(v) => v as usize,
    };
    if p1 - p0 < 4 {
        return None;
    }
    proof {
        assert(perms[0] == s@[p0 as int] && perms[1] == s@[p0 + 1] && perms[2] == s@[p0 + 2]
            && perms[3] == s@[p0 + 3]);
    }
    let perms = Perms {
        read: s[p0] == 'r',
        write: s[p0 + 1] == 'w',
        execute: s[p0 + 2] == 'x',
        shared: s[p0 + 3] == 's',
    };
    Some(Region { start, end, perms, path })
}

/// Parses a single maps line, e.g.
/// `"00400000-00452000 r-xp 00000000 08:02 173521 /usr/bin/x"`.
pub fn parse_line(line: &str) -> (r: Option<Region>)
    ensures
        match line_spec(line@) {
            Some(v) => r matches Some(got) && got@ == v,
            None => r is None,
        },
{
    let s = chars_of(line);
    proof {
        assert(s@.subrange(0, s@.len() as int) =~= line@);
    }
    parse_line_at(&s, 0, s.len())
}

proof fn lemma_regions_push(lines: Seq<Seq<char>>, l: Seq<char>)
    ensures
        regions_of(lines.push(l)) == (match line_spec(l) {
            Some(r) => regions_of(lines).push(r),
            None => regions_of(lines),
        }),
{
    assert(lines.push(l).drop_last() =~= lines);
}

/// Splitting always gives at least one piece.
proof fn lemma_split_on_len(s: Seq<char>, sep: char)
    ensures
        split_on(s, sep).len() >= 1,
    decreases s.len(),
{
    if s.len() > 0 {
        lemma_split_on_len(s.drop_last(), sep);
    }
}

/// Splitting `x`, a separator, then `y` gives the pieces of `x`, then those of `y`.
proof fn lemma_split_on_join(x: Seq<char>, sep: char, y: Seq<char>)
    ensures
        split_on(x + seq![sep] + y, sep) == split_on(x, sep) + split_on(y, sep),
    decreases y.len(),
{
    let z = x + seq![sep] + y;
    if y.len() == 0 {
        assert(z =~= x.push(sep));
        assert(z.drop_last() =~= x);
        assert(split_on(x, sep).push(Seq::<char>::empty()) =~= split_on(x, sep) + seq![
            Seq::<char>::empty(),
        ]);
    } else {
        lemma_split_on_join(x, sep, y.drop_last());
        lemma_split_on_len(y.drop_last(), sep);
        assert(z.drop_last() =~= x + seq![sep] + y.drop_last());
        assert(z.last() == y.last());
        let sx = split_on(x, sep);
        let sy = split_on(y.drop_last(), sep);
        if y.last() == sep {
            assert((sx + sy).push(Seq::<char>::empty()) =~= sx + sy.push(Seq::<char>::empty()));
        } else {
            let rest = sx + sy;
            assert(rest.update(rest.len() - 1, rest.last().push(y.last())) =~= sx + sy.update(
                sy.len() - 1,
                sy.last().push(y.last()),
            ));
        }
    }
}

/// The last piece of a split: empty when the text ends with the separator, else ending with
/// the text's last char.
proof fn lemma_split_on_last(s: Seq<char>, sep: char)
    ensures
        s.len() > 0 && s.last() == sep ==> split_on(s, sep).last().len() == 0,
        s.len() > 0 && s.last() != sep ==> split_on(s, sep).last().len() > 0 && split_on(
            s,
            sep,
        ).last().last() == s.last(),
        s.len() == 0 ==> split_on(s, sep).last().len() == 0,
{
    if s.len() > 0 {
        lemma_split_on_len(s.drop_last(), sep);
    }
}

/// The regions of two runs of lines are those of the first, then those of the second.
proof fn lemma_regions_of_join(l1: Seq<Seq<char>>, l2: Seq<Seq<char>>)
    ensures
        regions_of(l1 + l2) == regions_of(l1) + regions_of(l2),
    decreases l2.len(),
{
    if l2.len() == 0 {
        assert(l1 + l2 =~= l1);
        assert(regions_of(l1) + regions_of(l2) =~= regions_of(l1));
    } else {
        lemma_regions_of_join(l1, l2.drop_last());
        assert((l1 + l2).drop_last() =~= l1 + l2.drop_last());
        assert((l1 + l2).last() == l2.last());
        match line_spec(l2.last()) {
            Some(r) => {
                assert((regions_of(l1) + regions_of(l2.drop_last())).push(r) =~= regions_of(l1)
                    + regions_of(l2.drop_last()).push(r));
            },
            None => {},
        }
    }
}

/// `y` is `x` followed by a carriage return, as far as leading whitespace is trimmed: the
/// trimmed `y` is the trimmed `x` and the return, or both are empty.
pub open spec fn cr_related(x: Seq<char>, y: Seq<char>) -> bool {
    let tx = trim_start_seq(x);
    let ty = trim_start_seq(y);
    if tx.len() > 0 {
        ty == tx.push('\r')
    } else {
        ty.len() == 0
    }
}

/// A carriage return after `s` stays behind its trimmed text.
proof fn lemma_trim_start_cr(s: Seq<char>)
    ensures
        cr_related(s, s.push('\r')),
    decreases s.len(),
{
    assert(is_ws('\r'));
    let y = s.push('\r');
    if s.len() == 0 {
        assert(y.drop_first() =~= Seq::<char>::empty());
        assert(trim_start_seq(y) == trim_start_seq(y.drop_first()));
        assert(trim_start_seq(Seq::<char>::empty()) == Seq::<char>::empty());
        assert(trim_start_seq(s) == s);
    } else {
        assert(y[0] == s[0]);
        if is_ws(s[0]) {
            assert(y.drop_first() =~= s.drop_first().push('\r'));
            lemma_trim_start_cr(s.drop_first());
            assert(trim_start_seq(y) == trim_start_seq(y.drop_first()));
            assert(trim_start_seq(s) == trim_start_seq(s.drop_first()));
        } else {
            assert(trim_start_seq(y) == y);
            assert(trim_start_seq(s) == s);
        }
    }
}

/// Whitespace after `t` is found where `t`'s own first whitespace is, or right after `t`.
proof fn lemma_find_ws_push(t: Seq<char>, c: char)
    requires
        is_ws(c),
    ensures
        find_ws(t.push(c)) == (match find_ws(t) {
            Some(k) => Some(k),
            None => Some(t.len() as int),
        }),
    decreases t.len(),
{
    if t.len() == 0 {
        assert(t.push(c)[0] == c);
    } else {
        assert(t.push(c)[0] == t[0]);
        if !is_ws(t[0]) {
            assert(t.push(c).drop_first() =~= t.drop_first().push(c));
            lemma_find_ws_push(t.drop_first(), c);
        }
    }
}

/// A trailing carriage return leaves the first word as it was and stays behind the rest.
proof fn lemma_first_word_cr(x: Seq<char>, y: Seq<char>)
    requires
        cr_related(x, y),
    ensures
        first_word(x).0 == first_word(y).0,
        cr_related(first_word(x).1, first_word(y).1),
{
    let tx = trim_start_seq(x);
    let ty = trim_start_seq(y);
    lemma_trim_start_cr(Seq::<char>::empty());
    assert(Seq::<char>::empty().push('\r') =~= seq!['\r']);
    if tx.len() > 0 {
        assert(is_ws('\r'));
        lemma_find_ws_push(tx, '\r');
        match find_ws(tx) {
            Some(k) => {
                lemma_find_ws_bounds(tx);
                assert(ty.take(k) =~= tx.take(k));
                assert(ty.skip(k) =~= tx.skip(k).push('\r'));
                lemma_trim_start_cr(tx.skip(k));
            },
            None => {
                assert(ty.take(tx.len() as int) =~= tx);
                assert(ty.skip(tx.len() as int) =~= seq!['\r']);
            },
        }
    }
}

/// A carriage return at the end of a line changes nothing the line parses to.
pub proof fn lemma_line_spec_cr(line: Seq<char>)
    ensures
        line_spec(line.push('\r')) == line_spec(line),
{
    let y = line.push('\r');
    lemma_trim_start_cr(line);
    lemma_first_word_cr(line, y);
    let (_, r1) = first_word(line);
    let (_, s1) = first_word(y);
    lemma_first_word_cr(r1, s1);
    let (_, r2) = first_word(r1);
    let (_, s2) = first_word(s1);
    lemma_first_word_cr(r2, s2);
    let (_, r3) = first_word(r2);
    let (_, s3) = first_word(s2);
    lemma_first_word_cr(r3, s3);
    let (_, r4) = first_word(r3);
    let (_, s4) = first_word(s3);
    lemma_first_word_cr(r4, s4);
    let (_, r5) = first_word(r4);
    let (_, s5) = first_word(s4);
    let t5 = trim_start_seq(r5);
    if t5.len() > 0 {
        assert(is_ws('\r'));
        assert(t5.push('\r').drop_last() =~= t5);
        assert(trim_end_seq(t5.push('\r')) == trim_end_seq(t5));
    }
    assert(trim_seq(r5) == trim_seq(s5));
}

/// Parsing two maps texts joined by a newline gives the regions of the first, then those of
/// the second.
pub proof fn lemma_maps_join(a: Seq<char>, b: Seq<char>)
    ensures
        maps_spec(a + seq!['\n'] + b) == maps_spec(a) + maps_spec(b),
{
    let pa = split_on(a, '\n');
    let pb = split_on(b, '\n');
    lemma_split_on_join(a, '\n', b);
    lemma_split_on_len(a, '\n');
    lemma_split_on_len(b, '\n');
    lemma_split_on_last(a, '\n');
    let p = pa + pb;
    let strip_all = |q: Seq<char>| strip_cr(q);
    assert(p.drop_last() =~= pa + pb.drop_last());
    assert(p.last() == pb.last());
    let head = pa.drop_last().map_values(strip_all);
    let la = strip_cr(pa.last());
    let full_b = pb.drop_last().map_values(strip_all);
    assert(p.drop_last().map_values(strip_all) =~= head.push(la) + full_b);
    let lb = lines_of(b);
    assert(lines_of(a + seq!['\n'] + b) =~= head.push(la) + lb);
    lemma_regions_of_join(head.push(la), lb);
    assert(head.push(la).drop_last() =~= head);
    if pa.last().len() == 0 {
        assert(la =~= Seq::<char>::empty());
        assert(line_spec(la) is None);
        assert(lines_of(a) == head);
    } else {
        assert(lines_of(a) == head.push(pa.last()));
        assert(head.push(pa.last()).drop_last() =~= head);
        if pa.last().last() == '\r' {
            assert(la.push('\r') =~= pa.last());
            lemma_line_spec_cr(la);
        }
        assert(line_spec(la) == line_spec(pa.last()));
        assert(regions_of(head.push(la)) == regions_of(head.push(pa.last())));
    }
}

/// Leading whitespace trimmed from `s` is a prefix of whitespace, up to a char that is not.
pub proof fn lemma_trim_start_shape(s: Seq<char>) -> (k: int)
    ensures
        0 <= k <= s.len(),
        trim_start_seq(s) == s.skip(k),
        forall|i: int| 0 <= i < k ==> is_ws(#[trigger] s[i]),
        k < s.len() ==> !is_ws(s[k]),
    decreases s.len(),
{
    if s.len() > 0 && is_ws(s[0]) {
        let j = lemma_trim_start_shape(s.drop_first());
        assert(s.drop_first().skip(j) =~= s.skip(j + 1));
        assert forall|i: int| 0 <= i < j + 1 implies is_ws(#[trigger] s[i]) by {
            if i > 0 {
                assert(s[i] == s.drop_first()[i - 1]);
            }
        }
        if j + 1 < s.len() {
            assert(s[j + 1] == s.drop_first()[j]);
        }
        j + 1
    } else {
        assert(s.skip(0) =~= s);
        0
    }
}

/// Trailing whitespace trimmed from `s` is a suffix of whitespace, after a char that is not.
pub proof fn lemma_trim_end_shape(s: Seq<char>) -> (j: int)
    ensures
        0 <= j <= s.len(),
        trim_end_seq(s) == s.take(j),
        forall|i: int| j <= i < s.len() ==> is_ws(#[trigger] s[i]),
        j > 0 ==> !is_ws(s[j - 1]),
    decreases s.len(),
{
    if s.len() > 0 && is_ws(s.last()) {
        let j = lemma_trim_end_shape(s.drop_last());
        assert(s.drop_last().take(j) =~= s.take(j));
        assert forall|i: int| j <= i < s.len() implies is_ws(#[trigger] s[i]) by {
            if i < s.len() - 1 {
                assert(s[i] == s.drop_last()[i]);
            }
        }
        if j > 0 {
            assert(s[j - 1] == s.drop_last()[j - 1]);
        }
        j
    } else {
        assert(s.take(s.len() as int) =~= s);
        s.len() as int
    }
}

/// What follows the first word of `s` is the end of `s`.
proof fn lemma_first_word_suffix(s: Seq<char>)
    ensures
        first_word(s).1.len() <= s.len(),
        s.skip(s.len() - first_word(s).1.len()) == first_word(s).1,
{
    let k = lemma_trim_start_shape(s);
    let t = trim_start_seq(s);
    match find_ws(t) {
        Some(m) => {
            lemma_find_ws_bounds(t);
            assert(s.skip(s.len() - t.skip(m).len()) =~= t.skip(m));
        },
        None => {
            assert(s.skip(s.len() as int) =~= Seq::<char>::empty());
        },
    }
}

/// The path of a parsed line is the whole rest of the line after its inode, surrounding
/// whitespace trimmed and inner spaces kept: the line ends with the path and then nothing but
/// whitespace, and the path neither starts nor ends with whitespace.
pub proof fn lemma_line_path_is_rest(line: Seq<char>)
    ensures
        line_spec(line) matches Some(r) ==> (r.path matches Some(p) ==> {
            &&& p.len() > 0
            &&& !is_ws(p[0])
            &&& !is_ws(p.last())
            &&& exists|i: int|
                0 <= i && i + p.len() <= line.len() && #[trigger] line.subrange(i, i + p.len()) == p
                    && forall|k: int| i + p.len() <= k < line.len() ==> is_ws(#[trigger] line[k])
        }),
{
    let (_, r1) = first_word(line);
    let (_, r2) = first_word(r1);
    let (_, r3) = first_word(r2);
    let (_, r4) = first_word(r3);
    let (_, r5) = first_word(r4);
    lemma_first_word_suffix(line);
    lemma_first_word_suffix(r1);
    lemma_first_word_suffix(r2);
    lemma_first_word_suffix(r3);
    lemma_first_word_suffix(r4);
    let a = line.len() - r5.len();
    assert(line.skip(a) =~= r5) by {
        assert(line.skip(line.len() - r1.len()) == r1);
        assert(r1.skip(r1.len() - r2.len()) == r2);
        assert(r2.skip(r2.len() - r3.len()) == r3);
        assert(r3.skip(r3.len() - r4.len()) == r4);
        assert(r4.skip(r4.len() - r5.len()) == r5);
        assert forall|q: int| 0 <= q < r5.len() implies line.skip(a)[q] == r5[q] by {
            assert(r5[q] == r4[r4.len() - r5.len() + q]);
            assert(r4[r4.len() - r5.len() + q] == r3[r3.len() - r5.len() + q]);
            assert(r3[r3.len() - r5.len() + q] == r2[r2.len() - r5.len() + q]);
            assert(r2[r2.len() - r5.len() + q] == r1[r1.len() - r5.len() + q]);
            assert(r1[r1.len() - r5.len() + q] == line[line.len() - r5.len() + q]);
        }
    }
    let k = lemma_trim_start_shape(r5);
    let t = trim_start_seq(r5);
    let j = lemma_trim_end_shape(t);
    let p = trim_seq(r5);
    assert(p == t.take(j));
    assert(line_spec(line) matches Some(r) ==> r.path == (if p.len() == 0 {
        None::<Seq<char>>
    } else {
        Some(p)
    }));
    if line_spec(line) is Some && j > 0 {
        let i = a + k;
        assert(line.subrange(i, i + j) =~= p) by {
            assert forall|q: int| 0 <= q < j implies line.subrange(i, i + j)[q] == p[q] by {
                assert(line[i + q] == line.skip(a)[k + q]);
                assert(r5[k + q] == t[q]);
            }
        }
        assert forall|q: int| i + j <= q < line.len() implies is_ws(#[trigger] line[q]) by {
            assert(line[q] == line.skip(a)[q - a]);
            assert(r5[q - a] == t[q - a - k]);
        }
        assert(p[0] == t[0]);
        assert(t[0] == r5[k]);
        assert(p.last() == t[j - 1]);
        assert(0 <= i && i + p.len() <= line.len() && line.subrange(i, i + p.len()) == p);
    }
}

/// Parses the full contents of a `/proc/<pid>/maps` file into its [`Region`]s, skipping every
/// line that does not parse.
pub fn parse_maps(text: &str) -> (r: Vec<Region>)
    ensures
        r@.map_values(|g: Region| g@) == maps_spec(text@),
{
    let s = chars_of(text);
    let n = s.len();
    let mut out: Vec<Region> = Vec::new();
    let ghost mut done: Seq<Seq<char>> = Seq::empty();
    let mut line_start: usize = 0;
    let mut i: usize = 0;
    proof {
        assert(s@.take(0) =~= Seq::<char>::empty());
        assert(s@.subrange(0, 0) =~= Seq::<char>::empty());
        assert(done.push(Seq::<char>::empty()) =~= seq![Seq::<char>::empty()]);
    }
    while i < n
        invariant
            n == s@.len(),
            s@ == text@,
            0 <= line_start <= i <= n,
            split_on(s@.take(i as int), '\n') == done.push(s@.subrange(line_start as int, i as int)),
            out@.map_values(|g: Region| g@) == regions_of(done.map_values(|p: Seq<char>| strip_cr(p))),
        decreases n - i,
    {
        proof {
            assert(s@.take(i + 1).drop_last() =~= s@.take(i as int));
            assert(s@.take(i + 1).last() == s@[i as int]);
        }
        if s[i] == '\n' {
            let mut e = i;
            if e > line_start && s[e - 1] == '\r' {
                e = e - 1;
            }
            let ghost cur = s@.subrange(line_start as int, i as int);
            proof {
                if i > line_start && s@[i - 1] == '\r' {
                    assert(cur.last() == s@[i - 1]);
                    assert(cur.drop_last() =~= s@.subrange(line_start as int, e as int));
                } else {
                    if i > line_start {
                        assert(cur.last() == s@[i - 1]);
                    }
                    assert(cur =~= s@.subrange(line_start as int, e as int));
                }
                assert(strip_cr(cur) == s@.subrange(line_start as int, e as int));
            }
            let ghost before = out@;
            let parsed = parse_line_at(&s, line_start, e);
            proof {
                let d2 = done.push(cur);
                assert(d2.map_values(|p: Seq<char>| strip_cr(p)) =~= done.map_values(|p: Seq<char>| strip_cr(p)).push(strip_cr(cur)));
                lemma_regions_push(done.map_values(|p: Seq<char>| strip_cr(p)), strip_cr(cur));
            }
            match parsed {
                Some(region) => {
                    out.push(region);
                    proof {
                        assert(out@.map_values(|g: Region| g@) =~= before.map_values(|g: Region| g@).push(region@));
                    }
                },
                None => {},
            }
            proof {
                done = done.push(cur);
                assert(s@.subrange(i + 1, i + 1) =~= Seq::<char>::empty());
                assert(split_on(s@.take(i + 1), '\n') =~= done.push(s@.subrange(i + 1, i + 1)));
            }
            line_start = i + 1;
        } else {
            proof {
                let cur = s@.subrange(line_start as int, i as int);
                assert(s@.subrange(line_start as int, i + 1) =~= cur.push(s@[i as int]));
                assert(done.push(cur).update(done.len() as int, cur.push(s@[i as int])) =~= done.push(
                    s@.subrange(line_start as int, i + 1),
                ));
            }
        }
        i = i + 1;
    }
    proof {
        assert(s@.take(n as int) =~= s@);
        let pieces = split_on(s@, '\n');
        assert(pieces.drop_last() =~= done);
    }
    if line_start < n {
        let ghost before = out@;
        let parsed = parse_line_at(&s, line_start, n);
        proof {
            lemma_regions_push(done.map_values(|p: Seq<char>| strip_cr(p)), s@.subrange(line_start as int, n as int));
        }
        match parsed {
            Some(region) => {
                out.push(region);
                proof {
                    assert(out@.map_values(|g: Region| g@) =~= before.map_values(|g: Region| g@).push(region@));
                }
            },
            None => {},
        }
    } else {
        proof {
            assert(s@.subrange(line_start as int, n as int).len() == 0);
        }
    }
    out
}

} // verus!
