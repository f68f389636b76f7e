//! `Vec<Swath>`-backed match storage: a store of recorded bytes of the target's address space,
//! grouped into runs of contiguous addresses.
//!
//! The store's meaning is its sequence of recorded `(address, entry)` pairs in ascending address
//! order ([`pairs_of`]); the swaths are that sequence cut wherever the next address does not
//! immediately follow the previous one ([`swaths_wf`]).

use vstd::prelude::*;

use crate::value::MatchFlags;

verus! {

/// One recorded byte within a [`Swath`]: its last observed value and which numeric width(s)/
/// signs it currently satisfies. Empty [`MatchFlags`] marks a byte kept only to preserve
/// contiguity with a neighboring multi-byte match, not a match in its own right.
#[derive(Debug, Clone, Copy, PartialEq, Eq, Structural)]
pub struct SwathEntry {
    pub old_value: u8,
    pub flags: MatchFlags,
}

/// A contiguous run of recorded addresses in the target process.
#[derive(Debug, Clone, PartialEq, Eq)]
pub struct Swath {
    pub first_byte_in_child: usize,
    pub entries: Vec<SwathEntry>,
}

impl Swath {
    /// The address of `entries[index]` in the target process.
    pub fn address_of(&self, index: usize) -> (r: usize)
        requires
            self.first_byte_in_child + index <= usize::MAX,
        ensures
            r == self.first_byte_in_child + index,
    {
        self.first_byte_in_child + index
    }
}

/// Where a specific entry lives: which swath, and its offset within that swath's `entries`.
#[derive(Debug, Clone, Copy, PartialEq, Eq, Structural)]
pub struct MatchLocation {
    pub swath_index: usize,
    pub entry_index: usize,
}

/// One recorded byte together with where it lives.
pub struct Slot {
    pub swath_index: int,
    pub entry_index: int,
    pub address: int,
    pub entry: SwathEntry,
}

/// The slots of swath `w`, which sits at index `k`.
pub open spec fn swath_slots(k: int, w: Swath) -> Seq<Slot> {
    Seq::new(
        w.entries@.len(),
        |i: int|
            Slot {
                swath_index: k,
                entry_index: i,
                address: w.first_byte_in_child + i,
                entry: w.entries@[i],
            },
    )
}

/// Every recorded byte, swath by swath, in order.
pub open spec fn slots_of(sw: Seq<Swath>) -> Seq<Slot>
    decreases sw.len(),
{
    if sw.len() == 0 {
        Seq::empty()
    } else {
        slots_of(sw.drop_last()) + swath_slots(sw.len() - 1, sw.last())
    }
}

/// The `(address, entry)` pair a slot records.
pub open spec fn slot_pair(s: Slot) -> (int, SwathEntry) {
    (s.address, s.entry)
}

/// Every recorded `(address, entry)` pair, in order.
pub open spec fn pairs_of(sw: Seq<Swath>) -> Seq<(int, SwathEntry)> {
    slots_of(sw).map_values(|s: Slot| slot_pair(s))
}

/// An entry that is a match in its own right, not a contiguity filler.
pub open spec fn is_match(e: SwathEntry) -> bool {
    e.flags.bits != 0
}

/// The slots among `s` that are matches, in order.
pub open spec fn match_slots(s: Seq<Slot>) -> Seq<Slot>
    decreases s.len(),
{
    if s.len() == 0 {
        Seq::empty()
    } else if is_match(s.last().entry) {
        match_slots(s.drop_last()).push(s.last())
    } else {
        match_slots(s.drop_last())
    }
}

/// The pairs among `p` that are matches, in order.
pub open spec fn match_pairs(p: Seq<(int, SwathEntry)>) -> Seq<(int, SwathEntry)>
    decreases p.len(),
{
    if p.len() == 0 {
        Seq::empty()
    } else if is_match(p.last().1) {
        match_pairs(p.drop_last()).push(p.last())
    } else {
        match_pairs(p.drop_last())
    }
}

/// `p` without the pairs whose address lies in `[start, end)`.
pub open spec fn without_range(p: Seq<(int, SwathEntry)>, start: int, end: int) -> Seq<
    (int, SwathEntry),
>
    decreases p.len(),
{
    if p.len() == 0 {
        Seq::empty()
    } else if start <= p.last().0 < end {
        without_range(p.drop_last(), start, end)
    } else {
        without_range(p.drop_last(), start, end).push(p.last())
    }
}

/// The first index from `j` on that holds a match, or the length when there is none.
pub open spec fn next_match_from(es: Seq<SwathEntry>, j: int) -> int
    decreases es.len() - j,
{
    if j >= es.len() {
        es.len() as int
    } else if is_match(es[j]) {
        j
    } else {
        next_match_from(es, j + 1)
    }
}

pub proof fn lemma_next_match_from(es: Seq<SwathEntry>, j: int)
    requires
        0 <= j,
    ensures
        j <= next_match_from(es, j) || j > es.len(),
        next_match_from(es, j) <= es.len() || j > es.len(),
        next_match_from(es, j) >= j || j > es.len(),
        forall|k: int| j <= k < next_match_from(es, j) ==> !is_match(#[trigger] es[k]),
        next_match_from(es, j) < es.len() ==> is_match(es[next_match_from(es, j)]),
    decreases es.len() - j,
{
    if j < es.len() && !is_match(es[j]) {
        lemma_next_match_from(es, j + 1);
    }
}

/// The recorded bytes of the match at entry `i` of `es` and of the filler entries after it, up to
/// the next match or the end of the swath.
pub open spec fn group_bytes(es: Seq<SwathEntry>, i: int) -> Seq<u8> {
    es.subrange(i, next_match_from(es, i + 1)).map_values(|e: SwathEntry| e.old_value)
}

/// The number of matches among `p` whose address lies in `[start, end)`.
pub open spec fn matches_in(p: Seq<(int, SwathEntry)>, start: int, end: int) -> nat
    decreases p.len(),
{
    if p.len() == 0 {
        0
    } else {
        let here: nat = if start <= p.last().0 < end && is_match(p.last().1) {
            1
        } else {
            0
        };
        matches_in(p.drop_last(), start, end) + here
    }
}

/// Deleting an address range removes exactly the matches that lie in it.
pub proof fn lemma_without_range_matches(p: Seq<(int, SwathEntry)>, start: int, end: int)
    ensures
        match_pairs(p).len() == match_pairs(without_range(p, start, end)).len() + matches_in(
            p,
            start,
            end,
        ),
    decreases p.len(),
{
    if p.len() > 0 {
        lemma_without_range_matches(p.drop_last(), start, end);
        let q = without_range(p.drop_last(), start, end);
        if !(start <= p.last().0 < end) {
            assert(without_range(p, start, end) == q.push(p.last()));
            assert(q.push(p.last()).drop_last() =~= q);
        }
    }
}

/// Deleting an empty address range keeps every recorded byte.
pub proof fn lemma_delete_empty_range(p: Seq<(int, SwathEntry)>, start: int, end: int)
    requires
        end <= start,
    ensures
        without_range(p, start, end) == p,
    decreases p.len(),
{
    if p.len() > 0 {
        lemma_delete_empty_range(p.drop_last(), start, end);
        assert(p.drop_last().push(p.last()) =~= p);
    }
}

/// Deleting the same address range twice removes nothing more the second time.
pub proof fn lemma_delete_idempotent(p: Seq<(int, SwathEntry)>, start: int, end: int)
    ensures
        without_range(without_range(p, start, end), start, end) == without_range(p, start, end),
    decreases p.len(),
{
    if p.len() > 0 {
        lemma_delete_idempotent(p.drop_last(), start, end);
        let q = without_range(p.drop_last(), start, end);
        if !(start <= p.last().0 < end) {
            assert(q.push(p.last()).drop_last() =~= q);
        }
    }
}

/// After deleting an address range, no recorded byte lies in it.
pub proof fn lemma_delete_clears_range(p: Seq<(int, SwathEntry)>, start: int, end: int)
    ensures
        forall|j: int|
            0 <= j < without_range(p, start, end).len() ==> !(start <= #[trigger] without_range(
                p,
                start,
                end,
            )[j].0 < end),
    decreases p.len(),
{
    if p.len() > 0 {
        lemma_delete_clears_range(p.drop_last(), start, end);
        let q = without_range(p.drop_last(), start, end);
        if !(start <= p.last().0 < end) {
            assert forall|j: int| 0 <= j < q.push(p.last()).len() implies !(start <= #[trigger] q.push(
                p.last(),
            )[j].0 < end) by {
                if j < q.len() {
                    assert(q.push(p.last())[j] == q[j]);
                }
            }
        }
    }
}

/// Every match slot is one of the slots it was drawn from.
pub proof fn lemma_match_slots_member(s: Seq<Slot>, n: int)
    requires
        0 <= n < match_slots(s).len(),
    ensures
        exists|j: int| 0 <= j < s.len() && match_slots(s)[n] == s[j],
    decreases s.len(),
{
    lemma_match_slots_len(s);
    let pre = match_slots(s.drop_last());
    if n < pre.len() {
        lemma_match_slots_member(s.drop_last(), n);
        let j = choose|j: int| 0 <= j < s.drop_last().len() && pre[n] == s.drop_last()[j];
        assert(match_slots(s)[n] == s[j]);
    } else {
        assert(match_slots(s)[n] == s[s.len() - 1]);
    }
}

/// Where the `n`th match slot lives: inside the store, at its swath's address plus offset, and
/// holding that swath's entry.
pub proof fn lemma_match_slot_facts(sw: Seq<Swath>, n: int)
    requires
        0 <= n < match_slots(slots_of(sw)).len(),
    ensures
        0 <= match_slots(slots_of(sw))[n].swath_index < sw.len(),
        0 <= match_slots(slots_of(sw))[n].entry_index
            < sw[match_slots(slots_of(sw))[n].swath_index].entries@.len(),
        match_slots(slots_of(sw))[n].address
            == sw[match_slots(slots_of(sw))[n].swath_index].first_byte_in_child + match_slots(
            slots_of(sw),
        )[n].entry_index,
        match_slots(slots_of(sw))[n].entry == sw[match_slots(
            slots_of(sw),
        )[n].swath_index].entries@[match_slots(slots_of(sw))[n].entry_index],
{
    lemma_match_slots_member(slots_of(sw), n);
    let j = choose|j: int| 0 <= j < slots_of(sw).len() && match_slots(slots_of(sw))[n] == slots_of(sw)[j];
    lemma_slot_facts(sw, j);
}

/// The address one past the end of swath `w`.
pub open spec fn swath_end(w: Swath) -> int {
    w.first_byte_in_child + w.entries@.len()
}

/// Well-formed swaths: none empty, every address representable with room for the address one
/// past it, and in ascending address order, each swath starting past the end of the previous
/// one (one starting right at that end would have been merged into it).
pub open spec fn swaths_wf(sw: Seq<Swath>) -> bool {
    &&& forall|k: int| 0 <= k < sw.len() ==> #[trigger] sw[k].entries@.len() > 0
    &&& forall|k: int| 0 <= k < sw.len() ==> #[trigger] swath_end(sw[k]) <= usize::MAX
    &&& forall|k: int|
        0 < k < sw.len() ==> #[trigger] sw[k].first_byte_in_child > swath_end(sw[k - 1])
}

/// The addresses of `p` strictly ascend.
pub open spec fn pairs_ascending(p: Seq<(int, SwathEntry)>) -> bool {
    forall|i: int, j: int| 0 <= i < j < p.len() ==> p[i].0 < p[j].0
}

/// Every address of `p` lies below `b`.
pub open spec fn pairs_below(p: Seq<(int, SwathEntry)>, b: int) -> bool {
    forall|i: int| 0 <= i < p.len() ==> #[trigger] p[i].0 < b
}

/// `p` with `x` put at its place by address: after the pairs below `x`'s address, before the
/// pairs above it, and in place of a pair at the same address.
pub open spec fn insert_pair(p: Seq<(int, SwathEntry)>, x: (int, SwathEntry)) -> Seq<
    (int, SwathEntry),
>
    decreases p.len(),
{
    if p.len() == 0 {
        seq![x]
    } else if p.last().0 < x.0 {
        p.push(x)
    } else if p.last().0 == x.0 {
        p.drop_last().push(x)
    } else {
        insert_pair(p.drop_last(), x).push(p.last())
    }
}

/// `p` with the pairs of `q` put at their places one after another (see [`insert_pair`]).
pub open spec fn insert_pairs(p: Seq<(int, SwathEntry)>, q: Seq<(int, SwathEntry)>) -> Seq<
    (int, SwathEntry),
>
    decreases q.len(),
{
    if q.len() == 0 {
        p
    } else {
        insert_pair(insert_pairs(p, q.drop_last()), q.last())
    }
}

/// Putting a pair at its place keeps the addresses ascending, and keeps them below any bound
/// that the pair's address is below too.
pub proof fn lemma_insert_pair(p: Seq<(int, SwathEntry)>, x: (int, SwathEntry), b: int)
    requires
        pairs_ascending(p),
    ensures
        pairs_ascending(insert_pair(p, x)),
        pairs_below(p, b) && x.0 < b ==> pairs_below(insert_pair(p, x), b),
    decreases p.len(),
{
    if p.len() > 0 {
        let d = p.drop_last();
        if p.last().0 < x.0 {
            assert(pairs_ascending(p.push(x))) by {
                assert forall|i: int, j: int| 0 <= i < j < p.push(x).len() implies p.push(x)[i].0
                    < p.push(x)[j].0 by {
                    if j == p.len() && i < p.len() - 1 {
                        assert(p[i].0 < p[p.len() - 1].0);
                    }
                }
            }
        } else if p.last().0 == x.0 {
            assert(pairs_ascending(d.push(x))) by {
                assert forall|i: int, j: int| 0 <= i < j < d.push(x).len() implies d.push(x)[i].0
                    < d.push(x)[j].0 by {
                    if j == d.len() {
                        assert(p[i].0 < p[p.len() - 1].0);
                    } else {
                        assert(p[i].0 < p[j].0);
                    }
                }
            }
        } else {
            assert(pairs_ascending(d)) by {
                assert forall|i: int, j: int| 0 <= i < j < d.len() implies d[i].0 < d[j].0 by {
                    assert(p[i].0 < p[j].0);
                }
            }
            assert(pairs_below(d, p.last().0)) by {
                assert forall|i: int| 0 <= i < d.len() implies #[trigger] d[i].0 < p.last().0 by {
                    assert(p[i].0 < p[p.len() - 1].0);
                }
            }
            lemma_insert_pair(d, x, p.last().0);
            lemma_insert_pair(d, x, b);
            let r = insert_pair(d, x);
            assert(pairs_ascending(r.push(p.last()))) by {
                assert forall|i: int, j: int| 0 <= i < j < r.push(p.last()).len() implies r.push(
                    p.last(),
                )[i].0 < r.push(p.last())[j].0 by {
                    if j == r.len() {
                        assert(r[i].0 < p.last().0);
                    }
                }
            }
            if pairs_below(p, b) && x.0 < b {
                assert(pairs_below(d, b)) by {
                    assert forall|i: int| 0 <= i < d.len() implies #[trigger] d[i].0 < b by {
                        assert(p[i].0 < b);
                    }
                }
                assert(p[p.len() - 1].0 < b);
            }
        }
    }
}

/// Putting a pair at its place, when its address is above all of `p`'s, appends it.
pub proof fn lemma_insert_pair_after(p: Seq<(int, SwathEntry)>, x: (int, SwathEntry))
    requires
        pairs_below(p, x.0),
    ensures
        insert_pair(p, x) == p.push(x),
{
    if p.len() == 0 {
        assert(seq![x] =~= p.push(x));
    } else {
        assert(p[p.len() - 1].0 < x.0);
    }
}

/// With ascending addresses throughout, putting the pairs of `q` at their places after `p`
/// appends them.
pub proof fn lemma_insert_pairs_after(p: Seq<(int, SwathEntry)>, q: Seq<(int, SwathEntry)>)
    requires
        pairs_ascending(p + q),
    ensures
        insert_pairs(p, q) == p + q,
    decreases q.len(),
{
    if q.len() == 0 {
        assert(p + q =~= p);
    } else {
        let d = q.drop_last();
        assert(pairs_ascending(p + d)) by {
            assert forall|i: int, j: int| 0 <= i < j < (p + d).len() implies (p + d)[i].0 < (p
                + d)[j].0 by {
                assert((p + d)[i] == (p + q)[i] && (p + d)[j] == (p + q)[j]);
            }
        }
        lemma_insert_pairs_after(p, d);
        assert(pairs_below(p + d, q.last().0)) by {
            assert forall|i: int| 0 <= i < (p + d).len() implies #[trigger] (p + d)[i].0 < q.last().0 by {
                assert((p + d)[i] == (p + q)[i]);
                assert((p + q)[(p + q).len() - 1] == q.last());
            }
        }
        lemma_insert_pair_after(p + d, q.last());
        assert((p + d).push(q.last()) =~= p + q);
    }
}

/// `insert_pair` on ascending pairs, spelled out by position: the pairs below `x`'s address
/// (the first `i`), `x`, then the rest without a pair at `x`'s address.
proof fn lemma_insert_pair_at(p: Seq<(int, SwathEntry)>, x: (int, SwathEntry), i: int)
    requires
        pairs_ascending(p),
        0 <= i <= p.len(),
        forall|k: int| 0 <= k < i ==> #[trigger] p[k].0 < x.0,
        forall|k: int| i <= k < p.len() ==> #[trigger] p[k].0 >= x.0,
    ensures
        insert_pair(p, x) == p.take(i) + seq![x] + p.skip(
            if i < p.len() && p[i].0 == x.0 {
                i + 1
            } else {
                i
            },
        ),
    decreases p.len(),
{
    if p.len() == 0 {
        assert(p.take(i) + seq![x] + p.skip(i) =~= seq![x]);
    } else if p.last().0 < x.0 {
        assert(i == p.len()) by {
            if i < p.len() {
                assert(p[p.len() - 1].0 >= x.0);
            }
        }
        assert(p.take(i) + seq![x] + p.skip(i) =~= p.push(x));
    } else if p.last().0 == x.0 {
        assert(i == p.len() - 1) by {
            if i < p.len() - 1 {
                assert(p[i].0 < p[p.len() - 1].0);
                assert(p[i].0 >= x.0);
            }
        }
        assert(p.take(i) + seq![x] + p.skip(i + 1) =~= p.drop_last().push(x));
    } else {
        let d = p.drop_last();
        assert(pairs_ascending(d)) by {
            assert forall|a: int, b: int| 0 <= a < b < d.len() implies d[a].0 < d[b].0 by {
                assert(p[a].0 < p[b].0);
            }
        }
        assert(i < p.len()) by {
            if i == p.len() {
                assert(p[p.len() - 1].0 < x.0);
            }
        }
        assert forall|k: int| 0 <= k < i implies #[trigger] d[k].0 < x.0 by {
            assert(p[k].0 < x.0);
        }
        assert forall|k: int| i <= k < d.len() implies #[trigger] d[k].0 >= x.0 by {
            assert(p[k].0 >= x.0);
        }
        lemma_insert_pair_at(d, x, i);
        let j = if i < p.len() && p[i].0 == x.0 {
            i + 1
        } else {
            i
        };
        let jd = if i < d.len() && d[i].0 == x.0 {
            i + 1
        } else {
            i
        };
        assert(j == jd);
        assert((d.take(i) + seq![x] + d.skip(jd)).push(p.last()) =~= p.take(i) + seq![x] + p.skip(
            j,
        ));
    }
}

/// Each swath as its start and its entries.
pub open spec fn swaths_view(sw: Seq<Swath>) -> Seq<(usize, Seq<SwathEntry>)> {
    sw.map_values(|w: Swath| (w.first_byte_in_child, w.entries@))
}

/// Without the last swath, well-formed swaths stay well formed.
proof fn lemma_wf_drop_last(sw: Seq<Swath>)
    requires
        swaths_wf(sw),
        sw.len() > 0,
    ensures
        swaths_wf(sw.drop_last()),
{
    let d = sw.drop_last();
    assert forall|k: int| 0 <= k < d.len() implies #[trigger] d[k].entries@.len() > 0 by {
        assert(d[k] == sw[k]);
    }
    assert forall|k: int| 0 <= k < d.len() implies #[trigger] swath_end(d[k]) <= usize::MAX by {
        assert(d[k] == sw[k]);
    }
    assert forall|k: int| 0 < k < d.len() implies #[trigger] d[k].first_byte_in_child > swath_end(
        d[k - 1],
    ) by {
        assert(d[k] == sw[k] && d[k - 1] == sw[k - 1]);
    }
}

/// The address of the `i`th byte of the last swath, within the pairs.
proof fn lemma_last_swath_pairs(sw: Seq<Swath>)
    requires
        sw.len() > 0,
    ensures
        pairs_of(sw) == pairs_of(sw.drop_last()) + swath_slots(sw.len() - 1, sw.last()).map_values(
            |s: Slot| slot_pair(s),
        ),
        pairs_of(sw).len() == pairs_of(sw.drop_last()).len() + sw.last().entries@.len(),
        forall|i: int|
            0 <= i < sw.last().entries@.len() ==> #[trigger] pairs_of(sw)[pairs_of(
                sw.drop_last(),
            ).len() + i] == (sw.last().first_byte_in_child + i, sw.last().entries@[i]),
{
    assert(sw =~= sw.drop_last().push(sw.last()));
    lemma_pairs_push(sw.drop_last(), sw.last());
    let a = pairs_of(sw.drop_last());
    let t = swath_slots(sw.len() - 1, sw.last()).map_values(|s: Slot| slot_pair(s));
    assert forall|i: int| 0 <= i < sw.last().entries@.len() implies #[trigger] pairs_of(sw)[a.len()
        + i] == (sw.last().first_byte_in_child + i, sw.last().entries@[i]) by {
        assert((a + t)[a.len() + i] == t[i]);
    }
}

/// Well-formed swaths are fixed by the pairs they record: two well-formed groupings of the
/// same pairs have the same swaths.
pub proof fn lemma_wf_unique(a: Seq<Swath>, b: Seq<Swath>)
    requires
        swaths_wf(a),
        swaths_wf(b),
        pairs_of(a) == pairs_of(b),
    ensures
        swaths_view(a) == swaths_view(b),
    decreases a.len() + b.len(),
{
    lemma_wf_pairs(a);
    lemma_wf_pairs(b);
    if a.len() == 0 || b.len() == 0 {
        assert(a.len() == 0 && b.len() == 0) by {
            if a.len() > 0 {
                assert(pairs_of(a).len() > 0);
            }
            if b.len() > 0 {
                assert(pairs_of(b).len() > 0);
            }
        }
        assert(swaths_view(a) =~= swaths_view(b));
    } else {
        let p = pairs_of(a);
        let wa = a.last();
        let wb = b.last();
        let la = wa.entries@.len() as int;
        let lb = wb.entries@.len() as int;
        lemma_last_swath_pairs(a);
        lemma_last_swath_pairs(b);
        lemma_wf_drop_last(a);
        lemma_wf_drop_last(b);
        lemma_wf_pairs(a.drop_last());
        lemma_wf_pairs(b.drop_last());
        let ka = pairs_of(a.drop_last()).len() as int;
        let kb = pairs_of(b.drop_last()).len() as int;
        assert(wa.entries@.len() > 0 && wb.entries@.len() > 0);
        assert(la == lb) by {
            if la < lb {
                // Index ka - 1 ends the swaths before a's last one, but lies inside b's last one.
                assert(ka > kb);
                assert(a.drop_last().len() > 0) by {
                    if a.drop_last().len() == 0 {
                        assert(pairs_of(a.drop_last()).len() == 0);
                    }
                }
                assert(a[a.len() - 1].first_byte_in_child > swath_end(a[a.len() - 2]));
                assert(a.drop_last().last() == a[a.len() - 2]);
                let q = ka - 1;
                assert(p[q] == pairs_of(a.drop_last())[q]);
                assert(p[q].0 == swath_end(a[a.len() - 2]) - 1);
                assert(p[ka] == (wa.first_byte_in_child + 0, wa.entries@[0]));
                assert(p[kb + (q - kb)] == (wb.first_byte_in_child + (q - kb), wb.entries@[q - kb]));
                assert(p[kb + (ka - kb)] == (wb.first_byte_in_child + (ka - kb), wb.entries@[ka - kb]));
                assert(false);
            } else if lb < la {
                assert(kb > ka);
                assert(b.drop_last().len() > 0) by {
                    if b.drop_last().len() == 0 {
                        assert(pairs_of(b.drop_last()).len() == 0);
                    }
                }
                assert(b[b.len() - 1].first_byte_in_child > swath_end(b[b.len() - 2]));
                assert(b.drop_last().last() == b[b.len() - 2]);
                let q = kb - 1;
                assert(p[q] == pairs_of(b.drop_last())[q]);
                assert(p[q].0 == swath_end(b[b.len() - 2]) - 1);
                assert(p[kb] == (wb.first_byte_in_child + 0, wb.entries@[0]));
                assert(p[ka + (q - ka)] == (wa.first_byte_in_child + (q - ka), wa.entries@[q - ka]));
                assert(p[ka + (kb - ka)] == (wa.first_byte_in_child + (kb - ka), wa.entries@[kb - ka]));
                assert(false);
            }
        }
        assert(ka == kb);
        assert(p[ka] == (wa.first_byte_in_child + 0, wa.entries@[0]));
        assert(p[kb] == (wb.first_byte_in_child + 0, wb.entries@[0]));
        assert(wa.entries@ =~= wb.entries@) by {
            assert forall|i: int| 0 <= i < la implies wa.entries@[i] == wb.entries@[i] by {
                assert(p[ka + i] == (wa.first_byte_in_child + i, wa.entries@[i]));
                assert(p[kb + i] == (wb.first_byte_in_child + i, wb.entries@[i]));
            }
        }
        assert(pairs_of(a.drop_last()) =~= p.take(ka));
        assert(pairs_of(b.drop_last()) =~= p.take(kb));
        lemma_wf_unique(a.drop_last(), b.drop_last());
        assert(swaths_view(a) =~= swaths_view(a.drop_last()).push((wa.first_byte_in_child, wa.entries@)));
        assert(swaths_view(b) =~= swaths_view(b.drop_last()).push((wb.first_byte_in_child, wb.entries@)));
    }
}

/// Deleting a range in which no address is recorded leaves the pairs as they were.
pub proof fn lemma_delete_untouched(p: Seq<(int, SwathEntry)>, start: int, end: int)
    requires
        forall|i: int| 0 <= i < p.len() ==> !(start <= #[trigger] p[i].0 < end),
    ensures
        without_range(p, start, end) == p,
    decreases p.len(),
{
    if p.len() > 0 {
        assert forall|i: int| 0 <= i < p.drop_last().len() implies !(start <= #[trigger] p.drop_last()[i].0 < end) by {
            assert(p.drop_last()[i] == p[i]);
        }
        lemma_delete_untouched(p.drop_last(), start, end);
        assert(!(start <= p[p.len() - 1].0 < end));
        assert(p.drop_last().push(p.last()) =~= p);
    }
}

/// Deleting an address range, at the level of the swaths (`before`, then `after` holding what
/// deleting `[start, end)` from it leaves, then `again` holding what deleting it once more
/// leaves): when no recorded address lies in the range, the swaths stay as they were; and the
/// second deletion changes no swath.
pub proof fn lemma_delete_swaths(
    before: SwathStore,
    after: SwathStore,
    again: SwathStore,
    start: int,
    end: int,
)
    requires
        before.wf(),
        after.wf(),
        again.wf(),
        after.pairs() == without_range(before.pairs(), start, end),
        again.pairs() == without_range(after.pairs(), start, end),
    ensures
        (forall|i: int| 0 <= i < before.pairs().len() ==> !(start <= #[trigger] before.pairs()[i].0 < end))
            ==> swaths_view(after@) == swaths_view(before@),
        swaths_view(again@) == swaths_view(after@),
{
    if forall|i: int| 0 <= i < before.pairs().len() ==> !(start <= #[trigger] before.pairs()[i].0 < end) {
        lemma_delete_untouched(before.pairs(), start, end);
        lemma_wf_unique(after@, before@);
    }
    lemma_delete_idempotent(before.pairs(), start, end);
    lemma_wf_unique(again@, after@);
}

/// The matches among ascending pairs ascend too, and stay below any bound the pairs are below.
pub proof fn lemma_match_pairs_ascending(p: Seq<(int, SwathEntry)>, b: int)
    requires
        pairs_ascending(p),
    ensures
        pairs_ascending(match_pairs(p)),
        pairs_below(p, b) ==> pairs_below(match_pairs(p), b),
    decreases p.len(),
{
    if p.len() > 0 {
        let d = p.drop_last();
        assert(pairs_ascending(d)) by {
            assert forall|i: int, j: int| 0 <= i < j < d.len() implies d[i].0 < d[j].0 by {
                assert(p[i].0 < p[j].0);
            }
        }
        assert(pairs_below(d, p.last().0)) by {
            assert forall|i: int| 0 <= i < d.len() implies #[trigger] d[i].0 < p.last().0 by {
                assert(p[i].0 < p[p.len() - 1].0);
            }
        }
        lemma_match_pairs_ascending(d, p.last().0);
        lemma_match_pairs_ascending(d, b);
        let m = match_pairs(d);
        if is_match(p.last().1) {
            assert(pairs_ascending(m.push(p.last()))) by {
                assert forall|i: int, j: int| 0 <= i < j < m.push(p.last()).len() implies m.push(
                    p.last(),
                )[i].0 < m.push(p.last())[j].0 by {
                    if j == m.len() {
                        assert(m[i].0 < p.last().0);
                    }
                }
            }
        }
        if pairs_below(p, b) {
            assert(pairs_below(d, b)) by {
                assert forall|i: int| 0 <= i < d.len() implies #[trigger] d[i].0 < b by {
                    assert(p[i].0 < b);
                }
            }
            assert(p[p.len() - 1].0 < b);
        }
    }
}

/// Well-formed swaths record their pairs in ascending address order, all below the end of
/// the last swath, the last pair one below it.
pub proof fn lemma_wf_pairs(sw: Seq<Swath>)
    requires
        swaths_wf(sw),
    ensures
        pairs_ascending(pairs_of(sw)),
        pairs_below(pairs_of(sw), usize::MAX as int),
        sw.len() > 0 ==> {
            &&& pairs_below(pairs_of(sw), swath_end(sw.last()))
            &&& pairs_of(sw).len() > 0
            &&& pairs_of(sw).last().0 == swath_end(sw.last()) - 1
        },
    decreases sw.len(),
{
    if sw.len() > 0 {
        let d = sw.drop_last();
        let w = sw.last();
        assert(swaths_wf(d)) by {
            assert forall|k: int| 0 <= k < d.len() implies #[trigger] d[k].entries@.len() > 0 by {
                assert(d[k] == sw[k]);
            }
            assert forall|k: int| 0 <= k < d.len() implies #[trigger] swath_end(d[k])
                <= usize::MAX by {
                assert(d[k] == sw[k]);
            }
            assert forall|k: int| 0 < k < d.len() implies #[trigger] d[k].first_byte_in_child
                > swath_end(d[k - 1]) by {
                assert(d[k] == sw[k] && d[k - 1] == sw[k - 1]);
            }
        }
        lemma_wf_pairs(d);
        assert(sw =~= d.push(w));
        lemma_pairs_push(d, w);
        let a = pairs_of(d);
        let t = swath_slots(d.len() as int, w).map_values(|s: Slot| slot_pair(s));
        assert(pairs_of(sw) == a + t);
        assert(w.entries@.len() > 0);
        assert(swath_end(w) <= usize::MAX);
        assert forall|i: int| 0 <= i < t.len() implies #[trigger] t[i].0 == w.first_byte_in_child + i by {}
        if d.len() > 0 {
            assert(sw[sw.len() - 1].first_byte_in_child > swath_end(sw[sw.len() - 2]));
            assert(d.last() == sw[sw.len() - 2]);
        }
        assert(pairs_ascending(a + t)) by {
            assert forall|i: int, j: int| 0 <= i < j < (a + t).len() implies (a + t)[i].0 < (a
                + t)[j].0 by {
                if j < a.len() {
                    assert((a + t)[i] == a[i] && (a + t)[j] == a[j]);
                } else if i < a.len() {
                    assert((a + t)[i] == a[i] && (a + t)[j] == t[j - a.len()]);
                    assert(t[j - a.len()].0 == w.first_byte_in_child + (j - a.len()));
                } else {
                    assert((a + t)[i] == t[i - a.len()] && (a + t)[j] == t[j - a.len()]);
                    assert(t[i - a.len()].0 == w.first_byte_in_child + (i - a.len()));
                    assert(t[j - a.len()].0 == w.first_byte_in_child + (j - a.len()));
                }
            }
        }
        assert(pairs_below(a + t, swath_end(w))) by {
            assert forall|i: int| 0 <= i < (a + t).len() implies #[trigger] (a + t)[i].0 < swath_end(
                w,
            ) by {
                if i < a.len() {
                    assert((a + t)[i] == a[i]);
                } else {
                    assert((a + t)[i] == t[i - a.len()]);
                    assert(t[i - a.len()].0 == w.first_byte_in_child + (i - a.len()));
                }
            }
        }
        assert((a + t).last() == t[t.len() - 1]);
        assert(t[t.len() - 1].0 == w.first_byte_in_child + (t.len() - 1));
    }
}

/// The recorded bytes of the match at entry `i` and of its filler tail.
pub fn group_bytes_of(entries: &[SwathEntry], i: usize) -> (r: Vec<u8>)
    requires
        i < entries@.len(),
    ensures
        r@ == group_bytes(entries@, i as int),
{
    let n = entries.len();
    let mut end = i + 1;
    proof {
        lemma_next_match_from(entries@, end as int);
    }
    while end < n && entries[end].flags.is_empty()
        invariant
            i < end <= n,
            n == entries@.len(),
            next_match_from(entries@, end as int) == next_match_from(entries@, i + 1),
        decreases n - end,
    {
        end = end + 1;
    }
    let mut out: Vec<u8> = Vec::new();
    let mut k = i;
    while k < end
        invariant
            i <= k <= end <= n,
            n == entries@.len(),
            out@ == entries@.subrange(i as int, k as int).map_values(|e: SwathEntry| e.old_value),
        decreases end - k,
    {
        out.push(entries[k].old_value);
        proof {
            assert(entries@.subrange(i as int, k + 1).map_values(|e: SwathEntry| e.old_value)
                =~= entries@.subrange(i as int, k as int).map_values(|e: SwathEntry| e.old_value).push(
                entries@[k as int].old_value,
            ));
        }
        k = k + 1;
    }
    out
}

/// What the store reports of the match in slot `s`: its address, its flags and its bytes.
pub open spec fn slot_group(sw: Seq<Swath>, s: Slot) -> (int, MatchFlags, Seq<u8>) {
    (s.address, s.entry.flags, group_bytes(sw[s.swath_index].entries@, s.entry_index))
}

/// The mathematical form of an `(address, flags, bytes)` triple.
pub open spec fn group_view(g: (usize, MatchFlags, Vec<u8>)) -> (int, MatchFlags, Seq<u8>) {
    (g.0 as int, g.1, g.2@)
}

/// `Vec<Swath>`-backed match storage.
#[derive(Debug, Clone, Default, PartialEq, Eq)]
pub struct SwathStore {
    swaths: Vec<Swath>,
}

impl View for SwathStore {
    type V = Seq<Swath>;

    closed spec fn view(&self) -> Seq<Swath> {
        self.swaths@
    }
}

proof fn lemma_slots_push(sw: Seq<Swath>, w: Swath)
    ensures
        slots_of(sw.push(w)) == slots_of(sw) + swath_slots(sw.len() as int, w),
{
    assert(sw.push(w).drop_last() =~= sw);
}

proof fn lemma_pairs_push(sw: Seq<Swath>, w: Swath)
    ensures
        pairs_of(sw.push(w)) =~= pairs_of(sw) + swath_slots(sw.len() as int, w).map_values(
            |s: Slot| slot_pair(s),
        ),
{
    lemma_slots_push(sw, w);
}

/// Every slot's indices and address agree with the swath it names.
proof fn lemma_slot_facts(sw: Seq<Swath>, j: int)
    requires
        0 <= j < slots_of(sw).len(),
    ensures
        0 <= slots_of(sw)[j].swath_index < sw.len(),
        0 <= slots_of(sw)[j].entry_index < sw[slots_of(sw)[j].swath_index].entries@.len(),
        slots_of(sw)[j].address == sw[slots_of(sw)[j].swath_index].first_byte_in_child
            + slots_of(sw)[j].entry_index,
        slots_of(sw)[j].entry == sw[slots_of(sw)[j].swath_index].entries@[slots_of(
            sw,
        )[j].entry_index],
    decreases sw.len(),
{
    if sw.len() > 0 {
        let prev = slots_of(sw.drop_last());
        if j < prev.len() {
            lemma_slot_facts(sw.drop_last(), j);
        }
    }
}

proof fn lemma_match_pairs_of_map(s: Seq<Slot>)
    ensures
        match_pairs(s.map_values(|x: Slot| slot_pair(x))) == match_slots(s).map_values(
            |x: Slot| slot_pair(x),
        ),
    decreases s.len(),
{
    if s.len() > 0 {
        assert(s.map_values(|x: Slot| slot_pair(x)).drop_last() =~= s.drop_last().map_values(
            |x: Slot| slot_pair(x),
        ));
        lemma_match_pairs_of_map(s.drop_last());
        assert(match_slots(s.drop_last()).push(s.last()).map_values(|x: Slot| slot_pair(x))
            =~= match_slots(s.drop_last()).map_values(|x: Slot| slot_pair(x)).push(
            slot_pair(s.last()),
        ));
    }
}

proof fn lemma_match_slots_len(s: Seq<Slot>)
    ensures
        match_slots(s).len() <= s.len(),
    decreases s.len(),
{
    if s.len() > 0 {
        lemma_match_slots_len(s.drop_last());
    }
}

proof fn lemma_slots_take(sw: Seq<Swath>, k: int)
    requires
        0 <= k < sw.len(),
    ensures
        slots_of(sw.take(k + 1)) == slots_of(sw.take(k)) + swath_slots(k, sw[k]),
        pairs_of(sw.take(k + 1)) =~= pairs_of(sw.take(k)) + swath_slots(k, sw[k]).map_values(
            |s: Slot| slot_pair(s),
        ),
{
    assert(sw.take(k + 1) =~= sw.take(k).push(sw[k]));
    lemma_slots_push(sw.take(k), sw[k]);
}

proof fn lemma_take_all<T>(s: Seq<T>)
    ensures
        s.take(s.len() as int) == s,
{
    assert(s.take(s.len() as int) =~= s);
}

proof fn lemma_match_pairs_push(p: Seq<(int, SwathEntry)>, x: (int, SwathEntry))
    ensures
        match_pairs(p.push(x)) == (if is_match(x.1) {
            match_pairs(p).push(x)
        } else {
            match_pairs(p)
        }),
{
    assert(p.push(x).drop_last() =~= p);
}

proof fn lemma_match_slots_push(p: Seq<Slot>, x: Slot)
    ensures
        match_slots(p.push(x)) == (if is_match(x.entry) {
            match_slots(p).push(x)
        } else {
            match_slots(p)
        }),
{
    assert(p.push(x).drop_last() =~= p);
}

proof fn lemma_without_range_push(p: Seq<(int, SwathEntry)>, x: (int, SwathEntry), start: int, end: int)
    ensures
        without_range(p.push(x), start, end) == (if start <= x.0 < end {
            without_range(p, start, end)
        } else {
            without_range(p, start, end).push(x)
        }),
{
    assert(p.push(x).drop_last() =~= p);
}

/// The matches of a prefix are a prefix of the matches of the whole.
proof fn lemma_match_slots_prefix(a: Seq<Slot>, b: Seq<Slot>)
    ensures
        match_slots(a).len() <= match_slots(a + b).len(),
        match_slots(a + b).take(match_slots(a).len() as int) == match_slots(a),
    decreases b.len(),
{
    if b.len() == 0 {
        assert(a + b =~= a);
        lemma_take_all(match_slots(a));
    } else {
        lemma_match_slots_prefix(a, b.drop_last());
        assert(a + b =~= (a + b.drop_last()).push(b.last()));
        lemma_match_slots_push(a + b.drop_last(), b.last());
        let m = match_slots(a + b.drop_last());
        if is_match(b.last().entry) {
            assert(m.push(b.last()).take(match_slots(a).len() as int) =~= m.take(
                match_slots(a).len() as int,
            ));
        }
    }
}

/// The slots of the swaths from index `k` on.
pub open spec fn slots_tail(sw: Seq<Swath>, k: int) -> Seq<Slot> {
    slots_of(sw).skip(slots_of(sw.take(k)).len() as int)
}

proof fn lemma_slots_split(sw: Seq<Swath>, k: int)
    requires
        0 <= k <= sw.len(),
    ensures
        slots_of(sw.take(k)).len() <= slots_of(sw).len(),
        slots_of(sw) == slots_of(sw.take(k)) + slots_tail(sw, k),
    decreases sw.len() - k,
{
    if k == sw.len() {
        lemma_take_all(sw);
        assert(slots_of(sw) =~= slots_of(sw) + slots_of(sw).skip(slots_of(sw).len() as int));
    } else {
        lemma_slots_split(sw, k + 1);
        lemma_slots_take(sw, k);
        let a = slots_of(sw.take(k));
        let b = swath_slots(k, sw[k]);
        assert(slots_of(sw) =~= a + (b + slots_tail(sw, k + 1)));
        assert(slots_of(sw) =~= a + slots_tail(sw, k));
    }
}

/// A printable ASCII byte (graphic or space) shows as itself, anything else as `.`.
pub open spec fn printable_char(b: u8) -> char {
    if 0x20 <= b <= 0x7e {
        b as char
    } else {
        '.'
    }
}

/// The lowercase hex digit for `d < 16`.
pub open spec fn hex_digit_char(d: u8) -> char {
    if d < 10 {
        (0x30 + d) as char
    } else {
        (0x61 + d - 10) as char
    }
}

/// Two lowercase hex digits for `b`.
pub open spec fn hex_pair(b: u8) -> Seq<char> {
    seq![hex_digit_char(b / 16), hex_digit_char(b % 16)]
}

/// Space-separated pairs of lowercase hex digits, one per byte.
pub open spec fn hex_text(bytes: Seq<u8>) -> Seq<char>
    decreases bytes.len(),
{
    if bytes.len() == 0 {
        Seq::empty()
    } else if bytes.len() == 1 {
        hex_pair(bytes[0])
    } else {
        hex_text(bytes.drop_last()) + seq![' '] + hex_pair(bytes.last())
    }
}

/// The lowercase hex digit for `d`.
pub fn hex_digit(d: u8) -> (c: char)
    requires
        d < 16,
    ensures
        c == hex_digit_char(d),
{
    if d < 10 {
        (0x30u8 + d) as char
    } else {
        (0x61u8 + d - 10) as char
    }
}

/// How the Hex View shows one byte: its two lowercase hex digits, and its ASCII column char
/// (see [`printable_char`]).
pub fn byte_cell(b: u8) -> (r: (String, char))
    ensures
        r.0@ == hex_pair(b),
        r.1 == printable_char(b),
{
    let digits = [hex_digit(b / 16), hex_digit(b % 16)];
    proof {
        assert(digits@ =~= hex_pair(b));
    }
    let shown = if 0x20 <= b && b <= 0x7e {
        b as char
    } else {
        '.'
    };
    (crate::text::string_from_chars(&digits), shown)
}

/// `hex_text(bytes)`, as a `String`.
pub fn hex_string(bytes: &[u8]) -> (s: String)
    ensures
        s@ == hex_text(bytes@),
{
    let mut out: Vec<char> = Vec::new();
    let mut i: usize = 0;
    while i < bytes.len()
        invariant
            0 <= i <= bytes@.len(),
            out@ == hex_text(bytes@.take(i as int)),
        decreases bytes@.len() - i,
    {
        let b = bytes[i];
        proof {
            assert(bytes@.take(i + 1).drop_last() =~= bytes@.take(i as int));
            assert(bytes@.take(i + 1).last() == b);
            if i == 0 {
                assert(bytes@.take(1)[0] == b);
            }
        }
        if i > 0 {
            out.push(' ');
        }
        out.push(hex_digit(b / 16));
        out.push(hex_digit(b % 16));
        proof {
            if i == 0 {
                assert(out@ =~= hex_pair(b));
            } else {
                assert(out@ =~= hex_text(bytes@.take(i as int)) + seq![' '] + hex_pair(b));
            }
        }
        i = i + 1;
    }
    proof {
        lemma_take_all(bytes@);
    }
    crate::text::string_from_chars(out.as_slice())
}

/// Pairs with `usize` addresses, as `(int, SwathEntry)` pairs.
pub open spec fn int_pairs(v: Seq<(usize, SwathEntry)>) -> Seq<(int, SwathEntry)> {
    v.map_values(|q: (usize, SwathEntry)| (q.0 as int, q.1))
}

/// `pairs`, ascending by address, with `(address, entry)` put at its place (see
/// [`insert_pair`]).
fn insert_sorted(pairs: &Vec<(usize, SwathEntry)>, address: usize, entry: SwathEntry) -> (r: Vec<
    (usize, SwathEntry),
>)
    requires
        pairs_ascending(int_pairs(pairs@)),
    ensures
        int_pairs(r@) == insert_pair(int_pairs(pairs@), (address as int, entry)),
{
    let ghost p = int_pairs(pairs@);
    let n = pairs.len();
    let mut i: usize = 0;
    while i < n && pairs[i].0 < address
        invariant
            0 <= i <= n == pairs@.len(),
            p == int_pairs(pairs@),
            forall|k: int| 0 <= k < i ==> #[trigger] p[k].0 < address,
        decreases n - i,
    {
        i = i + 1;
    }
    proof {
        assert forall|k: int| i <= k < p.len() implies #[trigger] p[k].0 >= address by {
            assert(p[i as int].0 >= address);
            if k > i {
                assert(p[i as int].0 < p[k].0);
            }
        }
        lemma_insert_pair_at(p, (address as int, entry), i as int);
    }
    let j = if i < n && pairs[i].0 == address {
        i + 1
    } else {
        i
    };
    let mut out: Vec<(usize, SwathEntry)> = Vec::new();
    let mut k: usize = 0;
    while k < i
        invariant
            0 <= k <= i <= n == pairs@.len(),
            out@ == pairs@.take(k as int),
        decreases i - k,
    {
        out.push(pairs[k]);
        proof {
            assert(pairs@.take(k + 1) =~= pairs@.take(k as int).push(pairs@[k as int]));
        }
        k = k + 1;
    }
    out.push((address, entry));
    let ghost head = out@;
    let mut k: usize = j;
    proof {
        assert(pairs@.subrange(j as int, j as int) =~= Seq::<(usize, SwathEntry)>::empty());
        assert(out@ =~= head + pairs@.subrange(j as int, k as int));
    }
    while k < n
        invariant
            j <= k <= n == pairs@.len(),
            out@ == head + pairs@.subrange(j as int, k as int),
        decreases n - k,
    {
        out.push(pairs[k]);
        proof {
            assert(pairs@.subrange(j as int, k + 1) =~= pairs@.subrange(j as int, k as int).push(
                pairs@[k as int],
            ));
        }
        k = k + 1;
    }
    proof {
        assert(head =~= pairs@.take(i as int).push((address, entry)));
        assert(int_pairs(out@) =~= p.take(i as int) + seq![(address as int, entry)] + p.skip(
            j as int,
        ));
    }
    out
}

impl SwathStore {
    /// Well-formedness: see [`swaths_wf`].
    pub open spec fn wf(&self) -> bool {
        swaths_wf(self@)
    }

    /// Every recorded `(address, entry)` pair, in order.
    pub open spec fn pairs(&self) -> Seq<(int, SwathEntry)> {
        pairs_of(self@)
    }

    /// Every recorded match (non-filler entry) with its location, in order.
    pub open spec fn match_slot_seq(&self) -> Seq<Slot> {
        match_slots(slots_of(self@))
    }

    /// An empty store.
    pub fn new() -> (r: SwathStore)
        ensures
            r.wf(),
            r@ == Seq::<Swath>::empty(),
            r.pairs() == Seq::<(int, SwathEntry)>::empty(),
    {
        SwathStore { swaths: Vec::new() }
    }

    /// The swaths currently stored.
    pub fn swaths(&self) -> (r: &[Swath])
        ensures
            r@ == self@,
    {
        self.swaths.as_slice()
    }

    /// Appends `entry` at `address`, above every recorded address, to `swaths`, merging into
    /// the last swath when `address` immediately follows it and starting a new swath otherwise.
    pub fn push_entry(swaths: &mut Vec<Swath>, address: usize, entry: SwathEntry)
        requires
            swaths_wf(old(swaths)@),
            pairs_below(pairs_of(old(swaths)@), address as int),
            address < usize::MAX,
        ensures
            swaths_wf(final(swaths)@),
            pairs_of(final(swaths)@) == pairs_of(old(swaths)@).push((address as int, entry)),
            old(swaths)@.len() > 0 && swath_end(old(swaths)@.last()) == address ==> {
                &&& final(swaths)@.len() == old(swaths)@.len()
                &&& final(swaths)@.last().first_byte_in_child == old(swaths)@.last().first_byte_in_child
                &&& final(swaths)@.last().entries@ == old(swaths)@.last().entries@.push(entry)
                &&& final(swaths)@.drop_last() == old(swaths)@.drop_last()
            },
            !(old(swaths)@.len() > 0 && swath_end(old(swaths)@.last()) == address) ==> final(swaths)@ == old(swaths)@.push(Swath { first_byte_in_child: address, entries: final(swaths)@.last().entries }) && final(swaths)@.last().entries@ == seq![entry],
    {
        let ghost old_sw = swaths@;
        proof {
            lemma_wf_pairs(old_sw);
            if old_sw.len() > 0 {
                let p = pairs_of(old_sw);
                assert(p[p.len() - 1].0 < address);
            }
        }
        let n = swaths.len();
        if n > 0 {
            proof {
                assert(swath_end(swaths@[n - 1]) <= usize::MAX);
            }
            let next_address = swaths[n - 1].first_byte_in_child + swaths[n - 1].entries.len();
            if next_address == address {
                let mut last = swaths.pop().unwrap();
                let ghost old_last = last;
                last.entries.push(entry);
                proof {
                    assert(swaths@ == old_sw.drop_last());
                    lemma_pairs_push(old_sw.drop_last(), old_last);
                    assert(old_sw.drop_last().push(old_last) =~= old_sw);
                    lemma_pairs_push(old_sw.drop_last(), last);
                    assert(swath_slots((n - 1) as int, last).map_values(|s: Slot| slot_pair(s))
                        =~= swath_slots((n - 1) as int, old_last).map_values(
                        |s: Slot| slot_pair(s),
                    ).push((address as int, entry)));
                }
                swaths.push(last);
                proof {
                    let sw = swaths@;
                    assert(sw.drop_last() =~= old_sw.drop_last());
                    assert forall|k: int| 0 <= k < sw.len() implies #[trigger] sw[k].entries@.len()
                        > 0 by {
                        if k < n - 1 {
                            assert(sw[k] == old_sw[k]);
                        }
                    }
                    assert forall|k: int| 0 <= k < sw.len() implies #[trigger] swath_end(sw[k])
                        <= usize::MAX by {
                        if k < n - 1 {
                            assert(sw[k] == old_sw[k]);
                        }
                    }
                    assert forall|k: int| 0 < k < sw.len() implies #[trigger] sw[k].first_byte_in_child
                        > swath_end(sw[k - 1]) by {
                        if k < n - 1 {
                            assert(sw[k] == old_sw[k]);
                            assert(sw[k - 1] == old_sw[k - 1]);
                        } else {
                            assert(sw[k - 1] == old_sw[k - 1]);
                            assert(old_sw[k].first_byte_in_child > swath_end(old_sw[k - 1]));
                        }
                    }
                }
                return;
            }
        }
        let mut entries: Vec<SwathEntry> = Vec::new();
        entries.push(entry);
        let w = Swath { first_byte_in_child: address, entries };
        proof {
            lemma_pairs_push(old_sw, w);
            assert(swath_slots(old_sw.len() as int, w).map_values(|s: Slot| slot_pair(s)) =~= seq![
                (address as int, entry),
            ]);
        }
        swaths.push(w);
        proof {
            let sw = swaths@;
            assert forall|k: int| 0 <= k < sw.len() implies #[trigger] sw[k].entries@.len() > 0 by {
                if k < old_sw.len() {
                    assert(sw[k] == old_sw[k]);
                }
            }
            assert forall|k: int| 0 <= k < sw.len() implies #[trigger] swath_end(sw[k])
                <= usize::MAX by {
                if k < old_sw.len() {
                    assert(sw[k] == old_sw[k]);
                }
            }
            assert forall|k: int| 0 < k < sw.len() implies #[trigger] sw[k].first_byte_in_child
                > swath_end(sw[k - 1]) by {
                assert(sw[k - 1] == old_sw[k - 1]);
                if k < old_sw.len() {
                    assert(sw[k] == old_sw[k]);
                }
            }
        }
    }

    /// Records a byte at `address`, at its place by address: merged into the swath it
    /// extends (joining it to the next swath when that one then follows on), in place of the
    /// byte already recorded there, or as a new swath before the first swath that starts above
    /// it.
    pub fn add(&mut self, address: usize, old_value: u8, flags: MatchFlags)
        requires
            old(self).wf(),
            address < usize::MAX,
        ensures
            final(self).wf(),
            pairs_ascending(final(self).pairs()),
            final(self).pairs() == insert_pair(
                old(self).pairs(),
                (address as int, SwathEntry { old_value, flags }),
            ),
    {
        let entry = SwathEntry { old_value, flags };
        let ghost x = (address as int, entry);
        proof {
            lemma_wf_pairs(self@);
            lemma_insert_pair(self.pairs(), x, usize::MAX as int);
        }
        let n = self.swaths.len();
        let after = if n == 0 {
            true
        } else {
            self.swaths[n - 1].first_byte_in_child + self.swaths[n - 1].entries.len() <= address
        };
        if after {
            proof {
                assert forall|i: int| 0 <= i < self.pairs().len() implies #[trigger] self.pairs()[i].0
                    < address by {
                    if n > 0 {
                        assert(self@.last() == self@[n - 1]);
                    }
                }
                lemma_insert_pair_after(self.pairs(), x);
            }
            Self::push_entry(&mut self.swaths, address, entry);
            return;
        }
        let pairs = self.raw_iter();
        let ghost p = self.pairs();
        proof {
            assert(int_pairs(pairs@) =~= p);
        }
        let inserted = insert_sorted(&pairs, address, entry);
        let mut rebuilt: Vec<Swath> = Vec::new();
        let mut k: usize = 0;
        proof {
            assert(pairs_of(rebuilt@) =~= int_pairs(inserted@).take(0));
        }
        while k < inserted.len()
            invariant
                0 <= k <= inserted@.len(),
                int_pairs(inserted@) == insert_pair(p, x),
                pairs_ascending(int_pairs(inserted@)),
                pairs_below(int_pairs(inserted@), usize::MAX as int),
                swaths_wf(rebuilt@),
                pairs_of(rebuilt@) == int_pairs(inserted@).take(k as int),
            decreases inserted@.len() - k,
        {
            let (a, e) = inserted[k];
            proof {
                let q = int_pairs(inserted@);
                assert(q[k as int] == (a as int, e));
                assert forall|j: int| 0 <= j < pairs_of(rebuilt@).len() implies #[trigger] pairs_of(
                    rebuilt@,
                )[j].0 < a by {
                    assert(pairs_of(rebuilt@)[j] == q[j]);
                }
                assert(q.take(k + 1) =~= q.take(k as int).push((a as int, e)));
            }
            Self::push_entry(&mut rebuilt, a, e);
            k = k + 1;
        }
        proof {
            lemma_take_all(int_pairs(inserted@));
        }
        self.swaths = rebuilt;
    }

    /// Every recorded `(address, entry)` pair, including contiguity-filler bytes, in ascending
    /// address order.
    pub fn raw_iter(&self) -> (r: Vec<(usize, SwathEntry)>)
        requires
            self.wf(),
        ensures
            r@.map_values(|p: (usize, SwathEntry)| (p.0 as int, p.1)) == self.pairs(),
            pairs_ascending(self.pairs()),
    {
        proof {
            lemma_wf_pairs(self@);
        }
        let mut out: Vec<(usize, SwathEntry)> = Vec::new();
        let mut k: usize = 0;
        while k < self.swaths.len()
            invariant
                0 <= k <= self@.len(),
                swaths_wf(self@),
                out@.map_values(|p: (usize, SwathEntry)| (p.0 as int, p.1)) == pairs_of(
                    self@.take(k as int),
                ),
            decreases self@.len() - k,
        {
            let w = &self.swaths[k];
            proof {
                assert(swath_end(self@[k as int]) <= usize::MAX);
            }
            let mut i: usize = 0;
            while i < w.entries.len()
                invariant
                    0 <= k < self@.len(),
                    *w == self@[k as int],
                    swath_end(*w) <= usize::MAX,
                    0 <= i <= w.entries@.len(),
                    out@.map_values(|p: (usize, SwathEntry)| (p.0 as int, p.1)) == pairs_of(
                        self@.take(k as int),
                    ) + swath_slots(k as int, *w).take(i as int).map_values(
                        |s: Slot| slot_pair(s),
                    ),
                decreases w.entries@.len() - i,
            {
                let ghost before = out@;
                out.push((w.first_byte_in_child + i, w.entries[i]));
                proof {
                    assert(swath_slots(k as int, *w).take(i + 1) =~= swath_slots(
                        k as int,
                        *w,
                    ).take(i as int).push(swath_slots(k as int, *w)[i as int]));
                    assert(out@ =~= before.push(((w.first_byte_in_child + i) as usize, w.entries@[i as int])));
                    assert(out@.map_values(|p: (usize, SwathEntry)| (p.0 as int, p.1)) =~= before.map_values(
                        |p: (usize, SwathEntry)| (p.0 as int, p.1),
                    ).push((w.first_byte_in_child + i, w.entries@[i as int])));
                    assert(swath_slots(k as int, *w).take(i + 1).map_values(|s: Slot| slot_pair(s))
                        =~= swath_slots(k as int, *w).take(i as int).map_values(
                        |s: Slot| slot_pair(s),
                    ).push((w.first_byte_in_child + i, w.entries@[i as int])));
                }
                i = i + 1;
            }
            proof {
                lemma_slots_take(self@, k as int);
                assert(swath_slots(k as int, *w).take(i as int) =~= swath_slots(k as int, *w));
            }
            k = k + 1;
        }
        proof {
            lemma_take_all(self@);
        }
        out
    }

    /// Every actual match (entries with non-empty flags) as `(address, entry)`, skipping
    /// contiguity-filler bytes, in ascending address order.
    pub fn matches(&self) -> (r: Vec<(usize, SwathEntry)>)
        requires
            self.wf(),
        ensures
            r@.map_values(|p: (usize, SwathEntry)| (p.0 as int, p.1)) == match_pairs(self.pairs()),
            pairs_ascending(match_pairs(self.pairs())),
    {
        proof {
            lemma_wf_pairs(self@);
            lemma_match_pairs_ascending(self.pairs(), 0);
        }
        let raw = self.raw_iter();
        let ghost rawv = raw@.map_values(|p: (usize, SwathEntry)| (p.0 as int, p.1));
        let mut out: Vec<(usize, SwathEntry)> = Vec::new();
        let mut i: usize = 0;
        while i < raw.len()
            invariant
                0 <= i <= raw@.len(),
                rawv == raw@.map_values(|p: (usize, SwathEntry)| (p.0 as int, p.1)),
                out@.map_values(|p: (usize, SwathEntry)| (p.0 as int, p.1)) == match_pairs(
                    rawv.take(i as int),
                ),
            decreases raw@.len() - i,
        {
            let item = raw[i];
            let ghost before = out@;
            proof {
                assert(rawv.take(i + 1) =~= rawv.take(i as int).push(rawv[i as int]));
                lemma_match_pairs_push(rawv.take(i as int), rawv[i as int]);
            }
            if !item.1.flags.is_empty() {
                out.push(item);
                proof {
                    assert(out@.map_values(|p: (usize, SwathEntry)| (p.0 as int, p.1)) =~= before.map_values(
                        |p: (usize, SwathEntry)| (p.0 as int, p.1),
                    ).push(rawv[i as int]));
                }
            }
            i = i + 1;
        }
        proof {
            lemma_take_all(rawv);
        }
        out
    }

    /// Number of actual matches (entries with non-empty flags); does not count
    /// contiguity-filler bytes.
    pub fn match_count(&self) -> (r: usize)
        requires
            self.wf(),
        ensures
            r == match_pairs(self.pairs()).len(),
    {
        let m = self.matches();
        m.len()
    }

    /// The location of the `n`th actual match (0-indexed), or `None` if there are fewer than
    /// `n + 1`.
    pub fn nth_match(&self, n: usize) -> (r: Option<MatchLocation>)
        requires
            self.wf(),
        ensures
            r == (if n < self.match_slot_seq().len() {
                Some(
                    MatchLocation {
                        swath_index: self.match_slot_seq()[n as int].swath_index as usize,
                        entry_index: self.match_slot_seq()[n as int].entry_index as usize,
                    },
                )
            } else {
                None
            }),
    {
        let ghost all = slots_of(self@);
        let mut seen: usize = 0;
        let mut k: usize = 0;
        while k < self.swaths.len()
            invariant
                0 <= k <= self@.len(),
                all == slots_of(self@),
                seen <= n,
                seen == match_slots(slots_of(self@.take(k as int))).len(),
            decreases self@.len() - k,
        {
            let w = &self.swaths[k];
            let mut i: usize = 0;
            while i < w.entries.len()
                invariant
                    0 <= k < self@.len(),
                    *w == self@[k as int],
                    0 <= i <= w.entries@.len(),
                    all == slots_of(self@),
                    seen <= n,
                    seen == match_slots(slots_of(self@.take(k as int)) + swath_slots(k as int, *w).take(i as int)).len(),
                decreases w.entries@.len() - i,
            {
                let ghost pre = slots_of(self@.take(k as int)) + swath_slots(k as int, *w).take(i as int);
                let ghost slot = swath_slots(k as int, *w)[i as int];
                proof {
                    assert(slots_of(self@.take(k as int)) + swath_slots(k as int, *w).take(i + 1) =~= pre.push(slot));
                    lemma_match_slots_push(pre, slot);
                }
                if !w.entries[i].flags.is_empty() {
                    if seen == n {
                        proof {
                            lemma_slots_take(self@, k as int);
                            let rest = swath_slots(k as int, *w).skip(i + 1);
                            assert(slots_of(self@.take(k + 1)) =~= pre.push(slot) + rest);
                            let tail = self@.skip(k + 1);
                            lemma_slots_split(self@, k + 1);
                            assert(all =~= pre.push(slot) + (rest + slots_tail(self@, k + 1)));
                            lemma_match_slots_prefix(pre.push(slot), rest + slots_tail(self@, k + 1));
                            assert(match_slots(pre.push(slot))[n as int] == slot);
                        }
                        return Some(MatchLocation { swath_index: k, entry_index: i });
                    }
                    seen = seen + 1;
                }
                i = i + 1;
            }
            proof {
                lemma_slots_take(self@, k as int);
                assert(swath_slots(k as int, *w).take(i as int) =~= swath_slots(k as int, *w));
            }
            k = k + 1;
        }
        proof {
            lemma_take_all(self@);
        }
        None
    }

    /// The `(address, entry)` a [`MatchLocation`] refers to, or `None` if it is out of bounds.
    pub fn entry_at(&self, location: MatchLocation) -> (r: Option<(usize, &SwathEntry)>)
        requires
            self.wf(),
        ensures
            r == (if location.swath_index < self@.len() && location.entry_index
                < self@[location.swath_index as int].entries@.len() {
                Some(
                    (
                        (self@[location.swath_index as int].first_byte_in_child
                            + location.entry_index) as usize,
                        &self@[location.swath_index as int].entries@[location.entry_index as int],
                    ),
                )
            } else {
                None
            }),
    {
        if location.swath_index >= self.swaths.len() {
            return None;
        }
        let swath = &self.swaths[location.swath_index];
        if location.entry_index >= swath.entries.len() {
            return None;
        }
        proof {
            assert(swath_end(self@[location.swath_index as int]) <= usize::MAX);
        }
        Some((swath.address_of(location.entry_index), &swath.entries[location.entry_index]))
    }

    /// Removes every recorded byte whose address falls in `[start, end)`, compacting the
    /// remaining bytes into (possibly fewer, possibly merged) swaths.
    pub fn delete_in_range(&mut self, start: usize, end: usize)
        requires
            old(self).wf(),
        ensures
            final(self).wf(),
            final(self).pairs() == without_range(old(self).pairs(), start as int, end as int),
    {
        let mut compacted: Vec<Swath> = Vec::new();
        let mut k: usize = 0;
        while k < self.swaths.len()
            invariant
                0 <= k <= self@.len(),
                swaths_wf(self@),
                swaths_wf(compacted@),
                pairs_of(compacted@) == without_range(pairs_of(self@.take(k as int)), start as int, end as int),
                pairs_below(pairs_of(compacted@), if k == 0 { 0 } else { swath_end(self@[k - 1]) }),
            decreases self@.len() - k,
        {
            let w = &self.swaths[k];
            proof {
                assert(swath_end(self@[k as int]) <= usize::MAX);
                if k > 0 {
                    assert(self@[k as int].first_byte_in_child > swath_end(self@[k - 1]));
                }
            }
            let first = w.first_byte_in_child;
            let mut i: usize = 0;
            while i < w.entries.len()
                invariant
                    0 <= k < self@.len(),
                    *w == self@[k as int],
                    first == w.first_byte_in_child,
                    swath_end(*w) <= usize::MAX,
                    0 <= i <= w.entries@.len(),
                    swaths_wf(compacted@),
                    pairs_of(compacted@) == without_range(pairs_of(self@.take(k as int)) + swath_slots(k as int, *w).take(i as int).map_values(
                        |s: Slot| slot_pair(s),
                    ), start as int, end as int),
                    pairs_below(pairs_of(compacted@), first + i),
                decreases w.entries@.len() - i,
            {
                let address = first + i;
                let entry = w.entries[i];
                let ghost pre = pairs_of(self@.take(k as int)) + swath_slots(k as int, *w).take(i as int).map_values(
                    |s: Slot| slot_pair(s),
                );
                proof {
                    assert(pairs_of(self@.take(k as int)) + swath_slots(k as int, *w).take(i + 1).map_values(
                        |s: Slot| slot_pair(s),
                    ) =~= pre.push((address as int, entry)));
                    lemma_without_range_push(pre, (address as int, entry), start as int, end as int);
                }
                let ghost before = compacted@;
                if !(address >= start && address < end) {
                    Self::push_entry(&mut compacted, address, entry);
                    proof {
                        let q = pairs_of(compacted@);
                        assert(q == pairs_of(before).push((address as int, entry)));
                        assert forall|j: int| 0 <= j < q.len() implies #[trigger] q[j].0 < first + i + 1 by {
                            if j < q.len() - 1 {
                                assert(q[j] == pairs_of(before)[j]);
                            }
                        }
                    }
                }
                i = i + 1;
            }
            proof {
                lemma_slots_take(self@, k as int);
                assert(swath_slots(k as int, *w).take(i as int) =~= swath_slots(k as int, *w));
            }
            k = k + 1;
        }
        proof {
            lemma_take_all(self@);
        }
        self.swaths = compacted;
    }

    /// The recorded byte values of up to `length` entries starting at `location`, stopping
    /// early at the end of that entry's swath; `None` when the location lies outside the store.
    pub fn bytes_from(&self, location: MatchLocation, length: usize) -> (r: Option<Vec<u8>>)
        requires
            self.wf(),
        ensures
            r is Some <==> (location.swath_index < self@.len() && location.entry_index
                <= self@[location.swath_index as int].entries@.len()),
            r matches Some(v) ==> v@ == self.bytes_spec(location, length),
    {
        if location.swath_index >= self.swaths.len() {
            return None;
        }
        let swath = &self.swaths[location.swath_index];
        let start = location.entry_index;
        if start > swath.entries.len() {
            return None;
        }
        let room = swath.entries.len() - start;
        let stop = if length < room {
            start + length
        } else {
            swath.entries.len()
        };
        let mut out: Vec<u8> = Vec::new();
        let mut i = start;
        while i < stop
            invariant
                start <= i <= stop <= swath.entries@.len(),
                *swath == self@[location.swath_index as int],
                start == location.entry_index,
                stop == (if start + length < swath.entries@.len() { start + length } else { swath.entries@.len() as int }),
                out@ == swath.entries@.subrange(start as int, i as int).map_values(|e: SwathEntry| e.old_value),
            decreases stop - i,
        {
            out.push(swath.entries[i].old_value);
            proof {
                assert(swath.entries@.subrange(start as int, i + 1).map_values(|e: SwathEntry| e.old_value)
                    =~= swath.entries@.subrange(start as int, i as int).map_values(|e: SwathEntry| e.old_value).push(swath.entries@[i as int].old_value));
            }
            i = i + 1;
        }
        Some(out)
    }

    /// What [`Self::bytes_from`] returns for an in-bounds location.
    pub open spec fn bytes_spec(&self, location: MatchLocation, length: usize) -> Seq<u8> {
        let es = self@[location.swath_index as int].entries@;
        let stop = if location.entry_index + length < es.len() {
            location.entry_index + length
        } else {
            es.len() as int
        };
        es.subrange(location.entry_index as int, stop).map_values(|e: SwathEntry| e.old_value)
    }

    /// The recorded bytes of the match at `location` and of the filler entries after it, up to
    /// the next match or the end of its swath; `None` when the location lies outside the store.
    pub fn match_bytes(&self, location: MatchLocation) -> (r: Option<Vec<u8>>)
        requires
            self.wf(),
        ensures
            r is Some <==> (location.swath_index < self@.len() && location.entry_index
                < self@[location.swath_index as int].entries@.len()),
            r matches Some(v) ==> v@ == group_bytes(
                self@[location.swath_index as int].entries@,
                location.entry_index as int,
            ),
    {
        if location.swath_index >= self.swaths.len() {
            return None;
        }
        let swath = &self.swaths[location.swath_index];
        if location.entry_index >= swath.entries.len() {
            return None;
        }
        Some(group_bytes_of(swath.entries.as_slice(), location.entry_index))
    }

    /// Every actual match as `(address, flags, bytes)`, the bytes being those of the match and
    /// of its filler tail, in order.
    pub fn match_groups(&self) -> (r: Vec<(usize, MatchFlags, Vec<u8>)>)
        requires
            self.wf(),
        ensures
            r@.map_values(|g: (usize, MatchFlags, Vec<u8>)| group_view(g))
                == self.match_slot_seq().map_values(|s: Slot| slot_group(self@, s)),
    {
        let mut out: Vec<(usize, MatchFlags, Vec<u8>)> = Vec::new();
        let mut k: usize = 0;
        while k < self.swaths.len()
            invariant
                0 <= k <= self@.len(),
                swaths_wf(self@),
                out@.map_values(|g: (usize, MatchFlags, Vec<u8>)| group_view(g)) == match_slots(
                    slots_of(self@.take(k as int)),
                ).map_values(|s: Slot| slot_group(self@, s)),
            decreases self@.len() - k,
        {
            let w = &self.swaths[k];
            proof {
                assert(swath_end(self@[k as int]) <= usize::MAX);
            }
            let mut i: usize = 0;
            while i < w.entries.len()
                invariant
                    0 <= k < self@.len(),
                    *w == self@[k as int],
                    swath_end(*w) <= usize::MAX,
                    0 <= i <= w.entries@.len(),
                    out@.map_values(|g: (usize, MatchFlags, Vec<u8>)| group_view(g)) == match_slots(
                        slots_of(self@.take(k as int)) + swath_slots(k as int, *w).take(i as int),
                    ).map_values(|s: Slot| slot_group(self@, s)),
                decreases w.entries@.len() - i,
            {
                let ghost pre = slots_of(self@.take(k as int)) + swath_slots(k as int, *w).take(
                    i as int,
                );
                let ghost slot = swath_slots(k as int, *w)[i as int];
                let ghost before = out@;
                proof {
                    assert(slots_of(self@.take(k as int)) + swath_slots(k as int, *w).take(i + 1)
                        =~= pre.push(slot));
                    lemma_match_slots_push(pre, slot);
                }
                if !w.entries[i].flags.is_empty() {
                    let bytes = group_bytes_of(w.entries.as_slice(), i);
                    out.push((w.first_byte_in_child + i, w.entries[i].flags, bytes));
                    proof {
                        assert(group_view(out@[out@.len() - 1]) == slot_group(self@, slot));
                        assert(out@.map_values(|g: (usize, MatchFlags, Vec<u8>)| group_view(g))
                            =~= before.map_values(|g: (usize, MatchFlags, Vec<u8>)| group_view(g)).push(
                            slot_group(self@, slot),
                        ));
                        assert(match_slots(pre).push(slot).map_values(|s: Slot| slot_group(self@, s))
                            =~= match_slots(pre).map_values(|s: Slot| slot_group(self@, s)).push(
                            slot_group(self@, slot),
                        ));
                    }
                }
                i = i + 1;
            }
            proof {
                lemma_slots_take(self@, k as int);
                assert(swath_slots(k as int, *w).take(i as int) =~= swath_slots(k as int, *w));
            }
            k = k + 1;
        }
        proof {
            lemma_take_all(self@);
        }
        out
    }

    /// The number of matches, counted over the recorded pairs or over the match slots.
    pub proof fn lemma_match_count(&self)
        ensures
            match_pairs(self.pairs()).len() == self.match_slot_seq().len(),
    {
        lemma_match_pairs_of_map(slots_of(self@));
    }

    /// The `n`th match location names the `n`th recorded match: there is one (and
    /// [`Self::nth_match`] gives `Some`) exactly when `n` is below the match count, and the
    /// address and entry there ([`Self::entry_at`]) are the `n`th of [`Self::matches`].
    pub proof fn lemma_nth_match_is_nth(&self, n: int)
        requires
            self.wf(),
            0 <= n,
        ensures
            n < self.match_slot_seq().len() <==> n < match_pairs(self.pairs()).len(),
            n < self.match_slot_seq().len() ==> {
                let s = self.match_slot_seq()[n];
                &&& 0 <= s.swath_index < self@.len()
                &&& 0 <= s.entry_index < self@[s.swath_index].entries@.len()
                &&& (
                    self@[s.swath_index].first_byte_in_child + s.entry_index,
                    self@[s.swath_index].entries@[s.entry_index],
                ) == match_pairs(self.pairs())[n]
            },
    {
        lemma_match_pairs_of_map(slots_of(self@));
        if n < self.match_slot_seq().len() {
            lemma_match_slot_facts(self@, n);
            assert(match_pairs(self.pairs())[n] == slot_pair(self.match_slot_seq()[n]));
        }
    }

    /// Printable text for up to `length` recorded bytes starting at `location`, stopping early
    /// at the end of that entry's swath; non-printable bytes render as `.`.
    pub fn printable_string(&self, location: MatchLocation, length: usize) -> (r: Option<String>)
        requires
            self.wf(),
        ensures
            r is Some <==> (location.swath_index < self@.len() && location.entry_index
                <= self@[location.swath_index as int].entries@.len()),
            r matches Some(s) ==> s@ == self.bytes_spec(location, length).map_values(
                |b: u8| printable_char(b),
            ),
    {
        match self.bytes_from(location, length) {
            None => None,
            Some(bytes) => {
                let mut out: Vec<char> = Vec::new();
                let mut i: usize = 0;
                while i < bytes.len()
                    invariant
                        0 <= i <= bytes@.len(),
                        out@ == bytes@.take(i as int).map_values(|b: u8| printable_char(b)),
                    decreases bytes@.len() - i,
                {
                    let b = bytes[i];
                    if 0x20 <= b && b <= 0x7e {
                        out.push(b as char);
                    } else {
                        out.push('.');
                    }
                    proof {
                        assert(bytes@.take(i + 1).map_values(|b: u8| printable_char(b)) =~= bytes@.take(
                            i as int,
                        ).map_values(|b: u8| printable_char(b)).push(printable_char(b)));
                    }
                    i = i + 1;
                }
                proof {
                    lemma_take_all(bytes@);
                }
                Some(crate::text::string_from_chars(out.as_slice()))
            },
        }
    }

    /// Hex text (`"aa bb cc"`) for up to `length` recorded bytes starting at `location`, stopping
    /// early at the end of that entry's swath.
    pub fn bytearray_text(&self, location: MatchLocation, length: usize) -> (r: Option<String>)
        requires
            self.wf(),
        ensures
            r is Some <==> (location.swath_index < self@.len() && location.entry_index
                <= self@[location.swath_index as int].entries@.len()),
            r matches Some(s) ==> s@ == hex_text(self.bytes_spec(location, length)),
    {
        match self.bytes_from(location, length) {
            None => None,
            Some(bytes) => Some(hex_string(bytes.as_slice())),
        }
    }
}

} // verus!
