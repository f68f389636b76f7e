//! The Match View's rows: which recorded matches its filter lets through.

use vstd::prelude::*;

use crate::appstate::{lowercase, occurs, occurs_in, to_lowercase};
use crate::text::{hex_digits, hex_number_string};

verus! {

/// Whether a match at `address`, its value showing as `text`, passes the filter: an empty
/// filter passes everything; otherwise the filter, lowercased, must occur in the address's
/// `0x` hex text or in the value's text.
pub open spec fn row_passes(address: usize, text: Seq<char>, filter: Seq<char>) -> bool {
    ||| filter.len() == 0
    ||| occurs_in(lowercase(filter), "0x"@ + hex_digits(address as nat))
    ||| occurs_in(lowercase(filter), text)
}

/// The indices, in order, of the first `n` rows that pass the filter.
pub open spec fn passing_rows(
    addresses: Seq<usize>,
    texts: Seq<Seq<char>>,
    filter: Seq<char>,
    n: int,
) -> Seq<usize>
    decreases n,
{
    if n <= 0 {
        Seq::empty()
    } else if row_passes(addresses[n - 1], texts[n - 1], filter) {
        passing_rows(addresses, texts, filter, n - 1).push((n - 1) as usize)
    } else {
        passing_rows(addresses, texts, filter, n - 1)
    }
}

/// The indices of the matches (their addresses, and their values' texts) that pass `filter`,
/// in order (see [`row_passes`]).
pub fn filter_match_rows(addresses: &[usize], texts: &[String], filter: &str) -> (r: Vec<usize>)
    requires
        addresses@.len() == texts@.len(),
    ensures
        r@ == passing_rows(
            addresses@,
            texts@.map_values(|t: String| t@),
            filter@,
            addresses@.len() as int,
        ),
{
    let ghost tv = texts@.map_values(|t: String| t@);
    let needle = to_lowercase(filter);
    let empty = filter.is_empty();
    let mut out: Vec<usize> = Vec::new();
    let mut i: usize = 0;
    while i < addresses.len()
        invariant
            0 <= i <= addresses@.len(),
            addresses@.len() == texts@.len(),
            tv == texts@.map_values(|t: String| t@),
            needle@ == lowercase(filter@),
            empty == (filter@.len() == 0),
            out@ == passing_rows(addresses@, tv, filter@, i as int),
        decreases addresses@.len() - i,
    {
        let keep = if empty {
            true
        } else {
            let hex = hex_number_string(addresses[i] as u128);
            occurs(needle.as_str(), hex.as_str()) || occurs(needle.as_str(), texts[i].as_str())
        };
        proof {
            assert(tv[i as int] == texts@[i as int]@);
        }
        if keep {
            out.push(i);
        }
        i = i + 1;
    }
    out
}

/// `(address, row)` pairs in ascending order: by address, then, for equal addresses, by row.
pub open spec fn pair_le(a: (usize, usize), b: (usize, usize)) -> bool {
    a.0 < b.0 || (a.0 == b.0 && a.1 <= b.1)
}

/// Whether `list` is ordered by [`pair_le`].
pub open spec fn ordered_by_address(list: Seq<(usize, usize)>) -> bool {
    forall|i: int, j: int| 0 <= i < j < list.len() ==> pair_le(list[i], list[j])
}

/// Where `pair` goes in `sorted`: before the first pair not below it.
fn pair_insertion_point(sorted: &Vec<(usize, usize)>, pair: (usize, usize)) -> (r: usize)
    requires
        ordered_by_address(sorted@),
    ensures
        r <= sorted@.len(),
        forall|i: int| 0 <= i < r ==> !pair_le(pair, #[trigger] sorted@[i]),
        forall|i: int| r <= i < sorted@.len() ==> pair_le(pair, #[trigger] sorted@[i]),
{
    let mut p: usize = 0;
    while p < sorted.len() && (sorted[p].0 < pair.0 || (sorted[p].0 == pair.0 && sorted[p].1 < pair.1))
        invariant
            0 <= p <= sorted@.len(),
            ordered_by_address(sorted@),
            forall|i: int| 0 <= i < p ==> !pair_le(pair, #[trigger] sorted@[i]),
        decreases sorted@.len() - p,
    {
        p = p + 1;
    }
    proof {
        assert forall|i: int| p <= i < sorted@.len() implies pair_le(pair, #[trigger] sorted@[i]) by {
            assert(pair_le(pair, sorted@[p as int]));
            if i > p {
                assert(pair_le(sorted@[p as int], sorted@[i]));
            }
        }
    }
    p
}

/// The Match View's rows ordered by address: each row is an `(address, row index)` pair, and
/// rows at one address keep the order of their indices. The same pairs, rearranged.
pub fn order_by_address(rows: Vec<(usize, usize)>) -> (r: Vec<(usize, usize)>)
    ensures
        ordered_by_address(r@),
        r@.to_multiset() == rows@.to_multiset(),
{
    let ghost whole = rows@;
    let mut rest = rows;
    let mut out: Vec<(usize, usize)> = Vec::new();
    proof {
        assert(whole.skip(whole.len() as int) =~= Seq::<(usize, usize)>::empty());
        assert(whole.take(whole.len() as int) =~= whole);
    }
    while rest.len() > 0
        invariant
            rest@.len() <= whole.len(),
            rest@ == whole.take(rest@.len() as int),
            ordered_by_address(out@),
            out@.to_multiset() == whole.skip(rest@.len() as int).to_multiset(),
        decreases rest@.len(),
    {
        let ghost k = rest@.len() as int;
        let pair = rest.pop().unwrap();
        proof {
            assert(pair == whole[k - 1]);
            assert(rest@ =~= whole.take(k - 1));
            assert(whole.skip(k - 1) =~= seq![pair] + whole.skip(k));
            assert(whole.skip(k) + seq![pair] =~= whole.skip(k).push(pair));
        }
        let p = pair_insertion_point(&out, pair);
        let ghost before = out@;
        out.insert(p, pair);
        proof {
            assert(out@ == before.insert(p as int, pair));
            vstd::seq_lib::to_multiset_insert(before, p as int, pair);
            vstd::seq_lib::to_multiset_build(whole.skip(k), pair);
            vstd::seq_lib::lemma_seq_union_to_multiset_commutative(seq![pair], whole.skip(k));
            assert((seq![pair] + whole.skip(k)).to_multiset() == (whole.skip(k) + seq![pair]).to_multiset());
            assert(whole.skip(k - 1).to_multiset() == whole.skip(k).to_multiset().insert(pair));
            assert forall|i: int, j: int| 0 <= i < j < out@.len() implies pair_le(out@[i], out@[j]) by {
                if j < p {
                    assert(out@[i] == before[i] && out@[j] == before[j]);
                } else if j == p {
                    assert(out@[i] == before[i]);
                } else if i < p {
                    assert(out@[i] == before[i] && out@[j] == before[j - 1]);
                } else if i == p {
                    assert(out@[j] == before[j - 1]);
                } else {
                    assert(out@[i] == before[i - 1] && out@[j] == before[j - 1]);
                }
            }
        }
    }
    proof {
        assert(whole.skip(0) =~= whole);
    }
    out
}

} // verus!
