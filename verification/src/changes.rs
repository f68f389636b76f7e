//! Which recorded matches changed value on the last scan: each address's value is remembered
//! from one listing of the matches to the next.

use std::collections::{HashMap, HashSet};

use vstd::prelude::*;

use crate::session::MatchView;
use crate::value::{Value, ValueView};

verus! {

broadcast use vstd::std_specs::hash::group_hash_axioms;

/// A NaN among `f32` bit patterns: every exponent bit set and a nonzero fraction.
pub open spec fn f32_bits_nan(x: u32) -> bool {
    (x / 0x80_0000) % 0x100 == 0xff && x % 0x80_0000 != 0
}

/// A NaN among `f64` bit patterns: every exponent bit set and a nonzero fraction.
pub open spec fn f64_bits_nan(x: u64) -> bool {
    (x / 0x10_0000_0000_0000) % 0x800 == 0x7ff && x % 0x10_0000_0000_0000 != 0
}

/// `==` on the `f32`s with bit patterns `x` and `y`: a NaN equals nothing, not even itself;
/// positive and negative zero are equal; any other two are equal when their bits are.
pub open spec fn f32_bits_eq(x: u32, y: u32) -> bool {
    !f32_bits_nan(x) && !f32_bits_nan(y) && (x == y || (x % 0x8000_0000 == 0 && y % 0x8000_0000
        == 0))
}

/// `==` on the `f64`s with bit patterns `x` and `y` (see [`f32_bits_eq`]).
pub open spec fn f64_bits_eq(x: u64, y: u64) -> bool {
    !f64_bits_nan(x) && !f64_bits_nan(y) && (x == y || (x % 0x8000_0000_0000_0000 == 0 && y
        % 0x8000_0000_0000_0000 == 0))
}

/// `==` on values: floats compare as IEEE numbers (see [`f32_bits_eq`]), everything else
/// compares equal when it is the same value.
pub open spec fn equal_values(a: ValueView, b: ValueView) -> bool {
    match (a, b) {
        (ValueView::F32(x), ValueView::F32(y)) => f32_bits_eq(x, y),
        (ValueView::F64(x), ValueView::F64(y)) => f64_bits_eq(x, y),
        _ => a == b,
    }
}

/// Whether two values are equal, as `==` compares them (see [`equal_values`]).
pub fn same_value(a: &Value, b: &Value) -> (r: bool)
    ensures
        r == equal_values(a@, b@),
{
    match (a, b) {
        (Value::U8(x), Value::U8(y)) => *x == *y,
        (Value::I8(x), Value::I8(y)) => *x == *y,
        (Value::U16(x), Value::U16(y)) => *x == *y,
        (Value::I16(x), Value::I16(y)) => *x == *y,
        (Value::U32(x), Value::U32(y)) => *x == *y,
        (Value::I32(x), Value::I32(y)) => *x == *y,
        (Value::U64(x), Value::U64(y)) => *x == *y,
        (Value::I64(x), Value::I64(y)) => *x == *y,
        (Value::F32(x), Value::F32(y)) => {
            let (x, y) = (*x, *y);
            let x_nan = (x / 0x80_0000) % 0x100 == 0xff && x % 0x80_0000 != 0;
            let y_nan = (y / 0x80_0000) % 0x100 == 0xff && y % 0x80_0000 != 0;
            !x_nan && !y_nan && (x == y || (x % 0x8000_0000 == 0 && y % 0x8000_0000 == 0))
        },
        (Value::F64(x), Value::F64(y)) => {
            let (x, y) = (*x, *y);
            let x_nan = (x / 0x10_0000_0000_0000) % 0x800 == 0x7ff && x % 0x10_0000_0000_0000 != 0;
            let y_nan = (y / 0x10_0000_0000_0000) % 0x800 == 0x7ff && y % 0x10_0000_0000_0000 != 0;
            !x_nan && !y_nan && (x == y || (x % 0x8000_0000_0000_0000 == 0 && y
                % 0x8000_0000_0000_0000 == 0))
        },
        (Value::Str(x), Value::Str(y)) => crate::text::same_chars(x.as_str(), y.as_str()),
        (Value::Bytes(x), Value::Bytes(y)) => {
            if x.len() != y.len() {
                return false;
            }
            let mut i: usize = 0;
            while i < x.len()
                invariant
                    0 <= i <= x@.len(),
                    x@.len() == y@.len(),
                    a@ == ValueView::Bytes(x@),
                    b@ == ValueView::Bytes(y@),
                    forall|k: int| 0 <= k < i ==> x@[k] == y@[k],
                decreases x@.len() - i,
            {
                if x[i] != y[i] {
                    proof {
                        assert(x@[i as int] != y@[i as int]);
                        assert(x@ != y@);
                    }
                    return false;
                }
                i = i + 1;
            }
            proof {
                assert(x@ =~= y@);
            }
            true
        },
        _ => false,
    }
}

/// The value last seen at each address, after seeing the matches `seen` in order.
pub open spec fn latest_values(seen: Seq<MatchView>) -> Map<usize, ValueView>
    decreases seen.len(),
{
    if seen.len() == 0 {
        Map::empty()
    } else {
        latest_values(seen.drop_last()).insert(seen.last().address, seen.last().old_value@)
    }
}

/// The addresses among `current` whose value does not compare equal (see [`equal_values`]) to
/// the one `previous` remembers there.
pub open spec fn changed_addresses(previous: Map<usize, ValueView>, current: Seq<MatchView>) -> Set<usize> {
    Set::new(
        |a: usize|
            exists|i: int|
                0 <= i < current.len() && #[trigger] current[i].address == a && previous.contains_key(a)
                    && !equal_values(previous[a], current[i].old_value@),
    )
}

/// The view of remembered values.
pub open spec fn remembered(m: HashMap<usize, Value>) -> Map<usize, ValueView> {
    m@.map_values(|v: Value| v@)
}

/// Compares the matches now recorded with the values remembered from the last listing: which
/// addresses changed value, and what to remember for the next comparison.
pub fn track_changes(previous: &HashMap<usize, Value>, current: &[MatchView]) -> (r: (
    HashSet<usize>,
    HashMap<usize, Value>,
))
    ensures
        r.0@ == changed_addresses(remembered(*previous), current@),
        remembered(r.1) == latest_values(current@),
{
    let mut changed: HashSet<usize> = HashSet::new();
    let mut latest: HashMap<usize, Value> = HashMap::new();
    let ghost prev = remembered(*previous);
    let mut i: usize = 0;
    proof {
        assert(remembered(latest) =~= latest_values(current@.take(0)));
        assert(changed@ =~= changed_addresses(prev, current@.take(0)));
    }
    while i < current.len()
        invariant
            0 <= i <= current@.len(),
            prev == remembered(*previous),
            changed@ == changed_addresses(prev, current@.take(i as int)),
            remembered(latest) == latest_values(current@.take(i as int)),
        decreases current@.len() - i,
    {
        let m = &current[i];
        let ghost before = changed@;
        let ghost cur = current@.take(i + 1);
        proof {
            assert(cur.drop_last() =~= current@.take(i as int));
            assert(cur.last() == *m);
        }
        match previous.get(&m.address) {
            Some(v) => {
                proof {
                    assert(prev.contains_key(m.address) && prev[m.address] == v@);
                }
                if !same_value(v, &m.old_value) {
                    changed.insert(m.address);
                    proof {
                        assert(cur[i as int] == *m);
                        assert(changed@ =~= changed_addresses(prev, cur)) by {
                            assert forall|a: usize| changed@.contains(a) implies changed_addresses(prev, cur).contains(a) by {
                                if a != m.address {
                                    let j = choose|j: int|
                                        0 <= j < i && #[trigger] current@.take(i as int)[j].address == a
                                            && prev.contains_key(a) && !equal_values(prev[a], current@.take(i as int)[j].old_value@);
                                    assert(cur[j] == current@.take(i as int)[j]);
                                }
                            }
                            assert forall|a: usize| changed_addresses(prev, cur).contains(a) implies changed@.contains(a) by {
                                let j = choose|j: int|
                                    0 <= j < cur.len() && #[trigger] cur[j].address == a && prev.contains_key(a)
                                        && !equal_values(prev[a], cur[j].old_value@);
                                if j < i {
                                    assert(current@.take(i as int)[j] == cur[j]);
                                }
                            }
                        }
                    }
                } else {
                    proof {
                        assert(changed@ =~= changed_addresses(prev, cur)) by {
                            assert forall|a: usize| changed@.contains(a) implies changed_addresses(prev, cur).contains(a) by {
                                let j = choose|j: int|
                                    0 <= j < i && #[trigger] current@.take(i as int)[j].address == a
                                        && prev.contains_key(a) && !equal_values(prev[a], current@.take(i as int)[j].old_value@);
                                assert(cur[j] == current@.take(i as int)[j]);
                            }
                            assert forall|a: usize| changed_addresses(prev, cur).contains(a) implies changed@.contains(a) by {
                                let j = choose|j: int|
                                    0 <= j < cur.len() && #[trigger] cur[j].address == a && prev.contains_key(a)
                                        && !equal_values(prev[a], cur[j].old_value@);
                                if j < i {
                                    assert(current@.take(i as int)[j] == cur[j]);
                                }
                            }
                        }
                    }
                }
            },
            None => {
                proof {
                    assert(!prev.contains_key(m.address));
                    assert(changed@ =~= changed_addresses(prev, cur)) by {
                        assert forall|a: usize| changed@.contains(a) implies changed_addresses(prev, cur).contains(a) by {
                            let j = choose|j: int|
                                0 <= j < i && #[trigger] current@.take(i as int)[j].address == a
                                    && prev.contains_key(a) && !equal_values(prev[a], current@.take(i as int)[j].old_value@);
                            assert(cur[j] == current@.take(i as int)[j]);
                        }
                        assert forall|a: usize| changed_addresses(prev, cur).contains(a) implies changed@.contains(a) by {
                            let j = choose|j: int|
                                0 <= j < cur.len() && #[trigger] cur[j].address == a && prev.contains_key(a)
                                    && !equal_values(prev[a], cur[j].old_value@);
                            if j < i {
                                assert(current@.take(i as int)[j] == cur[j]);
                            }
                        }
                    }
                }
            },
        }
        let ghost latest_before = latest@;
        let copy = m.old_value.duplicate();
        latest.insert(m.address, copy);
        proof {
            assert(remembered(latest) =~= latest_before.map_values(|v: Value| v@).insert(
                m.address,
                m.old_value@,
            ));
            assert(latest_values(cur) == latest_values(current@.take(i as int)).insert(
                m.address,
                m.old_value@,
            ));
        }
        i = i + 1;
    }
    proof {
        assert(current@.take(current@.len() as int) =~= current@);
    }
    (changed, latest)
}

} // verus!
