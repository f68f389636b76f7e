//! Properties of the front end's state machine that span several messages (what undoes what),
//! and of the values a cheat edit writes.

use vstd::prelude::*;

use crate::appstate::{update_post, width_value, wrapped, AppView, Effect, Msg};
use crate::value::{number_of, signed_of, Value, ValueView};

verus! {

/// Toggling the help overlay twice changes nothing.
pub proof fn lemma_show_help_twice(s: AppView, t: AppView, e1: Effect, u: AppView, e2: Effect)
    requires
        update_post(s, Msg::ShowHelp, t, e1),
        update_post(t, Msg::ShowHelp, u, e2),
    ensures
        u == s,
        e1 == Effect::Nothing,
        e2 == Effect::Nothing,
{
}

/// Toggling text editing twice changes nothing.
pub proof fn lemma_toggle_search_twice(s: AppView, t: AppView, e1: Effect, u: AppView, e2: Effect)
    requires
        update_post(s, Msg::ToggleSearch, t, e1),
        update_post(t, Msg::ToggleSearch, u, e2),
    ensures
        u == s,
        e1 == Effect::Nothing,
        e2 == Effect::Nothing,
{
}

/// Toggling the expanded layout twice changes nothing.
pub proof fn lemma_toggle_expand_twice(s: AppView, t: AppView, e1: Effect, u: AppView, e2: Effect)
    requires
        update_post(s, Msg::ToggleExpand, t, e1),
        update_post(t, Msg::ToggleExpand, u, e2),
    ensures
        u == s,
        e1 == Effect::Nothing,
        e2 == Effect::Nothing,
{
}

/// Freezing a cheat twice leaves the cheat list as it was.
pub proof fn lemma_toggle_freeze_twice(s: AppView, i: usize, t: AppView, e1: Effect, u: AppView, e2: Effect)
    requires
        i < s.cheats.len(),
        update_post(s, Msg::ToggleFreeze(i), t, e1),
        update_post(t, Msg::ToggleFreeze(i), u, e2),
    ensures
        u.cheats == s.cheats,
        e1 == Effect::Nothing,
        e2 == Effect::Nothing,
{
    assert(u.cheats =~= s.cheats);
}

/// Removing the cheat just added leaves the cheat list as it was.
pub proof fn lemma_add_then_remove_cheat(
    s: AppView,
    address: usize,
    description: String,
    value: Value,
    t: AppView,
    e1: Effect,
    u: AppView,
    e2: Effect,
)
    requires
        update_post(s, Msg::AddCheat { address, description, value }, t, e1),
        update_post(t, Msg::RemoveCheat(s.cheats.len() as usize), u, e2),
        s.cheats.len() < usize::MAX,
    ensures
        u.cheats == s.cheats,
{
    assert(t.cheats.remove(s.cheats.len() as int) =~= s.cheats);
}

/// Moving a selection forward then back returns to it.
pub proof fn lemma_wrap_round_trip(current: usize, len: usize)
    requires
        current < len,
    ensures
        wrapped(wrapped(current, len, true), len, false) == current,
        wrapped(wrapped(current, len, false), len, true) == current,
{
    let c = current as int;
    let l = len as int;
    assert((((c + 1) % l) - 1) % l == c) by (nonlinear_arith)
        requires
            0 <= c < l,
    ;
    assert((((c - 1) % l) + 1) % l == c) by (nonlinear_arith)
        requires
            0 <= c < l,
    ;
}

/// A typed number of a cheat's width: for a number parsed with sign `negative` and magnitude `m`
/// (so the value `x`), a cheat of an integer width takes `x` itself, as that width, exactly when
/// `x` lies in the width's range (an unsigned width also needs a number written without `-`);
/// otherwise it takes nothing.
pub proof fn lemma_width_value_is_the_number(template: ValueView, negative: bool, m: nat)
    ensures
        ({
            let x = signed_of(negative, m);
            let r = width_value(template, number_of(negative, m));
            match template {
                ValueView::U8(_) => r == (if !negative && 0 <= x <= u8::MAX {
                    Some(ValueView::U8(x as u8))
                } else {
                    None
                }),
                ValueView::I8(_) => r == (if i8::MIN <= x <= i8::MAX {
                    Some(ValueView::I8(x as i8))
                } else {
                    None
                }),
                ValueView::U16(_) => r == (if !negative && 0 <= x <= u16::MAX {
                    Some(ValueView::U16(x as u16))
                } else {
                    None
                }),
                ValueView::I16(_) => r == (if i16::MIN <= x <= i16::MAX {
                    Some(ValueView::I16(x as i16))
                } else {
                    None
                }),
                ValueView::U32(_) => r == (if !negative && 0 <= x <= u32::MAX {
                    Some(ValueView::U32(x as u32))
                } else {
                    None
                }),
                ValueView::I32(_) => r == (if i32::MIN <= x <= i32::MAX {
                    Some(ValueView::I32(x as i32))
                } else {
                    None
                }),
                ValueView::U64(_) => r == (if !negative && 0 <= x <= u64::MAX {
                    Some(ValueView::U64(x as u64))
                } else {
                    None
                }),
                ValueView::I64(_) => r == (if i64::MIN <= x <= i64::MAX {
                    Some(ValueView::I64(x as i64))
                } else {
                    None
                }),
                ValueView::Bytes(_) => r is None,
                ValueView::Str(_) => r is None,
                _ => true,
            }
        }),
{
}

} // verus!
