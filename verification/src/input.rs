//! Turning a key press into the message it stands for, given the state: while the error dialog
//! shows, any key dismisses it; a path prompt takes every key; a focused panel's text field takes typing; then the global and per-panel bindings;
//! then the bindings that need the selected row.

use vstd::prelude::*;

use crate::appstate::{update, update_post, AppState, AppView, Effect, Msg};
use crate::focus::Focus;
use crate::keymap::{first_binding, focus_table, global_table, lookup_focus, lookup_global, Key, KeyCode, CONTROL};
use crate::session::MatchView;
use crate::value::{Value, ValueView};

verus! {

/// Control is held.
pub open spec fn ctrl(k: Key) -> bool {
    k.modifiers & CONTROL != 0
}

/// `s` without its last char, if it has one.
pub open spec fn popped(s: Seq<char>) -> Seq<char> {
    if s.len() > 0 {
        s.drop_last()
    } else {
        s
    }
}

/// Which text field a message sets, and to what: 0 the Process Picker's filter, 1 the Scan
/// Panel's value, 2 the Match View's filter, 3 the cheat value edit, 4 the path prompt, 5 the
/// Hex View byte edit.
pub open spec fn edit_of(m: Msg) -> Option<(int, Seq<char>)> {
    match m {
        Msg::FilterProcesses(x) => Some((0, x@)),
        Msg::SetScanInput(x) => Some((1, x@)),
        Msg::FilterMatches(x) => Some((2, x@)),
        Msg::SetCheatValueInput(x) => Some((3, x@)),
        Msg::SetPathInput(x) => Some((4, x@)),
        Msg::SetHexEditInput(x) => Some((5, x@)),
        _ => None,
    }
}

/// `r` sets text field `which` to `text`.
pub open spec fn sets_text(r: Option<Msg>, which: int, text: Seq<char>) -> bool {
    r is Some && edit_of(r->0) == Some((which, text))
}

/// A key typed into a text field holding `field`: a char without Control is appended,
/// Backspace removes the last char.
pub open spec fn typed(k: Key) -> bool {
    k.code is Char && !ctrl(k)
}

/// What a key does while a panel's text field takes typing, by panel.
pub open spec fn field_key_post(s: AppView, k: Key, r: Option<Msg>) -> bool {
    let plain = k.modifiers == 0;
    match s.focus {
        Focus::ProcessPicker => if typed(k) {
            sets_text(r, 0, s.process_filter.push(k.code->Char_0))
        } else if k.code is Backspace {
            sets_text(r, 0, popped(s.process_filter))
        } else if k.code is Enter {
            r == Some(Msg::ToggleSearch)
        } else if k.code is Up && plain {
            r == Some(Msg::SelectPrev)
        } else if k.code is Down && plain {
            r == Some(Msg::SelectNext)
        } else {
            r is None
        },
        Focus::ScanPanel => if typed(k) {
            sets_text(r, 1, s.scan_input.push(k.code->Char_0))
        } else if k.code is Backspace {
            sets_text(r, 1, popped(s.scan_input))
        } else if k.code is Enter {
            r == Some(Msg::ToggleSearch)
        } else {
            r is None
        },
        Focus::MatchView => if typed(k) {
            sets_text(r, 2, s.match_filter.push(k.code->Char_0))
        } else if k.code is Backspace {
            sets_text(r, 2, popped(s.match_filter))
        } else if k.code is Enter {
            r == Some(Msg::ToggleSearch)
        } else if k.code is Up && plain {
            r == Some(Msg::SelectPrev)
        } else if k.code is Down && plain {
            r == Some(Msg::SelectNext)
        } else {
            r is None
        },
        Focus::CheatView => if typed(k) {
            sets_text(r, 3, s.cheat_value_input.push(k.code->Char_0))
        } else if k.code is Backspace {
            sets_text(r, 3, popped(s.cheat_value_input))
        } else if k.code is Enter {
            r == Some(Msg::ConfirmCheatValueEdit)
        } else {
            r is None
        },
        Focus::HexView => r is None,
    }
}

/// What a key does while the path prompt is open: typing edits the path, Enter confirms, Esc
/// dismisses, nothing else.
pub open spec fn prompt_key_post(s: AppView, k: Key, r: Option<Msg>) -> bool {
    if typed(k) {
        sets_text(r, 4, s.path_input.push(k.code->Char_0))
    } else if k.code is Backspace {
        sets_text(r, 4, popped(s.path_input))
    } else if k.code is Enter {
        r == Some(Msg::ConfirmPathPrompt)
    } else if k.code is Esc {
        r == Some(Msg::Dismiss)
    } else {
        r is None
    }
}

/// An ASCII hex digit.
pub open spec fn is_hex_digit(c: char) -> bool {
    ('0' <= c <= '9') || ('a' <= c <= 'f') || ('A' <= c <= 'F')
}

/// What a key does that no table binds, given the selected match `sel` (its address and value):
/// Enter on the Process Picker attaches to the selected process; hex digits and Backspace edit
/// the Hex View byte (up to two bytes of text); `h` opens the Hex View at the selected match or
/// cheat; Space and `e` toggle freeze and edit the selected cheat; `a` adds the selected match
/// as a cheat.
pub open spec fn row_key_post(
    s: AppView,
    k: Key,
    sel: Option<(usize, ValueView)>,
    picked: Option<u32>,
    r: Option<Msg>,
) -> bool {
    if s.focus == Focus::ProcessPicker && k.code is Enter && picked is Some {
        r == Some(Msg::Attach(picked->0))
    } else if s.focus == Focus::HexView && k.code is Char && is_hex_digit(k.code->Char_0)
        && (vstd::utf8::encode_utf8(s.hex_edit_input).len() as usize) < 2 {
        sets_text(r, 5, s.hex_edit_input.push(k.code->Char_0))
    } else if s.focus == Focus::HexView && k.code is Backspace {
        sets_text(r, 5, popped(s.hex_edit_input))
    } else if s.focus == Focus::MatchView && k.code == KeyCode::Char('h') && sel is Some {
        r == Some(Msg::FocusHexView(sel.unwrap().0))
    } else if s.focus == Focus::CheatView && k.code == KeyCode::Char('h') && s.cheat_selected
        < s.cheats.len() {
        r == Some(Msg::FocusHexView(s.cheats[s.cheat_selected as int].address))
    } else if s.focus == Focus::CheatView && k.code == KeyCode::Char(' ') {
        r == Some(Msg::ToggleFreeze(s.cheat_selected))
    } else if s.focus == Focus::CheatView && k.code == KeyCode::Char('e') {
        r == Some(Msg::BeginEditCheatValue(s.cheat_selected))
    } else if s.focus == Focus::MatchView && k.code == KeyCode::Char('a') && sel is Some {
        r matches Some(Msg::AddCheat { address, description, value }) && address == sel.unwrap().0
            && description@.len() == 0 && value@ == sel.unwrap().1
    } else {
        r is None
    }
}

/// The message key `k` stands for (see the module description); `sel` is the selected match
/// and `picked` the pid of the selected process.
pub open spec fn key_msg_post(
    s: AppView,
    k: Key,
    sel: Option<(usize, ValueView)>,
    picked: Option<u32>,
    r: Option<Msg>,
) -> bool {
    if s.error_dialog_visible {
        r == Some(Msg::DismissError)
    } else if s.path_prompt is Some {
        prompt_key_post(s, k, r)
    } else if s.search_active && exists|m: Option<Msg>| field_key_post(s, k, m) && m is Some {
        field_key_post(s, k, r)
    } else if first_binding(global_table(), k, 0) is Some {
        r == first_binding(global_table(), k, 0)
    } else if first_binding(focus_table(s.focus), k, 0) is Some {
        r == first_binding(focus_table(s.focus), k, 0)
    } else {
        row_key_post(s, k, sel, picked, r)
    }
}

/// `s` with `c` appended.
fn push_char(s: &str, c: char) -> (r: String)
    ensures
        r@ == s@.push(c),
{
    let mut v = crate::text::chars_of(s);
    v.push(c);
    crate::text::string_from_chars(v.as_slice())
}

/// `s` without its last char, if it has one.
fn pop_char(s: &str) -> (r: String)
    ensures
        r@ == popped(s@),
{
    let mut v = crate::text::chars_of(s);
    if v.len() > 0 {
        v.pop();
    }
    crate::text::string_from_chars(v.as_slice())
}

/// Whether `c` is an ASCII hex digit.
fn hex_digit(c: char) -> (r: bool)
    ensures
        r == is_hex_digit(c),
{
    ('0' <= c && c <= '9') || ('a' <= c && c <= 'f') || ('A' <= c && c <= 'F')
}

/// The message for a key typed into the focused panel's text field, if it is one.
fn field_key(state: &AppState, k: Key) -> (r: Option<Msg>)
    ensures
        field_key_post(state@, k, r),
{
    let control = k.modifiers & CONTROL != 0;
    let plain = k.modifiers == 0;
    match state.focus() {
        Focus::ProcessPicker => match k.code {
            KeyCode::Char(c) if !control => Some(Msg::FilterProcesses(push_char(state.process_filter(), c))),
            KeyCode::Backspace => Some(Msg::FilterProcesses(pop_char(state.process_filter()))),
            KeyCode::Enter => Some(Msg::ToggleSearch),
            KeyCode::Up if plain => Some(Msg::SelectPrev),
            KeyCode::Down if plain => Some(Msg::SelectNext),
            _ => None,
        },
        Focus::ScanPanel => match k.code {
            KeyCode::Char(c) if !control => Some(Msg::SetScanInput(push_char(state.scan_input(), c))),
            KeyCode::Backspace => Some(Msg::SetScanInput(pop_char(state.scan_input()))),
            KeyCode::Enter => Some(Msg::ToggleSearch),
            _ => None,
        },
        Focus::MatchView => match k.code {
            KeyCode::Char(c) if !control => Some(Msg::FilterMatches(push_char(state.match_filter(), c))),
            KeyCode::Backspace => Some(Msg::FilterMatches(pop_char(state.match_filter()))),
            KeyCode::Enter => Some(Msg::ToggleSearch),
            KeyCode::Up if plain => Some(Msg::SelectPrev),
            KeyCode::Down if plain => Some(Msg::SelectNext),
            _ => None,
        },
        Focus::CheatView => match k.code {
            KeyCode::Char(c) if !control => Some(
                Msg::SetCheatValueInput(push_char(state.cheat_value_input(), c)),
            ),
            KeyCode::Backspace => Some(Msg::SetCheatValueInput(pop_char(state.cheat_value_input()))),
            KeyCode::Enter => Some(Msg::ConfirmCheatValueEdit),
            _ => None,
        },
        Focus::HexView => None,
    }
}

/// The message for a key while the path prompt is open, if any.
fn prompt_key(state: &AppState, k: Key) -> (r: Option<Msg>)
    ensures
        prompt_key_post(state@, k, r),
{
    let control = k.modifiers & CONTROL != 0;
    match k.code {
        KeyCode::Char(c) if !control => Some(Msg::SetPathInput(push_char(state.path_input(), c))),
        KeyCode::Backspace => Some(Msg::SetPathInput(pop_char(state.path_input()))),
        KeyCode::Enter => Some(Msg::ConfirmPathPrompt),
        KeyCode::Esc => Some(Msg::Dismiss),
        _ => None,
    }
}

/// The message for a key no table binds, if any (see [`row_key_post`]).
fn row_key(state: &AppState, k: Key, selected: Option<&MatchView>, picked: Option<u32>) -> (r: Option<Msg>)
    ensures
        row_key_post(
            state@,
            k,
            match selected {
                Some(m) => Some((m.address, m.old_value@)),
                None => None,
            },
            picked,
            r,
        ),
{
    let focus = state.focus();
    if focus == Focus::ProcessPicker && k.code == KeyCode::Enter {
        if let Some(pid) = picked {
            return Some(Msg::Attach(pid));
        }
    }
    if focus == Focus::HexView {
        match k.code {
            KeyCode::Char(c) => {
                if hex_digit(c) && state.hex_edit_input().len() < 2 {
                    return Some(Msg::SetHexEditInput(push_char(state.hex_edit_input(), c)));
                }
            },
            KeyCode::Backspace => {
                return Some(Msg::SetHexEditInput(pop_char(state.hex_edit_input())));
            },
            _ => {},
        }
    }
    if focus == Focus::MatchView && k.code == KeyCode::Char('h') {
        if let Some(m) = selected {
            return Some(Msg::FocusHexView(m.address));
        }
    }
    if focus == Focus::CheatView && k.code == KeyCode::Char('h') {
        if let Some(c) = state.selected_cheat() {
            return Some(Msg::FocusHexView(c.address));
        }
    }
    if focus == Focus::CheatView && k.code == KeyCode::Char(' ') {
        return Some(Msg::ToggleFreeze(state.cheat_selected()));
    }
    if focus == Focus::CheatView && k.code == KeyCode::Char('e') {
        return Some(Msg::BeginEditCheatValue(state.cheat_selected()));
    }
    if focus == Focus::MatchView && k.code == KeyCode::Char('a') {
        if let Some(m) = selected {
            return Some(
                Msg::AddCheat { address: m.address, description: String::new(), value: m.old_value.duplicate() },
            );
        }
    }
    None
}

/// The message key `k` stands for, given the state, the selected match and the pid of the
/// selected process (see [`key_msg_post`]).
pub fn key_message(state: &AppState, k: Key, selected: Option<&MatchView>, picked: Option<u32>) -> (r: Option<Msg>)
    ensures
        key_msg_post(
            state@,
            k,
            match selected {
                Some(m) => Some((m.address, m.old_value@)),
                None => None,
            },
            picked,
            r,
        ),
{
    if state.error_dialog_visible() {
        return Some(Msg::DismissError);
    }
    if state.path_prompt().is_some() {
        return prompt_key(state, k);
    }
    if state.search_active() {
        let m = field_key(state, k);
        if m.is_some() {
            return m;
        }
        proof {
            assert forall|x: Option<Msg>| field_key_post(state@, k, x) implies x is None by {
                assert(field_key_post(state@, k, m));
            }
        }
    }
    if let Some(m) = lookup_global(k) {
        return Some(m);
    }
    if let Some(m) = lookup_focus(state.focus(), k) {
        return Some(m);
    }
    row_key(state, k, selected, picked)
}

/// The address and value of the selected match, if one is given.
pub open spec fn selection_of(selected: Option<&MatchView>) -> Option<(usize, ValueView)> {
    match selected {
        Some(m) => Some((m.address, m.old_value@)),
        None => None,
    }
}

/// The pid of the process the Process Picker has selected, if its selection is in range.
pub open spec fn picked_pid(s: AppView) -> Option<u32> {
    if s.process_selected < crate::appstate::shown(s).len() {
        Some(s.processes[crate::appstate::shown(s)[s.process_selected as int] as int].0)
    } else {
        None
    }
}

/// Handles one key press: applies the message it stands for (see [`key_message`]), answering
/// with the outside work that calls for; the selected process is taken from the Process
/// Picker, the selected match is given.
pub fn handle_key(state: &mut AppState, k: Key, selected: Option<&MatchView>) -> (e: Effect)
    ensures
        exists|m: Option<Msg>|
            #[trigger] key_msg_post(old(state)@, k, selection_of(selected), picked_pid(old(state)@), m)
                && match m {
                Some(msg) => update_post(old(state)@, msg, final(state)@, e),
                None => final(state)@ == old(state)@ && e == Effect::Nothing,
            },
{
    let picked = match state.selected_process() {
        Some(p) => Some(p.pid),
        None => None,
    };
    let m = key_message(state, k, selected, picked);
    match m {
        Some(msg) => update(state, msg),
        None => Effect::Nothing,
    }
}

} // verus!
