//! Key bindings: the fixed `(key) -> Msg` tables, global and per focused panel, that input and
//! the help overlay read from, and the bindings that need the state to resolve their message.
//!
//! Keys are this library's own [`Key`]: a key code and the terminal's modifier bits.

use vstd::prelude::*;

use crate::appstate::Msg;
use crate::focus::{Direction, Focus};
use crate::text::same_chars;

verus! {

/// A key, as the terminal reports it.
#[derive(Debug, Clone, Copy, PartialEq, Eq, Structural)]
pub enum KeyCode {
    Char(char),
    Tab,
    BackTab,
    F(u8),
    Esc,
    Up,
    Down,
    Left,
    Right,
    Enter,
    Backspace,
    /// Any key no binding uses.
    Other,
}

/// No modifier held.
pub const NONE: u8 = 0;

/// Shift held.
pub const SHIFT: u8 = 1;

/// Control held.
pub const CONTROL: u8 = 2;

/// A key pressed with modifiers, the terminal's modifier bits (shift 1, control 2, alt 4, super
/// 8, hyper 16, meta 32).
#[derive(Debug, Clone, Copy, PartialEq, Eq, Structural)]
pub struct Key {
    pub code: KeyCode,
    pub modifiers: u8,
}

/// The key `code` with `modifiers`.
pub open spec fn key(code: KeyCode, modifiers: u8) -> Key {
    Key { code, modifiers }
}

impl Key {
    /// The key `code` with `modifiers`.
    pub fn new(code: KeyCode, modifiers: u8) -> (r: Key)
        ensures
            r == key(code, modifiers),
    {
        Key { code, modifiers }
    }
}

/// One documented key binding.
pub struct Binding {
    pub key: Key,
    pub msg: Msg,
    pub label: &'static str,
    pub description: &'static str,
}

/// One documented binding whose message needs the state to resolve (the selected row).
pub struct DynamicBinding {
    pub label: &'static str,
    pub description: &'static str,
}

/// The bindings active whatever the focus, in order.
pub open spec fn global_table() -> Seq<(Key, Msg)> {
    seq![
        (key(KeyCode::Tab, NONE), Msg::FocusNext),
        (key(KeyCode::BackTab, SHIFT), Msg::FocusPrev),
        (key(KeyCode::Char('?'), NONE), Msg::ShowHelp),
        (key(KeyCode::F(1), NONE), Msg::ShowHelp),
        (key(KeyCode::Char('q'), CONTROL), Msg::Quit),
        (key(KeyCode::Esc, NONE), Msg::Dismiss),
        (key(KeyCode::Char('d'), CONTROL), Msg::Detach),
        (key(KeyCode::Left, CONTROL), Msg::FocusDirection(Direction::Left)),
        (key(KeyCode::Right, CONTROL), Msg::FocusDirection(Direction::Right)),
        (key(KeyCode::Up, CONTROL), Msg::FocusDirection(Direction::Up)),
        (key(KeyCode::Down, CONTROL), Msg::FocusDirection(Direction::Down)),
        (key(KeyCode::Char('e'), CONTROL), Msg::ToggleExpand),
        (key(KeyCode::Char('s'), CONTROL), Msg::SaveCheatList),
        (key(KeyCode::Char('l'), CONTROL), Msg::LoadCheatList),
    ]
}

/// The bindings of the panel `f`, on top of the global ones, in order.
pub open spec fn focus_table(f: Focus) -> Seq<(Key, Msg)> {
    match f {
        Focus::ProcessPicker => seq![
            (key(KeyCode::Up, NONE), Msg::SelectPrev),
            (key(KeyCode::Down, NONE), Msg::SelectNext),
            (key(KeyCode::Char('/'), NONE), Msg::ToggleSearch),
        ],
        Focus::ScanPanel => seq![
            (key(KeyCode::Char('t'), NONE), Msg::CycleScanDataType),
            (key(KeyCode::Char('m'), NONE), Msg::CycleScanMatchType),
            (key(KeyCode::Char('/'), NONE), Msg::ToggleSearch),
            (key(KeyCode::Char('s'), NONE), Msg::RunScan),
            (key(KeyCode::Char('n'), NONE), Msg::NewScan),
            (key(KeyCode::Char('r'), NONE), Msg::RefreshMatches),
        ],
        Focus::MatchView => seq![
            (key(KeyCode::Up, NONE), Msg::SelectPrev),
            (key(KeyCode::Char('k'), NONE), Msg::SelectPrev),
            (key(KeyCode::Down, NONE), Msg::SelectNext),
            (key(KeyCode::Char('j'), NONE), Msg::SelectNext),
            (key(KeyCode::Char('o'), NONE), Msg::CycleMatchSort),
            (key(KeyCode::Char('/'), NONE), Msg::ToggleSearch),
        ],
        Focus::CheatView => seq![
            (key(KeyCode::Up, NONE), Msg::SelectPrev),
            (key(KeyCode::Char('k'), NONE), Msg::SelectPrev),
            (key(KeyCode::Down, NONE), Msg::SelectNext),
            (key(KeyCode::Char('j'), NONE), Msg::SelectNext),
        ],
        Focus::HexView => seq![
            (key(KeyCode::Left, NONE), Msg::MoveHexCursor(-1isize)),
            (key(KeyCode::Right, NONE), Msg::MoveHexCursor(1isize)),
            (key(KeyCode::Up, NONE), Msg::MoveHexCursor(-16isize)),
            (key(KeyCode::Down, NONE), Msg::MoveHexCursor(16isize)),
            (key(KeyCode::Enter, NONE), Msg::CommitHexEdit),
        ],
    }
}

/// The message of the first binding in `table` from index `i` on whose key is `k`.
pub open spec fn first_binding(table: Seq<(Key, Msg)>, k: Key, i: int) -> Option<Msg>
    decreases table.len() - i,
{
    if i < 0 || i >= table.len() {
        None
    } else if table[i].0 == k {
        Some(table[i].1)
    } else {
        first_binding(table, k, i + 1)
    }
}

/// The `(key, message)` of each binding.
pub open spec fn binding_pairs(bs: Seq<Binding>) -> Seq<(Key, Msg)> {
    bs.map_values(|b: Binding| (b.key, b.msg))
}

/// The `(label, description)` of each binding.
pub open spec fn binding_texts(bs: Seq<Binding>) -> Seq<(Seq<char>, Seq<char>)> {
    bs.map_values(|b: Binding| (b.label@, b.description@))
}

/// The `(label, description)` of each dynamic binding.
pub open spec fn dynamic_texts(bs: Seq<DynamicBinding>) -> Seq<(Seq<char>, Seq<char>)> {
    bs.map_values(|b: DynamicBinding| (b.label@, b.description@))
}

/// The `(label, description)` of each global binding, in order.
pub open spec fn global_texts() -> Seq<(Seq<char>, Seq<char>)> {
    seq![
        ("Tab"@, "focus next panel"@),
        ("Shift+Tab"@, "focus previous panel"@),
        ("?"@, "toggle this help overlay"@),
        ("F1"@, "toggle this help overlay"@),
        ("Ctrl+Q"@, "quit"@),
        ("Esc"@, "dismiss a popup, or cancel an active search/edit"@),
        ("Ctrl+D"@, "detach from the current process, resuming its execution"@),
        ("Ctrl+Left"@, "focus the panel to the left"@),
        ("Ctrl+Right"@, "focus the panel to the right"@),
        ("Ctrl+Up"@, "focus the panel above"@),
        ("Ctrl+Down"@, "focus the panel below"@),
        ("Ctrl+E"@, "show only the focused panel, or every panel again"@),
        ("Ctrl+S"@, "save the cheat list"@),
        ("Ctrl+L"@, "load a cheat list"@),
    ]
}

/// The `(label, description)` of each binding of the panel `f`, in order.
pub open spec fn focus_texts(f: Focus) -> Seq<(Seq<char>, Seq<char>)> {
    match f {
        Focus::ProcessPicker => seq![
            ("Up"@, "move selection up"@),
            ("Down"@, "move selection down"@),
            ("/"@, "search by pid or name"@),
        ],
        Focus::ScanPanel => seq![
            ("t"@, "cycle the data type"@),
            ("m"@, "cycle the match type"@),
            ("/"@, "edit the value/range input"@),
            ("s"@, "run the scan"@),
            ("n"@, "scan again from scratch"@),
            ("r"@, "refresh the matches' values"@),
        ],
        Focus::MatchView => seq![
            ("Up/k"@, "move selection up"@),
            ("Up/k"@, "move selection up"@),
            ("Down/j"@, "move selection down"@),
            ("Down/j"@, "move selection down"@),
            ("o"@, "cycle the sort column"@),
            ("/"@, "edit the filter"@),
        ],
        Focus::CheatView => seq![
            ("Up/k"@, "move selection up"@),
            ("Up/k"@, "move selection up"@),
            ("Down/j"@, "move selection down"@),
            ("Down/j"@, "move selection down"@),
        ],
        Focus::HexView => seq![
            ("Left"@, "move cursor back one byte"@),
            ("Right"@, "move cursor forward one byte"@),
            ("Up"@, "move cursor up one row"@),
            ("Down"@, "move cursor down one row"@),
            ("Enter"@, "commit the in-progress byte edit"@),
        ],
    }
}

/// A binding.
fn bind(code: KeyCode, modifiers: u8, msg: Msg, label: &'static str, description: &'static str) -> (r: Binding)
    ensures
        r.key == key(code, modifiers),
        r.msg == msg,
        r.label == label,
        r.description == description,
{
    Binding { key: Key { code, modifiers }, msg, label, description }
}

/// The bindings active whatever the focus.
pub fn global_bindings() -> (r: Vec<Binding>)
    ensures
        binding_pairs(r@) == global_table(),
        binding_texts(r@) == global_texts(),
{
    let r = vec![
        bind(KeyCode::Tab, NONE, Msg::FocusNext, "Tab", "focus next panel"),
        bind(KeyCode::BackTab, SHIFT, Msg::FocusPrev, "Shift+Tab", "focus previous panel"),
        bind(KeyCode::Char('?'), NONE, Msg::ShowHelp, "?", "toggle this help overlay"),
        bind(KeyCode::F(1), NONE, Msg::ShowHelp, "F1", "toggle this help overlay"),
        bind(KeyCode::Char('q'), CONTROL, Msg::Quit, "Ctrl+Q", "quit"),
        bind(
            KeyCode::Esc,
            NONE,
            Msg::Dismiss,
            "Esc",
            "dismiss a popup, or cancel an active search/edit",
        ),
        bind(
            KeyCode::Char('d'),
            CONTROL,
            Msg::Detach,
            "Ctrl+D",
            "detach from the current process, resuming its execution",
        ),
        bind(
            KeyCode::Left,
            CONTROL,
            Msg::FocusDirection(Direction::Left),
            "Ctrl+Left",
            "focus the panel to the left",
        ),
        bind(
            KeyCode::Right,
            CONTROL,
            Msg::FocusDirection(Direction::Right),
            "Ctrl+Right",
            "focus the panel to the right",
        ),
        bind(
            KeyCode::Up,
            CONTROL,
            Msg::FocusDirection(Direction::Up),
            "Ctrl+Up",
            "focus the panel above",
        ),
        bind(
            KeyCode::Down,
            CONTROL,
            Msg::FocusDirection(Direction::Down),
            "Ctrl+Down",
            "focus the panel below",
        ),
        bind(
            KeyCode::Char('e'),
            CONTROL,
            Msg::ToggleExpand,
            "Ctrl+E",
            "show only the focused panel, or every panel again",
        ),
        bind(KeyCode::Char('s'), CONTROL, Msg::SaveCheatList, "Ctrl+S", "save the cheat list"),
        bind(KeyCode::Char('l'), CONTROL, Msg::LoadCheatList, "Ctrl+L", "load a cheat list"),
    ];
    assert(binding_pairs(r@) =~= global_table());
    assert(binding_texts(r@) =~= global_texts());
    r
}

/// The bindings of the panel `focus`, on top of the global ones.
pub fn focus_bindings(focus: Focus) -> (r: Vec<Binding>)
    ensures
        binding_pairs(r@) == focus_table(focus),
        binding_texts(r@) == focus_texts(focus),
{
    let r = match focus {
        Focus::ProcessPicker => vec![
            bind(KeyCode::Up, NONE, Msg::SelectPrev, "Up", "move selection up"),
            bind(KeyCode::Down, NONE, Msg::SelectNext, "Down", "move selection down"),
            bind(KeyCode::Char('/'), NONE, Msg::ToggleSearch, "/", "search by pid or name"),
        ],
        Focus::ScanPanel => vec![
            bind(KeyCode::Char('t'), NONE, Msg::CycleScanDataType, "t", "cycle the data type"),
            bind(KeyCode::Char('m'), NONE, Msg::CycleScanMatchType, "m", "cycle the match type"),
            bind(KeyCode::Char('/'), NONE, Msg::ToggleSearch, "/", "edit the value/range input"),
            bind(KeyCode::Char('s'), NONE, Msg::RunScan, "s", "run the scan"),
            bind(KeyCode::Char('n'), NONE, Msg::NewScan, "n", "scan again from scratch"),
            bind(KeyCode::Char('r'), NONE, Msg::RefreshMatches, "r", "refresh the matches' values"),
        ],
        Focus::MatchView => vec![
            bind(KeyCode::Up, NONE, Msg::SelectPrev, "Up/k", "move selection up"),
            bind(KeyCode::Char('k'), NONE, Msg::SelectPrev, "Up/k", "move selection up"),
            bind(KeyCode::Down, NONE, Msg::SelectNext, "Down/j", "move selection down"),
            bind(KeyCode::Char('j'), NONE, Msg::SelectNext, "Down/j", "move selection down"),
            bind(KeyCode::Char('o'), NONE, Msg::CycleMatchSort, "o", "cycle the sort column"),
            bind(KeyCode::Char('/'), NONE, Msg::ToggleSearch, "/", "edit the filter"),
        ],
        Focus::CheatView => vec![
            bind(KeyCode::Up, NONE, Msg::SelectPrev, "Up/k", "move selection up"),
            bind(KeyCode::Char('k'), NONE, Msg::SelectPrev, "Up/k", "move selection up"),
            bind(KeyCode::Down, NONE, Msg::SelectNext, "Down/j", "move selection down"),
            bind(KeyCode::Char('j'), NONE, Msg::SelectNext, "Down/j", "move selection down"),
        ],
        Focus::HexView => vec![
            bind(KeyCode::Left, NONE, Msg::MoveHexCursor(-1), "Left", "move cursor back one byte"),
            bind(
                KeyCode::Right,
                NONE,
                Msg::MoveHexCursor(1),
                "Right",
                "move cursor forward one byte",
            ),
            bind(KeyCode::Up, NONE, Msg::MoveHexCursor(-16), "Up", "move cursor up one row"),
            bind(KeyCode::Down, NONE, Msg::MoveHexCursor(16), "Down", "move cursor down one row"),
            bind(
                KeyCode::Enter,
                NONE,
                Msg::CommitHexEdit,
                "Enter",
                "commit the in-progress byte edit",
            ),
        ],
    };
    assert(binding_pairs(r@) =~= focus_table(focus));
    assert(binding_texts(r@) =~= focus_texts(focus));
    r
}

/// The message of the first binding among `bindings` whose key is `k`.
fn find_binding(all: Vec<Binding>, k: Key) -> (r: Option<Msg>)
    ensures
        r == first_binding(binding_pairs(all@), k, 0),
{
    let ghost table = binding_pairs(all@);
    let mut bindings = all;
    let mut i: usize = 0;
    while i < bindings.len()
        invariant
            table == binding_pairs(bindings@),
            table == binding_pairs(all@),
            0 <= i <= bindings@.len(),
            first_binding(table, k, 0) == first_binding(table, k, i as int),
        decreases bindings@.len() - i,
    {
        if bindings[i].key == k {
            proof {
                assert(table[i as int] == (bindings@[i as int].key, bindings@[i as int].msg));
            }
            let ghost before = bindings@;
            let b = bindings.remove(i);
            proof {
                assert(b == before[i as int]);
                assert(table[i as int].0 == k);
                assert(first_binding(table, k, i as int) == Some(table[i as int].1));
                assert(b.msg == table[i as int].1);
                assert(first_binding(table, k, 0) == Some(b.msg));
            }
            let m = b.msg;
            return Some(m);
        }
        proof {
            assert(table[i as int] == (bindings@[i as int].key, bindings@[i as int].msg));
        }
        i = i + 1;
    }
    None
}

/// The message bound to `k` whatever the focus, if any.
pub fn lookup_global(k: Key) -> (r: Option<Msg>)
    ensures
        r == first_binding(global_table(), k, 0),
{
    find_binding(global_bindings(), k)
}

/// The message bound to `k` on the panel `focus`, if any.
pub fn lookup_focus(focus: Focus, k: Key) -> (r: Option<Msg>)
    ensures
        r == first_binding(focus_table(focus), k, 0),
{
    find_binding(focus_bindings(focus), k)
}

/// The documented bindings of the panel `f` whose message needs the selected row.
pub open spec fn dynamic_table(f: Focus) -> Seq<(Seq<char>, Seq<char>)> {
    match f {
        Focus::ProcessPicker => seq![("Enter"@, "attach to the selected process"@)],
        Focus::MatchView => seq![
            ("h"@, "open hex view at the selected match"@),
            ("a"@, "add the selected match to the cheat list"@),
        ],
        Focus::CheatView => seq![
            ("Space"@, "toggle freeze"@),
            ("e"@, "edit the value inline"@),
            ("h"@, "open hex view at the selected cheat"@),
        ],
        _ => Seq::empty(),
    }
}

/// A dynamic binding.
fn dynamic(label: &'static str, description: &'static str) -> (r: DynamicBinding)
    ensures
        r.label == label,
        r.description == description,
{
    DynamicBinding { label, description }
}

/// The documented bindings of the panel `focus` whose message needs the selected row.
pub fn dynamic_bindings(focus: Focus) -> (r: Vec<DynamicBinding>)
    ensures
        dynamic_texts(r@) == dynamic_table(focus),
{
    let r = match focus {
        Focus::ProcessPicker => vec![dynamic("Enter", "attach to the selected process")],
        Focus::MatchView => vec![
            dynamic("h", "open hex view at the selected match"),
            dynamic("a", "add the selected match to the cheat list"),
        ],
        Focus::CheatView => vec![
            dynamic("Space", "toggle freeze"),
            dynamic("e", "edit the value inline"),
            dynamic("h", "open hex view at the selected cheat"),
        ],
        _ => Vec::new(),
    };
    assert(dynamic_texts(r@) =~= dynamic_table(focus));
    r
}

/// Everything the help overlay lists for the panel `f`: the global bindings, the panel's own,
/// then those that act on the selected row.
pub open spec fn help_table(f: Focus) -> Seq<(Seq<char>, Seq<char>)> {
    global_texts() + focus_texts(f) + dynamic_table(f)
}

/// `s` with every entry that already occurred earlier left out.
pub open spec fn first_occurrences<T>(s: Seq<T>) -> Seq<T>
    decreases s.len(),
{
    if s.len() == 0 {
        Seq::empty()
    } else if s.drop_last().contains(s.last()) {
        first_occurrences(s.drop_last())
    } else {
        first_occurrences(s.drop_last()).push(s.last())
    }
}

/// The `(label, description)` view of a help entry.
pub open spec fn entry_view(p: (&'static str, &'static str)) -> (Seq<char>, Seq<char>) {
    (p.0@, p.1@)
}

/// Whether `all[i]` equals an entry before it.
fn seen_before(all: &Vec<(&'static str, &'static str)>, i: usize) -> (r: bool)
    requires
        i < all@.len(),
    ensures
        r == all@.map_values(|p: (&'static str, &'static str)| entry_view(p)).take(i as int).contains(
            entry_view(all@[i as int]),
        ),
{
    let ghost v = all@.map_values(|p: (&'static str, &'static str)| entry_view(p));
    let mut j: usize = 0;
    while j < i
        invariant
            0 <= j <= i < all@.len(),
            v == all@.map_values(|p: (&'static str, &'static str)| entry_view(p)),
            forall|k: int| 0 <= k < j ==> v[k] != v[i as int],
        decreases i - j,
    {
        if same_chars(all[j].0, all[i].0) && same_chars(all[j].1, all[i].1) {
            proof {
                assert(v.take(i as int)[j as int] == v[i as int]);
            }
            return true;
        }
        j = j + 1;
    }
    proof {
        if v.take(i as int).contains(v[i as int]) {
            let k = choose|k: int| 0 <= k < i && v.take(i as int)[k] == v[i as int];
            assert(v[k] == v[i as int]);
        }
    }
    false
}

/// The help overlay's entries for the panel `focus`, each `(label, description)` once, in
/// the order first listed (see [`help_table`]).
pub fn help_entries(focus: Focus) -> (r: Vec<(&'static str, &'static str)>)
    ensures
        r@.map_values(|p: (&'static str, &'static str)| entry_view(p)) == first_occurrences(
            help_table(focus),
        ),
{
    let mut all: Vec<(&'static str, &'static str)> = Vec::new();
    let g = global_bindings();
    let f = focus_bindings(focus);
    let d = dynamic_bindings(focus);
    let mut i: usize = 0;
    while i < g.len()
        invariant
            0 <= i <= g@.len(),
            all@.map_values(|p: (&'static str, &'static str)| entry_view(p)) == binding_texts(g@).take(i as int),
        decreases g@.len() - i,
    {
        let ghost prev = all@;
        all.push((g[i].label, g[i].description));
        proof {
            assert(all@ == prev.push((g@[i as int].label, g@[i as int].description)));
            assert(all@.map_values(|p: (&'static str, &'static str)| entry_view(p)) =~= prev.map_values(
                |p: (&'static str, &'static str)| entry_view(p),
            ).push((g@[i as int].label@, g@[i as int].description@)));
            assert(binding_texts(g@).take(i + 1) =~= binding_texts(g@).take(i as int).push(binding_texts(g@)[i as int]));
            assert((binding_texts(g@).take(i as int)).push(binding_texts(g@)[i as int]) =~= binding_texts(g@).take(i + 1));
        }
        i = i + 1;
    }
    let ghost after_g = all@.map_values(|p: (&'static str, &'static str)| entry_view(p));
    proof {
        assert(after_g =~= global_texts());
    }
    let mut i: usize = 0;
    while i < f.len()
        invariant
            0 <= i <= f@.len(),
            all@.map_values(|p: (&'static str, &'static str)| entry_view(p)) == global_texts() + binding_texts(f@).take(i as int),
        decreases f@.len() - i,
    {
        let ghost prev = all@;
        all.push((f[i].label, f[i].description));
        proof {
            assert(all@ == prev.push((f@[i as int].label, f@[i as int].description)));
            assert(all@.map_values(|p: (&'static str, &'static str)| entry_view(p)) =~= prev.map_values(
                |p: (&'static str, &'static str)| entry_view(p),
            ).push((f@[i as int].label@, f@[i as int].description@)));
            assert(binding_texts(f@).take(i + 1) =~= binding_texts(f@).take(i as int).push(binding_texts(f@)[i as int]));
            assert((global_texts() + binding_texts(f@).take(i as int)).push(binding_texts(f@)[i as int]) =~= global_texts() + binding_texts(f@).take(i + 1));
        }
        i = i + 1;
    }
    proof {
        assert(binding_texts(f@).take(f@.len() as int) =~= focus_texts(focus));
    }
    let mut i: usize = 0;
    while i < d.len()
        invariant
            0 <= i <= d@.len(),
            all@.map_values(|p: (&'static str, &'static str)| entry_view(p)) == global_texts() + focus_texts(focus) + dynamic_texts(d@).take(i as int),
        decreases d@.len() - i,
    {
        let ghost prev = all@;
        all.push((d[i].label, d[i].description));
        proof {
            assert(all@ == prev.push((d@[i as int].label, d@[i as int].description)));
            assert(all@.map_values(|p: (&'static str, &'static str)| entry_view(p)) =~= prev.map_values(
                |p: (&'static str, &'static str)| entry_view(p),
            ).push((d@[i as int].label@, d@[i as int].description@)));
            assert(dynamic_texts(d@).take(i + 1) =~= dynamic_texts(d@).take(i as int).push(dynamic_texts(d@)[i as int]));
            assert((global_texts() + focus_texts(focus) + dynamic_texts(d@).take(i as int)).push(dynamic_texts(d@)[i as int]) =~= global_texts() + focus_texts(focus) + dynamic_texts(d@).take(i + 1));
        }
        i = i + 1;
    }
    let ghost v = all@.map_values(|p: (&'static str, &'static str)| entry_view(p));
    proof {
        assert(dynamic_texts(d@).take(d@.len() as int) =~= dynamic_table(focus));
        assert(v =~= help_table(focus));
    }
    let mut out: Vec<(&'static str, &'static str)> = Vec::new();
    let mut i: usize = 0;
    while i < all.len()
        invariant
            0 <= i <= all@.len(),
            v == all@.map_values(|p: (&'static str, &'static str)| entry_view(p)),
            out@.map_values(|p: (&'static str, &'static str)| entry_view(p)) == first_occurrences(v.take(i as int)),
        decreases all@.len() - i,
    {
        let seen = seen_before(&all, i);
        proof {
            assert(v.take(i + 1).drop_last() =~= v.take(i as int));
            assert(v.take(i + 1).last() == v[i as int]);
        }
        if !seen {
            out.push(all[i]);
            proof {
                assert(out@.map_values(|p: (&'static str, &'static str)| entry_view(p)) =~= first_occurrences(v.take(i as int)).push(v[i as int]));
            }
        }
        i = i + 1;
    }
    proof {
        assert(v.take(all@.len() as int) =~= v);
    }
    out
}

} // verus!
