//! Which panel receives keyboard input, the fixed order focus cycles through, and the grid the
//! panels are laid out on.

use vstd::prelude::*;

verus! {

/// The panel that currently receives keyboard input.
#[derive(Debug, Default, Clone, Copy, PartialEq, Eq, Hash, Structural)]
pub enum Focus {
    #[default]
    ProcessPicker,
    ScanPanel,
    MatchView,
    CheatView,
    HexView,
}

/// A navigation direction for [`Focus::towards`].
#[derive(Debug, Clone, Copy, PartialEq, Eq, Structural)]
pub enum Direction {
    Up,
    Down,
    Left,
    Right,
}

/// The cycling order of the panels.
pub open spec fn focus_order() -> Seq<Focus> {
    seq![Focus::ProcessPicker, Focus::ScanPanel, Focus::MatchView, Focus::CheatView, Focus::HexView]
}

/// The position of `f` in [`focus_order`].
pub open spec fn focus_index(f: Focus) -> int {
    match f {
        Focus::ProcessPicker => 0,
        Focus::ScanPanel => 1,
        Focus::MatchView => 2,
        Focus::CheatView => 3,
        Focus::HexView => 4,
    }
}

/// The panel on the grid next to `f` in direction `d`, if there is one: top row Process Picker |
/// Scan Panel, middle row Match View | Cheat View, bottom row Hex View across the full width.
pub open spec fn neighbour(f: Focus, d: Direction) -> Option<Focus> {
    match (f, d) {
        (Focus::ProcessPicker, Direction::Right) => Some(Focus::ScanPanel),
        (Focus::ProcessPicker, Direction::Down) => Some(Focus::MatchView),
        (Focus::ScanPanel, Direction::Left) => Some(Focus::ProcessPicker),
        (Focus::ScanPanel, Direction::Down) => Some(Focus::CheatView),
        (Focus::MatchView, Direction::Up) => Some(Focus::ProcessPicker),
        (Focus::MatchView, Direction::Right) => Some(Focus::CheatView),
        (Focus::MatchView, Direction::Down) => Some(Focus::HexView),
        (Focus::CheatView, Direction::Up) => Some(Focus::ScanPanel),
        (Focus::CheatView, Direction::Left) => Some(Focus::MatchView),
        (Focus::CheatView, Direction::Down) => Some(Focus::HexView),
        (Focus::HexView, Direction::Up) => Some(Focus::MatchView),
        _ => None,
    }
}

/// The panels in cycling order.
pub fn order() -> (r: Vec<Focus>)
    ensures
        r@ == focus_order(),
{
    let r = vec![
        Focus::ProcessPicker,
        Focus::ScanPanel,
        Focus::MatchView,
        Focus::CheatView,
        Focus::HexView,
    ];
    assert(r@ =~= focus_order());
    r
}

/// Where `f` stands in `order`, or 0 when it is absent.
fn position_in(order: &Vec<Focus>, f: Focus) -> (r: usize)
    requires
        order@ == focus_order(),
    ensures
        r == focus_index(f),
{
    let mut i: usize = 0;
    while i < order.len()
        invariant
            0 <= i <= order@.len(),
            order@ == focus_order(),
            forall|j: int| 0 <= j < i ==> order@[j] != f,
        decreases order@.len() - i,
    {
        if order[i] == f {
            return i;
        }
        i = i + 1;
    }
    0
}

impl Focus {
    /// The next panel in cycling order, wrapping back to the Process Picker.
    pub fn next(self) -> (r: Focus)
        ensures
            r == focus_order()[(focus_index(self) + 1) % 5],
    {
        let order = order();
        let index = position_in(&order, self);
        order[(index + 1) % order.len()]
    }

    /// The previous panel in cycling order, wrapping back to the last panel.
    pub fn prev(self) -> (r: Focus)
        ensures
            r == focus_order()[(focus_index(self) + 4) % 5],
    {
        let order = order();
        let index = position_in(&order, self);
        order[(index + order.len() - 1) % order.len()]
    }

    /// The panel next to `self` on the grid in direction `dir`, or `self` when there is none.
    pub fn towards(self, dir: Direction) -> (r: Focus)
        ensures
            r == (match neighbour(self, dir) {
                Some(g) => g,
                None => self,
            }),
    {
        let target = match (self, dir) {
            (Focus::ProcessPicker, Direction::Right) => Some(Focus::ScanPanel),
            (Focus::ProcessPicker, Direction::Down) => Some(Focus::MatchView),
            (Focus::ScanPanel, Direction::Left) => Some(Focus::ProcessPicker),
            (Focus::ScanPanel, Direction::Down) => Some(Focus::CheatView),
            (Focus::MatchView, Direction::Up) => Some(Focus::ProcessPicker),
            (Focus::MatchView, Direction::Right) => Some(Focus::CheatView),
            (Focus::MatchView, Direction::Down) => Some(Focus::HexView),
            (Focus::CheatView, Direction::Up) => Some(Focus::ScanPanel),
            (Focus::CheatView, Direction::Left) => Some(Focus::MatchView),
            (Focus::CheatView, Direction::Down) => Some(Focus::HexView),
            (Focus::HexView, Direction::Up) => Some(Focus::MatchView),
            _ => None,
        };
        match target {
            Some(g) => g,
            None => self,
        }
    }

    /// The panel's name, as the status bar shows it.
    pub fn name(self) -> (r: &'static str)
        ensures
            r@ == focus_name(self),
    {
        proof {
            reveal_strlit("Process Picker");
            reveal_strlit("Scan Panel");
            reveal_strlit("Match View");
            reveal_strlit("Cheat View");
            reveal_strlit("Hex View");
        }
        match self {
            Focus::ProcessPicker => "Process Picker",
            Focus::ScanPanel => "Scan Panel",
            Focus::MatchView => "Match View",
            Focus::CheatView => "Cheat View",
            Focus::HexView => "Hex View",
        }
    }

    /// The panel's name as an owned string.
    pub fn to_string(self) -> (r: String)
        ensures
            r@ == focus_name(self),
    {
        String::from_str(self.name())
    }
}

/// The name of each panel.
pub open spec fn focus_name(f: Focus) -> Seq<char> {
    match f {
        Focus::ProcessPicker => "Process Picker"@,
        Focus::ScanPanel => "Scan Panel"@,
        Focus::MatchView => "Match View"@,
        Focus::CheatView => "Cheat View"@,
        Focus::HexView => "Hex View"@,
    }
}

/// Cycling forward and then back returns to the panel one started on.
pub proof fn lemma_next_prev_inverse(f: Focus)
    ensures
        focus_order()[(focus_index(focus_order()[(focus_index(f) + 1) % 5]) + 4) % 5] == f,
{
}

/// Five steps forward visit every panel once and come back to the start.
pub proof fn lemma_next_cycles(f: Focus)
    ensures
        forall|k: int|
            0 <= k < 5 ==> focus_index(#[trigger] focus_order()[(focus_index(f) + k) % 5]) == (
            focus_index(f) + k) % 5,
        focus_order()[(focus_index(f) + 5) % 5] == f,
{
}

/// Moving across the grid and straight back returns to the panel one started on, wherever a
/// move in the first direction leads somewhere.
pub proof fn lemma_towards_round_trip(f: Focus, d: Direction)
    requires
        neighbour(f, d) is Some,
        !(f == Focus::CheatView && d == Direction::Down),
    ensures
        neighbour(
            neighbour(f, d)->0,
            match d {
                Direction::Up => Direction::Down,
                Direction::Down => Direction::Up,
                Direction::Left => Direction::Right,
                Direction::Right => Direction::Left,
            },
        ) == Some(f),
{
}

} // verus!
