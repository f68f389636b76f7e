use scanmem::focus::{order, Direction, Focus};

const ALL: [Focus; 5] =
    [Focus::ProcessPicker, Focus::ScanPanel, Focus::MatchView, Focus::CheatView, Focus::HexView];

#[test]
fn next_and_prev_undo_each_other() {
    for f in ALL {
        assert_eq!(f.next().prev(), f);
        assert_eq!(f.prev().next(), f);
    }
}

#[test]
fn five_steps_forward_come_back_to_the_start() {
    for f in ALL {
        assert_eq!(f.next().next().next().next().next(), f);
    }
    assert_eq!(order(), ALL.to_vec());
}

#[test]
fn moving_on_the_grid_and_back_returns_to_the_panel() {
    assert_eq!(Focus::ProcessPicker.towards(Direction::Right), Focus::ScanPanel);
    assert_eq!(Focus::ScanPanel.towards(Direction::Left), Focus::ProcessPicker);
    assert_eq!(Focus::MatchView.towards(Direction::Down), Focus::HexView);
    assert_eq!(Focus::HexView.towards(Direction::Up), Focus::MatchView);
    // The Hex View spans the bottom row: up from it lands on the Match View.
    assert_eq!(Focus::CheatView.towards(Direction::Down), Focus::HexView);
    assert_eq!(Focus::HexView.towards(Direction::Up), Focus::MatchView);
    // No panel above the Process Picker.
    assert_eq!(Focus::ProcessPicker.towards(Direction::Up), Focus::ProcessPicker);
}

#[test]
fn panel_names_are_the_status_bar_labels() {
    assert_eq!(Focus::CheatView.name(), "Cheat View");
    assert_eq!(Focus::HexView.to_string(), "Hex View");
    assert_eq!(Focus::default(), Focus::ProcessPicker);
}
