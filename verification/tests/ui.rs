use scanmem::appstate::{update, AppState, Effect, Msg, PathPromptKind, ProcessEntry};
use scanmem::focus::{Direction, Focus};
use scanmem::input::handle_key;
use scanmem::keymap::{
    focus_bindings, global_bindings, lookup_focus, lookup_global, Key, KeyCode, CONTROL, NONE,
    SHIFT,
};
use scanmem::settings::FileTheme;
use scanmem::theme::{Color, Theme, BOLD, REVERSED};
use scanmem::value::Value;

/// The number of bytes one Hex View row shows.
const BYTES_PER_ROW: isize = 16;

fn key(code: KeyCode, modifiers: u8) -> Key {
    Key::new(code, modifiers)
}

fn press(state: &mut AppState, code: KeyCode, modifiers: u8) -> Effect {
    handle_key(state, key(code, modifiers), None)
}

fn focus_on(state: &mut AppState, focus: Focus) {
    while state.focus() != focus {
        update(state, Msg::FocusNext);
    }
}

fn add_cheat(state: &mut AppState, value: Value) {
    update(state, Msg::AddCheat { address: 0x1000, description: String::new(), value });
}

#[test]
fn global_bindings_match_the_documented_table() {
    let cases = [
        (key(KeyCode::Tab, NONE), Msg::FocusNext),
        (key(KeyCode::BackTab, SHIFT), Msg::FocusPrev),
        (key(KeyCode::Char('?'), NONE), Msg::ShowHelp),
        (key(KeyCode::F(1), NONE), Msg::ShowHelp),
        (key(KeyCode::Char('q'), CONTROL), Msg::Quit),
        (key(KeyCode::Char('d'), CONTROL), Msg::Detach),
        (key(KeyCode::Esc, NONE), Msg::Dismiss),
    ];

    for (k, expected) in cases {
        assert_eq!(lookup_global(k), Some(expected));
    }
}

#[test]
fn global_bindings_include_directional_focus_and_expand() {
    let cases = [
        (key(KeyCode::Left, CONTROL), Msg::FocusDirection(Direction::Left)),
        (key(KeyCode::Right, CONTROL), Msg::FocusDirection(Direction::Right)),
        (key(KeyCode::Up, CONTROL), Msg::FocusDirection(Direction::Up)),
        (key(KeyCode::Down, CONTROL), Msg::FocusDirection(Direction::Down)),
        (key(KeyCode::Char('e'), CONTROL), Msg::ToggleExpand),
    ];

    for (k, expected) in cases {
        assert_eq!(lookup_global(k), Some(expected));
    }
}

#[test]
fn ctrl_up_while_searching_falls_through_to_focus_direction_instead_of_selecting() {
    let mut state = AppState::default();
    update(&mut state, Msg::ToggleSearch);
    assert_eq!(state.focus(), Focus::ProcessPicker);

    press(&mut state, KeyCode::Up, CONTROL);

    assert_eq!(state.focus(), Focus::ProcessPicker);

    press(&mut state, KeyCode::Right, CONTROL);
    assert_eq!(state.focus(), Focus::ScanPanel);
}

#[test]
fn process_picker_bindings_match_the_documented_table() {
    let cases = [
        (key(KeyCode::Up, NONE), Msg::SelectPrev),
        (key(KeyCode::Down, NONE), Msg::SelectNext),
        (key(KeyCode::Char('/'), NONE), Msg::ToggleSearch),
    ];

    for (k, expected) in cases {
        assert_eq!(lookup_focus(Focus::ProcessPicker, k), Some(expected));
    }
}

#[test]
fn scan_panel_bindings_match_the_documented_table() {
    let cases = [
        (key(KeyCode::Char('t'), NONE), Msg::CycleScanDataType),
        (key(KeyCode::Char('m'), NONE), Msg::CycleScanMatchType),
        (key(KeyCode::Char('/'), NONE), Msg::ToggleSearch),
        (key(KeyCode::Char('s'), NONE), Msg::RunScan),
        (key(KeyCode::Char('n'), NONE), Msg::NewScan),
        (key(KeyCode::Char('r'), NONE), Msg::RefreshMatches),
    ];

    for (k, expected) in cases {
        assert_eq!(lookup_focus(Focus::ScanPanel, k), Some(expected));
    }
}

#[test]
fn match_view_bindings_match_the_documented_table() {
    let cases = [
        (key(KeyCode::Up, NONE), Msg::SelectPrev),
        (key(KeyCode::Char('k'), NONE), Msg::SelectPrev),
        (key(KeyCode::Down, NONE), Msg::SelectNext),
        (key(KeyCode::Char('j'), NONE), Msg::SelectNext),
        (key(KeyCode::Char('o'), NONE), Msg::CycleMatchSort),
        (key(KeyCode::Char('/'), NONE), Msg::ToggleSearch),
    ];

    for (k, expected) in cases {
        assert_eq!(lookup_focus(Focus::MatchView, k), Some(expected));
    }
}

#[test]
fn hex_view_bindings_match_the_documented_table() {
    let cases = [
        (key(KeyCode::Left, NONE), Msg::MoveHexCursor(-1)),
        (key(KeyCode::Right, NONE), Msg::MoveHexCursor(1)),
        (key(KeyCode::Up, NONE), Msg::MoveHexCursor(-BYTES_PER_ROW)),
        (key(KeyCode::Down, NONE), Msg::MoveHexCursor(BYTES_PER_ROW)),
        (key(KeyCode::Enter, NONE), Msg::CommitHexEdit),
    ];

    for (k, expected) in cases {
        assert_eq!(lookup_focus(Focus::HexView, k), Some(expected));
    }
}

#[test]
fn unbound_keys_return_none_from_both_lookups() {
    assert_eq!(lookup_global(key(KeyCode::Char('x'), NONE)), None);
    assert_eq!(lookup_focus(Focus::ScanPanel, key(KeyCode::Up, NONE)), None);
}

#[test]
fn binding_tables_list_the_lookups_in_order() {
    let global = global_bindings();
    assert_eq!(global.len(), 14);
    assert_eq!(global[0].key, key(KeyCode::Tab, NONE));
    assert_eq!(global[0].msg, Msg::FocusNext);
    for b in &global {
        assert_eq!(lookup_global(b.key).is_some(), true);
        assert!(!b.label.is_empty());
    }
    for focus in [
        Focus::ProcessPicker,
        Focus::ScanPanel,
        Focus::MatchView,
        Focus::CheatView,
        Focus::HexView,
    ] {
        for b in focus_bindings(focus) {
            assert_eq!(lookup_focus(focus, b.key), Some(b.msg.clone()));
        }
    }
}

#[test]
fn typing_while_searching_appends_to_the_filter() {
    let mut state = AppState::default();
    update(&mut state, Msg::ToggleSearch);

    press(&mut state, KeyCode::Char('a'), NONE);
    press(&mut state, KeyCode::Char('b'), NONE);

    assert_eq!(state.process_filter(), "ab");
}

#[test]
fn backspace_while_searching_removes_the_last_character() {
    let mut state = AppState::default();
    update(&mut state, Msg::ToggleSearch);
    press(&mut state, KeyCode::Char('a'), NONE);

    press(&mut state, KeyCode::Backspace, NONE);

    assert_eq!(state.process_filter(), "");
}

#[test]
fn enter_while_searching_exits_search_and_keeps_the_filter() {
    let mut state = AppState::default();
    update(&mut state, Msg::ToggleSearch);
    press(&mut state, KeyCode::Char('a'), NONE);

    press(&mut state, KeyCode::Enter, NONE);

    assert!(!state.search_active());
    assert_eq!(state.process_filter(), "a");
}

#[test]
fn escape_while_searching_clears_the_filter_and_exits_search() {
    let mut state = AppState::default();
    update(&mut state, Msg::ToggleSearch);
    press(&mut state, KeyCode::Char('a'), NONE);

    press(&mut state, KeyCode::Esc, NONE);

    assert!(!state.search_active());
    assert_eq!(state.process_filter(), "");
}

#[test]
fn tab_cycles_focus_even_outside_search_mode() {
    let mut state = AppState::default();

    press(&mut state, KeyCode::Tab, NONE);

    assert_eq!(state.focus(), Focus::ScanPanel);
}

#[test]
fn typing_while_editing_the_scan_value_appends_to_the_input() {
    let mut state = AppState::default();
    update(&mut state, Msg::FocusNext);
    assert_eq!(state.focus(), Focus::ScanPanel);
    update(&mut state, Msg::ToggleSearch);

    press(&mut state, KeyCode::Char('4'), NONE);
    press(&mut state, KeyCode::Char('2'), NONE);

    assert_eq!(state.scan_input(), "42");
}

#[test]
fn escape_while_editing_the_scan_value_clears_it_and_exits_search() {
    let mut state = AppState::default();
    update(&mut state, Msg::FocusNext);
    update(&mut state, Msg::ToggleSearch);
    press(&mut state, KeyCode::Char('4'), NONE);

    press(&mut state, KeyCode::Esc, NONE);

    assert!(!state.search_active());
    assert_eq!(state.scan_input(), "");
}

#[test]
fn typing_while_editing_the_match_filter_appends_to_the_query() {
    let mut state = AppState::default();
    update(&mut state, Msg::FocusNext);
    update(&mut state, Msg::FocusNext);
    assert_eq!(state.focus(), Focus::MatchView);
    update(&mut state, Msg::ToggleSearch);

    press(&mut state, KeyCode::Char('d'), NONE);
    press(&mut state, KeyCode::Char('e'), NONE);

    assert_eq!(state.match_filter(), "de");
}

#[test]
fn escape_while_editing_the_match_filter_clears_it_and_exits_search() {
    let mut state = AppState::default();
    update(&mut state, Msg::FocusNext);
    update(&mut state, Msg::FocusNext);
    update(&mut state, Msg::ToggleSearch);
    press(&mut state, KeyCode::Char('d'), NONE);

    press(&mut state, KeyCode::Esc, NONE);

    assert!(!state.search_active());
    assert_eq!(state.match_filter(), "");
}

#[test]
fn enter_on_the_process_picker_attaches_to_the_selected_process() {
    let mut state = AppState::default();
    update(&mut state, Msg::RefreshProcessList);
    state.processes_listed(vec![
        ProcessEntry { pid: 321, name: "game".to_owned() },
        ProcessEntry { pid: 654, name: "other".to_owned() },
    ]);
    assert!(!state.processes().is_empty());

    let effect = press(&mut state, KeyCode::Enter, NONE);
    assert_eq!(effect, Effect::Attach(321));
    state.attach_done(321, Err("permission denied".to_owned()));

    assert!(state.status().is_some());
}

#[test]
fn h_on_match_view_without_a_session_does_not_focus_the_hex_view() {
    let mut state = AppState::default();
    focus_on(&mut state, Focus::MatchView);

    press(&mut state, KeyCode::Char('h'), NONE);

    assert_eq!(state.focus(), Focus::MatchView);
}

#[test]
fn typing_hex_digits_on_the_hex_view_composes_the_byte_edit_and_ignores_non_hex_chars() {
    let mut state = AppState::default();
    focus_on(&mut state, Focus::HexView);

    press(&mut state, KeyCode::Char('z'), NONE);
    assert_eq!(state.hex_edit_input(), "");

    press(&mut state, KeyCode::Char('3'), NONE);
    press(&mut state, KeyCode::Char('f'), NONE);
    assert_eq!(state.hex_edit_input(), "3f");

    press(&mut state, KeyCode::Char('1'), NONE);
    assert_eq!(state.hex_edit_input(), "3f");

    press(&mut state, KeyCode::Backspace, NONE);
    assert_eq!(state.hex_edit_input(), "3");
}

#[test]
fn cheat_view_bindings_match_the_documented_table() {
    let cases = [
        (key(KeyCode::Up, NONE), Msg::SelectPrev),
        (key(KeyCode::Char('k'), NONE), Msg::SelectPrev),
        (key(KeyCode::Down, NONE), Msg::SelectNext),
        (key(KeyCode::Char('j'), NONE), Msg::SelectNext),
    ];

    for (k, expected) in cases {
        assert_eq!(lookup_focus(Focus::CheatView, k), Some(expected));
    }
}

#[test]
fn global_bindings_include_save_and_load_cheat_list() {
    assert_eq!(lookup_global(key(KeyCode::Char('s'), CONTROL)), Some(Msg::SaveCheatList));
    assert_eq!(lookup_global(key(KeyCode::Char('l'), CONTROL)), Some(Msg::LoadCheatList));
}

#[test]
fn space_toggles_freeze_on_the_selected_cheat() {
    let mut state = AppState::default();
    add_cheat(&mut state, Value::U32(100));
    focus_on(&mut state, Focus::CheatView);

    press(&mut state, KeyCode::Char(' '), NONE);

    assert!(state.cheats()[0].frozen);
}

#[test]
fn e_begins_editing_the_selected_cheat_value() {
    let mut state = AppState::default();
    add_cheat(&mut state, Value::U32(100));
    focus_on(&mut state, Focus::CheatView);

    press(&mut state, KeyCode::Char('e'), NONE);

    assert!(state.search_active());
    assert_eq!(state.cheat_value_input(), "100");
}

#[test]
fn a_on_match_view_without_a_session_does_not_add_a_cheat() {
    let mut state = AppState::default();
    focus_on(&mut state, Focus::MatchView);

    press(&mut state, KeyCode::Char('a'), NONE);

    assert!(state.cheats().is_empty());
}

#[test]
fn h_on_cheat_view_without_a_session_does_not_focus_the_hex_view() {
    let mut state = AppState::default();
    add_cheat(&mut state, Value::U32(100));
    focus_on(&mut state, Focus::CheatView);

    press(&mut state, KeyCode::Char('h'), NONE);

    assert_eq!(state.focus(), Focus::CheatView);
}

#[test]
fn path_prompt_key_composes_input_and_confirms_on_enter() {
    let mut state = AppState::default();
    update(&mut state, Msg::LoadCheatList);
    assert_eq!(state.path_prompt(), Some(PathPromptKind::Load));

    press(&mut state, KeyCode::Char('x'), NONE);
    assert_eq!(state.path_input(), "x");

    press(&mut state, KeyCode::Esc, NONE);

    assert!(state.path_prompt().is_none());
    assert_eq!(state.path_input(), "");
}

#[test]
fn enter_in_the_path_prompt_asks_to_load_the_typed_path() {
    let mut state = AppState::default();
    update(&mut state, Msg::LoadCheatList);
    press(&mut state, KeyCode::Char('a'), NONE);
    assert_eq!(press(&mut state, KeyCode::Enter, NONE), Effect::LoadCheats("a".to_owned()));
    assert!(state.path_prompt().is_none());
}

#[test]
fn theme_default_matches_the_documented_colors() {
    let default = Theme::default();
    assert_eq!(default.focused_border.fg, Some(Color::Cyan));
    assert!(default.focused_border.add_modifier & BOLD != 0);
    assert_eq!(default.status_bar.fg, Some(Color::Black));
    assert_eq!(default.status_bar.bg, Some(Color::Gray));
    assert_eq!(default.status_bar_error.fg, Some(Color::White));
    assert_eq!(default.status_bar_error.bg, Some(Color::Red));
    assert_eq!(default.scan_progress.fg, Some(Color::Cyan));
    assert!(default.selection.add_modifier & REVERSED != 0);
    assert_eq!(default.match_changed.fg, Some(Color::Yellow));
    assert_eq!(default.frozen.fg, Some(Color::Blue));
}

#[test]
fn theme_resolve_applies_file_overrides_over_the_defaults() {
    let file = FileTheme {
        focused_border: Some("magenta".to_owned()),
        match_changed: Some("#ff8800".to_owned()),
        ..FileTheme::default()
    };

    let resolved =
        Theme::resolve_with_color(Some(&file), true).expect("valid colors should resolve");

    assert_eq!(resolved.focused_border.fg, Some(Color::Magenta));
    assert_eq!(resolved.match_changed.fg, Some(Color::Rgb(0xff, 0x88, 0x00)));
    assert_eq!(resolved.status_bar.fg, Some(Color::Black));
}

#[test]
fn theme_resolve_rejects_an_invalid_color() {
    let file = FileTheme {
        focused_border: Some("not-a-real-color".to_owned()),
        ..FileTheme::default()
    };

    let err = Theme::resolve_with_color(Some(&file), true)
        .expect_err("an invalid color must be rejected");
    assert!(err.message().contains("focused-border"));
}

#[test]
fn theme_resolve_with_no_file_and_color_returns_defaults() {
    let resolved = Theme::resolve_with_color(None, true).expect("no file is always valid");
    assert_eq!(resolved, Theme::default());
}

#[test]
fn theme_resolve_without_color_strips_every_color_but_keeps_modifiers() {
    let resolved = Theme::resolve_with_color(None, false).expect("always valid");

    assert_eq!(resolved.focused_border.fg, None);
    assert_eq!(resolved.status_bar.fg, None);
    assert_eq!(resolved.status_bar.bg, None);
    assert_eq!(resolved.match_changed.fg, None);
    assert!(resolved.status_bar_error.add_modifier & REVERSED != 0);
    assert!(resolved.scan_progress.add_modifier & REVERSED != 0);
    assert!(resolved.match_changed.add_modifier & BOLD != 0);
}

#[test]
fn theme_resolve_reads_indexed_and_named_light_colors() {
    let file = FileTheme {
        frozen: Some("light red".to_owned()),
        selection: Some("200".to_owned()),
        status_bar_bg: Some("DarkGray".to_owned()),
        ..FileTheme::default()
    };
    let resolved = Theme::resolve_with_color(Some(&file), true).expect("valid colors");
    assert_eq!(resolved.frozen.fg, Some(Color::LightRed));
    assert_eq!(resolved.selection.bg, Some(Color::Indexed(200)));
    assert_eq!(resolved.status_bar.bg, Some(Color::DarkGray));
}

#[test]
fn theme_resolve_reports_the_first_invalid_color_even_without_color() {
    let file = FileTheme {
        status_bar_fg: Some("nope".to_owned()),
        frozen: Some("also nope".to_owned()),
        ..FileTheme::default()
    };
    let err = Theme::resolve_with_color(Some(&file), false).expect_err("invalid color");
    assert_eq!(err.value, "nope");
    assert!(err.message().starts_with("invalid color \"nope\" for theme."));
}

#[test]
fn help_lists_each_binding_once_in_table_order() {
    let entries = scanmem::keymap::help_entries(Focus::MatchView);
    assert_eq!(entries[0], ("Tab", "focus next panel"));
    let up = entries.iter().filter(|e| e.0 == "Up/k").count();
    assert_eq!(up, 1);
    assert_eq!(entries.last(), Some(&("a", "add the selected match to the cheat list")));
    // 14 global, 6 panel bindings of which 2 repeat, 2 for the selected row.
    assert_eq!(entries.len(), 14 + 4 + 2);
    let hex = scanmem::keymap::help_entries(Focus::HexView);
    assert_eq!(hex.len(), 14 + 5);
}

#[test]
fn any_key_dismisses_the_error_dialog_and_does_nothing_else() {
    let mut state = AppState::default();
    update(&mut state, Msg::Detach);
    assert!(state.error_dialog_visible());
    let focus = state.focus();

    assert_eq!(press(&mut state, KeyCode::Tab, NONE), Effect::Nothing);

    assert!(!state.error_dialog_visible());
    assert_eq!(state.focus(), focus);
    press(&mut state, KeyCode::Tab, NONE);
    assert_ne!(state.focus(), focus);
}
