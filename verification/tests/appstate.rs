use scanmem::appstate::{
    update, AppState, CheatEntry, Effect, Msg, PathPromptKind, PollOutcome, ProcessEntry,
    ScanJob, StatusLevel, MatchSortColumn,
};
use scanmem::focus::Focus;
use scanmem::scanroutines::{MatchType, ScanDataType};
use scanmem::session::{ScanCriterion, ScanExpr};
use scanmem::value::{parse_int, Value, ValueParseError};

/// What listing the running processes hands back in these tests.
fn some_processes() -> Vec<ProcessEntry> {
    vec![
        ProcessEntry { pid: 1, name: "init".to_owned() },
        ProcessEntry { pid: 42, name: "game".to_owned() },
        ProcessEntry { pid: 77, name: "editor".to_owned() },
    ]
}

/// Sends `RefreshProcessList` and hands back the listing it asks for.
fn refresh_processes(state: &mut AppState) {
    assert_eq!(update(state, Msg::RefreshProcessList), Effect::ListProcesses);
    state.processes_listed(some_processes());
}

fn add_cheat(state: &mut AppState, address: usize, description: &str, value: Value) {
    update(
        state,
        Msg::AddCheat { address, description: description.to_owned(), value },
    );
}

fn assert_error_containing(state: &AppState, needle: &str) {
    let status = state.status().expect("expected a status message");
    assert_eq!(status.level, StatusLevel::Error);
    assert!(status.text.contains(needle), "status {:?} lacks {:?}", status.text, needle);
}

fn attached_state() -> AppState {
    let mut state = AppState::default();
    assert_eq!(update(&mut state, Msg::Attach(42)), Effect::Attach(42));
    state.attach_done(42, Ok(3));
    state
}

#[test]
fn default_state_starts_on_process_picker_with_no_status() {
    let state = AppState::default();

    assert_eq!(state.focus(), Focus::ProcessPicker);
    assert!(!state.has_session());
    assert!(state.cheats().is_empty());
    assert!(!state.help_visible());
    assert!(!state.should_quit());
    assert!(state.status().is_none());
}

#[test]
fn tests_focus_next_and_prev_cycle_through_every_panel() {
    let mut state = AppState::default();

    update(&mut state, Msg::FocusNext);
    assert_eq!(state.focus(), Focus::ScanPanel);
    update(&mut state, Msg::FocusNext);
    assert_eq!(state.focus(), Focus::MatchView);
    update(&mut state, Msg::FocusNext);
    assert_eq!(state.focus(), Focus::CheatView);
    update(&mut state, Msg::FocusNext);
    assert_eq!(state.focus(), Focus::HexView);
    update(&mut state, Msg::FocusNext);
    assert_eq!(state.focus(), Focus::ProcessPicker);

    update(&mut state, Msg::FocusPrev);
    assert_eq!(state.focus(), Focus::HexView);
}

#[test]
fn show_help_toggles_and_dismiss_always_closes() {
    let mut state = AppState::default();

    update(&mut state, Msg::ShowHelp);
    assert!(state.help_visible());
    update(&mut state, Msg::ShowHelp);
    assert!(!state.help_visible());

    update(&mut state, Msg::ShowHelp);
    assert!(state.help_visible());
    update(&mut state, Msg::Dismiss);
    assert!(!state.help_visible());
    update(&mut state, Msg::Dismiss);
    assert!(!state.help_visible());
}

#[test]
fn quit_sets_the_quit_flag() {
    let mut state = AppState::default();

    update(&mut state, Msg::Quit);

    assert!(state.should_quit());
}

#[test]
fn attach_with_zero_pid_reports_an_error_status_without_touching_focus() {
    let mut state = AppState::default();

    assert_eq!(update(&mut state, Msg::Attach(0)), Effect::Nothing);

    assert!(!state.has_session());
    assert_eq!(state.status().unwrap().level, StatusLevel::Error);
    assert_eq!(state.focus(), Focus::ProcessPicker);
}

#[test]
fn operations_that_require_a_session_report_not_attached() {
    for msg in [
        Msg::Detach,
        Msg::Scan(ScanExpr {
            data_type: ScanDataType::Integer32,
            match_type: MatchType::Any,
            criterion: ScanCriterion::Absent,
        }),
        Msg::Snapshot,
        Msg::ResetScan,
        Msg::Write { address: 0x1000, value: Value::U32(1) },
        Msg::FocusHexView(0x1000),
    ] {
        let mut state = AppState::default();

        assert_eq!(update(&mut state, msg), Effect::Nothing);

        assert_error_containing(&state, "no process is attached");
    }
}

#[test]
fn add_cheat_appends_an_entry_without_requiring_a_session() {
    let mut state = AppState::default();
    add_cheat(&mut state, 0x2000, "health", Value::U32(100));

    assert_eq!(state.cheats().len(), 1);
    assert_eq!(state.cheats()[0].address, 0x2000);
    assert_eq!(state.cheats()[0].description, "health");
    assert_eq!(state.cheats()[0].value, Value::U32(100));
    assert!(!state.cheats()[0].frozen);
}

#[test]
fn remove_cheat_drops_the_entry_at_the_given_index() {
    let mut state = AppState::default();
    add_cheat(&mut state, 0x2000, "health", Value::U32(100));

    update(&mut state, Msg::RemoveCheat(0));

    assert!(state.cheats().is_empty());
}

#[test]
fn remove_cheat_out_of_range_reports_an_error_and_keeps_the_list() {
    let mut state = AppState::default();
    add_cheat(&mut state, 0x2000, "health", Value::U32(100));

    update(&mut state, Msg::RemoveCheat(5));

    assert_eq!(state.cheats().len(), 1);
    assert_eq!(state.status().unwrap().level, StatusLevel::Error);
}

#[test]
fn toggle_freeze_flips_the_flag_each_call() {
    let mut state = AppState::default();
    add_cheat(&mut state, 0x2000, "health", Value::U32(100));

    update(&mut state, Msg::ToggleFreeze(0));
    assert!(state.cheats()[0].frozen);

    update(&mut state, Msg::ToggleFreeze(0));
    assert!(!state.cheats()[0].frozen);
}

#[test]
fn toggle_freeze_out_of_range_reports_an_error() {
    let mut state = AppState::default();

    update(&mut state, Msg::ToggleFreeze(0));

    assert_eq!(state.status().unwrap().level, StatusLevel::Error);
}

#[test]
fn edit_cheat_value_without_a_session_reports_not_attached_and_keeps_the_old_value() {
    let mut state = AppState::default();
    add_cheat(&mut state, 0x2000, "health", Value::U32(100));

    update(&mut state, Msg::EditCheatValue { index: 0, value: Value::U32(200) });

    assert_eq!(state.cheats()[0].value, Value::U32(100));
    assert_error_containing(&state, "no process is attached");
}

#[test]
fn edit_cheat_value_out_of_range_reports_an_error() {
    let mut state = AppState::default();

    update(&mut state, Msg::EditCheatValue { index: 0, value: Value::U32(200) });

    assert_eq!(state.status().unwrap().level, StatusLevel::Error);
}

#[test]
fn focus_display_names_match_the_status_bar_labels() {
    assert_eq!(Focus::ProcessPicker.to_string(), "Process Picker");
    assert_eq!(Focus::ScanPanel.to_string(), "Scan Panel");
    assert_eq!(Focus::MatchView.to_string(), "Match View");
    assert_eq!(Focus::CheatView.to_string(), "Cheat View");
    assert_eq!(Focus::HexView.to_string(), "Hex View");
}

#[test]
fn refresh_process_list_populates_processes_and_reports_a_count() {
    let mut state = AppState::default();

    refresh_processes(&mut state);

    assert!(!state.processes().is_empty());
    assert_eq!(state.status().unwrap().level, StatusLevel::Info);
    assert_eq!(state.status().unwrap().text, "3 process(es)");
}

#[test]
fn filter_processes_resets_selection_and_filters_by_substring() {
    let mut state = AppState::default();
    refresh_processes(&mut state);

    update(&mut state, Msg::FilterProcesses("this-should-not-match-anything-zzz".to_owned()));

    assert!(state.filtered_processes().is_empty());
    assert_eq!(state.process_selected(), 0);
    assert!(state.selected_process().is_none());
}

#[test]
fn select_next_and_prev_wrap_around_the_filtered_process_list() {
    let mut state = AppState::default();
    refresh_processes(&mut state);
    let len = state.filtered_processes().len();
    assert!(len >= 2);

    update(&mut state, Msg::SelectNext);
    assert_eq!(state.process_selected(), 1);

    update(&mut state, Msg::SelectPrev);
    assert_eq!(state.process_selected(), 0);

    update(&mut state, Msg::SelectPrev);
    assert_eq!(state.process_selected(), len - 1);

    update(&mut state, Msg::SelectNext);
    assert_eq!(state.process_selected(), 0);
}

#[test]
fn select_next_and_prev_are_a_no_op_outside_the_process_picker_focus() {
    let mut state = AppState::default();
    refresh_processes(&mut state);
    update(&mut state, Msg::FocusNext);
    assert_eq!(state.focus(), Focus::ScanPanel);

    update(&mut state, Msg::SelectNext);

    assert_eq!(state.process_selected(), 0);
}

#[test]
fn toggle_search_flips_the_flag_each_call() {
    let mut state = AppState::default();

    update(&mut state, Msg::ToggleSearch);
    assert!(state.search_active());

    update(&mut state, Msg::ToggleSearch);
    assert!(!state.search_active());
}

#[test]
fn dismiss_cancels_an_active_search_and_clears_the_filter() {
    let mut state = AppState::default();
    update(&mut state, Msg::ToggleSearch);
    update(&mut state, Msg::FilterProcesses("abc".to_owned()));

    update(&mut state, Msg::Dismiss);

    assert!(!state.search_active());
    assert_eq!(state.process_filter(), "");
}

#[test]
fn dismiss_closes_help_before_cancelling_a_pending_search() {
    let mut state = AppState::default();
    update(&mut state, Msg::ToggleSearch);
    update(&mut state, Msg::ShowHelp);

    update(&mut state, Msg::Dismiss);
    assert!(!state.help_visible());
    assert!(state.search_active());

    update(&mut state, Msg::Dismiss);
    assert!(!state.search_active());
}

#[test]
fn default_scan_panel_state_is_i32_equal_to_with_an_empty_value() {
    let state = AppState::default();

    assert_eq!(state.scan_data_type(), ScanDataType::Integer32);
    assert_eq!(state.scan_match_type(), MatchType::EqualTo);
    assert_eq!(state.scan_input(), "");
}

#[test]
fn cycle_scan_data_type_visits_every_variant_once_and_wraps() {
    let mut state = AppState::default();
    let start = state.scan_data_type();

    let mut seen = vec![start];
    for _ in 0..10 {
        update(&mut state, Msg::CycleScanDataType);
        seen.push(state.scan_data_type());
    }
    update(&mut state, Msg::CycleScanDataType);

    assert_eq!(seen.len(), 11);
    for i in 0..seen.len() {
        for j in 0..i {
            assert_ne!(seen[i], seen[j]);
        }
    }
    assert_eq!(state.scan_data_type(), start);
}

#[test]
fn cycle_scan_match_type_visits_every_variant_once_and_wraps() {
    let mut state = AppState::default();
    let start = state.scan_match_type();

    let mut seen = vec![start];
    for _ in 0..12 {
        update(&mut state, Msg::CycleScanMatchType);
        seen.push(state.scan_match_type());
    }
    update(&mut state, Msg::CycleScanMatchType);

    assert_eq!(seen.len(), 13);
    for i in 0..seen.len() {
        for j in 0..i {
            assert_ne!(seen[i], seen[j]);
        }
    }
    assert_eq!(state.scan_match_type(), start);
}

#[test]
fn set_scan_input_replaces_the_value() {
    let mut state = AppState::default();

    update(&mut state, Msg::SetScanInput("42".to_owned()));

    assert_eq!(state.scan_input(), "42");
}

#[test]
fn run_scan_without_a_value_reports_an_error_even_without_a_session() {
    let mut state = AppState::default();

    update(&mut state, Msg::RunScan);

    assert_error_containing(&state, "requires a value");
}

#[test]
fn run_scan_range_without_two_values_reports_an_error() {
    let mut state = AppState::default();
    for _ in 0..4 {
        update(&mut state, Msg::CycleScanMatchType);
    }
    assert_eq!(state.scan_match_type(), MatchType::Range);

    update(&mut state, Msg::SetScanInput("10".to_owned()));
    update(&mut state, Msg::RunScan);

    assert_error_containing(&state, "low and high");
}

#[test]
fn run_scan_with_a_valid_value_but_no_session_reports_not_attached() {
    let mut state = AppState::default();
    update(&mut state, Msg::SetScanInput("42".to_owned()));

    assert_eq!(update(&mut state, Msg::RunScan), Effect::Nothing);

    assert_error_containing(&state, "no process is attached");
}

#[test]
fn cycle_match_sort_toggles_between_address_and_value_and_resets_selection() {
    let mut state = AppState::default();
    assert_eq!(state.match_sort(), MatchSortColumn::Address);

    update(&mut state, Msg::CycleMatchSort);
    assert_eq!(state.match_sort(), MatchSortColumn::Value);

    update(&mut state, Msg::CycleMatchSort);
    assert_eq!(state.match_sort(), MatchSortColumn::Address);
    assert_eq!(state.match_selected(), 0);
}

#[test]
fn filter_matches_sets_the_filter_and_resets_selection() {
    let mut state = AppState::default();

    update(&mut state, Msg::FilterMatches("dead".to_owned()));

    assert_eq!(state.match_filter(), "dead");
    assert_eq!(state.match_selected(), 0);
    // Without a session there are no matches to show.
    assert!(!state.has_session());
}

#[test]
fn select_next_and_prev_are_a_no_op_in_match_view_without_a_session() {
    let mut state = AppState::default();
    update(&mut state, Msg::FocusNext);
    update(&mut state, Msg::FocusNext);
    assert_eq!(state.focus(), Focus::MatchView);

    update(&mut state, Msg::SelectNext);
    update(&mut state, Msg::SelectPrev);

    assert_eq!(state.match_selected(), 0);
}

#[test]
fn dismiss_clears_the_scan_input_while_in_scan_panel_focus() {
    let mut state = AppState::default();
    update(&mut state, Msg::FocusNext);
    assert_eq!(state.focus(), Focus::ScanPanel);
    update(&mut state, Msg::ToggleSearch);
    update(&mut state, Msg::SetScanInput("42".to_owned()));

    update(&mut state, Msg::Dismiss);

    assert!(!state.search_active());
    assert_eq!(state.scan_input(), "");
}

#[test]
fn dismiss_clears_the_match_filter_while_in_match_view_focus() {
    let mut state = AppState::default();
    update(&mut state, Msg::FocusNext);
    update(&mut state, Msg::FocusNext);
    assert_eq!(state.focus(), Focus::MatchView);
    update(&mut state, Msg::ToggleSearch);
    update(&mut state, Msg::FilterMatches("dead".to_owned()));

    update(&mut state, Msg::Dismiss);

    assert!(!state.search_active());
    assert_eq!(state.match_filter(), "");
}

fn focus_cheat_view(state: &mut AppState) {
    update(state, Msg::FocusNext);
    update(state, Msg::FocusNext);
    update(state, Msg::FocusNext);
    assert_eq!(state.focus(), Focus::CheatView);
}

#[test]
fn select_next_and_prev_wrap_around_the_cheat_list() {
    let mut state = AppState::default();
    add_cheat(&mut state, 0x1000, "", Value::U32(1));
    add_cheat(&mut state, 0x2000, "", Value::U32(2));
    focus_cheat_view(&mut state);

    update(&mut state, Msg::SelectNext);
    assert_eq!(state.cheat_selected(), 1);

    update(&mut state, Msg::SelectNext);
    assert_eq!(state.cheat_selected(), 0);

    update(&mut state, Msg::SelectPrev);
    assert_eq!(state.cheat_selected(), 1);
}

#[test]
fn begin_edit_cheat_value_prefills_the_input_and_activates_search() {
    let mut state = AppState::default();
    add_cheat(&mut state, 0x1000, "", Value::U32(100));

    update(&mut state, Msg::BeginEditCheatValue(0));

    assert!(state.search_active());
    assert_eq!(state.cheat_value_input(), "100");
}

#[test]
fn begin_edit_cheat_value_out_of_range_reports_an_error_and_does_not_activate_search() {
    let mut state = AppState::default();

    update(&mut state, Msg::BeginEditCheatValue(0));

    assert!(!state.search_active());
    assert_eq!(state.status().unwrap().level, StatusLevel::Error);
}

#[test]
fn confirm_cheat_value_edit_without_a_pending_edit_reports_an_error() {
    let mut state = AppState::default();

    update(&mut state, Msg::ConfirmCheatValueEdit);

    assert_eq!(state.status().unwrap().level, StatusLevel::Error);
}

#[test]
fn confirm_cheat_value_edit_out_of_width_input_reports_an_error_without_a_session() {
    let mut state = AppState::default();
    add_cheat(&mut state, 0x1000, "", Value::U8(1));
    update(&mut state, Msg::BeginEditCheatValue(0));

    update(&mut state, Msg::SetCheatValueInput("9999".to_owned()));
    update(&mut state, Msg::ConfirmCheatValueEdit);

    assert!(!state.search_active());
    assert_error_containing(&state, "does not fit");
    assert_eq!(state.cheats()[0].value, Value::U8(1));
}

#[test]
fn confirm_cheat_value_edit_without_a_session_reports_not_attached() {
    let mut state = AppState::default();
    add_cheat(&mut state, 0x1000, "", Value::U32(100));
    update(&mut state, Msg::BeginEditCheatValue(0));
    update(&mut state, Msg::SetCheatValueInput("200".to_owned()));

    update(&mut state, Msg::ConfirmCheatValueEdit);

    assert!(!state.search_active());
    assert_error_containing(&state, "no process is attached");
    assert_eq!(state.cheats()[0].value, Value::U32(100));
}

#[test]
fn save_cheat_list_without_a_known_path_opens_a_save_prompt() {
    let mut state = AppState::default();

    update(&mut state, Msg::SaveCheatList);

    assert_eq!(state.path_prompt(), Some(PathPromptKind::Save));
    assert_eq!(state.status().unwrap().level, StatusLevel::Info);
}

#[test]
fn load_cheat_list_always_opens_a_load_prompt() {
    let mut state = AppState::default();

    update(&mut state, Msg::LoadCheatList);

    assert_eq!(state.path_prompt(), Some(PathPromptKind::Load));
}

#[test]
fn confirm_path_prompt_load_missing_file_reports_an_error() {
    let mut state = AppState::default();
    update(&mut state, Msg::LoadCheatList);
    let path = "/nonexistent/gameconqueror-cheatlist.toml";
    update(&mut state, Msg::SetPathInput(path.to_owned()));

    let effect = update(&mut state, Msg::ConfirmPathPrompt);
    assert_eq!(effect, Effect::LoadCheats(path.to_owned()));
    state.cheats_loaded(path.to_owned(), Err("No such file or directory (os error 2)".to_owned()));

    assert!(state.path_prompt().is_none());
    assert_eq!(state.status().unwrap().level, StatusLevel::Error);
}

#[test]
fn dismiss_closes_an_open_path_prompt_before_touching_search_state() {
    let mut state = AppState::default();
    update(&mut state, Msg::ToggleSearch);
    update(&mut state, Msg::SaveCheatList);

    update(&mut state, Msg::Dismiss);

    assert!(state.path_prompt().is_none());
    assert!(state.search_active());
}

#[test]
fn move_hex_cursor_is_a_no_op_on_an_empty_buffer() {
    let mut state = AppState::default();

    update(&mut state, Msg::MoveHexCursor(1));
    update(&mut state, Msg::MoveHexCursor(-1));

    assert_eq!(state.hex_cursor(), 0);
    assert!(state.hex_buffer().is_empty());
}

#[test]
fn set_hex_edit_input_replaces_the_value() {
    let mut state = AppState::default();

    update(&mut state, Msg::SetHexEditInput("3f".to_owned()));

    assert_eq!(state.hex_edit_input(), "3f");
}

#[test]
fn commit_hex_edit_without_input_reports_an_error() {
    let mut state = AppState::default();

    update(&mut state, Msg::CommitHexEdit);

    assert_error_containing(&state, "no byte value entered");
    assert_eq!(state.hex_edit_input(), "");
}

#[test]
fn commit_hex_edit_with_invalid_hex_reports_an_error() {
    let mut state = AppState::default();
    update(&mut state, Msg::SetHexEditInput("zz".to_owned()));

    update(&mut state, Msg::CommitHexEdit);

    assert_error_containing(&state, "not a valid hex byte");
}

#[test]
fn commit_hex_edit_with_valid_hex_but_no_session_reports_not_attached() {
    let mut state = AppState::default();
    update(&mut state, Msg::SetHexEditInput("3f".to_owned()));

    update(&mut state, Msg::CommitHexEdit);

    assert_error_containing(&state, "no process is attached");
}

#[test]
fn dismiss_clears_an_in_progress_hex_edit() {
    let mut state = AppState::default();
    while state.focus() != Focus::HexView {
        update(&mut state, Msg::FocusNext);
    }
    update(&mut state, Msg::SetHexEditInput("3".to_owned()));

    update(&mut state, Msg::Dismiss);

    assert_eq!(state.hex_edit_input(), "");
}

#[test]
fn confirm_path_prompt_save_then_load_round_trips_the_cheat_list() {
    let mut state = AppState::default();
    add_cheat(&mut state, 0x1000, "health", Value::U32(100));
    update(&mut state, Msg::SaveCheatList);
    update(&mut state, Msg::SetPathInput(" /tmp/cheats.toml ".to_owned()));
    let effect = update(&mut state, Msg::ConfirmPathPrompt);
    assert_eq!(effect, Effect::SaveCheats("/tmp/cheats.toml".to_owned()));
    let saved: Vec<CheatEntry> = state.cheats().to_vec();
    state.cheats_saved("/tmp/cheats.toml".to_owned(), Ok(()));

    assert!(state.path_prompt().is_none());
    assert_eq!(state.status().unwrap().level, StatusLevel::Info);
    assert_eq!(state.cheat_list_path(), Some("/tmp/cheats.toml"));

    update(&mut state, Msg::RemoveCheat(0));
    assert!(state.cheats().is_empty());

    update(&mut state, Msg::LoadCheatList);
    update(&mut state, Msg::SetPathInput("/tmp/cheats.toml".to_owned()));
    let effect = update(&mut state, Msg::ConfirmPathPrompt);
    assert_eq!(effect, Effect::LoadCheats("/tmp/cheats.toml".to_owned()));
    state.cheats_loaded("/tmp/cheats.toml".to_owned(), Ok(saved));

    assert_eq!(state.cheats().len(), 1);
    assert_eq!(state.cheats()[0].address, 0x1000);
    assert_eq!(state.cheats()[0].description, "health");
    assert_eq!(state.status().unwrap().text, "loaded 1 cheat(s) from /tmp/cheats.toml");
}

#[test]
fn saving_again_goes_straight_to_the_known_path() {
    let mut state = AppState::default();
    state.cheats_saved("/tmp/c.toml".to_owned(), Ok(()));
    assert_eq!(update(&mut state, Msg::SaveCheatList), Effect::SaveCheats("/tmp/c.toml".to_owned()));
    assert!(state.path_prompt().is_none());
}

#[test]
fn attaching_names_the_target_and_enables_session_work() {
    let mut state = AppState::default();
    refresh_processes(&mut state);
    assert_eq!(update(&mut state, Msg::Attach(42)), Effect::Attach(42));
    state.attach_done(42, Ok(7));
    assert!(state.has_session());
    assert_eq!(state.attached().unwrap().name, "game");
    assert_eq!(state.status().unwrap().text, "attached to pid 42: 7 region(s)");

    let expr = ScanExpr {
        data_type: ScanDataType::Integer32,
        match_type: MatchType::Any,
        criterion: ScanCriterion::Absent,
    };
    assert_eq!(update(&mut state, Msg::Scan(expr.clone())), Effect::Scan(expr));
    state.scan_done(Ok(12));
    assert_eq!(state.status().unwrap().text, "12 match(es)");

    assert_eq!(update(&mut state, Msg::Detach), Effect::Detach);
    state.detach_done(Ok(()));
    assert!(!state.has_session());
    assert!(state.attached().is_none());
}

#[test]
fn a_failed_attach_keeps_the_state_detached() {
    let mut state = AppState::default();
    update(&mut state, Msg::Attach(99));
    state.attach_done(99, Err("permission denied".to_owned()));
    assert!(!state.has_session());
    assert_error_containing(&state, "permission denied");
}

#[test]
fn run_scan_with_a_session_parses_the_value_then_scans_in_the_background() {
    let mut state = attached_state();
    update(&mut state, Msg::SetScanInput("42".to_owned()));
    let effect = update(&mut state, Msg::RunScan);
    assert_eq!(
        effect,
        Effect::ParseScanNumbers {
            new_scan: false,
            data_type: ScanDataType::Integer32,
            match_type: MatchType::EqualTo,
            texts: vec!["42".to_owned()],
        }
    );
    // The number as the front end parses it: every integer width, and both float widths.
    let mut number = parse_int("42").unwrap();
    number.f32_bits = Some(42.0f32.to_bits());
    number.f64_bits = Some(42.0f64.to_bits());
    let effect = state.scan_numbers_parsed(
        false,
        ScanDataType::Integer32,
        MatchType::EqualTo,
        vec![Ok(number)],
    );
    let expr = ScanExpr {
        data_type: ScanDataType::Integer32,
        match_type: MatchType::EqualTo,
        criterion: ScanCriterion::Value(scanmem::value::UserValue::Number(number)),
    };
    assert_eq!(effect, Effect::StartScan(ScanJob::Run(expr)));
    state.scan_started(Ok(()));
    assert!(state.is_scanning());
    assert_eq!(update(&mut state, Msg::PollScan), Effect::PollScan);
    state.scan_polled(PollOutcome::Pending);
    assert!(state.is_scanning());
    state.scan_polled(PollOutcome::Finished(Ok(5)));
    assert!(!state.is_scanning());
    assert_eq!(state.status().unwrap().text, "5 match(es)");
}

#[test]
fn dismiss_cancels_a_running_scan() {
    let mut state = attached_state();
    update(&mut state, Msg::Snapshot);
    state.scan_started(Ok(()));
    assert!(state.is_scanning());
    assert_eq!(update(&mut state, Msg::Dismiss), Effect::CancelScan);
}

#[test]
fn tick_rewrites_only_frozen_cheats_while_attached() {
    let mut state = AppState::default();
    add_cheat(&mut state, 0x10, "a", Value::U8(1));
    add_cheat(&mut state, 0x20, "b", Value::U16(2));
    update(&mut state, Msg::ToggleFreeze(1));
    assert_eq!(update(&mut state, Msg::Tick), Effect::Nothing);
    update(&mut state, Msg::Attach(42));
    state.attach_done(42, Ok(1));
    assert_eq!(
        update(&mut state, Msg::Tick),
        Effect::WriteFrozen(vec![(0x20, Value::U16(2))])
    );
}

#[test]
fn a_float_cheat_value_is_parsed_outside_and_applied_at_its_width() {
    let mut state = attached_state();
    add_cheat(&mut state, 0x30, "speed", Value::F32(1.0f32.to_bits()));
    update(&mut state, Msg::BeginEditCheatValue(0));
    update(&mut state, Msg::SetCheatValueInput("2.5".to_owned()));
    let effect = update(&mut state, Msg::ConfirmCheatValueEdit);
    assert_eq!(effect, Effect::ParseCheatNumber { index: 0, input: "2.5".to_owned() });
    let mut n = scanmem::value::NumberValue::none();
    n.f32_bits = Some(2.5f32.to_bits());
    n.f64_bits = Some(2.5f64.to_bits());
    let effect = state.cheat_number_parsed(0, Ok(n));
    assert_eq!(
        effect,
        Effect::WriteCheat { index: 0, address: 0x30, value: Value::F32(2.5f32.to_bits()) }
    );
    state.cheat_written(0, Value::F32(2.5f32.to_bits()), Ok(()));
    assert_eq!(state.cheats()[0].value, Value::F32(2.5f32.to_bits()));
}

#[test]
fn an_unparsable_cheat_number_reports_the_parse_error() {
    let mut state = attached_state();
    add_cheat(&mut state, 0x30, "speed", Value::F64(1.0f64.to_bits()));
    state.cheat_number_parsed(0, Err(ValueParseError::InvalidFloat("x".to_owned())));
    assert_error_containing(&state, "\"x\" is not a valid floating-point number");
    assert_eq!(state.cheats()[0].value, Value::F64(1.0f64.to_bits()));
}

#[test]
fn focusing_the_hex_view_reads_memory_around_the_address() {
    let mut state = attached_state();
    let effect = update(&mut state, Msg::FocusHexView(0x1010));
    match effect {
        Effect::ReadHex { address, base, len, first } => {
            assert_eq!(address, 0x1010);
            assert!(first);
            assert!(base <= address && address < base + len);
            let bytes: Vec<u8> = (0..len).map(|i| i as u8).collect();
            let follow = state.hex_read(address, base, len, first, Ok(bytes));
            assert_eq!(follow, Effect::Nothing);
            assert_eq!(state.focus(), Focus::HexView);
            assert_eq!(state.hex_buffer().len(), len);
            assert_eq!(state.hex_cursor_address(), Some(0x1010));
        }
        other => panic!("unexpected effect {other:?}"),
    }
}

#[test]
fn toggling_twice_restores_the_state_it_touches() {
    let mut state = AppState::default();
    add_cheat(&mut state, 0x10, "x", Value::U8(1));
    let before = state.cheats().to_vec();
    update(&mut state, Msg::ToggleFreeze(0));
    update(&mut state, Msg::ToggleFreeze(0));
    assert_eq!(state.cheats(), &before[..]);
    let expanded = state.expanded();
    update(&mut state, Msg::ToggleExpand);
    update(&mut state, Msg::ToggleExpand);
    assert_eq!(state.expanded(), expanded);
    let searching = state.search_active();
    update(&mut state, Msg::ToggleSearch);
    update(&mut state, Msg::ToggleSearch);
    assert_eq!(state.search_active(), searching);
}

#[test]
fn removing_the_cheat_just_added_restores_the_list() {
    let mut state = AppState::default();
    add_cheat(&mut state, 0x10, "x", Value::U8(1));
    let before = state.cheats().to_vec();
    add_cheat(&mut state, 0x20, "y", Value::I16(-2));
    update(&mut state, Msg::RemoveCheat(1));
    assert_eq!(state.cheats(), &before[..]);
}

#[test]
fn selecting_forward_then_back_returns_to_the_same_process() {
    let mut state = AppState::default();
    refresh_processes(&mut state);
    for _ in 0..2 {
        update(&mut state, Msg::SelectNext);
    }
    let here = state.process_selected();
    update(&mut state, Msg::SelectNext);
    update(&mut state, Msg::SelectPrev);
    assert_eq!(state.process_selected(), here);
    assert_eq!(scanmem::appstate::wrap_selection(2, 3, true), 0);
    assert_eq!(scanmem::appstate::wrap_selection(0, 3, false), 2);
}
