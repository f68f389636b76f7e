//! The front end's state machine: [`AppState`] (the attached target, recorded cheats, the
//! panels' inputs and selections, focus and flags, the last status message), the [`Msg`]s the
//! user triggers, and [`update`], which applies one.
//!
//! Work on the target process, files, the process list and floats happens outside this
//! library: `update` answers with an [`Effect`] naming the work to do, and the outcome is handed
//! back through the `AppState` method named for it (`attach_done`, `hex_read`, ...), which
//! decides what the state and the status become.

use vstd::prelude::*;

use crate::focus::{focus_order, focus_index, neighbour, Direction, Focus};
use crate::scanform::{number_expr, range_expr, scan_form, ScanForm};
use crate::scanroutines::{MatchType, ScanDataType};
use crate::session::ScanExpr;
use crate::text::{byte_hex_text, decimal_text, hex_digits, debug_quote};
use crate::value::{NumberValue, Value, ValueParseError, ValueView};

verus! {

/// Severity of a status-bar message.
#[derive(Debug, Clone, Copy, PartialEq, Eq, Structural)]
pub enum StatusLevel {
    Info,
    Error,
}

/// A one-line status-bar message.
#[derive(Debug, Clone, PartialEq)]
pub struct Status {
    pub level: StatusLevel,
    pub text: String,
}

/// A status message with its text as a char sequence.
pub struct StatusView {
    pub level: StatusLevel,
    pub text: Seq<char>,
}

impl Status {
    /// The message with its text as a char sequence.
    pub open spec fn spec_view(&self) -> StatusView {
        StatusView { level: self.level, text: self.text@ }
    }

    /// An informational message.
    pub fn info(text: String) -> (r: Status)
        ensures
            r.level == StatusLevel::Info,
            r.text@ == text@,
    {
        Status { level: StatusLevel::Info, text }
    }

    /// An error message.
    pub fn error(text: String) -> (r: Status)
        ensures
            r.level == StatusLevel::Error,
            r.text@ == text@,
    {
        Status { level: StatusLevel::Error, text }
    }
}

/// One cheat-list entry: an address, a description, the value to (re)write, and whether it is
/// frozen (rewritten on every tick).
#[derive(Debug, Clone, PartialEq)]
pub struct CheatEntry {
    pub address: usize,
    pub description: String,
    pub value: Value,
    pub frozen: bool,
}

/// A cheat-list entry with its texts and value as sequences.
pub struct CheatView {
    pub address: usize,
    pub description: Seq<char>,
    pub value: ValueView,
    pub frozen: bool,
}

/// The mathematical form of a cheat-list entry.
pub open spec fn cheat_view(c: CheatEntry) -> CheatView {
    CheatView { address: c.address, description: c.description@, value: c.value@, frozen: c.frozen }
}

/// Which cheat-list operation the path prompt is open for.
#[derive(Debug, Clone, Copy, PartialEq, Eq, Structural)]
pub enum PathPromptKind {
    Save,
    Load,
}

/// One running process: a pid and its display name.
#[derive(Debug, Clone, PartialEq, Eq)]
pub struct ProcessEntry {
    pub pid: u32,
    pub name: String,
}

/// The attached target's pid and display name.
#[derive(Debug, Clone, PartialEq, Eq)]
pub struct AttachedProcess {
    pub pid: u32,
    pub name: String,
}

/// Which column the Match View is sorted by.
#[derive(Debug, Clone, Copy, PartialEq, Eq, Structural)]
pub enum MatchSortColumn {
    Address,
    Value,
}

impl MatchSortColumn {
    /// The other column.
    pub fn next(self) -> (r: MatchSortColumn)
        ensures
            r == (match self {
                MatchSortColumn::Address => MatchSortColumn::Value,
                MatchSortColumn::Value => MatchSortColumn::Address,
            }),
    {
        match self {
            MatchSortColumn::Address => MatchSortColumn::Value,
            MatchSortColumn::Value => MatchSortColumn::Address,
        }
    }
}

/// Every data type, in the order the Scan Panel cycles through them.
pub open spec fn data_type_order() -> Seq<ScanDataType> {
    seq![
        ScanDataType::AnyNumber,
        ScanDataType::AnyInteger,
        ScanDataType::AnyFloat,
        ScanDataType::Integer8,
        ScanDataType::Integer16,
        ScanDataType::Integer32,
        ScanDataType::Integer64,
        ScanDataType::Float32,
        ScanDataType::Float64,
        ScanDataType::ByteArray,
        ScanDataType::String,
    ]
}

/// Every match type, in the order the Scan Panel cycles through them.
pub open spec fn match_type_order() -> Seq<MatchType> {
    seq![
        MatchType::Any,
        MatchType::EqualTo,
        MatchType::NotEqualTo,
        MatchType::GreaterThan,
        MatchType::LessThan,
        MatchType::Range,
        MatchType::Update,
        MatchType::NotChanged,
        MatchType::Changed,
        MatchType::Increased,
        MatchType::Decreased,
        MatchType::IncreasedBy,
        MatchType::DecreasedBy,
    ]
}

/// The position of `t` in [`data_type_order`].
pub open spec fn data_type_index(t: ScanDataType) -> int {
    match t {
        ScanDataType::AnyNumber => 0,
        ScanDataType::AnyInteger => 1,
        ScanDataType::AnyFloat => 2,
        ScanDataType::Integer8 => 3,
        ScanDataType::Integer16 => 4,
        ScanDataType::Integer32 => 5,
        ScanDataType::Integer64 => 6,
        ScanDataType::Float32 => 7,
        ScanDataType::Float64 => 8,
        ScanDataType::ByteArray => 9,
        ScanDataType::String => 10,
    }
}

/// The position of `t` in [`match_type_order`].
pub open spec fn match_type_index(t: MatchType) -> int {
    match t {
        MatchType::Any => 0,
        MatchType::EqualTo => 1,
        MatchType::NotEqualTo => 2,
        MatchType::GreaterThan => 3,
        MatchType::LessThan => 4,
        MatchType::Range => 5,
        MatchType::Update => 6,
        MatchType::NotChanged => 7,
        MatchType::Changed => 8,
        MatchType::Increased => 9,
        MatchType::Decreased => 10,
        MatchType::IncreasedBy => 11,
        MatchType::DecreasedBy => 12,
    }
}

/// The data type after `t`, wrapping around.
pub fn next_data_type(t: ScanDataType) -> (r: ScanDataType)
    ensures
        r == data_type_order()[(data_type_index(t) + 1) % 11],
{
    match t {
        ScanDataType::AnyNumber => ScanDataType::AnyInteger,
        ScanDataType::AnyInteger => ScanDataType::AnyFloat,
        ScanDataType::AnyFloat => ScanDataType::Integer8,
        ScanDataType::Integer8 => ScanDataType::Integer16,
        ScanDataType::Integer16 => ScanDataType::Integer32,
        ScanDataType::Integer32 => ScanDataType::Integer64,
        ScanDataType::Integer64 => ScanDataType::Float32,
        ScanDataType::Float32 => ScanDataType::Float64,
        ScanDataType::Float64 => ScanDataType::ByteArray,
        ScanDataType::ByteArray => ScanDataType::String,
        ScanDataType::String => ScanDataType::AnyNumber,
    }
}

/// The match type after `t`, wrapping around.
pub fn next_match_type(t: MatchType) -> (r: MatchType)
    ensures
        r == match_type_order()[(match_type_index(t) + 1) % 13],
{
    match t {
        MatchType::Any => MatchType::EqualTo,
        MatchType::EqualTo => MatchType::NotEqualTo,
        MatchType::NotEqualTo => MatchType::GreaterThan,
        MatchType::GreaterThan => MatchType::LessThan,
        MatchType::LessThan => MatchType::Range,
        MatchType::Range => MatchType::Update,
        MatchType::Update => MatchType::NotChanged,
        MatchType::NotChanged => MatchType::Changed,
        MatchType::Changed => MatchType::Increased,
        MatchType::Increased => MatchType::Decreased,
        MatchType::Decreased => MatchType::IncreasedBy,
        MatchType::IncreasedBy => MatchType::DecreasedBy,
        MatchType::DecreasedBy => MatchType::Any,
    }
}

/// Cycling the data type eleven times visits every data type once and returns to the start.
pub proof fn lemma_data_type_cycle(t: ScanDataType)
    ensures
        forall|k: int| 0 <= k < 11 ==> data_type_index(#[trigger] data_type_order()[(data_type_index(t) + k) % 11]) == (data_type_index(t) + k) % 11,
        data_type_order()[(data_type_index(t) + 11) % 11] == t,
{
}

/// Cycling the match type thirteen times visits every match type once and returns to the
/// start.
pub proof fn lemma_match_type_cycle(t: MatchType)
    ensures
        forall|k: int| 0 <= k < 13 ==> match_type_index(#[trigger] match_type_order()[(match_type_index(t) + k) % 13]) == (match_type_index(t) + k) % 13,
        match_type_order()[(match_type_index(t) + 13) % 13] == t,
{
}

/// Moving a selection by one in a list of `len` entries, wrapping around at both ends.
pub open spec fn wrapped(current: usize, len: usize, forward: bool) -> usize {
    if len == 0 {
        current
    } else if forward {
        ((current as int + 1) % (len as int)) as usize
    } else {
        ((current as int - 1) % (len as int)) as usize
    }
}

/// Moves a selection by one in a list of `len` entries, wrapping around; unchanged when the
/// list is empty.
pub fn wrap_selection(current: usize, len: usize, forward: bool) -> (r: usize)
    ensures
        r == wrapped(current, len, forward),
        len > 0 ==> r < len,
{
    if len == 0 {
        return current;
    }
    let c = (current % len) as u128;
    let l = len as u128;
    let step: u128 = if forward { 1 } else { l - 1 };
    let r = ((c + step) % l) as usize;
    proof {
        let ci = current as int;
        let li = len as int;
        assert(li > 0);
        if forward {
            assert((ci % li + 1) % li == (ci + 1) % li) by (nonlinear_arith)
                requires li > 0;
        } else {
            assert((ci % li + li - 1) % li == (ci - 1) % li) by (nonlinear_arith)
                requires li > 0;
        }
    }
    r
}


/// One user-triggered action, the single input to [`update`].
#[derive(Debug, Clone, PartialEq)]
pub enum Msg {
    /// Attach to a process by pid, replacing any attached one.
    Attach(u32),
    /// Detach from the current target, resuming it.
    Detach,
    /// Run a first or narrowing scan right away.
    Scan(ScanExpr),
    /// Reseed the match set with every considered byte, in the background.
    Snapshot,
    /// Check whether a background scan has finished.
    PollScan,
    /// Discard the match set without detaching.
    ResetScan,
    /// Write a value into the target.
    Write { address: usize, value: Value },
    /// Load memory around an address into the Hex View and focus it.
    FocusHexView(usize),
    /// Move the Hex View cursor by this many bytes, within the loaded bytes.
    MoveHexCursor(isize),
    /// Set the Hex View's in-progress byte edit.
    SetHexEditInput(String),
    /// Write the in-progress byte edit at the Hex View cursor.
    CommitHexEdit,
    /// Record a new cheat.
    AddCheat { address: usize, description: String, value: Value },
    /// Remove a cheat by index.
    RemoveCheat(usize),
    /// Flip a cheat's freeze flag.
    ToggleFreeze(usize),
    /// Write a new value for a cheat, recording it on success.
    EditCheatValue { index: usize, value: Value },
    /// Start editing a cheat's value, prefilled with its current value.
    BeginEditCheatValue(usize),
    /// Set the in-progress cheat value edit.
    SetCheatValueInput(String),
    /// Apply the in-progress cheat value edit.
    ConfirmCheatValueEdit,
    /// Save the cheat list to the known path, or ask for one.
    SaveCheatList,
    /// Ask for a path to load a cheat list from.
    LoadCheatList,
    /// Set the path prompt's input.
    SetPathInput(String),
    /// Save or load with the path prompt's input.
    ConfirmPathPrompt,
    /// Periodic tick: rewrite every frozen cheat.
    Tick,
    /// Re-read the list of running processes.
    RefreshProcessList,
    /// Set the Process Picker's filter.
    FilterProcesses(String),
    /// Cycle the Scan Panel's data type.
    CycleScanDataType,
    /// Cycle the Scan Panel's match type.
    CycleScanMatchType,
    /// Set the Scan Panel's value input.
    SetScanInput(String),
    /// Scan (first or narrowing) with the Scan Panel's form, in the background.
    RunScan,
    /// Scan from scratch with the Scan Panel's form, in the background.
    NewScan,
    /// Re-read every match's value, in the background.
    RefreshMatches,
    /// Cycle the Match View's sort column.
    CycleMatchSort,
    /// Set the Match View's filter.
    FilterMatches(String),
    /// Enter or leave the focused panel's text editing.
    ToggleSearch,
    /// Move the focused panel's selection forward.
    SelectNext,
    /// Move the focused panel's selection backward.
    SelectPrev,
    /// Focus the next panel.
    FocusNext,
    /// Focus the previous panel.
    FocusPrev,
    /// Focus the panel next to the focused one on the grid.
    FocusDirection(Direction),
    /// Toggle between the grid and the focused panel alone.
    ToggleExpand,
    /// Toggle the help overlay.
    ShowHelp,
    /// Close a popup or prompt, cancel a scan, or leave text editing, whichever comes first.
    Dismiss,
    /// Close the error dialog.
    DismissError,
    /// Ask to quit.
    Quit,
}

/// A background job on the session.
#[derive(Debug, Clone, PartialEq)]
pub enum ScanJob {
    /// A first or narrowing scan.
    Run(ScanExpr),
    /// A scan from scratch.
    New(ScanExpr),
    /// Every considered byte recorded.
    Snapshot,
    /// Every match's value re-read.
    Refresh,
}

/// Work outside this library that a message calls for; its outcome goes back through the
/// `AppState` method named in each variant's description.
#[derive(Debug, Clone, PartialEq)]
pub enum Effect {
    /// Nothing to do.
    Nothing,
    /// Attach to the pid ([`AppState::attach_done`]).
    Attach(u32),
    /// Detach the session ([`AppState::detach_done`]).
    Detach,
    /// Scan on the session right away ([`AppState::scan_done`]).
    Scan(ScanExpr),
    /// Stop the target and start the job in the background ([`AppState::scan_started`]).
    StartScan(ScanJob),
    /// Check the background job ([`AppState::scan_polled`]).
    PollScan,
    /// Ask the background job to stop early.
    CancelScan,
    /// Discard the session's matches ([`AppState::matches_reset`]).
    ResetMatches,
    /// Write the value at the address ([`AppState::write_done`]).
    Write { address: usize, value: Value },
    /// Read `len` bytes from `base` for the Hex View on `address`, the first of two tries when
    /// `first` ([`AppState::hex_read`]).
    ReadHex { address: usize, base: usize, len: usize, first: bool },
    /// Write one byte at the address ([`AppState::hex_byte_written`]).
    WriteHexByte { address: usize, byte: u8 },
    /// Write a cheat's new value at its address ([`AppState::cheat_written`]).
    WriteCheat { index: usize, address: usize, value: Value },
    /// Parse the text as a number for a cheat's new value ([`AppState::cheat_number_parsed`]).
    ParseCheatNumber { index: usize, input: String },
    /// Format the float value of the cheat being edited into its input
    /// ([`Msg::SetCheatValueInput`]).
    FormatCheatValue { index: usize },
    /// Parse the texts as numbers for the scan form ([`AppState::scan_numbers_parsed`]).
    ParseScanNumbers { new_scan: bool, data_type: ScanDataType, match_type: MatchType, texts: Vec<String> },
    /// Save the cheat list to the path ([`AppState::cheats_saved`]).
    SaveCheats(String),
    /// Load a cheat list from the path ([`AppState::cheats_loaded`]).
    LoadCheats(String),
    /// Write each value at its address, ignoring failures.
    WriteFrozen(Vec<(usize, Value)>),
    /// Read the list of running processes ([`AppState::processes_listed`]).
    ListProcesses,
}

/// What checking a background job found.
#[derive(Debug, PartialEq)]
pub enum PollOutcome {
    /// Still running.
    Pending,
    /// Finished with this match count, or this error text.
    Finished(Result<usize, String>),
    /// The job ended without reporting.
    Lost,
}

/// The front end's state.
#[derive(Debug)]
pub struct AppState {
    attached: Option<AttachedProcess>,
    has_session: bool,
    scanning: bool,
    cheats: Vec<CheatEntry>,
    cheat_selected: usize,
    cheat_value_input: String,
    cheat_editing_index: Option<usize>,
    cheat_list_path: Option<String>,
    path_prompt: Option<PathPromptKind>,
    path_input: String,
    processes: Vec<ProcessEntry>,
    process_filter: String,
    process_selected: usize,
    search_active: bool,
    scan_data_type: ScanDataType,
    scan_match_type: MatchType,
    scan_input: String,
    match_sort: MatchSortColumn,
    match_filter: String,
    match_selected: usize,
    visible_matches: usize,
    hex_buffer: Vec<u8>,
    hex_base_address: usize,
    hex_cursor: usize,
    hex_edit_input: String,
    hex_view_buffer_len: usize,
    focus: Focus,
    expanded: bool,
    help_visible: bool,
    quit: bool,
    error_dialog_visible: bool,
    status: Option<Status>,
}

/// The mathematical form of an [`AppState`].
pub struct AppView {
    pub attached: Option<(u32, Seq<char>)>,
    pub has_session: bool,
    pub scanning: bool,
    pub cheats: Seq<CheatView>,
    pub cheat_selected: usize,
    pub cheat_value_input: Seq<char>,
    pub cheat_editing_index: Option<usize>,
    pub cheat_list_path: Option<Seq<char>>,
    pub path_prompt: Option<PathPromptKind>,
    pub path_input: Seq<char>,
    pub processes: Seq<(u32, Seq<char>)>,
    pub process_filter: Seq<char>,
    pub process_selected: usize,
    pub search_active: bool,
    pub scan_data_type: ScanDataType,
    pub scan_match_type: MatchType,
    pub scan_input: Seq<char>,
    pub match_sort: MatchSortColumn,
    pub match_filter: Seq<char>,
    pub match_selected: usize,
    pub visible_matches: usize,
    pub hex_buffer: Seq<u8>,
    pub hex_base_address: usize,
    pub hex_cursor: usize,
    pub hex_edit_input: Seq<char>,
    pub hex_view_buffer_len: usize,
    pub focus: Focus,
    pub expanded: bool,
    pub help_visible: bool,
    pub quit: bool,
    pub error_dialog_visible: bool,
    pub status: Option<StatusView>,
}

impl View for AppState {
    type V = AppView;

    closed spec fn view(&self) -> AppView {
        AppView {
            attached: match self.attached {
                Some(a) => Some((a.pid, a.name@)),
                None => None,
            },
            has_session: self.has_session,
            scanning: self.scanning,
            cheats: self.cheats@.map_values(|c: CheatEntry| cheat_view(c)),
            cheat_selected: self.cheat_selected,
            cheat_value_input: self.cheat_value_input@,
            cheat_editing_index: self.cheat_editing_index,
            cheat_list_path: match self.cheat_list_path {
                Some(p) => Some(p@),
                None => None,
            },
            path_prompt: self.path_prompt,
            path_input: self.path_input@,
            processes: self.processes@.map_values(|p: ProcessEntry| (p.pid, p.name@)),
            process_filter: self.process_filter@,
            process_selected: self.process_selected,
            search_active: self.search_active,
            scan_data_type: self.scan_data_type,
            scan_match_type: self.scan_match_type,
            scan_input: self.scan_input@,
            match_sort: self.match_sort,
            match_filter: self.match_filter@,
            match_selected: self.match_selected,
            visible_matches: self.visible_matches,
            hex_buffer: self.hex_buffer@,
            hex_base_address: self.hex_base_address,
            hex_cursor: self.hex_cursor,
            hex_edit_input: self.hex_edit_input@,
            hex_view_buffer_len: self.hex_view_buffer_len,
            focus: self.focus,
            expanded: self.expanded,
            help_visible: self.help_visible,
            quit: self.quit,
            error_dialog_visible: self.error_dialog_visible,
            status: match self.status {
                Some(st) => Some(st.spec_view()),
                None => None,
            },
        }
    }
}

/// The state a fresh front end starts in: nothing attached, no cheats or processes, the
/// Process Picker focused, an `i32` equal-to Scan Panel, a 256-byte Hex View, no status.
pub open spec fn initial_view() -> AppView {
    AppView {
        attached: None,
        has_session: false,
        scanning: false,
        cheats: Seq::empty(),
        cheat_selected: 0,
        cheat_value_input: Seq::empty(),
        cheat_editing_index: None,
        cheat_list_path: None,
        path_prompt: None,
        path_input: Seq::empty(),
        processes: Seq::empty(),
        process_filter: Seq::empty(),
        process_selected: 0,
        search_active: false,
        scan_data_type: ScanDataType::Integer32,
        scan_match_type: MatchType::EqualTo,
        scan_input: Seq::empty(),
        match_sort: MatchSortColumn::Address,
        match_filter: Seq::empty(),
        match_selected: 0,
        visible_matches: 0,
        hex_buffer: Seq::empty(),
        hex_base_address: 0,
        hex_cursor: 0,
        hex_edit_input: Seq::empty(),
        hex_view_buffer_len: 256,
        focus: Focus::ProcessPicker,
        expanded: false,
        help_visible: false,
        quit: false,
        error_dialog_visible: false,
        status: None,
    }
}

impl Default for AppState {
    /// The state a fresh front end starts in (see [`initial_view`]).
    fn default() -> (r: AppState)
        ensures
            r@ == initial_view(),
    {
        let r = AppState {
            attached: None,
            has_session: false,
            scanning: false,
            cheats: Vec::new(),
            cheat_selected: 0,
            cheat_value_input: String::new(),
            cheat_editing_index: None,
            cheat_list_path: None,
            path_prompt: None,
            path_input: String::new(),
            processes: Vec::new(),
            process_filter: String::new(),
            process_selected: 0,
            search_active: false,
            scan_data_type: ScanDataType::Integer32,
            scan_match_type: MatchType::EqualTo,
            scan_input: String::new(),
            match_sort: MatchSortColumn::Address,
            match_filter: String::new(),
            match_selected: 0,
            visible_matches: 0,
            hex_buffer: Vec::new(),
            hex_base_address: 0,
            hex_cursor: 0,
            hex_edit_input: String::new(),
            hex_view_buffer_len: 256,
            focus: Focus::ProcessPicker,
            expanded: false,
            help_visible: false,
            quit: false,
            error_dialog_visible: false,
            status: None,
        };
        proof {
            assert(r@.cheats =~= Seq::<CheatView>::empty());
            assert(r@.processes =~= Seq::<(u32, Seq<char>)>::empty());
            assert(r@ =~= initial_view());
        }
        r
    }
}


/// `str::to_lowercase`: the Unicode lowercase of `s`.
pub uninterp spec fn lowercase(s: Seq<char>) -> Seq<char>;

/// `str::to_lowercase`.
#[verifier::external_body]
pub(crate) fn to_lowercase(s: &str) -> (r: String)
    ensures
        r@ == lowercase(s@),
{
    s.to_lowercase()
}

/// `needle` occurs in `hay`.
pub open spec fn occurs_in(needle: Seq<char>, hay: Seq<char>) -> bool {
    exists|i: int| 0 <= i <= hay.len() - needle.len() && #[trigger] hay.subrange(i, i + needle.len()) == needle
}

/// Whether `needle` occurs in `hay`.
pub fn occurs(needle: &str, hay: &str) -> (r: bool)
    ensures
        r == occurs_in(needle@, hay@),
{
    let n = crate::text::chars_of(needle);
    let h = crate::text::chars_of(hay);
    if n.len() > h.len() {
        return false;
    }
    let last = h.len() - n.len();
    let hl = h.len();
    let mut i: usize = 0;
    while i <= last
        invariant
            hl == h@.len(),
            n@ == needle@,
            h@ == hay@,
            last == h@.len() - n@.len(),
            0 <= i <= last + 1,
            forall|k: int| 0 <= k < i ==> #[trigger] h@.subrange(k, k + n@.len()) != n@,
        decreases last + 1 - i,
    {
        let mut j: usize = 0;
        let mut same = true;
        while j < n.len()
            invariant
                hl == h@.len(),
                n@ == needle@,
                h@ == hay@,
                i + n@.len() <= h@.len(),
                0 <= j <= n@.len(),
                same == (forall|m: int| 0 <= m < j ==> h@[i + m] == n@[m]),
            decreases n@.len() - j,
        {
            if h[i + j] != n[j] {
                same = false;
            }
            j = j + 1;
        }
        if same {
            proof {
                assert(h@.subrange(i as int, i + n@.len()) =~= n@);
            }
            return true;
        }
        proof {
            assert(h@.subrange(i as int, i + n@.len()) != n@) by {
                let m = choose|m: int| 0 <= m < n@.len() && h@[i + m] != n@[m];
                assert(h@.subrange(i as int, i + n@.len())[m] != n@[m]);
            }
        }
        i = i + 1;
    }
    false
}

/// Whether the Process Picker shows process `p` under `filter`: every process under an empty
/// filter; otherwise those whose lowercased name, or whose pid in decimal, contains the
/// lowercased filter.
pub open spec fn process_shown(p: (u32, Seq<char>), filter: Seq<char>) -> bool {
    filter.len() == 0 || occurs_in(lowercase(filter), lowercase(p.1)) || occurs_in(
        lowercase(filter),
        decimal_text(p.0 as nat),
    )
}

/// The indices of the first `n` processes that the Process Picker shows under `filter`.
pub open spec fn shown_indices(ps: Seq<(u32, Seq<char>)>, filter: Seq<char>, n: int) -> Seq<usize>
    decreases n,
{
    if n <= 0 {
        Seq::empty()
    } else if process_shown(ps[n - 1], filter) {
        shown_indices(ps, filter, n - 1).push((n - 1) as usize)
    } else {
        shown_indices(ps, filter, n - 1)
    }
}

/// The indices of the processes the Process Picker shows, in order.
pub open spec fn shown(s: AppView) -> Seq<usize> {
    shown_indices(s.processes, s.process_filter, s.processes.len() as int)
}

impl AppState {
    /// The focused panel.
    pub fn focus(&self) -> (r: Focus)
        ensures
            r == self@.focus,
    {
        self.focus
    }

    /// Whether only the focused panel shows.
    pub fn expanded(&self) -> (r: bool)
        ensures
            r == self@.expanded,
    {
        self.expanded
    }

    /// Whether the help overlay shows.
    pub fn help_visible(&self) -> (r: bool)
        ensures
            r == self@.help_visible,
    {
        self.help_visible
    }

    /// Whether quitting was asked for.
    pub fn should_quit(&self) -> (r: bool)
        ensures
            r == self@.quit,
    {
        self.quit
    }

    /// Whether the error dialog shows.
    pub fn error_dialog_visible(&self) -> (r: bool)
        ensures
            r == self@.error_dialog_visible,
    {
        self.error_dialog_visible
    }

    /// The last status message.
    pub fn status(&self) -> (r: Option<&Status>)
        ensures
            r is None <==> self@.status is None,
            r matches Some(st) ==> self@.status == Some(st.spec_view()),
    {
        self.status.as_ref()
    }

    /// Whether a session is available to work on (attached, and no background job holds it).
    pub fn has_session(&self) -> (r: bool)
        ensures
            r == self@.has_session,
    {
        self.has_session
    }

    /// Whether a background job holds the session.
    pub fn is_scanning(&self) -> (r: bool)
        ensures
            r == self@.scanning,
    {
        self.scanning
    }

    /// The attached target, if any.
    pub fn attached(&self) -> (r: Option<&AttachedProcess>)
        ensures
            r is None <==> self@.attached is None,
            r matches Some(a) ==> self@.attached == Some((a.pid, a.name@)),
    {
        self.attached.as_ref()
    }

    /// The running processes last listed.
    pub fn processes(&self) -> (r: &[ProcessEntry])
        ensures
            r@.map_values(|p: ProcessEntry| (p.pid, p.name@)) == self@.processes,
    {
        self.processes.as_slice()
    }

    /// The Process Picker's filter.
    pub fn process_filter(&self) -> (r: &str)
        ensures
            r@ == self@.process_filter,
    {
        self.process_filter.as_str()
    }

    /// Whether the focused panel's text editing is on.
    pub fn search_active(&self) -> (r: bool)
        ensures
            r == self@.search_active,
    {
        self.search_active
    }

    /// The Process Picker's selection, among the processes it shows.
    pub fn process_selected(&self) -> (r: usize)
        ensures
            r == self@.process_selected,
    {
        self.process_selected
    }

    /// The Scan Panel's data type.
    pub fn scan_data_type(&self) -> (r: ScanDataType)
        ensures
            r == self@.scan_data_type,
    {
        self.scan_data_type
    }

    /// The Scan Panel's match type.
    pub fn scan_match_type(&self) -> (r: MatchType)
        ensures
            r == self@.scan_match_type,
    {
        self.scan_match_type
    }

    /// The Scan Panel's value input.
    pub fn scan_input(&self) -> (r: &str)
        ensures
            r@ == self@.scan_input,
    {
        self.scan_input.as_str()
    }

    /// The Match View's sort column.
    pub fn match_sort(&self) -> (r: MatchSortColumn)
        ensures
            r == self@.match_sort,
    {
        self.match_sort
    }

    /// The Match View's filter.
    pub fn match_filter(&self) -> (r: &str)
        ensures
            r@ == self@.match_filter,
    {
        self.match_filter.as_str()
    }

    /// The Match View's selection, among the matches it shows.
    pub fn match_selected(&self) -> (r: usize)
        ensures
            r == self@.match_selected,
    {
        self.match_selected
    }

    /// Records how many matches the Match View shows under its filter; the Match View's
    /// selection wraps within that many.
    pub fn set_visible_match_count(&mut self, count: usize)
        ensures
            final(self)@ == (AppView { visible_matches: count, ..old(self)@ }),
    {
        self.visible_matches = count;
    }

    /// The bytes the Hex View holds.
    pub fn hex_buffer(&self) -> (r: &[u8])
        ensures
            r@ == self@.hex_buffer,
    {
        self.hex_buffer.as_slice()
    }

    /// The address the Hex View's first byte was read from.
    pub fn hex_base_address(&self) -> (r: usize)
        ensures
            r == self@.hex_base_address,
    {
        self.hex_base_address
    }

    /// The Hex View cursor's offset.
    pub fn hex_cursor(&self) -> (r: usize)
        ensures
            r == self@.hex_cursor,
    {
        self.hex_cursor
    }

    /// The address under the Hex View cursor, or `None` when no byte is under it.
    pub fn hex_cursor_address(&self) -> (r: Option<usize>)
        ensures
            r == (if self@.hex_cursor < self@.hex_buffer.len() && self@.hex_base_address
                + self@.hex_cursor <= usize::MAX {
                Some((self@.hex_base_address + self@.hex_cursor) as usize)
            } else {
                None
            }),
    {
        if self.hex_cursor < self.hex_buffer.len() {
            self.hex_base_address.checked_add(self.hex_cursor)
        } else {
            None
        }
    }

    /// The Hex View's in-progress byte edit.
    pub fn hex_edit_input(&self) -> (r: &str)
        ensures
            r@ == self@.hex_edit_input,
    {
        self.hex_edit_input.as_str()
    }

    /// How many bytes the Hex View loads.
    pub fn hex_view_buffer_len(&self) -> (r: usize)
        ensures
            r == self@.hex_view_buffer_len,
    {
        self.hex_view_buffer_len
    }

    /// The recorded cheats.
    pub fn cheats(&self) -> (r: &[CheatEntry])
        ensures
            r@.map_values(|c: CheatEntry| cheat_view(c)) == self@.cheats,
    {
        self.cheats.as_slice()
    }

    /// The Cheat View's selection.
    pub fn cheat_selected(&self) -> (r: usize)
        ensures
            r == self@.cheat_selected,
    {
        self.cheat_selected
    }

    /// The selected cheat, if the selection is in range.
    pub fn selected_cheat(&self) -> (r: Option<&CheatEntry>)
        ensures
            r is Some <==> self@.cheat_selected < self@.cheats.len(),
            r matches Some(c) ==> cheat_view(*c) == self@.cheats[self@.cheat_selected as int],
    {
        if self.cheat_selected < self.cheats.len() {
            Some(&self.cheats[self.cheat_selected])
        } else {
            None
        }
    }

    /// The in-progress cheat value edit.
    pub fn cheat_value_input(&self) -> (r: &str)
        ensures
            r@ == self@.cheat_value_input,
    {
        self.cheat_value_input.as_str()
    }

    /// The path the cheat list was last saved to or loaded from.
    pub fn cheat_list_path(&self) -> (r: Option<&str>)
        ensures
            r is None <==> self@.cheat_list_path is None,
            r matches Some(p) ==> self@.cheat_list_path == Some(p@),
    {
        match &self.cheat_list_path {
            Some(p) => Some(p.as_str()),
            None => None,
        }
    }

    /// What the path prompt is open for, if it is open.
    pub fn path_prompt(&self) -> (r: Option<PathPromptKind>)
        ensures
            r == self@.path_prompt,
    {
        self.path_prompt
    }

    /// The path prompt's input.
    pub fn path_input(&self) -> (r: &str)
        ensures
            r@ == self@.path_input,
    {
        self.path_input.as_str()
    }

    /// The indices of the processes the Process Picker shows, in order.
    pub fn filtered_process_indices(&self) -> (r: Vec<usize>)
        ensures
            r@ == shown(self@),
    {
        let ghost ps = self@.processes;
        let empty_filter = crate::text::chars_of(self.process_filter.as_str()).len() == 0;
        proof {
            assert(ps.len() == self.processes@.len());
        }
        let needle = to_lowercase(self.process_filter.as_str());
        let mut out: Vec<usize> = Vec::new();
        let mut i: usize = 0;
        while i < self.processes.len()
            invariant
                0 <= i <= self.processes@.len(),
                ps == self@.processes,
                ps.len() == self.processes@.len(),
                empty_filter == (self@.process_filter.len() == 0),
                needle@ == lowercase(self@.process_filter),
                out@ == shown_indices(ps, self@.process_filter, i as int),
            decreases self.processes@.len() - i,
        {
            let p = &self.processes[i];
            proof {
                assert(ps[i as int] == (p.pid, p.name@));
            }
            let keep = if empty_filter {
                true
            } else {
                let name = to_lowercase(p.name.as_str());
                let pid_text = crate::text::decimal_string(p.pid as u128);
                occurs(needle.as_str(), name.as_str()) || occurs(needle.as_str(), pid_text.as_str())
            };
            if keep {
                out.push(i);
            }
            i = i + 1;
        }
        out
    }

    /// The processes the Process Picker shows, in order.
    pub fn filtered_processes(&self) -> (r: Vec<ProcessEntry>)
        ensures
            r@.len() == shown(self@).len(),
            forall|j: int|
                0 <= j < r@.len() ==> ((#[trigger] r@[j]).pid, r@[j].name@) == self@.processes[shown(
                    self@,
                )[j] as int],
    {
        let idx = self.filtered_process_indices();
        proof {
            lemma_shown_in_range(self@.processes, self@.process_filter, self@.processes.len() as int);
            assert(self@.processes.len() == self.processes@.len());
        }
        let mut out: Vec<ProcessEntry> = Vec::new();
        let mut j: usize = 0;
        while j < idx.len()
            invariant
                0 <= j <= idx@.len(),
                idx@ == shown(self@),
                self@.processes.len() == self.processes@.len(),
                forall|k: int| 0 <= k < idx@.len() ==> #[trigger] idx@[k] < self@.processes.len(),
                out@.len() == j,
                forall|k: int|
                    0 <= k < j ==> ((#[trigger] out@[k]).pid, out@[k].name@) == self@.processes[idx@[k] as int],
            decreases idx@.len() - j,
        {
            let p = &self.processes[idx[j]];
            proof {
                assert(self@.processes[idx@[j as int] as int] == (p.pid, p.name@));
            }
            out.push(ProcessEntry { pid: p.pid, name: p.name.clone() });
            j = j + 1;
        }
        out
    }

    /// The process the Process Picker has selected, if the selection is in range.
    pub fn selected_process(&self) -> (r: Option<ProcessEntry>)
        ensures
            r is Some <==> self@.process_selected < shown(self@).len(),
            r matches Some(p) ==> (p.pid, p.name@) == self@.processes[shown(
                self@,
            )[self@.process_selected as int] as int],
    {
        let idx = self.filtered_process_indices();
        proof {
            lemma_shown_in_range(self@.processes, self@.process_filter, self@.processes.len() as int);
            assert(self@.processes.len() == self.processes@.len());
        }
        if self.process_selected < idx.len() {
            let p = &self.processes[idx[self.process_selected]];
            proof {
                assert(self@.processes[idx@[self.process_selected as int] as int] == (p.pid, p.name@));
            }
            Some(ProcessEntry { pid: p.pid, name: p.name.clone() })
        } else {
            None
        }
    }
}

/// Every shown index is the index of a listed process.
pub proof fn lemma_shown_in_range(ps: Seq<(u32, Seq<char>)>, filter: Seq<char>, n: int)
    requires
        0 <= n <= ps.len(),
    ensures
        forall|k: int|
            0 <= k < shown_indices(ps, filter, n).len() ==> #[trigger] shown_indices(ps, filter, n)[k]
                < n,
        shown_indices(ps, filter, n).len() <= n,
    decreases n,
{
    if n > 0 {
        lemma_shown_in_range(ps, filter, n - 1);
    }
}


/// `s` showing a status message; an error also opens the error dialog.
pub open spec fn with_status(s: AppView, level: StatusLevel, text: Seq<char>) -> AppView {
    AppView {
        status: Some(StatusView { level, text }),
        error_dialog_visible: s.error_dialog_visible || level == StatusLevel::Error,
        ..s
    }
}

/// What is reported when work needs the session and none is available: a running background
/// job holds it, or nothing is attached.
pub open spec fn no_session_text(s: AppView) -> Seq<char> {
    if s.scanning {
        "a scan is currently running"@
    } else {
        "no process is attached"@
    }
}

/// The message for a cheat index past the end of the list.
pub open spec fn out_of_range_text(index: usize) -> Seq<char> {
    "cheat index "@ + decimal_text(index as nat) + " is out of range"@
}

/// `value` of the width of `template`, taken from the parsed number `n`; none when `n` does not
/// fit that width, and none for byte and string templates.
pub open spec fn width_value(template: ValueView, n: NumberValue) -> Option<ValueView> {
    match template {
        ValueView::U8(_) => if n.u8 is Some { Some(ValueView::U8(n.u8->0)) } else { None },
        ValueView::I8(_) => if n.i8 is Some { Some(ValueView::I8(n.i8->0)) } else { None },
        ValueView::U16(_) => if n.u16 is Some { Some(ValueView::U16(n.u16->0)) } else { None },
        ValueView::I16(_) => if n.i16 is Some { Some(ValueView::I16(n.i16->0)) } else { None },
        ValueView::U32(_) => if n.u32 is Some { Some(ValueView::U32(n.u32->0)) } else { None },
        ValueView::I32(_) => if n.i32 is Some { Some(ValueView::I32(n.i32->0)) } else { None },
        ValueView::U64(_) => if n.u64 is Some { Some(ValueView::U64(n.u64->0)) } else { None },
        ValueView::I64(_) => if n.i64 is Some { Some(ValueView::I64(n.i64->0)) } else { None },
        ValueView::F32(_) => if n.f32_bits is Some { Some(ValueView::F32(n.f32_bits->0)) } else { None },
        ValueView::F64(_) => if n.f64_bits is Some { Some(ValueView::F64(n.f64_bits->0)) } else { None },
        _ => None,
    }
}

/// The value of `template`'s width that `n` gives (see [`width_value`]).
pub fn value_of_width(template: &Value, n: &NumberValue) -> (r: Option<Value>)
    ensures
        r is Some <==> width_value(template@, *n) is Some,
        r matches Some(v) ==> v@ == width_value(template@, *n)->0,
{
    match template {
        Value::U8(_) => match n.u8 { Some(x) => Some(Value::U8(x)), None => None },
        Value::I8(_) => match n.i8 { Some(x) => Some(Value::I8(x)), None => None },
        Value::U16(_) => match n.u16 { Some(x) => Some(Value::U16(x)), None => None },
        Value::I16(_) => match n.i16 { Some(x) => Some(Value::I16(x)), None => None },
        Value::U32(_) => match n.u32 { Some(x) => Some(Value::U32(x)), None => None },
        Value::I32(_) => match n.i32 { Some(x) => Some(Value::I32(x)), None => None },
        Value::U64(_) => match n.u64 { Some(x) => Some(Value::U64(x)), None => None },
        Value::I64(_) => match n.i64 { Some(x) => Some(Value::I64(x)), None => None },
        Value::F32(_) => match n.f32_bits { Some(x) => Some(Value::F32(x)), None => None },
        Value::F64(_) => match n.f64_bits { Some(x) => Some(Value::F64(x)), None => None },
        _ => None,
    }
}

/// Whether `v` is a float.
pub open spec fn is_float(v: ValueView) -> bool {
    v is F32 || v is F64
}

/// The `(address, value)` of every frozen cheat, in order.
pub open spec fn frozen_writes(cs: Seq<CheatView>) -> Seq<(usize, ValueView)>
    decreases cs.len(),
{
    if cs.len() == 0 {
        Seq::empty()
    } else if cs.last().frozen {
        frozen_writes(cs.drop_last()).push((cs.last().address, cs.last().value))
    } else {
        frozen_writes(cs.drop_last())
    }
}

/// `a - b`, or 0 when `b` is larger.
pub open spec fn sat_sub(a: usize, b: usize) -> usize {
    if a >= b {
        (a - b) as usize
    } else {
        0
    }
}

/// The Hex View cursor moved by `delta` within `len` loaded bytes.
pub open spec fn moved_cursor(cursor: usize, delta: isize, len: nat) -> usize {
    if len == 0 {
        cursor
    } else if cursor + delta < 0 {
        0
    } else if cursor + delta > len - 1 {
        (len - 1) as usize
    } else {
        (cursor + delta) as usize
    }
}

impl AppState {
    /// Shows a status message; an error also opens the error dialog.
    fn set_status(&mut self, level: StatusLevel, text: String)
        ensures
            final(self)@ == with_status(old(self)@, level, text@),
    {
        if level == StatusLevel::Error {
            self.error_dialog_visible = true;
        }
        self.status = Some(Status { level, text });
    }

    /// Reports that the work needs the session and none is available.
    fn report_no_session(&mut self)
        ensures
            final(self)@ == with_status(old(self)@, StatusLevel::Error, no_session_text(old(self)@)),
    {
        let text = if self.scanning {
            String::from_str("a scan is currently running")
        } else {
            String::from_str("no process is attached")
        };
        proof {
            reveal_strlit("a scan is currently running");
            reveal_strlit("no process is attached");
        }
        self.set_status(StatusLevel::Error, text);
    }

    /// Reports a cheat index past the end of the list.
    fn report_out_of_range(&mut self, index: usize)
        ensures
            final(self)@ == with_status(old(self)@, StatusLevel::Error, out_of_range_text(index)),
    {
        let mut text = String::from_str("cheat index ");
        let d = crate::text::decimal_string(index as u128);
        text.append(d.as_str());
        text.append(" is out of range");
        self.set_status(StatusLevel::Error, text);
    }

    /// Starts a background job on the session, or reports that there is none.
    fn spawn(&mut self, job: ScanJob) -> (e: Effect)
        ensures
            old(self)@.has_session ==> final(self)@ == old(self)@ && e == Effect::StartScan(job),
            !old(self)@.has_session ==> final(self)@ == with_status(
                old(self)@,
                StatusLevel::Error,
                no_session_text(old(self)@),
            ) && e == Effect::Nothing,
    {
        if self.has_session {
            Effect::StartScan(job)
        } else {
            self.report_no_session();
            Effect::Nothing
        }
    }

    /// Writes a new value for cheat `index`, or reports why not.
    fn edit_cheat(&mut self, index: usize, value: Value) -> (e: Effect)
        ensures
            index >= old(self)@.cheats.len() ==> final(self)@ == with_status(
                old(self)@,
                StatusLevel::Error,
                out_of_range_text(index),
            ) && e == Effect::Nothing,
            index < old(self)@.cheats.len() && !old(self)@.has_session ==> final(self)@
                == with_status(old(self)@, StatusLevel::Error, no_session_text(old(self)@)) && e
                == Effect::Nothing,
            index < old(self)@.cheats.len() && old(self)@.has_session ==> final(self)@ == old(self)@
                && e == (Effect::WriteCheat {
                    index,
                    address: old(self)@.cheats[index as int].address,
                    value,
                }),
    {
        if index >= self.cheats.len() {
            self.report_out_of_range(index);
            return Effect::Nothing;
        }
        if !self.has_session {
            self.report_no_session();
            return Effect::Nothing;
        }
        Effect::WriteCheat { index, address: self.cheats[index].address, value }
    }
}


/// `s` after leaving text editing in the focused panel, with that panel's field cleared.
pub open spec fn search_cleared(s: AppView) -> AppView {
    match s.focus {
        Focus::ProcessPicker => AppView { process_filter: Seq::empty(), process_selected: 0, ..s },
        Focus::ScanPanel => AppView { scan_input: Seq::empty(), ..s },
        Focus::MatchView => AppView { match_filter: Seq::empty(), match_selected: 0, ..s },
        Focus::CheatView => AppView { cheat_value_input: Seq::empty(), cheat_editing_index: None, ..s },
        Focus::HexView => s,
    }
}

/// What dismissing does: closes the help overlay, else the path prompt, else asks a running
/// background job to stop, else clears a Hex View byte edit, else leaves text editing (clearing
/// the focused panel's field), else nothing.
pub open spec fn dismiss_post(s: AppView, t: AppView, e: Effect) -> bool {
    if s.help_visible {
        t == AppView { help_visible: false, ..s } && e == Effect::Nothing
    } else if s.path_prompt is Some {
        t == AppView { path_prompt: None, path_input: Seq::empty(), ..s } && e == Effect::Nothing
    } else if s.scanning {
        t == with_status(s, StatusLevel::Info, "cancelling scan…"@) && e == Effect::CancelScan
    } else if s.focus == Focus::HexView && s.hex_edit_input.len() > 0 {
        t == AppView { hex_edit_input: Seq::empty(), ..s } && e == Effect::Nothing
    } else if s.search_active {
        t == search_cleared(AppView { search_active: false, ..s }) && e == Effect::Nothing
    } else {
        t == s && e == Effect::Nothing
    }
}

/// What moving the focused panel's selection does: it wraps within the shown processes, the
/// shown matches or the cheats; other panels have no selection.
pub open spec fn select_post(s: AppView, forward: bool) -> AppView {
    match s.focus {
        Focus::ProcessPicker => AppView {
            process_selected: wrapped(s.process_selected, shown(s).len() as usize, forward),
            ..s
        },
        Focus::MatchView => AppView {
            match_selected: wrapped(s.match_selected, s.visible_matches, forward),
            ..s
        },
        Focus::CheatView => AppView {
            cheat_selected: wrapped(s.cheat_selected, s.cheats.len() as usize, forward),
            ..s
        },
        _ => s,
    }
}

/// What committing the Hex View byte edit does: the edit is cleared; an empty edit, a edit that
/// is not a hex byte, no byte under the cursor, or no session is reported; otherwise the byte is
/// written at the cursor's address.
pub open spec fn commit_post(s: AppView, t: AppView, e: Effect) -> bool {
    let input = s.hex_edit_input;
    let s1 = AppView { hex_edit_input: Seq::empty(), ..s };
    let has_byte = s.hex_cursor < s.hex_buffer.len() && s.hex_base_address + s.hex_cursor
        <= usize::MAX;
    if input.len() == 0 {
        t == with_status(s1, StatusLevel::Error, "no byte value entered"@) && e == Effect::Nothing
    } else if crate::text::radix_parse(input, 16, 255) is None {
        t == with_status(s1, StatusLevel::Error, debug_quote(input) + " is not a valid hex byte"@)
            && e == Effect::Nothing
    } else if !s.has_session {
        t == with_status(s1, StatusLevel::Error, no_session_text(s1)) && e == Effect::Nothing
    } else if !has_byte {
        t == with_status(s1, StatusLevel::Error, "hex view has no bytes loaded"@) && e
            == Effect::Nothing
    } else {
        t == s1 && e == (Effect::WriteHexByte {
            address: (s.hex_base_address + s.hex_cursor) as usize,
            byte: crate::text::radix_parse(input, 16, 255)->0 as u8,
        })
    }
}

/// What asking to write `v` into cheat `i` does (see [`AppState::edit_cheat`]).
pub open spec fn edit_post(s: AppView, i: usize, v: ValueView, t: AppView, e: Effect) -> bool {
    if i >= s.cheats.len() {
        t == with_status(s, StatusLevel::Error, out_of_range_text(i)) && e == Effect::Nothing
    } else if !s.has_session {
        t == with_status(s, StatusLevel::Error, no_session_text(s)) && e == Effect::Nothing
    } else {
        t == s && (e matches Effect::WriteCheat { index, address, value } && index == i && address
            == s.cheats[i as int].address && value@ == v)
    }
}

/// What applying typed-in `input` to cheat `i`, whose current value is `template`, does: bytes
/// and strings are taken as typed; an integer that reads as one is narrowed to the cheat's
/// width; anything else is handed out to be parsed as a number.
pub open spec fn cheat_input_post(
    s: AppView,
    i: usize,
    template: ValueView,
    input: Seq<char>,
    t: AppView,
    e: Effect,
) -> bool {
    match template {
        ValueView::Bytes(_) => match crate::scanform::concrete_bytes_spec(input) {
            Err(m) => t == with_status(s, StatusLevel::Error, m) && e == Effect::Nothing,
            Ok(b) => edit_post(s, i, ValueView::Bytes(b), t, e),
        },
        ValueView::Str(_) => edit_post(s, i, ValueView::Str(input), t, e),
        _ => if !is_float(template) && crate::value::int_spec(input) is Ok {
            match width_value(template, crate::value::int_spec(input)->Ok_0) {
                None => t == with_status(
                    s,
                    StatusLevel::Error,
                    "value does not fit the cheat's data width"@,
                ) && e == Effect::Nothing,
                Some(v) => edit_post(s, i, v, t, e),
            }
        } else {
            t == s && (e matches Effect::ParseCheatNumber { index, input: x } && index == i && x@
                == input)
        },
    }
}

/// What confirming the cheat value edit does: editing ends and its input is taken; with no edit
/// in progress, or an index past the end, that is reported; otherwise the input is applied (see
/// [`cheat_input_post`]).
pub open spec fn confirm_cheat_post(s: AppView, t: AppView, e: Effect) -> bool {
    match s.cheat_editing_index {
        None => t == with_status(s, StatusLevel::Error, "no cheat value is being edited"@) && e
            == Effect::Nothing,
        Some(i) => {
            let s1 = AppView {
                cheat_editing_index: None,
                search_active: false,
                cheat_value_input: Seq::empty(),
                ..s
            };
            if i >= s.cheats.len() {
                t == with_status(s1, StatusLevel::Error, out_of_range_text(i)) && e == Effect::Nothing
            } else {
                cheat_input_post(
                    s1,
                    i,
                    s.cheats[i as int].value,
                    crate::text::trim_seq(s.cheat_value_input),
                    t,
                    e,
                )
            }
        },
    }
}

/// What starting to edit cheat `i` does: its value's text is put in the edit input (a float's is
/// formatted outside and handed back), editing and text entry start.
pub open spec fn begin_edit_post(s: AppView, i: usize, t: AppView, e: Effect) -> bool {
    if i >= s.cheats.len() {
        t == with_status(s, StatusLevel::Error, out_of_range_text(i)) && e == Effect::Nothing
    } else {
        let text = crate::value::value_text(s.cheats[i as int].value);
        t == with_status(
            AppView {
                cheat_value_input: if text is Some {
                    text->0
                } else {
                    Seq::empty()
                },
                cheat_editing_index: Some(i),
                search_active: true,
                ..s
            },
            StatusLevel::Info,
            "editing cheat value — Enter to confirm, Esc to cancel"@,
        ) && e == (if text is Some {
            Effect::Nothing
        } else {
            Effect::FormatCheatValue { index: i }
        })
    }
}

/// What confirming the path prompt does: the prompt closes and its input is taken; the trimmed
/// input is the path to save to or load from.
pub open spec fn path_post(s: AppView, t: AppView, e: Effect) -> bool {
    match s.path_prompt {
        None => t == with_status(s, StatusLevel::Error, "no path is being entered"@) && e
            == Effect::Nothing,
        Some(k) => t == AppView { path_prompt: None, path_input: Seq::empty(), ..s } && match k {
            PathPromptKind::Save => e matches Effect::SaveCheats(p) && p@ == crate::text::trim_seq(
                s.path_input,
            ),
            PathPromptKind::Load => e matches Effect::LoadCheats(p) && p@ == crate::text::trim_seq(
                s.path_input,
            ),
        },
    }
}

/// `job` is the job for a finished scan form `fs` (from scratch when `new_scan`).
pub open spec fn job_matches(
    job: ScanJob,
    new_scan: bool,
    data_type: ScanDataType,
    match_type: MatchType,
    fs: crate::scanform::FormSpec,
) -> bool {
    if new_scan {
        job matches ScanJob::New(x) && crate::scanform::form_matches(
            ScanForm::Ready(x),
            data_type,
            match_type,
            fs,
        )
    } else {
        job matches ScanJob::Run(x) && crate::scanform::form_matches(
            ScanForm::Ready(x),
            data_type,
            match_type,
            fs,
        )
    }
}

/// What running the Scan Panel's form does: an unreadable form is reported; a finished one
/// starts the job on the session (or reports there is none); a form still needing numbers hands
/// their texts out to be parsed, except that with no session, integers that read as integers
/// already settle it.
pub open spec fn run_post(s: AppView, new_scan: bool, t: AppView, e: Effect) -> bool {
    let dt = s.scan_data_type;
    let mt = s.scan_match_type;
    match crate::scanform::scan_form_spec(dt, mt, s.scan_input) {
        Err(m) => t == with_status(s, StatusLevel::Error, m) && e == Effect::Nothing,
        Ok(fs) => match fs {
            crate::scanform::FormSpec::Number(x) => if !s.has_session && crate::value::int_spec(
                x,
            ) is Ok {
                t == with_status(s, StatusLevel::Error, no_session_text(s)) && e == Effect::Nothing
            } else {
                t == s && (e matches Effect::ParseScanNumbers {
                    new_scan: n,
                    data_type,
                    match_type,
                    texts,
                } && n == new_scan && data_type == dt && match_type == mt && texts@.map_values(
                    |w: String| w@,
                ) == seq![x])
            },
            crate::scanform::FormSpec::Range(a, b) => if !s.has_session && crate::value::int_spec(
                a,
            ) is Ok && crate::value::int_spec(b) is Ok {
                t == with_status(s, StatusLevel::Error, no_session_text(s)) && e == Effect::Nothing
            } else {
                t == s && (e matches Effect::ParseScanNumbers {
                    new_scan: n,
                    data_type,
                    match_type,
                    texts,
                } && n == new_scan && data_type == dt && match_type == mt && texts@.map_values(
                    |w: String| w@,
                ) == seq![a, b])
            },
            _ => if s.has_session {
                t == s && (e matches Effect::StartScan(job) && job_matches(job, new_scan, dt, mt, fs))
            } else {
                t == with_status(s, StatusLevel::Error, no_session_text(s)) && e == Effect::Nothing
            },
        },
    }
}

impl AppState {
    /// Dismisses whatever comes first (see [`dismiss_post`]).
    fn dismiss(&mut self) -> (e: Effect)
        ensures
            dismiss_post(old(self)@, final(self)@, e),
    {
        if self.help_visible {
            self.help_visible = false;
            return Effect::Nothing;
        }
        if self.path_prompt.is_some() {
            self.path_prompt = None;
            self.path_input = String::new();
            return Effect::Nothing;
        }
        if self.scanning {
            self.set_status(StatusLevel::Info, String::from_str("cancelling scan…"));
            return Effect::CancelScan;
        }
        let hex_edit_open = match self.focus {
            Focus::HexView => crate::text::chars_of(self.hex_edit_input.as_str()).len() > 0,
            _ => false,
        };
        if hex_edit_open {
            self.hex_edit_input = String::new();
            return Effect::Nothing;
        }
        if self.search_active {
            self.search_active = false;
            match self.focus {
                Focus::ProcessPicker => {
                    self.process_filter = String::new();
                    self.process_selected = 0;
                },
                Focus::ScanPanel => {
                    self.scan_input = String::new();
                },
                Focus::MatchView => {
                    self.match_filter = String::new();
                    self.match_selected = 0;
                },
                Focus::CheatView => {
                    self.cheat_value_input = String::new();
                    self.cheat_editing_index = None;
                },
                Focus::HexView => {},
            }
        }
        Effect::Nothing
    }

    /// Moves the focused panel's selection (see [`select_post`]).
    fn select(&mut self, forward: bool)
        ensures
            final(self)@ == select_post(old(self)@, forward),
    {
        match self.focus {
            Focus::ProcessPicker => {
                let len = self.filtered_process_indices().len();
                self.process_selected = wrap_selection(self.process_selected, len, forward);
            },
            Focus::MatchView => {
                self.match_selected = wrap_selection(self.match_selected, self.visible_matches, forward);
            },
            Focus::CheatView => {
                self.cheat_selected = wrap_selection(self.cheat_selected, self.cheats.len(), forward);
            },
            _ => {},
        }
    }

    /// Moves the Hex View cursor (see [`moved_cursor`]).
    fn move_hex_cursor(&mut self, delta: isize)
        ensures
            final(self)@ == (AppView {
                hex_cursor: moved_cursor(old(self)@.hex_cursor, delta, old(self)@.hex_buffer.len()),
                ..old(self)@
            }),
    {
        let len = self.hex_buffer.len();
        if len == 0 {
            return;
        }
        let next = self.hex_cursor as i128 + delta as i128;
        let max = (len - 1) as i128;
        self.hex_cursor = if next < 0 {
            0
        } else if next > max {
            len - 1
        } else {
            next as usize
        };
    }

    /// Commits the Hex View byte edit (see [`commit_post`]).
    fn commit_hex_edit(&mut self) -> (e: Effect)
        ensures
            commit_post(old(self)@, final(self)@, e),
    {
        let mut input = String::new();
        std::mem::swap(&mut input, &mut self.hex_edit_input);
        let chars = crate::text::chars_of(input.as_str());
        if chars.len() == 0 {
            self.set_status(StatusLevel::Error, String::from_str("no byte value entered"));
            return Effect::Nothing;
        }
        proof {
            assert(chars@.subrange(0, chars@.len() as int) =~= chars@);
        }
        let byte = match crate::text::parse_radix(&chars, 0, chars.len(), 16, 255) {
            Some(b) => b as u8,
            None => {
                let mut text = crate::text::debug_quoted(input.as_str());
                text.append(" is not a valid hex byte");
                self.set_status(StatusLevel::Error, text);
                return Effect::Nothing;
            },
        };
        if !self.has_session {
            self.report_no_session();
            return Effect::Nothing;
        }
        match self.hex_cursor_address() {
            None => {
                self.set_status(StatusLevel::Error, String::from_str("hex view has no bytes loaded"));
                Effect::Nothing
            },
            Some(address) => Effect::WriteHexByte { address, byte },
        }
    }

    /// Starts editing cheat `index` (see [`begin_edit_post`]).
    fn begin_edit(&mut self, index: usize) -> (e: Effect)
        ensures
            begin_edit_post(old(self)@, index, final(self)@, e),
    {
        if index >= self.cheats.len() {
            self.report_out_of_range(index);
            return Effect::Nothing;
        }
        proof {
            assert(self@.cheats[index as int] == cheat_view(self.cheats@[index as int]));
        }
        let e = match self.cheats[index].value.display_text() {
            Some(text) => {
                self.cheat_value_input = text;
                Effect::Nothing
            },
            None => {
                self.cheat_value_input = String::new();
                Effect::FormatCheatValue { index }
            },
        };
        self.cheat_editing_index = Some(index);
        self.search_active = true;
        self.set_status(
            StatusLevel::Info,
            String::from_str("editing cheat value — Enter to confirm, Esc to cancel"),
        );
        e
    }

    /// Applies typed-in `input` to cheat `index` (see [`cheat_input_post`]).
    fn apply_cheat_input(&mut self, index: usize, input: String) -> (e: Effect)
        requires
            index < old(self)@.cheats.len(),
        ensures
            cheat_input_post(old(self)@, index, old(self)@.cheats[index as int].value, input@, final(self)@, e),
    {
        proof {
            assert(self@.cheats[index as int] == cheat_view(self.cheats@[index as int]));
        }
        let is_bytes = match &self.cheats[index].value {
            Value::Bytes(_) => true,
            _ => false,
        };
        let is_str = match &self.cheats[index].value {
            Value::Str(_) => true,
            _ => false,
        };
        let float = match &self.cheats[index].value {
            Value::F32(_) => true,
            Value::F64(_) => true,
            _ => false,
        };
        if is_bytes {
            return match crate::scanform::parse_concrete_bytes(input.as_str()) {
                Err(m) => {
                    self.set_status(StatusLevel::Error, m);
                    Effect::Nothing
                },
                Ok(b) => self.edit_cheat(index, Value::Bytes(b)),
            };
        }
        if is_str {
            return self.edit_cheat(index, Value::Str(input));
        }
        if !float {
            if let Ok(n) = crate::value::parse_int(input.as_str()) {
                return match value_of_width(&self.cheats[index].value, &n) {
                    None => {
                        self.set_status(
                            StatusLevel::Error,
                            String::from_str("value does not fit the cheat's data width"),
                        );
                        Effect::Nothing
                    },
                    Some(v) => self.edit_cheat(index, v),
                };
            }
        }
        Effect::ParseCheatNumber { index, input }
    }

    /// Confirms the cheat value edit (see [`confirm_cheat_post`]).
    fn confirm_cheat_edit(&mut self) -> (e: Effect)
        ensures
            confirm_cheat_post(old(self)@, final(self)@, e),
    {
        let index = match self.cheat_editing_index {
            None => {
                self.set_status(StatusLevel::Error, String::from_str("no cheat value is being edited"));
                return Effect::Nothing;
            },
            Some(i) => i,
        };
        self.cheat_editing_index = None;
        self.search_active = false;
        let mut input = String::new();
        std::mem::swap(&mut input, &mut self.cheat_value_input);
        if index >= self.cheats.len() {
            self.report_out_of_range(index);
            return Effect::Nothing;
        }
        let trimmed = crate::text::trim_string(input.as_str());
        self.apply_cheat_input(index, trimmed)
    }

    /// Confirms the path prompt (see [`path_post`]).
    fn confirm_path(&mut self) -> (e: Effect)
        ensures
            path_post(old(self)@, final(self)@, e),
    {
        let kind = match self.path_prompt {
            None => {
                self.set_status(StatusLevel::Error, String::from_str("no path is being entered"));
                return Effect::Nothing;
            },
            Some(k) => k,
        };
        self.path_prompt = None;
        let mut input = String::new();
        std::mem::swap(&mut input, &mut self.path_input);
        let path = crate::text::trim_string(input.as_str());
        match kind {
            PathPromptKind::Save => Effect::SaveCheats(path),
            PathPromptKind::Load => Effect::LoadCheats(path),
        }
    }

    /// Runs the Scan Panel's form (see [`run_post`]).
    fn run_scan(&mut self, new_scan: bool) -> (e: Effect)
        ensures
            run_post(old(self)@, new_scan, final(self)@, e),
    {
        let form = scan_form(self.scan_data_type, self.scan_match_type, self.scan_input.as_str());
        match form {
            Err(m) => {
                self.set_status(StatusLevel::Error, m);
                Effect::Nothing
            },
            Ok(ScanForm::Ready(x)) => {
                let job = if new_scan {
                    ScanJob::New(x)
                } else {
                    ScanJob::Run(x)
                };
                self.spawn(job)
            },
            Ok(ScanForm::Number(text)) => {
                if !self.has_session && crate::value::parse_int(text.as_str()).is_ok() {
                    self.report_no_session();
                    return Effect::Nothing;
                }
                let texts = vec![text];
                proof {
                    assert(texts@.map_values(|w: String| w@) =~= seq![texts@[0]@]);
                }
                Effect::ParseScanNumbers {
                    new_scan,
                    data_type: self.scan_data_type,
                    match_type: self.scan_match_type,
                    texts,
                }
            },
            Ok(ScanForm::Range(low, high)) => {
                if !self.has_session && crate::value::parse_int(low.as_str()).is_ok()
                    && crate::value::parse_int(high.as_str()).is_ok() {
                    self.report_no_session();
                    return Effect::Nothing;
                }
                let texts = vec![low, high];
                proof {
                    assert(texts@.map_values(|w: String| w@) =~= seq![texts@[0]@, texts@[1]@]);
                }
                Effect::ParseScanNumbers {
                    new_scan,
                    data_type: self.scan_data_type,
                    match_type: self.scan_match_type,
                    texts,
                }
            },
        }
    }
}


/// The name of the first listed process with `pid` from index `i` on, or `?`.
pub open spec fn name_from(ps: Seq<(u32, Seq<char>)>, pid: u32, i: int) -> Seq<char>
    decreases ps.len() - i,
{
    if i < 0 || i >= ps.len() {
        "?"@
    } else if ps[i].0 == pid {
        ps[i].1
    } else {
        name_from(ps, pid, i + 1)
    }
}

/// The text of a match count.
pub open spec fn matches_text(n: nat) -> Seq<char> {
    decimal_text(n) + " match(es)"@
}

/// A value-criterion or range-criterion expression from parsed numbers: the first parse error's
/// message, or the expression.
pub open spec fn parsed_expr_ok(
    data_type: ScanDataType,
    match_type: MatchType,
    results: Seq<Result<NumberValue, ValueParseError>>,
    x: ScanExpr,
) -> bool {
    if results.len() == 1 {
        results[0] matches Ok(v) && x == (ScanExpr {
            data_type,
            match_type,
            criterion: crate::session::ScanCriterion::Value(crate::value::UserValue::Number(v)),
        })
    } else {
        results[0] matches Ok(a) && results[1] matches Ok(b) && x == (ScanExpr {
            data_type,
            match_type,
            criterion: crate::session::ScanCriterion::Range(a, b),
        })
    }
}

/// The message of the first failed parse among `results`, if one failed.
pub open spec fn first_parse_error(results: Seq<Result<NumberValue, ValueParseError>>) -> Option<Seq<char>> {
    if results.len() >= 1 && results[0] is Err {
        Some(crate::value::value_error_message(results[0]->Err_0@))
    } else if results.len() >= 2 && results[1] is Err {
        Some(crate::value::value_error_message(results[1]->Err_0@))
    } else {
        None
    }
}

impl AppState {
    /// The name of the first listed process with `pid`, or `?`.
    fn process_name(&self, pid: u32) -> (r: String)
        ensures
            r@ == name_from(self@.processes, pid, 0),
    {
        let ghost ps = self@.processes;
        let mut i: usize = 0;
        while i < self.processes.len()
            invariant
                ps == self@.processes,
                ps.len() == self.processes@.len(),
                0 <= i <= ps.len(),
                name_from(ps, pid, 0) == name_from(ps, pid, i as int),
            decreases ps.len() - i,
        {
            proof {
                assert(ps[i as int] == (self.processes@[i as int].pid, self.processes@[i as int].name@));
            }
            if self.processes[i].pid == pid {
                return self.processes[i].name.clone();
            }
            i = i + 1;
        }
        proof {
            reveal_strlit("?");
        }
        String::from_str("?")
    }

    /// Attaching to `pid` finished: on success the session is available, the target is named
    /// after the first listed process with that pid (or `?`), and the region count reported.
    pub fn attach_done(&mut self, pid: u32, result: Result<usize, String>)
        ensures
            match result {
                Ok(n) => final(self)@ == with_status(
                    AppView {
                        has_session: true,
                        attached: Some((pid, name_from(old(self)@.processes, pid, 0))),
                        ..old(self)@
                    },
                    StatusLevel::Info,
                    "attached to pid "@ + decimal_text(pid as nat) + ": "@ + decimal_text(n as nat)
                        + " region(s)"@,
                ),
                Err(m) => final(self)@ == with_status(old(self)@, StatusLevel::Error, m@),
            },
    {
        match result {
            Err(m) => self.set_status(StatusLevel::Error, m),
            Ok(n) => {
                let name = self.process_name(pid);
                let mut text = String::from_str("attached to pid ");
                let d = crate::text::decimal_string(pid as u128);
                text.append(d.as_str());
                text.append(": ");
                let c = crate::text::decimal_string(n as u128);
                text.append(c.as_str());
                text.append(" region(s)");
                self.has_session = true;
                self.attached = Some(AttachedProcess { pid, name });
                self.set_status(StatusLevel::Info, text);
            },
        }
    }

    /// Detaching finished: on success nothing is attached any more.
    pub fn detach_done(&mut self, result: Result<(), String>)
        ensures
            match result {
                Ok(()) => final(self)@ == with_status(
                    AppView { has_session: false, attached: None, ..old(self)@ },
                    StatusLevel::Info,
                    "detached"@,
                ),
                Err(m) => final(self)@ == with_status(old(self)@, StatusLevel::Error, m@),
            },
    {
        match result {
            Err(m) => self.set_status(StatusLevel::Error, m),
            Ok(()) => {
                self.has_session = false;
                self.attached = None;
                self.set_status(StatusLevel::Info, String::from_str("detached"));
            },
        }
    }

    /// A scan run right away finished with this match count, or this error.
    pub fn scan_done(&mut self, result: Result<usize, String>)
        ensures
            match result {
                Ok(n) => final(self)@ == with_status(old(self)@, StatusLevel::Info, matches_text(n as nat)),
                Err(m) => final(self)@ == with_status(old(self)@, StatusLevel::Error, m@),
            },
    {
        match result {
            Err(m) => self.set_status(StatusLevel::Error, m),
            Ok(n) => {
                let mut text = crate::text::decimal_string(n as u128);
                text.append(" match(es)");
                self.set_status(StatusLevel::Info, text);
            },
        }
    }

    /// Starting a background job finished: on success the job holds the session.
    pub fn scan_started(&mut self, result: Result<(), String>)
        ensures
            match result {
                Ok(()) => final(self)@ == with_status(
                    AppView { has_session: false, scanning: true, ..old(self)@ },
                    StatusLevel::Info,
                    "scanning…"@,
                ),
                Err(m) => final(self)@ == with_status(old(self)@, StatusLevel::Error, m@),
            },
    {
        match result {
            Err(m) => self.set_status(StatusLevel::Error, m),
            Ok(()) => {
                self.has_session = false;
                self.scanning = true;
                self.set_status(StatusLevel::Info, String::from_str("scanning…"));
            },
        }
    }

    /// Checking the background job found `outcome`: a finished job hands the session back and
    /// its result is reported; a lost one is reported and the session with it.
    pub fn scan_polled(&mut self, outcome: PollOutcome)
        ensures
            match outcome {
                PollOutcome::Pending => final(self)@ == old(self)@,
                PollOutcome::Finished(Ok(n)) => final(self)@ == with_status(
                    AppView { has_session: true, scanning: false, ..old(self)@ },
                    StatusLevel::Info,
                    matches_text(n as nat),
                ),
                PollOutcome::Finished(Err(m)) => final(self)@ == with_status(
                    AppView { has_session: true, scanning: false, ..old(self)@ },
                    StatusLevel::Error,
                    m@,
                ),
                PollOutcome::Lost => final(self)@ == with_status(
                    AppView { scanning: false, ..old(self)@ },
                    StatusLevel::Error,
                    "scan thread terminated unexpectedly"@,
                ),
            },
    {
        match outcome {
            PollOutcome::Pending => {},
            PollOutcome::Finished(result) => {
                self.has_session = true;
                self.scanning = false;
                self.scan_done(result);
            },
            PollOutcome::Lost => {
                self.scanning = false;
                self.set_status(
                    StatusLevel::Error,
                    String::from_str("scan thread terminated unexpectedly"),
                );
            },
        }
    }

    /// Discarding the session's matches finished.
    pub fn matches_reset(&mut self, result: Result<(), String>)
        ensures
            match result {
                Ok(()) => final(self)@ == with_status(old(self)@, StatusLevel::Info, "match set reset"@),
                Err(m) => final(self)@ == with_status(old(self)@, StatusLevel::Error, m@),
            },
    {
        match result {
            Err(m) => self.set_status(StatusLevel::Error, m),
            Ok(()) => self.set_status(StatusLevel::Info, String::from_str("match set reset")),
        }
    }

    /// Writing a value finished.
    pub fn write_done(&mut self, result: Result<(), String>)
        ensures
            match result {
                Ok(()) => final(self)@ == with_status(old(self)@, StatusLevel::Info, "ok"@),
                Err(m) => final(self)@ == with_status(old(self)@, StatusLevel::Error, m@),
            },
    {
        match result {
            Err(m) => self.set_status(StatusLevel::Error, m),
            Ok(()) => self.set_status(StatusLevel::Info, String::from_str("ok")),
        }
    }

    /// Reading `len` bytes from `base` for the Hex View on `address` finished: on success the
    /// Hex View holds them, its cursor on `address` (within the bytes read) and focused; the
    /// first failure retries reading from `address` itself; the second is reported.
    pub fn hex_read(
        &mut self,
        address: usize,
        base: usize,
        len: usize,
        first: bool,
        result: Result<Vec<u8>, String>,
    ) -> (e: Effect)
        ensures
            match result {
                Ok(bytes) => e == Effect::Nothing && final(self)@ == with_status(
                    AppView {
                        hex_cursor: if sat_sub(address, base) < sat_sub(bytes@.len() as usize, 1) {
                            sat_sub(address, base)
                        } else {
                            sat_sub(bytes@.len() as usize, 1)
                        },
                        hex_base_address: base,
                        hex_buffer: bytes@,
                        hex_edit_input: Seq::empty(),
                        focus: Focus::HexView,
                        ..old(self)@
                    },
                    StatusLevel::Info,
                    "hex view @ "@ + "0x"@ + hex_digits(address as nat),
                ),
                Err(m) => if first {
                    final(self)@ == old(self)@ && e == (Effect::ReadHex {
                        address,
                        base: address,
                        len,
                        first: false,
                    })
                } else {
                    final(self)@ == with_status(old(self)@, StatusLevel::Error, m@) && e
                        == Effect::Nothing
                },
            },
    {
        match result {
            Err(m) => {
                if first {
                    Effect::ReadHex { address, base: address, len, first: false }
                } else {
                    self.set_status(StatusLevel::Error, m);
                    Effect::Nothing
                }
            },
            Ok(bytes) => {
                let offset = if address >= base {
                    address - base
                } else {
                    0
                };
                let last = if bytes.len() >= 1 {
                    bytes.len() - 1
                } else {
                    0
                };
                self.hex_cursor = if offset < last {
                    offset
                } else {
                    last
                };
                self.hex_base_address = base;
                self.hex_buffer = bytes;
                self.hex_edit_input = String::new();
                self.focus = Focus::HexView;
                let mut text = String::from_str("hex view @ ");
                let h = crate::text::hex_number_string(address as u128);
                text.append(h.as_str());
                proof {
                    assert(text@ =~= "hex view @ "@ + "0x"@ + hex_digits(address as nat));
                }
                self.set_status(StatusLevel::Info, text);
                Effect::Nothing
            },
        }
    }

    /// Writing `byte` at `address` from the Hex View finished: on success the byte under the
    /// cursor becomes `byte`.
    pub fn hex_byte_written(&mut self, address: usize, byte: u8, result: Result<(), String>)
        ensures
            match result {
                Ok(()) => final(self)@ == with_status(
                    AppView {
                        hex_buffer: if old(self)@.hex_cursor < old(self)@.hex_buffer.len() {
                            old(self)@.hex_buffer.update(old(self)@.hex_cursor as int, byte)
                        } else {
                            old(self)@.hex_buffer
                        },
                        ..old(self)@
                    },
                    StatusLevel::Info,
                    "wrote "@ + byte_hex_text(byte) + " @ "@ + "0x"@ + hex_digits(address as nat),
                ),
                Err(m) => final(self)@ == with_status(old(self)@, StatusLevel::Error, m@),
            },
    {
        match result {
            Err(m) => self.set_status(StatusLevel::Error, m),
            Ok(()) => {
                if self.hex_cursor < self.hex_buffer.len() {
                    let c = self.hex_cursor;
                    self.hex_buffer.set(c, byte);
                }
                let mut text = String::from_str("wrote ");
                let b = crate::text::byte_hex_string(byte);
                text.append(b.as_str());
                text.append(" @ ");
                let h = crate::text::hex_number_string(address as u128);
                text.append(h.as_str());
                proof {
                    assert(text@ =~= "wrote "@ + byte_hex_text(byte) + " @ "@ + "0x"@ + hex_digits(
                        address as nat,
                    ));
                }
                self.set_status(StatusLevel::Info, text);
            },
        }
    }

    /// Writing cheat `index`'s new value finished: on success the cheat records it.
    pub fn cheat_written(&mut self, index: usize, value: Value, result: Result<(), String>)
        ensures
            match result {
                Ok(()) => final(self)@ == with_status(
                    AppView {
                        cheats: if index < old(self)@.cheats.len() {
                            old(self)@.cheats.update(
                                index as int,
                                CheatView { value: value@, ..old(self)@.cheats[index as int] },
                            )
                        } else {
                            old(self)@.cheats
                        },
                        ..old(self)@
                    },
                    StatusLevel::Info,
                    "cheat value updated"@,
                ),
                Err(m) => final(self)@ == with_status(old(self)@, StatusLevel::Error, m@),
            },
    {
        match result {
            Err(m) => self.set_status(StatusLevel::Error, m),
            Ok(()) => {
                if index < self.cheats.len() {
                    let ghost before = self.cheats@;
                    let entry = CheatEntry {
                        address: self.cheats[index].address,
                        description: self.cheats[index].description.clone(),
                        value,
                        frozen: self.cheats[index].frozen,
                    };
                    self.cheats.set(index, entry);
                    proof {
                        assert(self.cheats@.map_values(|c: CheatEntry| cheat_view(c)) =~= before.map_values(
                            |c: CheatEntry| cheat_view(c),
                        ).update(
                            index as int,
                            CheatView { value: value@, ..cheat_view(before[index as int]) },
                        ));
                    }
                }
                self.set_status(StatusLevel::Info, String::from_str("cheat value updated"));
            },
        }
    }

    /// The number typed in for cheat `index` was parsed: a parse error is reported; otherwise
    /// it is narrowed to the cheat's width and written (see [`edit_post`]).
    pub fn cheat_number_parsed(&mut self, index: usize, result: Result<NumberValue, ValueParseError>) -> (e: Effect)
        ensures
            match result {
                Err(err) => final(self)@ == with_status(
                    old(self)@,
                    StatusLevel::Error,
                    crate::value::value_error_message(err@),
                ) && e == Effect::Nothing,
                Ok(n) => if index >= old(self)@.cheats.len() {
                    final(self)@ == with_status(old(self)@, StatusLevel::Error, out_of_range_text(index))
                        && e == Effect::Nothing
                } else {
                    match width_value(old(self)@.cheats[index as int].value, n) {
                        None => final(self)@ == with_status(
                            old(self)@,
                            StatusLevel::Error,
                            "value does not fit the cheat's data width"@,
                        ) && e == Effect::Nothing,
                        Some(v) => edit_post(old(self)@, index, v, final(self)@, e),
                    }
                },
            },
    {
        match result {
            Err(err) => {
                self.set_status(StatusLevel::Error, err.message());
                Effect::Nothing
            },
            Ok(n) => {
                if index >= self.cheats.len() {
                    self.report_out_of_range(index);
                    return Effect::Nothing;
                }
                proof {
                    assert(self@.cheats[index as int] == cheat_view(self.cheats@[index as int]));
                }
                match value_of_width(&self.cheats[index].value, &n) {
                    None => {
                        self.set_status(
                            StatusLevel::Error,
                            String::from_str("value does not fit the cheat's data width"),
                        );
                        Effect::Nothing
                    },
                    Some(v) => self.edit_cheat(index, v),
                }
            },
        }
    }

    /// The Scan Panel's numbers were parsed (one for a value criterion, low and high for a
    /// range): the first parse error is reported; otherwise the scan job starts on the session,
    /// or its absence is reported.
    pub fn scan_numbers_parsed(
        &mut self,
        new_scan: bool,
        data_type: ScanDataType,
        match_type: MatchType,
        results: Vec<Result<NumberValue, ValueParseError>>,
    ) -> (e: Effect)
        requires
            results@.len() == 1 || results@.len() == 2,
        ensures
            first_parse_error(results@) matches Some(m) ==> final(self)@ == with_status(
                old(self)@,
                StatusLevel::Error,
                m,
            ) && e == Effect::Nothing,
            first_parse_error(results@) is None && !old(self)@.has_session ==> final(self)@
                == with_status(old(self)@, StatusLevel::Error, no_session_text(old(self)@)) && e
                == Effect::Nothing,
            first_parse_error(results@) is None && old(self)@.has_session ==> final(self)@
                == old(self)@ && (e matches Effect::StartScan(job) && (if new_scan {
                job matches ScanJob::New(x) && parsed_expr_ok(data_type, match_type, results@, x)
            } else {
                job matches ScanJob::Run(x) && parsed_expr_ok(data_type, match_type, results@, x)
            })),
    {
        let ghost rs = results@;
        let mut results = results;
        let expr = if results.len() == 1 {
            let a = results.pop().unwrap();
            crate::scanform::number_expr(data_type, match_type, a)
        } else {
            let b = results.pop().unwrap();
            let a = results.pop().unwrap();
            crate::scanform::range_expr(data_type, match_type, a, b)
        };
        match expr {
            Err(m) => {
                self.set_status(StatusLevel::Error, m);
                Effect::Nothing
            },
            Ok(x) => {
                let job = if new_scan {
                    ScanJob::New(x)
                } else {
                    ScanJob::Run(x)
                };
                self.spawn(job)
            },
        }
    }

    /// Saving the cheat list to `path` finished: on success it is the list's path.
    pub fn cheats_saved(&mut self, path: String, result: Result<(), String>)
        ensures
            match result {
                Ok(()) => final(self)@ == with_status(
                    AppView { cheat_list_path: Some(path@), ..old(self)@ },
                    StatusLevel::Info,
                    "cheat list saved to "@ + path@,
                ),
                Err(m) => final(self)@ == with_status(old(self)@, StatusLevel::Error, m@),
            },
    {
        match result {
            Err(m) => self.set_status(StatusLevel::Error, m),
            Ok(()) => {
                let mut text = String::from_str("cheat list saved to ");
                text.append(path.as_str());
                self.cheat_list_path = Some(path);
                self.set_status(StatusLevel::Info, text);
            },
        }
    }

    /// Loading a cheat list from `path` finished: on success it replaces the cheats, the
    /// selection goes to the first, and it is the list's path.
    pub fn cheats_loaded(&mut self, path: String, result: Result<Vec<CheatEntry>, String>)
        ensures
            match result {
                Ok(list) => final(self)@ == with_status(
                    AppView {
                        cheats: list@.map_values(|c: CheatEntry| cheat_view(c)),
                        cheat_selected: 0,
                        cheat_list_path: Some(path@),
                        ..old(self)@
                    },
                    StatusLevel::Info,
                    "loaded "@ + decimal_text(list@.len()) + " cheat(s) from "@ + path@,
                ),
                Err(m) => final(self)@ == with_status(old(self)@, StatusLevel::Error, m@),
            },
    {
        match result {
            Err(m) => self.set_status(StatusLevel::Error, m),
            Ok(list) => {
                let mut text = String::from_str("loaded ");
                let d = crate::text::decimal_string(list.len() as u128);
                text.append(d.as_str());
                text.append(" cheat(s) from ");
                text.append(path.as_str());
                self.cheats = list;
                self.cheat_selected = 0;
                self.cheat_list_path = Some(path);
                self.set_status(StatusLevel::Info, text);
            },
        }
    }

    /// The running processes were listed: they replace the list, the selection goes to the
    /// first, and their number is reported.
    pub fn processes_listed(&mut self, list: Vec<ProcessEntry>)
        ensures
            final(self)@ == with_status(
                AppView {
                    processes: list@.map_values(|p: ProcessEntry| (p.pid, p.name@)),
                    process_selected: 0,
                    ..old(self)@
                },
                StatusLevel::Info,
                decimal_text(list@.len()) + " process(es)"@,
            ),
    {
        let mut text = crate::text::decimal_string(list.len() as u128);
        text.append(" process(es)");
        self.processes = list;
        self.process_selected = 0;
        self.set_status(StatusLevel::Info, text);
    }
}


/// `s` with the status set by asking for work that needs the session.
pub open spec fn needs_session(s: AppView, effect: Effect, t: AppView, e: Effect) -> bool {
    if s.has_session {
        t == s && e == effect
    } else {
        t == with_status(s, StatusLevel::Error, no_session_text(s)) && e == Effect::Nothing
    }
}

/// What [`update`] does with each message.
pub open spec fn update_post(s: AppView, msg: Msg, t: AppView, e: Effect) -> bool {
    match msg {
        Msg::Attach(pid) => if pid == 0 {
            t == with_status(s, StatusLevel::Error, "pid must not be zero"@) && e == Effect::Nothing
        } else {
            t == s && e == Effect::Attach(pid)
        },
        Msg::Detach => if s.has_session {
            t == s && e == Effect::Detach
        } else {
            t == with_status(s, StatusLevel::Error, "no process is attached"@) && e == Effect::Nothing
        },
        Msg::Scan(x) => needs_session(s, Effect::Scan(x), t, e),
        Msg::Snapshot => needs_session(s, Effect::StartScan(ScanJob::Snapshot), t, e),
        Msg::PollScan => t == s && e == (if s.scanning {
            Effect::PollScan
        } else {
            Effect::Nothing
        }),
        Msg::ResetScan => needs_session(s, Effect::ResetMatches, t, e),
        Msg::Write { address, value } => needs_session(s, Effect::Write { address, value }, t, e),
        Msg::FocusHexView(address) => needs_session(
            s,
            Effect::ReadHex {
                address,
                base: sat_sub(address, s.hex_view_buffer_len / 2),
                len: s.hex_view_buffer_len,
                first: true,
            },
            t,
            e,
        ),
        Msg::MoveHexCursor(delta) => t == (AppView {
            hex_cursor: moved_cursor(s.hex_cursor, delta, s.hex_buffer.len()),
            ..s
        }) && e == Effect::Nothing,
        Msg::SetHexEditInput(x) => t == (AppView { hex_edit_input: x@, ..s }) && e == Effect::Nothing,
        Msg::CommitHexEdit => commit_post(s, t, e),
        Msg::AddCheat { address, description, value } => t == with_status(
            AppView {
                cheats: s.cheats.push(
                    CheatView { address, description: description@, value: value@, frozen: false },
                ),
                ..s
            },
            StatusLevel::Info,
            "cheat added"@,
        ) && e == Effect::Nothing,
        Msg::RemoveCheat(i) => e == Effect::Nothing && if i < s.cheats.len() {
            t == with_status(
                AppView { cheats: s.cheats.remove(i as int), ..s },
                StatusLevel::Info,
                "cheat removed"@,
            )
        } else {
            t == with_status(s, StatusLevel::Error, out_of_range_text(i))
        },
        Msg::ToggleFreeze(i) => e == Effect::Nothing && if i < s.cheats.len() {
            t == with_status(
                AppView {
                    cheats: s.cheats.update(
                        i as int,
                        CheatView { frozen: !s.cheats[i as int].frozen, ..s.cheats[i as int] },
                    ),
                    ..s
                },
                StatusLevel::Info,
                if s.cheats[i as int].frozen {
                    "cheat unfrozen"@
                } else {
                    "cheat frozen"@
                },
            )
        } else {
            t == with_status(s, StatusLevel::Error, out_of_range_text(i))
        },
        Msg::EditCheatValue { index, value } => edit_post(s, index, value@, t, e),
        Msg::BeginEditCheatValue(i) => begin_edit_post(s, i, t, e),
        Msg::SetCheatValueInput(x) => t == (AppView { cheat_value_input: x@, ..s }) && e
            == Effect::Nothing,
        Msg::ConfirmCheatValueEdit => confirm_cheat_post(s, t, e),
        Msg::SaveCheatList => match s.cheat_list_path {
            Some(p) => t == s && (e matches Effect::SaveCheats(q) && q@ == p),
            None => t == with_status(
                AppView { path_prompt: Some(PathPromptKind::Save), path_input: Seq::empty(), ..s },
                StatusLevel::Info,
                "enter a path to save the cheat list"@,
            ) && e == Effect::Nothing,
        },
        Msg::LoadCheatList => t == with_status(
            AppView { path_prompt: Some(PathPromptKind::Load), path_input: Seq::empty(), ..s },
            StatusLevel::Info,
            "enter a path to load the cheat list"@,
        ) && e == Effect::Nothing,
        Msg::SetPathInput(x) => t == (AppView { path_input: x@, ..s }) && e == Effect::Nothing,
        Msg::ConfirmPathPrompt => path_post(s, t, e),
        Msg::Tick => t == s && if s.has_session {
            e matches Effect::WriteFrozen(w) && w@.map_values(|p: (usize, Value)| (p.0, p.1@))
                == frozen_writes(s.cheats)
        } else {
            e == Effect::Nothing
        },
        Msg::RefreshProcessList => t == s && e == Effect::ListProcesses,
        Msg::FilterProcesses(q) => t == (AppView { process_filter: q@, process_selected: 0, ..s })
            && e == Effect::Nothing,
        Msg::CycleScanDataType => t == (AppView {
            scan_data_type: data_type_order()[(data_type_index(s.scan_data_type) + 1) % 11],
            ..s
        }) && e == Effect::Nothing,
        Msg::CycleScanMatchType => t == (AppView {
            scan_match_type: match_type_order()[(match_type_index(s.scan_match_type) + 1) % 13],
            ..s
        }) && e == Effect::Nothing,
        Msg::SetScanInput(x) => t == (AppView { scan_input: x@, ..s }) && e == Effect::Nothing,
        Msg::RunScan => run_post(s, false, t, e),
        Msg::NewScan => run_post(s, true, t, e),
        Msg::RefreshMatches => needs_session(s, Effect::StartScan(ScanJob::Refresh), t, e),
        Msg::CycleMatchSort => t == (AppView {
            match_sort: match s.match_sort {
                MatchSortColumn::Address => MatchSortColumn::Value,
                MatchSortColumn::Value => MatchSortColumn::Address,
            },
            match_selected: 0,
            ..s
        }) && e == Effect::Nothing,
        Msg::FilterMatches(q) => t == (AppView { match_filter: q@, match_selected: 0, ..s }) && e
            == Effect::Nothing,
        Msg::ToggleSearch => t == (AppView { search_active: !s.search_active, ..s }) && e
            == Effect::Nothing,
        Msg::SelectNext => t == select_post(s, true) && e == Effect::Nothing,
        Msg::SelectPrev => t == select_post(s, false) && e == Effect::Nothing,
        Msg::FocusNext => t == (AppView {
            focus: focus_order()[(focus_index(s.focus) + 1) % 5],
            ..s
        }) && e == Effect::Nothing,
        Msg::FocusPrev => t == (AppView {
            focus: focus_order()[(focus_index(s.focus) + 4) % 5],
            ..s
        }) && e == Effect::Nothing,
        Msg::FocusDirection(d) => t == (AppView {
            focus: match neighbour(s.focus, d) {
                Some(g) => g,
                None => s.focus,
            },
            ..s
        }) && e == Effect::Nothing,
        Msg::ToggleExpand => t == (AppView { expanded: !s.expanded, ..s }) && e == Effect::Nothing,
        Msg::ShowHelp => t == (AppView { help_visible: !s.help_visible, ..s }) && e
            == Effect::Nothing,
        Msg::Dismiss => dismiss_post(s, t, e),
        Msg::DismissError => t == (AppView { error_dialog_visible: false, ..s }) && e
            == Effect::Nothing,
        Msg::Quit => t == (AppView { quit: true, ..s }) && e == Effect::Nothing,
    }
}

impl AppState {
    /// The `(address, value)` of every frozen cheat, in order.
    fn frozen_cheat_writes(&self) -> (r: Vec<(usize, Value)>)
        ensures
            r@.map_values(|p: (usize, Value)| (p.0, p.1@)) == frozen_writes(self@.cheats),
    {
        let ghost cs = self@.cheats;
        let mut out: Vec<(usize, Value)> = Vec::new();
        let mut i: usize = 0;
        while i < self.cheats.len()
            invariant
                cs == self@.cheats,
                cs.len() == self.cheats@.len(),
                0 <= i <= cs.len(),
                out@.map_values(|p: (usize, Value)| (p.0, p.1@)) == frozen_writes(cs.take(i as int)),
            decreases cs.len() - i,
        {
            let c = &self.cheats[i];
            proof {
                assert(cs[i as int] == cheat_view(*c));
                assert(cs.take(i + 1).drop_last() =~= cs.take(i as int));
            }
            if c.frozen {
                let ghost before = out@;
                out.push((c.address, c.value.duplicate()));
                proof {
                    assert(out@.map_values(|p: (usize, Value)| (p.0, p.1@)) =~= before.map_values(
                        |p: (usize, Value)| (p.0, p.1@),
                    ).push((c.address, c.value@)));
                }
            }
            i = i + 1;
        }
        proof {
            assert(cs.take(cs.len() as int) =~= cs);
        }
        out
    }
}

impl AppState {
    /// Asks for `effect`, which needs the session, or reports that there is none.
    fn needs(&mut self, effect: Effect) -> (e: Effect)
        ensures
            needs_session(old(self)@, effect, final(self)@, e),
    {
        if self.has_session {
            effect
        } else {
            self.report_no_session();
            Effect::Nothing
        }
    }

    /// Records a new, unfrozen cheat.
    fn add_cheat(&mut self, address: usize, description: String, value: Value)
        ensures
            final(self)@ == with_status(
                AppView {
                    cheats: old(self)@.cheats.push(
                        CheatView { address, description: description@, value: value@, frozen: false },
                    ),
                    ..old(self)@
                },
                StatusLevel::Info,
                "cheat added"@,
            ),
    {
        let ghost before = self.cheats@;
        let ghost v = CheatView { address, description: description@, value: value@, frozen: false };
        self.cheats.push(CheatEntry { address, description, value, frozen: false });
        proof {
            assert(self.cheats@.map_values(|c: CheatEntry| cheat_view(c)) =~= before.map_values(
                |c: CheatEntry| cheat_view(c),
            ).push(v));
        }
        self.set_status(StatusLevel::Info, String::from_str("cheat added"));
    }

    /// Removes cheat `i`, or reports that there is none.
    fn remove_cheat(&mut self, i: usize)
        ensures
            if i < old(self)@.cheats.len() {
                final(self)@ == with_status(
                    AppView { cheats: old(self)@.cheats.remove(i as int), ..old(self)@ },
                    StatusLevel::Info,
                    "cheat removed"@,
                )
            } else {
                final(self)@ == with_status(old(self)@, StatusLevel::Error, out_of_range_text(i))
            },
    {
        if i < self.cheats.len() {
            let ghost before = self.cheats@;
            self.cheats.remove(i);
            proof {
                assert(self.cheats@.map_values(|c: CheatEntry| cheat_view(c)) =~= before.map_values(
                    |c: CheatEntry| cheat_view(c),
                ).remove(i as int));
            }
            self.set_status(StatusLevel::Info, String::from_str("cheat removed"));
        } else {
            self.report_out_of_range(i);
        }
    }

    /// Flips cheat `i`'s freeze flag, or reports that there is none.
    fn toggle_freeze(&mut self, i: usize)
        ensures
            if i < old(self)@.cheats.len() {
                final(self)@ == with_status(
                    AppView {
                        cheats: old(self)@.cheats.update(
                            i as int,
                            CheatView {
                                frozen: !old(self)@.cheats[i as int].frozen,
                                ..old(self)@.cheats[i as int]
                            },
                        ),
                        ..old(self)@
                    },
                    StatusLevel::Info,
                    if old(self)@.cheats[i as int].frozen {
                        "cheat unfrozen"@
                    } else {
                        "cheat frozen"@
                    },
                )
            } else {
                final(self)@ == with_status(old(self)@, StatusLevel::Error, out_of_range_text(i))
            },
    {
        if i < self.cheats.len() {
            let ghost before = self.cheats@;
            proof {
                assert(self@.cheats[i as int] == cheat_view(before[i as int]));
            }
            let frozen = !self.cheats[i].frozen;
            let entry = CheatEntry {
                address: self.cheats[i].address,
                description: self.cheats[i].description.clone(),
                value: self.cheats[i].value.duplicate(),
                frozen,
            };
            self.cheats.set(i, entry);
            proof {
                assert(self.cheats@.map_values(|c: CheatEntry| cheat_view(c)) =~= before.map_values(
                    |c: CheatEntry| cheat_view(c),
                ).update(i as int, CheatView { frozen, ..cheat_view(before[i as int]) }));
            }
            let text = if frozen {
                String::from_str("cheat frozen")
            } else {
                String::from_str("cheat unfrozen")
            };
            self.set_status(StatusLevel::Info, text);
        } else {
            self.report_out_of_range(i);
        }
    }

    /// Saves the cheat list to its path, or opens the prompt for one.
    fn save_cheats(&mut self) -> (e: Effect)
        ensures
            match old(self)@.cheat_list_path {
                Some(p) => final(self)@ == old(self)@ && (e matches Effect::SaveCheats(q) && q@ == p),
                None => final(self)@ == with_status(
                    AppView {
                        path_prompt: Some(PathPromptKind::Save),
                        path_input: Seq::empty(),
                        ..old(self)@
                    },
                    StatusLevel::Info,
                    "enter a path to save the cheat list"@,
                ) && e == Effect::Nothing,
            },
    {
        match &self.cheat_list_path {
            Some(p) => Effect::SaveCheats(p.clone()),
            None => {
                self.path_prompt = Some(PathPromptKind::Save);
                self.path_input = String::new();
                self.set_status(
                    StatusLevel::Info,
                    String::from_str("enter a path to save the cheat list"),
                );
                Effect::Nothing
            },
        }
    }

    /// Opens the prompt for a path to load a cheat list from.
    fn load_prompt(&mut self)
        ensures
            final(self)@ == with_status(
                AppView {
                    path_prompt: Some(PathPromptKind::Load),
                    path_input: Seq::empty(),
                    ..old(self)@
                },
                StatusLevel::Info,
                "enter a path to load the cheat list"@,
            ),
    {
        self.path_prompt = Some(PathPromptKind::Load);
        self.path_input = String::new();
        self.set_status(StatusLevel::Info, String::from_str("enter a path to load the cheat list"));
    }

    /// Rewrites every frozen cheat, when there is a session.
    fn tick(&mut self) -> (e: Effect)
        ensures
            final(self)@ == old(self)@,
            if old(self)@.has_session {
                e matches Effect::WriteFrozen(w) && w@.map_values(|p: (usize, Value)| (p.0, p.1@))
                    == frozen_writes(old(self)@.cheats)
            } else {
                e == Effect::Nothing
            },
    {
        if self.has_session {
            Effect::WriteFrozen(self.frozen_cheat_writes())
        } else {
            Effect::Nothing
        }
    }

    /// Sets one of the text fields, chosen by `which`: 0 the Hex View edit, 1 the cheat value
    /// edit, 2 the path prompt, 3 the Scan Panel's value.
    fn set_text(&mut self, which: u8, x: String)
        requires
            which < 4,
        ensures
            final(self)@ == (if which == 0 {
                AppView { hex_edit_input: x@, ..old(self)@ }
            } else if which == 1 {
                AppView { cheat_value_input: x@, ..old(self)@ }
            } else if which == 2 {
                AppView { path_input: x@, ..old(self)@ }
            } else {
                AppView { scan_input: x@, ..old(self)@ }
            }),
    {
        if which == 0 {
            self.hex_edit_input = x;
        } else if which == 1 {
            self.cheat_value_input = x;
        } else if which == 2 {
            self.path_input = x;
        } else {
            self.scan_input = x;
        }
    }

    /// Sets a filter and resets its selection: the Process Picker's when `processes`, the Match
    /// View's otherwise.
    fn set_filter(&mut self, processes: bool, q: String)
        ensures
            final(self)@ == (if processes {
                AppView { process_filter: q@, process_selected: 0, ..old(self)@ }
            } else {
                AppView { match_filter: q@, match_selected: 0, ..old(self)@ }
            }),
    {
        if processes {
            self.process_filter = q;
            self.process_selected = 0;
        } else {
            self.match_filter = q;
            self.match_selected = 0;
        }
    }

    /// Applies a message that only changes flags, focus or the Scan Panel's or Match View's
    /// cycling choices.
    fn toggle(&mut self, msg: &Msg)
        requires
            msg is CycleScanDataType || msg is CycleScanMatchType || msg is CycleMatchSort
                || msg is ToggleSearch || msg is FocusNext || msg is FocusPrev || msg is FocusDirection
                || msg is ToggleExpand || msg is ShowHelp || msg is DismissError || msg is Quit,
        ensures
            update_post(old(self)@, *msg, final(self)@, Effect::Nothing),
    {
        match msg {
            Msg::CycleScanDataType => self.scan_data_type = next_data_type(self.scan_data_type),
            Msg::CycleScanMatchType => self.scan_match_type = next_match_type(self.scan_match_type),
            Msg::CycleMatchSort => {
                self.match_sort = self.match_sort.next();
                self.match_selected = 0;
            },
            Msg::ToggleSearch => self.search_active = !self.search_active,
            Msg::FocusNext => self.focus = self.focus.next(),
            Msg::FocusPrev => self.focus = self.focus.prev(),
            Msg::FocusDirection(d) => self.focus = self.focus.towards(*d),
            Msg::ToggleExpand => self.expanded = !self.expanded,
            Msg::ShowHelp => self.help_visible = !self.help_visible,
            Msg::DismissError => self.error_dialog_visible = false,
            _ => self.quit = true,
        }
    }

    /// The read the Hex View needs to load memory around `address`.
    fn hex_window(&self, address: usize) -> (e: Effect)
        ensures
            e == (Effect::ReadHex {
                address,
                base: sat_sub(address, self@.hex_view_buffer_len / 2),
                len: self@.hex_view_buffer_len,
                first: true,
            }),
    {
        let len = self.hex_view_buffer_len;
        let half = len / 2;
        let base = if address >= half {
            address - half
        } else {
            0
        };
        Effect::ReadHex { address, base, len, first: true }
    }
}

/// Applies `msg` to `state` (see [`update_post`]), answering with the outside work it calls for.
#[verifier::rlimit(60)]
#[verifier::spinoff_prover]
pub fn update(state: &mut AppState, msg: Msg) -> (e: Effect)
    ensures
        update_post(old(state)@, msg, final(state)@, e),
{
    match msg {
        Msg::Attach(pid) => {
            if pid == 0 {
                state.set_status(StatusLevel::Error, String::from_str("pid must not be zero"));
                Effect::Nothing
            } else {
                Effect::Attach(pid)
            }
        },
        Msg::Detach => {
            if state.has_session {
                Effect::Detach
            } else {
                state.set_status(StatusLevel::Error, String::from_str("no process is attached"));
                Effect::Nothing
            }
        },
        Msg::Scan(x) => state.needs(Effect::Scan(x)),
        Msg::Snapshot => state.needs(Effect::StartScan(ScanJob::Snapshot)),
        Msg::PollScan => {
            if state.scanning {
                Effect::PollScan
            } else {
                Effect::Nothing
            }
        },
        Msg::ResetScan => state.needs(Effect::ResetMatches),
        Msg::Write { address, value } => state.needs(Effect::Write { address, value }),
        Msg::FocusHexView(address) => {
            let window = state.hex_window(address);
            state.needs(window)
        },
        Msg::MoveHexCursor(delta) => {
            state.move_hex_cursor(delta);
            Effect::Nothing
        },
        Msg::SetHexEditInput(x) => {
            state.set_text(0, x);
            Effect::Nothing
        },
        Msg::CommitHexEdit => state.commit_hex_edit(),
        Msg::AddCheat { address, description, value } => {
            state.add_cheat(address, description, value);
            Effect::Nothing
        },
        Msg::RemoveCheat(i) => {
            state.remove_cheat(i);
            Effect::Nothing
        },
        Msg::ToggleFreeze(i) => {
            state.toggle_freeze(i);
            Effect::Nothing
        },
        Msg::EditCheatValue { index, value } => state.edit_cheat(index, value),
        Msg::BeginEditCheatValue(i) => state.begin_edit(i),
        Msg::SetCheatValueInput(x) => {
            state.set_text(1, x);
            Effect::Nothing
        },
        Msg::ConfirmCheatValueEdit => state.confirm_cheat_edit(),
        Msg::SaveCheatList => state.save_cheats(),
        Msg::LoadCheatList => {
            state.load_prompt();
            Effect::Nothing
        },
        Msg::SetPathInput(x) => {
            state.set_text(2, x);
            Effect::Nothing
        },
        Msg::ConfirmPathPrompt => state.confirm_path(),
        Msg::Tick => state.tick(),
        Msg::RefreshProcessList => Effect::ListProcesses,
        Msg::FilterProcesses(q) => {
            state.set_filter(true, q);
            Effect::Nothing
        },
        Msg::SetScanInput(x) => {
            state.set_text(3, x);
            Effect::Nothing
        },
        Msg::RunScan => state.run_scan(false),
        Msg::NewScan => state.run_scan(true),
        Msg::RefreshMatches => state.needs(Effect::StartScan(ScanJob::Refresh)),
        Msg::FilterMatches(q) => {
            state.set_filter(false, q);
            Effect::Nothing
        },
        Msg::SelectNext => {
            state.select(true);
            Effect::Nothing
        },
        Msg::SelectPrev => {
            state.select(false);
            Effect::Nothing
        },
        Msg::Dismiss => state.dismiss(),
        other => {
            state.toggle(&other);
            Effect::Nothing
        },
    }
}


/// `s` seeded from settings: the Scan Panel's data and match types and the Hex View's length.
pub open spec fn seeded(s: AppView, settings: crate::settings::Settings) -> AppView {
    AppView {
        scan_data_type: settings.default_scan_data_type,
        scan_match_type: settings.default_scan_match_type,
        hex_view_buffer_len: settings.hex_view_buffer_len,
        ..s
    }
}

/// Seeds `state` from `settings` (see [`seeded`]), then asks to attach to its pid, if any.
pub fn apply_settings(state: &mut AppState, settings: &crate::settings::Settings) -> (e: Effect)
    ensures
        match settings.pid {
            None => final(state)@ == seeded(old(state)@, *settings) && e == Effect::Nothing,
            Some(pid) => update_post(seeded(old(state)@, *settings), Msg::Attach(pid), final(state)@, e),
        },
{
    state.scan_data_type = settings.default_scan_data_type;
    state.scan_match_type = settings.default_scan_match_type;
    state.hex_view_buffer_len = settings.hex_view_buffer_len;
    match settings.pid {
        None => Effect::Nothing,
        Some(pid) => update(state, Msg::Attach(pid)),
    }
}

} // verus!
