//! The front end's configuration: the raw `config.toml`/`theme.toml` contents, the command-line
//! arguments, and their merge into one resolved [`Settings`] (command line over config file over
//! built-in defaults). Reading the files is I/O and happens outside this library; their parsed
//! contents are handed to [`resolve`].

use vstd::prelude::*;

use crate::scanroutines::{MatchType, ScanDataType};
use tracing::level_filters::LevelFilter;

use crate::text::{debug_quote, debug_quoted, radix_parse, same_chars};

verus! {

/// Raw `config.toml` contents: every field optional.
#[derive(Debug, Clone, Default, PartialEq, Eq)]
pub struct FileConfig {
    /// Pid to attach to on startup.
    pub pid: Option<u32>,
    /// Log level filter: a level name (any ASCII case) or a number 0 to 5.
    pub log_level: Option<String>,
    /// Path the log is appended to.
    pub log_file: Option<String>,
    /// How often, in milliseconds, the event loop wakes up with no key pressed.
    pub poll_interval_ms: Option<u64>,
    /// Bytes of memory the Hex View loads.
    pub hex_view_buffer_len: Option<usize>,
    /// Scan Panel's data type on startup (`i8`, `i16`, `i32`, `i64`, `f32`, `f64`, `any`,
    /// `anyint`, `anyfloat`, `bytes`, `string`).
    pub default_scan_data_type: Option<String>,
    /// Scan Panel's match type on startup (`=`, `!=`, `>`, `<`, `range`, `update`, `unchanged`,
    /// `changed`, `increased`, `decreased`, `+`, `-`, `any`).
    pub default_scan_match_type: Option<String>,
}

/// Raw `theme.toml` contents: plain color strings, every field optional.
#[derive(Debug, Clone, Default, PartialEq, Eq)]
pub struct FileTheme {
    /// Border of the focused panel.
    pub focused_border: Option<String>,
    /// Status bar background, normal state.
    pub status_bar_bg: Option<String>,
    /// Status bar text, normal state.
    pub status_bar_fg: Option<String>,
    /// Status bar background while a process is attached.
    pub status_bar_attached_bg: Option<String>,
    /// Status bar text while a process is attached.
    pub status_bar_attached_fg: Option<String>,
    /// Status bar background while an error shows.
    pub status_bar_error_bg: Option<String>,
    /// Status bar text while an error shows.
    pub status_bar_error_fg: Option<String>,
    /// Scan progress gauge fill.
    pub scan_progress: Option<String>,
    /// Selected row highlight.
    pub selection: Option<String>,
    /// Value cell of a match whose value changed on the last scan.
    pub match_changed: Option<String>,
    /// Frozen column of a frozen cheat.
    pub frozen: Option<String>,
}

/// A theme with no overrides.
pub open spec fn empty_theme() -> FileTheme {
    FileTheme {
        focused_border: None,
        status_bar_bg: None,
        status_bar_fg: None,
        status_bar_attached_bg: None,
        status_bar_attached_fg: None,
        status_bar_error_bg: None,
        status_bar_error_fg: None,
        scan_progress: None,
        selection: None,
        match_changed: None,
        frozen: None,
    }
}

/// A theme with no overrides.
pub fn no_theme() -> (r: FileTheme)
    ensures
        r == empty_theme(),
{
    FileTheme {
        focused_border: None,
        status_bar_bg: None,
        status_bar_fg: None,
        status_bar_attached_bg: None,
        status_bar_attached_fg: None,
        status_bar_error_bg: None,
        status_bar_error_fg: None,
        scan_progress: None,
        selection: None,
        match_changed: None,
        frozen: None,
    }
}

/// A log level filter, from most to least verbose.
#[derive(Debug, Clone, Copy, PartialEq, Eq, Structural)]
pub enum LogLevel {
    Trace,
    Debug,
    Info,
    Warn,
    Error,
    Off,
}

/// `c` with an ASCII capital letter lowered.
pub open spec fn ascii_lower(c: char) -> char {
    if 'A' <= c <= 'Z' {
        ((c as u32) + 32) as char
    } else {
        c
    }
}

/// `a` and `b` are equal up to ASCII case.
pub open spec fn eq_ascii_case(a: Seq<char>, b: Seq<char>) -> bool {
    a.len() == b.len() && forall|i: int| 0 <= i < a.len() ==> ascii_lower(#[trigger] a[i])
        == ascii_lower(b[i])
}

/// The level a log filter string names: a number 0 (off) to 5 (trace), the empty string (error),
/// or a level name in any ASCII case.
pub open spec fn level_from_text(s: Seq<char>) -> Option<LogLevel> {
    let n = radix_parse(s, 10, usize::MAX as nat);
    if n is Some && n->0 <= 5 {
        Some(
            if n->0 == 0 {
                LogLevel::Off
            } else if n->0 == 1 {
                LogLevel::Error
            } else if n->0 == 2 {
                LogLevel::Warn
            } else if n->0 == 3 {
                LogLevel::Info
            } else if n->0 == 4 {
                LogLevel::Debug
            } else {
                LogLevel::Trace
            },
        )
    } else if s.len() == 0 {
        Some(LogLevel::Error)
    } else if eq_ascii_case(s, "error"@) {
        Some(LogLevel::Error)
    } else if eq_ascii_case(s, "warn"@) {
        Some(LogLevel::Warn)
    } else if eq_ascii_case(s, "info"@) {
        Some(LogLevel::Info)
    } else if eq_ascii_case(s, "debug"@) {
        Some(LogLevel::Debug)
    } else if eq_ascii_case(s, "trace"@) {
        Some(LogLevel::Trace)
    } else if eq_ascii_case(s, "off"@) {
        Some(LogLevel::Off)
    } else {
        None
    }
}

/// `tracing`'s `LevelFilter::from_str`: the level `s` names, as [`level_from_text`] states it.
#[verifier::external_body]
fn parse_level_filter(s: &str) -> (r: Option<LogLevel>)
    ensures
        r == level_from_text(s@),
{
    match s.parse::<LevelFilter>() {
        Err(_) => None,
        Ok(LevelFilter::OFF) => Some(LogLevel::Off),
        Ok(LevelFilter::ERROR) => Some(LogLevel::Error),
        Ok(LevelFilter::WARN) => Some(LogLevel::Warn),
        Ok(LevelFilter::INFO) => Some(LogLevel::Info),
        Ok(LevelFilter::DEBUG) => Some(LogLevel::Debug),
        Ok(_) => Some(LogLevel::Trace),
    }
}

/// The data type a `config.toml` name stands for.
pub open spec fn data_type_named(s: Seq<char>) -> Option<ScanDataType> {
    if s == "i8"@ {
        Some(ScanDataType::Integer8)
    } else if s == "i16"@ {
        Some(ScanDataType::Integer16)
    } else if s == "i32"@ {
        Some(ScanDataType::Integer32)
    } else if s == "i64"@ {
        Some(ScanDataType::Integer64)
    } else if s == "f32"@ {
        Some(ScanDataType::Float32)
    } else if s == "f64"@ {
        Some(ScanDataType::Float64)
    } else if s == "any"@ {
        Some(ScanDataType::AnyNumber)
    } else if s == "anyint"@ {
        Some(ScanDataType::AnyInteger)
    } else if s == "anyfloat"@ {
        Some(ScanDataType::AnyFloat)
    } else if s == "bytes"@ {
        Some(ScanDataType::ByteArray)
    } else if s == "string"@ {
        Some(ScanDataType::String)
    } else {
        None
    }
}

/// The match type a `config.toml` name stands for.
pub open spec fn match_type_named(s: Seq<char>) -> Option<MatchType> {
    if s == "="@ {
        Some(MatchType::EqualTo)
    } else if s == "!="@ {
        Some(MatchType::NotEqualTo)
    } else if s == ">"@ {
        Some(MatchType::GreaterThan)
    } else if s == "<"@ {
        Some(MatchType::LessThan)
    } else if s == "range"@ {
        Some(MatchType::Range)
    } else if s == "update"@ {
        Some(MatchType::Update)
    } else if s == "unchanged"@ {
        Some(MatchType::NotChanged)
    } else if s == "changed"@ {
        Some(MatchType::Changed)
    } else if s == "increased"@ {
        Some(MatchType::Increased)
    } else if s == "decreased"@ {
        Some(MatchType::Decreased)
    } else if s == "+"@ {
        Some(MatchType::IncreasedBy)
    } else if s == "-"@ {
        Some(MatchType::DecreasedBy)
    } else if s == "any"@ {
        Some(MatchType::Any)
    } else {
        None
    }
}

/// Parses `config.toml`'s `default-scan-data-type`.
pub fn parse_scan_data_type(s: &str) -> (r: Option<ScanDataType>)
    ensures
        r == data_type_named(s@),
{
    if same_chars(s, "i8") {
        Some(ScanDataType::Integer8)
    } else if same_chars(s, "i16") {
        Some(ScanDataType::Integer16)
    } else if same_chars(s, "i32") {
        Some(ScanDataType::Integer32)
    } else if same_chars(s, "i64") {
        Some(ScanDataType::Integer64)
    } else if same_chars(s, "f32") {
        Some(ScanDataType::Float32)
    } else if same_chars(s, "f64") {
        Some(ScanDataType::Float64)
    } else if same_chars(s, "any") {
        Some(ScanDataType::AnyNumber)
    } else if same_chars(s, "anyint") {
        Some(ScanDataType::AnyInteger)
    } else if same_chars(s, "anyfloat") {
        Some(ScanDataType::AnyFloat)
    } else if same_chars(s, "bytes") {
        Some(ScanDataType::ByteArray)
    } else if same_chars(s, "string") {
        Some(ScanDataType::String)
    } else {
        None
    }
}

/// Parses `config.toml`'s `default-scan-match-type`.
pub fn parse_scan_match_type(s: &str) -> (r: Option<MatchType>)
    ensures
        r == match_type_named(s@),
{
    if same_chars(s, "=") {
        Some(MatchType::EqualTo)
    } else if same_chars(s, "!=") {
        Some(MatchType::NotEqualTo)
    } else if same_chars(s, ">") {
        Some(MatchType::GreaterThan)
    } else if same_chars(s, "<") {
        Some(MatchType::LessThan)
    } else if same_chars(s, "range") {
        Some(MatchType::Range)
    } else if same_chars(s, "update") {
        Some(MatchType::Update)
    } else if same_chars(s, "unchanged") {
        Some(MatchType::NotChanged)
    } else if same_chars(s, "changed") {
        Some(MatchType::Changed)
    } else if same_chars(s, "increased") {
        Some(MatchType::Increased)
    } else if same_chars(s, "decreased") {
        Some(MatchType::Decreased)
    } else if same_chars(s, "+") {
        Some(MatchType::IncreasedBy)
    } else if same_chars(s, "-") {
        Some(MatchType::DecreasedBy)
    } else if same_chars(s, "any") {
        Some(MatchType::Any)
    } else {
        None
    }
}


/// Failure resolving [`Settings`]: a config field holds a value outside its vocabulary.
#[derive(Debug, Clone, PartialEq, Eq)]
pub enum SettingsError {
    InvalidLogLevel(String),
    InvalidScanDataType(String),
    InvalidScanMatchType(String),
}

/// [`SettingsError`] with its text as a char sequence.
pub enum SettingsErrorView {
    InvalidLogLevel(Seq<char>),
    InvalidScanDataType(Seq<char>),
    InvalidScanMatchType(Seq<char>),
}

impl View for SettingsError {
    type V = SettingsErrorView;

    open spec fn view(&self) -> SettingsErrorView {
        match self {
            SettingsError::InvalidLogLevel(s) => SettingsErrorView::InvalidLogLevel(s@),
            SettingsError::InvalidScanDataType(s) => SettingsErrorView::InvalidScanDataType(s@),
            SettingsError::InvalidScanMatchType(s) => SettingsErrorView::InvalidScanMatchType(s@),
        }
    }
}

/// The message text of each error.
pub open spec fn settings_error_message(e: SettingsErrorView) -> Seq<char> {
    match e {
        SettingsErrorView::InvalidLogLevel(s) => "invalid log-level "@ + debug_quote(s)
            + " in config.toml (expected one of: trace, debug, info, warn, error, off)"@,
        SettingsErrorView::InvalidScanDataType(s) => "invalid default-scan-data-type "@
            + debug_quote(s)
            + " in config.toml (expected one of: i8, i16, i32, i64, f32, f64, any, anyint, anyfloat, bytes, string)"@,
        SettingsErrorView::InvalidScanMatchType(s) => "invalid default-scan-match-type "@
            + debug_quote(s)
            + " in config.toml (expected one of: =, !=, >, <, range, update, unchanged, changed, increased, decreased, +, -, any)"@,
    }
}

impl SettingsError {
    /// The error's message.
    pub fn message(&self) -> (r: String)
        ensures
            r@ == settings_error_message(self@),
    {
        let (head, value, tail) = match self {
            SettingsError::InvalidLogLevel(s) => (
                "invalid log-level ",
                s,
                " in config.toml (expected one of: trace, debug, info, warn, error, off)",
            ),
            SettingsError::InvalidScanDataType(s) => (
                "invalid default-scan-data-type ",
                s,
                " in config.toml (expected one of: i8, i16, i32, i64, f32, f64, any, anyint, anyfloat, bytes, string)",
            ),
            SettingsError::InvalidScanMatchType(s) => (
                "invalid default-scan-match-type ",
                s,
                " in config.toml (expected one of: =, !=, >, <, range, update, unchanged, changed, increased, decreased, +, -, any)",
            ),
        };
        let mut m = String::from_str(head);
        let q = debug_quoted(value.as_str());
        m.append(q.as_str());
        m.append(tail);
        m
    }
}

/// The first field of `f` that holds a value outside its vocabulary, checked in the order log
/// level, scan data type, scan match type.
pub open spec fn file_problem(f: FileConfig) -> Option<SettingsErrorView> {
    if f.log_level is Some && level_from_text(f.log_level->0@) is None {
        Some(SettingsErrorView::InvalidLogLevel(f.log_level->0@))
    } else if f.default_scan_data_type is Some && data_type_named(f.default_scan_data_type->0@) is None {
        Some(SettingsErrorView::InvalidScanDataType(f.default_scan_data_type->0@))
    } else if f.default_scan_match_type is Some && match_type_named(f.default_scan_match_type->0@) is None {
        Some(SettingsErrorView::InvalidScanMatchType(f.default_scan_match_type->0@))
    } else {
        None
    }
}

/// `name` joined onto directory `dir` as a path.
pub open spec fn join_path(dir: Seq<char>, name: Seq<char>) -> Seq<char> {
    if dir.len() == 0 {
        name
    } else if dir.last() == '/' {
        dir + name
    } else {
        dir + "/"@ + name
    }
}

/// Fully resolved configuration.
#[derive(Debug, Clone, PartialEq, Eq)]
pub struct Settings {
    /// Pid to attach to on startup, if any.
    pub pid: Option<u32>,
    /// Path the log is appended to.
    pub log_file: String,
    /// Log level filter.
    pub log_level: LogLevel,
    /// How often, in milliseconds, the event loop wakes up with no key pressed.
    pub poll_interval_ms: u64,
    /// Bytes of memory the Hex View loads.
    pub hex_view_buffer_len: usize,
    /// Scan Panel's data type on startup.
    pub default_scan_data_type: ScanDataType,
    /// Scan Panel's match type on startup.
    pub default_scan_match_type: MatchType,
    /// Theme overrides, unparsed.
    pub theme: FileTheme,
}

/// `name` joined onto directory `dir` as a path.
fn join_path_string(dir: &str, name: &str) -> (r: String)
    ensures
        r@ == join_path(dir@, name@),
{
    let d = crate::text::chars_of(dir);
    let mut r = String::from_str(dir);
    if d.len() > 0 && d[d.len() - 1] != '/' {
        r.append("/");
    }
    r.append(name);
    r
}

impl Settings {
    /// The built-in defaults, with the log in `temp_dir`: no pid, warnings and worse logged,
    /// a 100 ms poll interval, a 256-byte Hex View, `i32` equal-to scans, no theme overrides.
    pub fn in_temp_dir(temp_dir: &str) -> (r: Settings)
        ensures
            r.pid is None,
            r.log_file@ == join_path(temp_dir@, "gameconqueror.log"@),
            r.log_level == LogLevel::Warn,
            r.poll_interval_ms == 100,
            r.hex_view_buffer_len == 256,
            r.default_scan_data_type == ScanDataType::Integer32,
            r.default_scan_match_type == MatchType::EqualTo,
            r.theme == empty_theme(),
    {
        Settings {
            pid: None,
            log_file: join_path_string(temp_dir, "gameconqueror.log"),
            log_level: LogLevel::Warn,
            poll_interval_ms: 100,
            hex_view_buffer_len: 256,
            default_scan_data_type: ScanDataType::Integer32,
            default_scan_match_type: MatchType::EqualTo,
            theme: no_theme(),
        }
    }
}

impl Default for Settings {
    /// The built-in defaults with the log in `/tmp`.
    fn default() -> (r: Settings)
        ensures
            r.pid is None,
            r.log_file@ == join_path("/tmp"@, "gameconqueror.log"@),
            r.log_level == LogLevel::Warn,
            r.poll_interval_ms == 100,
            r.hex_view_buffer_len == 256,
            r.default_scan_data_type == ScanDataType::Integer32,
            r.default_scan_match_type == MatchType::EqualTo,
            r.theme == empty_theme(),
    {
        Settings::in_temp_dir("/tmp")
    }
}

/// Resolves the settings: the defaults (log in `temp_dir`), overridden by the fields `file`
/// sets, overridden by the command line's pid; `theme` (or no overrides) as the theme. Fails
/// on the first config field outside its vocabulary (see [`file_problem`]).
pub fn resolve(
    cli: &crate::cli::CliArgs,
    file: Option<FileConfig>,
    theme: Option<FileTheme>,
    temp_dir: &str,
) -> (r: Result<Settings, SettingsError>)
    ensures
        r is Err <==> (file is Some && file_problem(file->0) is Some),
        r matches Err(e) ==> e@ == file_problem(file->0)->0,
        r matches Ok(s) ==> {
            &&& s.pid == (if cli.pid is Some {
                cli.pid
            } else if file is Some {
                file->0.pid
            } else {
                None
            })
            &&& s.log_level == (if file is Some && file->0.log_level is Some {
                level_from_text(file->0.log_level->0@)->0
            } else {
                LogLevel::Warn
            })
            &&& s.log_file@ == (if file is Some && file->0.log_file is Some {
                file->0.log_file->0@
            } else {
                join_path(temp_dir@, "gameconqueror.log"@)
            })
            &&& s.poll_interval_ms == (if file is Some && file->0.poll_interval_ms is Some {
                file->0.poll_interval_ms->0
            } else {
                100
            })
            &&& s.hex_view_buffer_len == (if file is Some && file->0.hex_view_buffer_len is Some {
                file->0.hex_view_buffer_len->0
            } else {
                256
            })
            &&& s.default_scan_data_type == (if file is Some && file->0.default_scan_data_type is Some {
                data_type_named(file->0.default_scan_data_type->0@)->0
            } else {
                ScanDataType::Integer32
            })
            &&& s.default_scan_match_type == (if file is Some
                && file->0.default_scan_match_type is Some {
                match_type_named(file->0.default_scan_match_type->0@)->0
            } else {
                MatchType::EqualTo
            })
            &&& s.theme == (if theme is Some {
                theme->0
            } else {
                empty_theme()
            })
        },
{
    let mut settings = Settings::in_temp_dir(temp_dir);
    if let Some(f) = file {
        if let Some(pid) = f.pid {
            settings.pid = Some(pid);
        }
        if let Some(level) = f.log_level {
            match parse_level_filter(level.as_str()) {
                Some(l) => settings.log_level = l,
                None => return Err(SettingsError::InvalidLogLevel(level)),
            }
        }
        if let Some(log_file) = f.log_file {
            settings.log_file = log_file;
        }
        if let Some(ms) = f.poll_interval_ms {
            settings.poll_interval_ms = ms;
        }
        if let Some(len) = f.hex_view_buffer_len {
            settings.hex_view_buffer_len = len;
        }
        if let Some(value) = f.default_scan_data_type {
            match parse_scan_data_type(value.as_str()) {
                Some(t) => settings.default_scan_data_type = t,
                None => return Err(SettingsError::InvalidScanDataType(value)),
            }
        }
        if let Some(value) = f.default_scan_match_type {
            match parse_scan_match_type(value.as_str()) {
                Some(t) => settings.default_scan_match_type = t,
                None => return Err(SettingsError::InvalidScanMatchType(value)),
            }
        }
    }
    if let Some(t) = theme {
        settings.theme = t;
    }
    if let Some(pid) = cli.pid {
        settings.pid = Some(pid);
    }
    Ok(settings)
}


/// The short name the Scan Panel shows for a data type (the `config.toml` vocabulary).
pub open spec fn data_type_name(t: ScanDataType) -> Seq<char> {
    match t {
        ScanDataType::AnyNumber => "any"@,
        ScanDataType::AnyInteger => "anyint"@,
        ScanDataType::AnyFloat => "anyfloat"@,
        ScanDataType::Integer8 => "i8"@,
        ScanDataType::Integer16 => "i16"@,
        ScanDataType::Integer32 => "i32"@,
        ScanDataType::Integer64 => "i64"@,
        ScanDataType::Float32 => "f32"@,
        ScanDataType::Float64 => "f64"@,
        ScanDataType::ByteArray => "bytes"@,
        ScanDataType::String => "string"@,
    }
}

/// The short name the Scan Panel shows for a match type (the `config.toml` vocabulary).
pub open spec fn match_type_name(t: MatchType) -> Seq<char> {
    match t {
        MatchType::Any => "any"@,
        MatchType::EqualTo => "="@,
        MatchType::NotEqualTo => "!="@,
        MatchType::GreaterThan => ">"@,
        MatchType::LessThan => "<"@,
        MatchType::Range => "range"@,
        MatchType::Update => "update"@,
        MatchType::NotChanged => "unchanged"@,
        MatchType::Changed => "changed"@,
        MatchType::Increased => "increased"@,
        MatchType::Decreased => "decreased"@,
        MatchType::IncreasedBy => "+"@,
        MatchType::DecreasedBy => "-"@,
    }
}

/// The short name the Scan Panel shows for a data type.
pub fn data_type_label(t: ScanDataType) -> (r: &'static str)
    ensures
        r@ == data_type_name(t),
{
    match t {
        ScanDataType::AnyNumber => "any",
        ScanDataType::AnyInteger => "anyint",
        ScanDataType::AnyFloat => "anyfloat",
        ScanDataType::Integer8 => "i8",
        ScanDataType::Integer16 => "i16",
        ScanDataType::Integer32 => "i32",
        ScanDataType::Integer64 => "i64",
        ScanDataType::Float32 => "f32",
        ScanDataType::Float64 => "f64",
        ScanDataType::ByteArray => "bytes",
        ScanDataType::String => "string",
    }
}

/// The short name the Scan Panel shows for a match type.
pub fn match_type_label(t: MatchType) -> (r: &'static str)
    ensures
        r@ == match_type_name(t),
{
    match t {
        MatchType::Any => "any",
        MatchType::EqualTo => "=",
        MatchType::NotEqualTo => "!=",
        MatchType::GreaterThan => ">",
        MatchType::LessThan => "<",
        MatchType::Range => "range",
        MatchType::Update => "update",
        MatchType::NotChanged => "unchanged",
        MatchType::Changed => "changed",
        MatchType::Increased => "increased",
        MatchType::Decreased => "decreased",
        MatchType::IncreasedBy => "+",
        MatchType::DecreasedBy => "-",
    }
}

/// The name the Scan Panel shows for a data type reads back, in `config.toml`, as that data
/// type.
pub proof fn lemma_data_type_name_round_trip(t: ScanDataType)
    ensures
        data_type_named(data_type_name(t)) == Some(t),
{
    let names = seq![
        "i8"@, "i16"@, "i32"@, "i64"@, "f32"@, "f64"@, "any"@, "anyint"@, "anyfloat"@, "bytes"@,
        "string"@,
    ];
    reveal_strlit("any");
    reveal_strlit("anyint");
    reveal_strlit("anyfloat");
    reveal_strlit("i8");
    reveal_strlit("i16");
    reveal_strlit("i32");
    reveal_strlit("i64");
    reveal_strlit("f32");
    reveal_strlit("f64");
    reveal_strlit("bytes");
    reveal_strlit("string");
    assert forall|i: int, j: int| 0 <= i < j < 11 implies names[i] != names[j] by {
        if names[i].len() == names[j].len() {
            if names[i].len() == 3 {
                assert(names[i][1] != names[j][1] || names[i][2] != names[j][2] || names[i][0] != names[j][0]);
            } else {
                assert(names[i][0] != names[j][0] || names[i][1] != names[j][1]);
            }
        }
    }
    match t {
        ScanDataType::Integer8 => {},
        ScanDataType::Integer16 => assert(names[0] != names[1]),
        ScanDataType::Integer32 => assert(names[0] != names[2] && names[1] != names[2]),
        ScanDataType::Integer64 => assert(names[0] != names[3] && names[1] != names[3] && names[2] != names[3]),
        _ => {},
    }
}

/// The name the Scan Panel shows for a match type reads back, in `config.toml`, as that match
/// type.
pub proof fn lemma_match_type_name_round_trip(t: MatchType)
    ensures
        match_type_named(match_type_name(t)) == Some(t),
{
    reveal_strlit("any");
    reveal_strlit("=");
    reveal_strlit("!=");
    reveal_strlit(">");
    reveal_strlit("<");
    reveal_strlit("range");
    reveal_strlit("update");
    reveal_strlit("unchanged");
    reveal_strlit("changed");
    reveal_strlit("increased");
    reveal_strlit("decreased");
    reveal_strlit("+");
    reveal_strlit("-");
    let names = seq![
        "="@, "!="@, ">"@, "<"@, "range"@, "update"@, "unchanged"@, "changed"@, "increased"@,
        "decreased"@, "+"@, "-"@, "any"@,
    ];
    assert forall|i: int, j: int| 0 <= i < j < 13 implies names[i] != names[j] by {
        if names[i][0] == names[j][0] {
            assert(names[i][1] != names[j][1]);
        }
    }
}

} // verus!
