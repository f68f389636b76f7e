//! The styles every panel renders with: the built-in defaults, overridden color by color from
//! `theme.toml`, and stripped of colors (keeping emphasis) when color is off.
//!
//! Colors and styles are this library's own plain values, laid out as `ratatui`'s are; color
//! names are read by `ratatui` itself.

use vstd::prelude::*;

use ratatui::style::Color as C;

use crate::sets::find_char;
use crate::settings::FileTheme;
use crate::text::{chars_of, parse_radix, radix_parse, same_chars, trim_at, trim_seq};

verus! {

/// A terminal color.
#[derive(Debug, Clone, Copy, PartialEq, Eq, Structural)]
pub enum Color {
    Reset,
    Black,
    Red,
    Green,
    Yellow,
    Blue,
    Magenta,
    Cyan,
    Gray,
    DarkGray,
    LightRed,
    LightGreen,
    LightYellow,
    LightBlue,
    LightMagenta,
    LightCyan,
    White,
    Rgb(u8, u8, u8),
    Indexed(u8),
}

/// Bold text.
pub const BOLD: u16 = 1;

/// Reversed foreground and background.
pub const REVERSED: u16 = 64;

/// A text style: colors, and the emphasis bits it adds and removes (bold 1, dim 2, italic 4,
/// underlined 8, slow blink 16, rapid blink 32, reversed 64, hidden 128, crossed out 256).
#[derive(Debug, Clone, Copy, PartialEq, Eq, Structural)]
pub struct Style {
    pub fg: Option<Color>,
    pub bg: Option<Color>,
    pub add_modifier: u16,
    pub sub_modifier: u16,
}

/// No colors, no emphasis.
pub open spec fn plain() -> Style {
    Style { fg: None, bg: None, add_modifier: 0, sub_modifier: 0 }
}

/// `s` with foreground `c`.
pub open spec fn with_fg(s: Style, c: Color) -> Style {
    Style { fg: Some(c), ..s }
}

/// `s` with background `c`.
pub open spec fn with_bg(s: Style, c: Color) -> Style {
    Style { bg: Some(c), ..s }
}

/// `s` adding emphasis `m` (and no longer removing it).
pub open spec fn with_modifier(s: Style, m: u16) -> Style {
    Style { add_modifier: s.add_modifier | m, sub_modifier: s.sub_modifier & !m, ..s }
}

/// `s` without colors.
pub open spec fn without_colors(s: Style) -> Style {
    Style { fg: None, bg: None, ..s }
}

/// Every style a panel renders with.
#[derive(Debug, Clone, Copy, PartialEq, Eq, Structural)]
pub struct Theme {
    /// Border of the focused panel.
    pub focused_border: Style,
    /// Status bar while nothing is attached.
    pub status_bar: Style,
    /// Status bar while a process is attached.
    pub status_bar_attached: Style,
    /// Status bar while an error shows.
    pub status_bar_error: Style,
    /// Scan progress gauge fill.
    pub scan_progress: Style,
    /// Selected row.
    pub selection: Style,
    /// Value cell of a match whose value changed on the last scan.
    pub match_changed: Style,
    /// Frozen column of a frozen cheat.
    pub frozen: Style,
}

/// The built-in styles: a bold cyan focused border; black on gray status bar, black on green
/// once attached, white on red for errors; a cyan progress gauge; reversed selection; bold
/// yellow changed values; bold blue frozen cheats.
pub open spec fn default_theme() -> Theme {
    Theme {
        focused_border: with_modifier(with_fg(plain(), Color::Cyan), BOLD),
        status_bar: with_bg(with_fg(plain(), Color::Black), Color::Gray),
        status_bar_attached: with_bg(with_fg(plain(), Color::Black), Color::Green),
        status_bar_error: with_bg(with_fg(plain(), Color::White), Color::Red),
        scan_progress: with_fg(plain(), Color::Cyan),
        selection: with_modifier(plain(), REVERSED),
        match_changed: with_modifier(with_fg(plain(), Color::Yellow), BOLD),
        frozen: with_modifier(with_fg(plain(), Color::Blue), BOLD),
    }
}

/// A style with only a foreground color and an emphasis.
fn styled(fg: Option<Color>, bg: Option<Color>, m: u16) -> (r: Style)
    ensures
        r == (Style { fg, bg, add_modifier: m, sub_modifier: 0 }),
{
    Style { fg, bg, add_modifier: m, sub_modifier: 0 }
}

impl Default for Theme {
    /// The built-in styles (see [`default_theme`]).
    fn default() -> (r: Theme)
        ensures
            r == default_theme(),
    {
        let r = Theme {
            focused_border: styled(Some(Color::Cyan), None, BOLD),
            status_bar: styled(Some(Color::Black), Some(Color::Gray), 0),
            status_bar_attached: styled(Some(Color::Black), Some(Color::Green), 0),
            status_bar_error: styled(Some(Color::White), Some(Color::Red), 0),
            scan_progress: styled(Some(Color::Cyan), None, 0),
            selection: styled(None, None, REVERSED),
            match_changed: styled(Some(Color::Yellow), None, BOLD),
            frozen: styled(Some(Color::Blue), None, BOLD),
        };
        assert(0u16 | BOLD == BOLD && 0u16 & !BOLD == 0u16 && 0u16 | REVERSED == REVERSED && 0u16
            & !REVERSED == 0u16) by (bit_vector);
        r
    }
}

/// What `ratatui`'s `Color::from_str` reads from `s` (a name such as `cyan` or `light red`,
/// `#rrggbb`, or a palette index), given as the `{:?}` text of that color; `None` when it reads
/// no color.
pub uninterp spec fn color_debug_text(s: Seq<char>) -> Option<Seq<char>>;

/// `ratatui`'s `Color::from_str`, its color handed back as the color's `{:?}` text: the contract
/// ties the result to [`color_debug_text`] of the input and states nothing more.
#[verifier::external_body]
fn parse_color_debug(s: &str) -> (r: Option<String>)
    ensures
        match r {
            Some(t) => color_debug_text(s@) == Some(t@),
            None => color_debug_text(s@) is None,
        },
{
    match s.parse::<C>() {
        Ok(c) => Some(format!("{c:?}")),
        Err(_) => None,
    }
}

/// The color a plain color name of `ratatui`'s names.
pub open spec fn named_color(t: Seq<char>) -> Option<Color> {
    if t == "Reset"@ { Some(Color::Reset) }
    else if t == "Black"@ { Some(Color::Black) }
    else if t == "Red"@ { Some(Color::Red) }
    else if t == "Green"@ { Some(Color::Green) }
    else if t == "Yellow"@ { Some(Color::Yellow) }
    else if t == "Blue"@ { Some(Color::Blue) }
    else if t == "Magenta"@ { Some(Color::Magenta) }
    else if t == "Cyan"@ { Some(Color::Cyan) }
    else if t == "Gray"@ { Some(Color::Gray) }
    else if t == "DarkGray"@ { Some(Color::DarkGray) }
    else if t == "LightRed"@ { Some(Color::LightRed) }
    else if t == "LightGreen"@ { Some(Color::LightGreen) }
    else if t == "LightYellow"@ { Some(Color::LightYellow) }
    else if t == "LightBlue"@ { Some(Color::LightBlue) }
    else if t == "LightMagenta"@ { Some(Color::LightMagenta) }
    else if t == "LightCyan"@ { Some(Color::LightCyan) }
    else if t == "White"@ { Some(Color::White) }
    else { None }
}

/// A decimal byte, surrounding whitespace allowed.
pub open spec fn byte_text(t: Seq<char>) -> Option<u8> {
    match radix_parse(trim_seq(t), 10, 255) {
        Some(v) => Some(v as u8),
        None => None,
    }
}

/// The color whose `{:?}` text is `t`: a plain name, `Indexed(i)` or `Rgb(r, g, b)`.
pub open spec fn debug_color(t: Seq<char>) -> Option<Color> {
    if named_color(t) is Some {
        named_color(t)
    } else if t.len() >= 9 && t.take(8) == "Indexed("@ && t.last() == ')' {
        match byte_text(t.subrange(8, t.len() - 1)) {
            Some(i) => Some(Color::Indexed(i)),
            None => None,
        }
    } else if t.len() >= 5 && t.take(4) == "Rgb("@ && t.last() == ')' {
        let inner = t.subrange(4, t.len() - 1);
        match find_char(inner, ',') {
            None => None,
            Some(a) => {
                let rest = inner.skip(a + 1);
                match find_char(rest, ',') {
                    None => None,
                    Some(b) => match (
                        byte_text(inner.take(a)),
                        byte_text(rest.take(b)),
                        byte_text(rest.skip(b + 1)),
                    ) {
                        (Some(r), Some(g), Some(bl)) => Some(Color::Rgb(r, g, bl)),
                        _ => None,
                    },
                }
            },
        }
    } else {
        None
    }
}

/// The color a `theme.toml` string names, as `ratatui` reads it (see [`color_debug_text`]).
pub open spec fn color_from_text(s: Seq<char>) -> Option<Color> {
    match color_debug_text(s) {
        Some(t) => debug_color(t),
        None => None,
    }
}

/// The decimal byte in `s[lo..hi]`, surrounding whitespace allowed.
fn byte_at(s: &Vec<char>, lo: usize, hi: usize) -> (r: Option<u8>)
    requires
        lo <= hi <= s@.len(),
    ensures
        r == byte_text(s@.subrange(lo as int, hi as int)),
{
    let (a, b) = trim_at(s, lo, hi);
    match parse_radix(s, a, b, 10, 255) {
        Some(v) => Some(v as u8),
        None => None,
    }
}

/// `s[lo..]` starts with `p`.
fn starts_with_at(s: &Vec<char>, lo: usize, p: &str) -> (r: bool)
    requires
        lo <= s@.len(),
    ensures
        r == (s@.len() - lo >= p@.len() && s@.subrange(lo as int, lo + p@.len()) == p@),
{
    let q = chars_of(p);
    if s.len() - lo < q.len() {
        return false;
    }
    let mut i: usize = 0;
    while i < q.len()
        invariant
            0 <= i <= q@.len(),
            q@ == p@,
            lo + q@.len() <= s.len(),
            forall|j: int| 0 <= j < i ==> s@[lo + j] == q@[j],
        decreases q@.len() - i,
    {
        if s[lo + i] != q[i] {
            proof {
                assert(s@.subrange(lo as int, lo + p@.len())[i as int] != p@[i as int]);
            }
            return false;
        }
        i = i + 1;
    }
    proof {
        assert(s@.subrange(lo as int, lo + p@.len()) =~= p@);
    }
    true
}

/// The color of a plain color name of `ratatui`'s names (see [`named_color`]).
fn named_of(t: &str) -> (r: Option<Color>)
    ensures
        r == named_color(t@),
{
    if same_chars(t, "Reset") {
        Some(Color::Reset)
    } else if same_chars(t, "Black") {
        Some(Color::Black)
    } else if same_chars(t, "Red") {
        Some(Color::Red)
    } else if same_chars(t, "Green") {
        Some(Color::Green)
    } else if same_chars(t, "Yellow") {
        Some(Color::Yellow)
    } else if same_chars(t, "Blue") {
        Some(Color::Blue)
    } else if same_chars(t, "Magenta") {
        Some(Color::Magenta)
    } else if same_chars(t, "Cyan") {
        Some(Color::Cyan)
    } else if same_chars(t, "Gray") {
        Some(Color::Gray)
    } else if same_chars(t, "DarkGray") {
        Some(Color::DarkGray)
    } else if same_chars(t, "LightRed") {
        Some(Color::LightRed)
    } else if same_chars(t, "LightGreen") {
        Some(Color::LightGreen)
    } else if same_chars(t, "LightYellow") {
        Some(Color::LightYellow)
    } else if same_chars(t, "LightBlue") {
        Some(Color::LightBlue)
    } else if same_chars(t, "LightMagenta") {
        Some(Color::LightMagenta)
    } else if same_chars(t, "LightCyan") {
        Some(Color::LightCyan)
    } else if same_chars(t, "White") {
        Some(Color::White)
    } else {
        None
    }
}

/// The color whose `{:?}` text is `t` (see [`debug_color`]).
fn color_of_debug(t: &str) -> (r: Option<Color>)
    ensures
        r == debug_color(t@),
{
    if let Some(c) = named_of(t) {
        return Some(c);
    }
    let s = chars_of(t);
    let n = s.len();
    proof {
        assert(s@.subrange(0, n as int) =~= t@);
    }
    if n >= 9 && starts_with_at(&s, 0, "Indexed(") && s[n - 1] == ')' {
        proof {
            reveal_strlit("Indexed(");
            assert(t@.take(8) == s@.subrange(0, 8));
            assert(t@.subrange(8, t@.len() - 1) == s@.subrange(8, n - 1));
        }
        return match byte_at(&s, 8, n - 1) {
            Some(i) => Some(Color::Indexed(i)),
            None => None,
        };
    }
    proof {
        reveal_strlit("Indexed(");
        if t@.len() >= 9 && t@.take(8) == "Indexed("@ && t@.last() == ')' {
            assert(s@.subrange(0, 8) == t@.take(8));
        }
    }
    if n >= 5 && starts_with_at(&s, 0, "Rgb(") && s[n - 1] == ')' {
        proof {
            reveal_strlit("Rgb(");
            assert(t@.take(4) == s@.subrange(0, 4));
        }
        let ghost inner = t@.subrange(4, t@.len() - 1);
        proof {
            assert(inner == s@.subrange(4, n - 1));
        }
        let a = match crate::sets::find_in_chars(&s, 4, n - 1, ',') {
            None => return None,
            Some(a) => a,
        };
        let ghost rest = inner.skip(a - 4 + 1);
        proof {
            assert(rest == s@.subrange(a + 1, n - 1));
        }
        let b = match crate::sets::find_in_chars(&s, a + 1, n - 1, ',') {
            None => return None,
            Some(b) => b,
        };
        proof {
            assert(inner.take(a - 4) == s@.subrange(4, a as int));
            assert(rest.take(b - (a + 1)) == s@.subrange(a + 1, b as int));
            assert(rest.skip(b - (a + 1) + 1) == s@.subrange(b + 1, n - 1));
        }
        let r = byte_at(&s, 4, a);
        let g = byte_at(&s, a + 1, b);
        let bl = byte_at(&s, b + 1, n - 1);
        return match (r, g, bl) {
            (Some(r), Some(g), Some(bl)) => Some(Color::Rgb(r, g, bl)),
            _ => None,
        };
    }
    proof {
        reveal_strlit("Rgb(");
        if t@.len() >= 5 && t@.take(4) == "Rgb("@ && t@.last() == ')' {
            assert(s@.subrange(0, 4) == t@.take(4));
        }
    }
    None
}

/// `ratatui`'s `Color::from_str` (see [`color_from_text`]).
fn parse_color_text(s: &str) -> (r: Option<Color>)
    ensures
        r == color_from_text(s@),
{
    match parse_color_debug(s) {
        Some(t) => color_of_debug(t.as_str()),
        None => None,
    }
}

/// A `theme.toml` color that names no color, and the key it came from.
#[derive(Debug, Clone, PartialEq, Eq)]
pub struct ThemeError {
    pub field: &'static str,
    pub value: String,
}

/// The message for a color `value` under key `field` that names no color.
pub open spec fn theme_error_message(field: Seq<char>, value: Seq<char>) -> Seq<char> {
    "invalid color "@ + crate::text::debug_quote(value) + " for theme."@ + field
        + " (expected a name like \"cyan\"/\"light red\", \"#rrggbb\" hex, or a 0-255 palette index)"@
}

impl ThemeError {
    /// The error's message.
    pub fn message(&self) -> (r: String)
        ensures
            r@ == theme_error_message(self.field@, self.value@),
    {
        let mut m = String::from_str("invalid color ");
        let q = crate::text::debug_quoted(self.value.as_str());
        m.append(q.as_str());
        m.append(" for theme.");
        m.append(self.field);
        m.append(
            " (expected a name like \"cyan\"/\"light red\", \"#rrggbb\" hex, or a 0-255 palette index)",
        );
        m
    }
}

/// One override step: once a color failed, the failure stands; an absent value keeps the
/// theme; a value that names a color is applied with `set`; one that names none fails.
pub open spec fn override_step(
    acc: Result<Theme, (Seq<char>, Seq<char>)>,
    value: Option<String>,
    field: Seq<char>,
    set: spec_fn(Theme, Color) -> Theme,
) -> Result<Theme, (Seq<char>, Seq<char>)> {
    match acc {
        Err(e) => Err(e),
        Ok(t) => match value {
            None => Ok(t),
            Some(v) => match color_from_text(v@) {
                None => Err((field, v@)),
                Some(c) => Ok(set(t, c)),
            },
        },
    }
}

/// How the `which`th `theme.toml` key sets a color on a theme.
pub open spec fn setter(which: int) -> spec_fn(Theme, Color) -> Theme {
    |t: Theme, c: Color|
        if which == 0 {
            Theme { focused_border: with_fg(t.focused_border, c), ..t }
        } else if which == 1 {
            Theme { status_bar: with_fg(t.status_bar, c), ..t }
        } else if which == 2 {
            Theme { status_bar: with_bg(t.status_bar, c), ..t }
        } else if which == 3 {
            Theme { status_bar_attached: with_fg(t.status_bar_attached, c), ..t }
        } else if which == 4 {
            Theme { status_bar_attached: with_bg(t.status_bar_attached, c), ..t }
        } else if which == 5 {
            Theme { status_bar_error: with_fg(t.status_bar_error, c), ..t }
        } else if which == 6 {
            Theme { status_bar_error: with_bg(t.status_bar_error, c), ..t }
        } else if which == 7 {
            Theme { scan_progress: with_fg(t.scan_progress, c), ..t }
        } else if which == 8 {
            Theme { selection: with_bg(plain(), c), ..t }
        } else if which == 9 {
            Theme { match_changed: with_fg(t.match_changed, c), ..t }
        } else {
            Theme { frozen: with_fg(t.frozen, c), ..t }
        }
}

/// The `which`th `theme.toml` key.
pub open spec fn key_name(which: int) -> Seq<char> {
    if which == 0 {
        "focused-border"@
    } else if which == 1 {
        "status-bar-fg"@
    } else if which == 2 {
        "status-bar-bg"@
    } else if which == 3 {
        "status-bar-attached-fg"@
    } else if which == 4 {
        "status-bar-attached-bg"@
    } else if which == 5 {
        "status-bar-error-fg"@
    } else if which == 6 {
        "status-bar-error-bg"@
    } else if which == 7 {
        "scan-progress"@
    } else if which == 8 {
        "selection"@
    } else if which == 9 {
        "match-changed"@
    } else {
        "frozen"@
    }
}

/// The `which`th `theme.toml` value of `f`.
pub open spec fn key_value(f: FileTheme, which: int) -> Option<String> {
    if which == 0 {
        f.focused_border
    } else if which == 1 {
        f.status_bar_fg
    } else if which == 2 {
        f.status_bar_bg
    } else if which == 3 {
        f.status_bar_attached_fg
    } else if which == 4 {
        f.status_bar_attached_bg
    } else if which == 5 {
        f.status_bar_error_fg
    } else if which == 6 {
        f.status_bar_error_bg
    } else if which == 7 {
        f.scan_progress
    } else if which == 8 {
        f.selection
    } else if which == 9 {
        f.match_changed
    } else {
        f.frozen
    }
}

/// The default theme overridden by the first `n` keys of `f`, in `theme.toml`'s order; an
/// explicit selection color replaces the reversed default outright.
pub open spec fn overridden_upto(f: FileTheme, n: int) -> Result<Theme, (Seq<char>, Seq<char>)>
    decreases n,
{
    if n <= 0 {
        Ok(default_theme())
    } else {
        override_step(overridden_upto(f, n - 1), key_value(f, n - 1), key_name(n - 1), setter(n - 1))
    }
}

/// The default theme overridden by every key of `f`.
pub open spec fn overridden(f: FileTheme) -> Result<Theme, (Seq<char>, Seq<char>)> {
    overridden_upto(f, 11)
}

/// `t` without colors, keeping emphasis, and with an emphasis for the styles that color alone
/// told apart: bold when attached, reversed bold for errors, reversed progress and selection,
/// bold changed values and frozen cheats.
pub open spec fn stripped(t: Theme) -> Theme {
    Theme {
        focused_border: without_colors(t.focused_border),
        status_bar: without_colors(t.status_bar),
        status_bar_attached: with_modifier(without_colors(t.status_bar_attached), BOLD),
        status_bar_error: with_modifier(without_colors(t.status_bar_error), REVERSED | BOLD),
        scan_progress: with_modifier(without_colors(t.scan_progress), REVERSED),
        selection: with_modifier(without_colors(t.selection), REVERSED),
        match_changed: with_modifier(without_colors(t.match_changed), BOLD),
        frozen: with_modifier(without_colors(t.frozen), BOLD),
    }
}

/// `s` adding emphasis `m`.
fn add_modifier(s: Style, m: u16) -> (r: Style)
    ensures
        r == with_modifier(s, m),
{
    Style { add_modifier: s.add_modifier | m, sub_modifier: s.sub_modifier & !m, ..s }
}

/// `s` without colors.
fn strip(s: Style) -> (r: Style)
    ensures
        r == without_colors(s),
{
    Style { fg: None, bg: None, ..s }
}

/// `theme` without colors (see [`stripped`]).
pub fn strip_colors(theme: Theme) -> (r: Theme)
    ensures
        r == stripped(theme),
{
    Theme {
        focused_border: strip(theme.focused_border),
        status_bar: strip(theme.status_bar),
        status_bar_attached: add_modifier(strip(theme.status_bar_attached), BOLD),
        status_bar_error: add_modifier(strip(theme.status_bar_error), REVERSED | BOLD),
        scan_progress: add_modifier(strip(theme.scan_progress), REVERSED),
        selection: add_modifier(strip(theme.selection), REVERSED),
        match_changed: add_modifier(strip(theme.match_changed), BOLD),
        frozen: add_modifier(strip(theme.frozen), BOLD),
    }
}

/// The color `value` under key `field` names, or the error naming both.
pub fn parse_color(field: &'static str, value: &String) -> (r: Result<Color, ThemeError>)
    ensures
        match color_from_text(value@) {
            Some(c) => r == Ok::<Color, ThemeError>(c),
            None => r matches Err(e) && e.field == field && e.value@ == value@,
        },
{
    match parse_color_text(value.as_str()) {
        Some(c) => Ok(c),
        None => Err(ThemeError { field, value: value.clone() }),
    }
}

/// The `which`th `theme.toml` key's name.
fn key_label(which: u8) -> (r: &'static str)
    requires
        which < 11,
    ensures
        r@ == key_name(which as int),
{
    if which == 0 {
        "focused-border"
    } else if which == 1 {
        "status-bar-fg"
    } else if which == 2 {
        "status-bar-bg"
    } else if which == 3 {
        "status-bar-attached-fg"
    } else if which == 4 {
        "status-bar-attached-bg"
    } else if which == 5 {
        "status-bar-error-fg"
    } else if which == 6 {
        "status-bar-error-bg"
    } else if which == 7 {
        "scan-progress"
    } else if which == 8 {
        "selection"
    } else if which == 9 {
        "match-changed"
    } else {
        "frozen"
    }
}

/// `t` with color `c` set by the `which`th key.
fn set_color(t: Theme, which: u8, c: Color) -> (r: Theme)
    requires
        which < 11,
    ensures
        r == (setter(which as int))(t, c),
{
    if which == 0 {
        Theme { focused_border: Style { fg: Some(c), ..t.focused_border }, ..t }
    } else if which == 1 {
        Theme { status_bar: Style { fg: Some(c), ..t.status_bar }, ..t }
    } else if which == 2 {
        Theme { status_bar: Style { bg: Some(c), ..t.status_bar }, ..t }
    } else if which == 3 {
        Theme { status_bar_attached: Style { fg: Some(c), ..t.status_bar_attached }, ..t }
    } else if which == 4 {
        Theme { status_bar_attached: Style { bg: Some(c), ..t.status_bar_attached }, ..t }
    } else if which == 5 {
        Theme { status_bar_error: Style { fg: Some(c), ..t.status_bar_error }, ..t }
    } else if which == 6 {
        Theme { status_bar_error: Style { bg: Some(c), ..t.status_bar_error }, ..t }
    } else if which == 7 {
        Theme { scan_progress: Style { fg: Some(c), ..t.scan_progress }, ..t }
    } else if which == 8 {
        Theme { selection: Style { fg: None, bg: Some(c), add_modifier: 0, sub_modifier: 0 }, ..t }
    } else if which == 9 {
        Theme { match_changed: Style { fg: Some(c), ..t.match_changed }, ..t }
    } else {
        Theme { frozen: Style { fg: Some(c), ..t.frozen }, ..t }
    }
}

/// The `which`th value of `f`.
fn value_at(f: &FileTheme, which: u8) -> (r: &Option<String>)
    requires
        which < 11,
    ensures
        *r == key_value(*f, which as int),
{
    if which == 0 {
        &f.focused_border
    } else if which == 1 {
        &f.status_bar_fg
    } else if which == 2 {
        &f.status_bar_bg
    } else if which == 3 {
        &f.status_bar_attached_fg
    } else if which == 4 {
        &f.status_bar_attached_bg
    } else if which == 5 {
        &f.status_bar_error_fg
    } else if which == 6 {
        &f.status_bar_error_bg
    } else if which == 7 {
        &f.scan_progress
    } else if which == 8 {
        &f.selection
    } else if which == 9 {
        &f.match_changed
    } else {
        &f.frozen
    }
}

impl Theme {
    /// The theme: the defaults overridden by `file` (if given, see [`overridden`]), without
    /// colors when `use_color` is off; the first color that names none fails.
    pub fn resolve_with_color(file: Option<&FileTheme>, use_color: bool) -> (r: Result<Theme, ThemeError>)
        ensures
            match file {
                None => r == Ok::<Theme, ThemeError>(
                    if use_color {
                        default_theme()
                    } else {
                        stripped(default_theme())
                    },
                ),
                Some(f) => match overridden(*f) {
                    Ok(t) => r == Ok::<Theme, ThemeError>(
                        if use_color {
                            t
                        } else {
                            stripped(t)
                        },
                    ),
                    Err((field, value)) => r matches Err(e) && e.field@ == field && e.value@ == value,
                },
            },
    {
        let mut theme = Theme::default();
        if let Some(f) = file {
            let mut which: u8 = 0;
            while which < 11
                invariant
                    which <= 11,
                    file == Some(f),
                    overridden_upto(*f, which as int) == Ok::<Theme, (Seq<char>, Seq<char>)>(theme),
                decreases 11 - which,
            {
                match value_at(f, which) {
                    None => {},
                    Some(v) => {
                        let label = key_label(which);
                        match parse_color(label, v) {
                            Ok(c) => {
                                theme = set_color(theme, which, c);
                            },
                            Err(e) => {
                                proof {
                                    assert(overridden_upto(*f, which as int + 1) == Err::<Theme, (Seq<char>, Seq<char>)>(
                                        (key_name(which as int), v@),
                                    ));
                                    lemma_failure_stands(*f, which as int + 1, 11);
                                    assert(overridden(*f) == Err::<Theme, (Seq<char>, Seq<char>)>(
                                        (key_name(which as int), v@),
                                    ));
                                }
                                return Err(e);
                            },
                        }
                    },
                }
                which = which + 1;
            }
        }
        if !use_color {
            theme = strip_colors(theme);
        }
        Ok(theme)
    }
}

/// Once a key fails, every later key keeps that failure.
proof fn lemma_failure_stands(f: FileTheme, n: int, m: int)
    requires
        0 <= n <= m,
        overridden_upto(f, n) is Err,
    ensures
        overridden_upto(f, m) == overridden_upto(f, n),
    decreases m - n,
{
    if n < m {
        lemma_failure_stands(f, n, m - 1);
    }
}

} // verus!
