//! Parsing ANSI-escaped bytes into styled text.
//!
//! The parser never fails and never stalls: Select Graphic Rendition
//! sequences (`ESC [ <params> m`) are applied to a carried style, every other
//! escape form is recognized and discarded, and on garbled input at least the
//! escape byte itself is consumed. Text is split into lines on `\n` (an
//! immediately preceding `\r` is dropped), and the style state carries over
//! from one line to the next.

use vstd::prelude::*;
use crate::strings::{bytes_to_string_lossy, utf8_lossy};
use crate::style::{Color, Modifier, Style};

verus! {

pub open spec fn is_alpha_byte(b: u8) -> bool {
    (0x41 <= b <= 0x5A) || (0x61 <= b <= 0x7A)
}

pub open spec fn is_digit_byte(b: u8) -> bool {
    0x30 <= b <= 0x39
}

/// Position `i` starts a line break: a newline, or a carriage return directly
/// before one.
pub open spec fn at_line_break(s: Seq<u8>, i: int) -> bool {
    &&& 0 <= i < s.len()
    &&& (s[i] == 0x0A || (s[i] == 0x0D && i + 1 < s.len() && s[i + 1] == 0x0A))
}

/// How many bytes the line break starting at `i` spans.
pub open spec fn break_len(s: Seq<u8>, i: int) -> int {
    if s[i] == 0x0A {
        1int
    } else {
        2int
    }
}

/// A text run stops at an escape byte or a line break.
pub open spec fn at_stop(s: Seq<u8>, i: int) -> bool {
    s[i] == 0x1B || at_line_break(s, i)
}

/// The length of the text run starting at `i`.
pub open spec fn run_len(s: Seq<u8>, i: int) -> int
    decreases s.len() - i,
    when 0 <= i <= s.len()
{
    if i >= s.len() || at_stop(s, i) {
        0
    } else {
        1 + run_len(s, i + 1)
    }
}

pub proof fn lemma_run_len(s: Seq<u8>, i: int)
    requires
        0 <= i <= s.len(),
    ensures
        0 <= run_len(s, i),
        i + run_len(s, i) <= s.len(),
        forall|m: int| i <= m < i + run_len(s, i) ==> !at_stop(s, m),
        i + run_len(s, i) < s.len() ==> at_stop(s, i + run_len(s, i)),
    decreases s.len() - i,
{
    if !(i >= s.len() || at_stop(s, i)) {
        lemma_run_len(s, i + 1);
    }
}

/// The number of consecutive decimal digits at `i`, looking no further
/// than `j`.
pub open spec fn bdigits_run(s: Seq<u8>, i: int, j: int) -> int
    decreases j - i,
    when 0 <= i <= j <= s.len()
{
    if i < j && is_digit_byte(s[i]) {
        1 + bdigits_run(s, i + 1, j)
    } else {
        0
    }
}

pub proof fn lemma_bdigits_run(s: Seq<u8>, i: int, j: int)
    requires
        0 <= i <= j <= s.len(),
    ensures
        0 <= bdigits_run(s, i, j),
        i + bdigits_run(s, i, j) <= j,
        forall|m: int| i <= m < i + bdigits_run(s, i, j) ==> is_digit_byte(#[trigger] s[m]),
        i + bdigits_run(s, i, j) < j ==> !is_digit_byte(s[i + bdigits_run(s, i, j)]),
    decreases j - i,
{
    if i < j && is_digit_byte(s[i]) {
        lemma_bdigits_run(s, i + 1, j);
    }
}

/// The decimal value of the digit bytes `s[a..b)`.
pub open spec fn bval(s: Seq<u8>, a: int, b: int) -> int
    decreases b - a,
    when 0 <= a <= b <= s.len()
{
    if a >= b {
        0
    } else {
        bval(s, a, b - 1) * 10 + (s[b - 1] - 0x30)
    }
}

/// The value of a digit sequence is never negative.
pub proof fn lemma_bval_nonneg(s: Seq<u8>, a: int, b: int)
    requires
        0 <= a <= b <= s.len(),
        forall|m: int| a <= m < b ==> is_digit_byte(#[trigger] s[m]),
    ensures
        0 <= bval(s, a, b),
    decreases b - a,
{
    if a < b {
        lemma_bval_nonneg(s, a, b - 1);
    }
}

/// A digit sequence's value only grows as more digits follow.
pub proof fn lemma_bval_monotone(s: Seq<u8>, a: int, k: int, b: int)
    requires
        0 <= a <= k <= b <= s.len(),
        forall|m: int| a <= m < b ==> is_digit_byte(#[trigger] s[m]),
    ensures
        0 <= bval(s, a, k) <= bval(s, a, b),
    decreases b - k,
{
    lemma_bval_nonneg(s, a, k);
    if k < b {
        lemma_bval_monotone(s, a, k + 1, b);
    }
}

/// The SGR body `s[i..j)` read as a `;`-separated list of integers in
/// `0..=255` (a single trailing `;` is tolerated); `None` when the body is
/// not such a list, in which case the whole sequence is discarded.
pub open spec fn parse_params(s: Seq<u8>, i: int, j: int) -> Option<Seq<u8>>
    decreases j - i,
    when 0 <= i <= j <= s.len()
    via parse_params_dec
{
    if i >= j {
        Some(Seq::empty())
    } else {
        let d = bdigits_run(s, i, j);
        if d == 0 {
            None
        } else if bval(s, i, i + d) > 255 {
            None
        } else {
            let v = bval(s, i, i + d) as u8;
            if i + d == j {
                Some(seq![v])
            } else if s[i + d] == 0x3B {
                match parse_params(s, i + d + 1, j) {
                    None => None,
                    Some(rest) => Some(seq![v] + rest),
                }
            } else {
                None
            }
        }
    }
}

#[via_fn]
proof fn parse_params_dec(s: Seq<u8>, i: int, j: int) {
    lemma_bdigits_run(s, i, j);
}

/// The codes an SGR parameter can select, after the table of `From<u8>`.
#[derive(Debug, Clone, Copy, PartialEq, Eq, Structural)]
pub enum AnsiCode {
    /// Reset all attributes.
    Reset,
    Bold,
    Faint,
    Italic,
    Underline,
    SlowBlink,
    RapidBlink,
    Reverse,
    Conceal,
    CrossedOut,
    PrimaryFont,
    AlternateFont,
    Fraktur,
    BoldOff,
    /// Neither bold nor faint.
    Normal,
    NotItalic,
    UnderlineOff,
    BlinkOff,
    InvertOff,
    Reveal,
    CrossedOutOff,
    /// A fixed foreground color.
    ForegroundColor(Color),
    /// An 8-bit or 24-bit foreground color follows.
    SetForegroundColor,
    DefaultForegroundColor,
    /// A fixed background color.
    BackgroundColor(Color),
    /// An 8-bit or 24-bit background color follows.
    SetBackgroundColor,
    DefaultBackgroundColor,
    /// Any other, unsupported code.
    Code(u8),
}

/// The SGR code table.
pub open spec fn spec_ansi_code(code: u8) -> AnsiCode {
    if code == 0 {
        AnsiCode::Reset
    } else if code == 1 {
        AnsiCode::Bold
    } else if code == 2 {
        AnsiCode::Faint
    } else if code == 3 {
        AnsiCode::Italic
    } else if code == 4 {
        AnsiCode::Underline
    } else if code == 5 {
        AnsiCode::SlowBlink
    } else if code == 6 {
        AnsiCode::RapidBlink
    } else if code == 7 {
        AnsiCode::Reverse
    } else if code == 8 {
        AnsiCode::Conceal
    } else if code == 9 {
        AnsiCode::CrossedOut
    } else if code == 10 {
        AnsiCode::PrimaryFont
    } else if code == 11 {
        AnsiCode::AlternateFont
    } else if code == 20 {
        AnsiCode::Fraktur
    } else if code == 21 {
        AnsiCode::BoldOff
    } else if code == 22 {
        AnsiCode::Normal
    } else if code == 23 {
        AnsiCode::NotItalic
    } else if code == 24 {
        AnsiCode::UnderlineOff
    } else if code == 25 {
        AnsiCode::BlinkOff
    } else if code == 27 {
        AnsiCode::InvertOff
    } else if code == 28 {
        AnsiCode::Reveal
    } else if code == 29 {
        AnsiCode::CrossedOutOff
    } else if code == 30 {
        AnsiCode::ForegroundColor(Color::Black)
    } else if code == 31 {
        AnsiCode::ForegroundColor(Color::Red)
    } else if code == 32 {
        AnsiCode::ForegroundColor(Color::Green)
    } else if code == 33 {
        AnsiCode::ForegroundColor(Color::Yellow)
    } else if code == 34 {
        AnsiCode::ForegroundColor(Color::Blue)
    } else if code == 35 {
        AnsiCode::ForegroundColor(Color::Magenta)
    } else if code == 36 {
        AnsiCode::ForegroundColor(Color::Cyan)
    } else if code == 37 {
        AnsiCode::ForegroundColor(Color::Gray)
    } else if code == 38 {
        AnsiCode::SetForegroundColor
    } else if code == 39 {
        AnsiCode::DefaultForegroundColor
    } else if code == 40 {
        AnsiCode::BackgroundColor(Color::Black)
    } else if code == 41 {
        AnsiCode::BackgroundColor(Color::Red)
    } else if code == 42 {
        AnsiCode::BackgroundColor(Color::Green)
    } else if code == 43 {
        AnsiCode::BackgroundColor(Color::Yellow)
    } else if code == 44 {
        AnsiCode::BackgroundColor(Color::Blue)
    } else if code == 45 {
        AnsiCode::BackgroundColor(Color::Magenta)
    } else if code == 46 {
        AnsiCode::BackgroundColor(Color::Cyan)
    } else if code == 47 {
        AnsiCode::BackgroundColor(Color::Gray)
    } else if code == 48 {
        AnsiCode::SetBackgroundColor
    } else if code == 49 {
        AnsiCode::DefaultBackgroundColor
    } else if code == 90 {
        AnsiCode::ForegroundColor(Color::DarkGray)
    } else if code == 91 {
        AnsiCode::ForegroundColor(Color::LightRed)
    } else if code == 92 {
        AnsiCode::ForegroundColor(Color::LightGreen)
    } else if code == 93 {
        AnsiCode::ForegroundColor(Color::LightYellow)
    } else if code == 94 {
        AnsiCode::ForegroundColor(Color::LightBlue)
    } else if code == 95 {
        AnsiCode::ForegroundColor(Color::LightMagenta)
    } else if code == 96 {
        AnsiCode::ForegroundColor(Color::LightCyan)
    } else if code == 97 {
        AnsiCode::ForegroundColor(Color::White)
    } else if code == 100 {
        AnsiCode::BackgroundColor(Color::DarkGray)
    } else if code == 101 {
        AnsiCode::BackgroundColor(Color::LightRed)
    } else if code == 102 {
        AnsiCode::BackgroundColor(Color::LightGreen)
    } else if code == 103 {
        AnsiCode::BackgroundColor(Color::LightYellow)
    } else if code == 104 {
        AnsiCode::BackgroundColor(Color::LightBlue)
    } else if code == 105 {
        AnsiCode::BackgroundColor(Color::LightMagenta)
    } else if code == 106 {
        AnsiCode::BackgroundColor(Color::LightCyan)
    } else if code == 107 {
        AnsiCode::BackgroundColor(Color::White)
    } else {
        AnsiCode::Code(code)
    }
}

impl From<u8> for AnsiCode {
    fn from(code: u8) -> (r: AnsiCode) {
        match code {
            0 => AnsiCode::Reset,
            1 => AnsiCode::Bold,
            2 => AnsiCode::Faint,
            3 => AnsiCode::Italic,
            4 => AnsiCode::Underline,
            5 => AnsiCode::SlowBlink,
            6 => AnsiCode::RapidBlink,
            7 => AnsiCode::Reverse,
            8 => AnsiCode::Conceal,
            9 => AnsiCode::CrossedOut,
            10 => AnsiCode::PrimaryFont,
            11 => AnsiCode::AlternateFont,
            20 => AnsiCode::Fraktur,
            21 => AnsiCode::BoldOff,
            22 => AnsiCode::Normal,
            23 => AnsiCode::NotItalic,
            24 => AnsiCode::UnderlineOff,
            25 => AnsiCode::BlinkOff,
            27 => AnsiCode::InvertOff,
            28 => AnsiCode::Reveal,
            29 => AnsiCode::CrossedOutOff,
            30 => AnsiCode::ForegroundColor(Color::Black),
            31 => AnsiCode::ForegroundColor(Color::Red),
            32 => AnsiCode::ForegroundColor(Color::Green),
            33 => AnsiCode::ForegroundColor(Color::Yellow),
            34 => AnsiCode::ForegroundColor(Color::Blue),
            35 => AnsiCode::ForegroundColor(Color::Magenta),
            36 => AnsiCode::ForegroundColor(Color::Cyan),
            37 => AnsiCode::ForegroundColor(Color::Gray),
            38 => AnsiCode::SetForegroundColor,
            39 => AnsiCode::DefaultForegroundColor,
            40 => AnsiCode::BackgroundColor(Color::Black),
            41 => AnsiCode::BackgroundColor(Color::Red),
            42 => AnsiCode::BackgroundColor(Color::Green),
            43 => AnsiCode::BackgroundColor(Color::Yellow),
            44 => AnsiCode::BackgroundColor(Color::Blue),
            45 => AnsiCode::BackgroundColor(Color::Magenta),
            46 => AnsiCode::BackgroundColor(Color::Cyan),
            47 => AnsiCode::BackgroundColor(Color::Gray),
            48 => AnsiCode::SetBackgroundColor,
            49 => AnsiCode::DefaultBackgroundColor,
            90 => AnsiCode::ForegroundColor(Color::DarkGray),
            91 => AnsiCode::ForegroundColor(Color::LightRed),
            92 => AnsiCode::ForegroundColor(Color::LightGreen),
            93 => AnsiCode::ForegroundColor(Color::LightYellow),
            94 => AnsiCode::ForegroundColor(Color::LightBlue),
            95 => AnsiCode::ForegroundColor(Color::LightMagenta),
            96 => AnsiCode::ForegroundColor(Color::LightCyan),
            97 => AnsiCode::ForegroundColor(Color::White),
            100 => AnsiCode::BackgroundColor(Color::DarkGray),
            101 => AnsiCode::BackgroundColor(Color::LightRed),
            102 => AnsiCode::BackgroundColor(Color::LightGreen),
            103 => AnsiCode::BackgroundColor(Color::LightYellow),
            104 => AnsiCode::BackgroundColor(Color::LightBlue),
            105 => AnsiCode::BackgroundColor(Color::LightMagenta),
            106 => AnsiCode::BackgroundColor(Color::LightCyan),
            107 => AnsiCode::BackgroundColor(Color::White),
            _ => AnsiCode::Code(code),
        }
    }
}

impl vstd::std_specs::convert::FromSpecImpl<u8> for AnsiCode {
    open spec fn obeys_from_spec() -> bool {
        true
    }

    open spec fn from_spec(code: u8) -> AnsiCode {
        spec_ansi_code(code)
    }
}

/// One parsed SGR directive: a code, with its color where the code selects
/// an 8-bit or 24-bit one.
#[derive(Debug, Clone, Copy, PartialEq, Eq)]
pub struct AnsiItem {
    pub code: AnsiCode,
    pub color: Option<Color>,
}

/// The directives an integer parameter list stands for: plain codes one by
/// one, except that `38`/`48` must be followed by `5;N` (8-bit) or
/// `2;R;G;B` (24-bit); anything else invalidates the whole list.
pub open spec fn items_of_params(p: Seq<u8>) -> Option<Seq<AnsiItem>>
    decreases p.len(),
{
    if p.len() == 0 {
        Some(Seq::empty())
    } else if p[0] == 38 || p[0] == 48 {
        let code = if p[0] == 38 {
            AnsiCode::SetForegroundColor
        } else {
            AnsiCode::SetBackgroundColor
        };
        if p.len() >= 3 && p[1] == 5 {
            match items_of_params(p.skip(3)) {
                None => None,
                Some(rest) => Some(
                    seq![AnsiItem { code, color: Some(Color::Indexed(p[2])) }] + rest,
                ),
            }
        } else if p.len() >= 5 && p[1] == 2 {
            match items_of_params(p.skip(5)) {
                None => None,
                Some(rest) => Some(
                    seq![AnsiItem { code, color: Some(Color::Rgb(p[2], p[3], p[4])) }] + rest,
                ),
            }
        } else {
            None
        }
    } else {
        match items_of_params(p.skip(1)) {
            None => None,
            Some(rest) => Some(seq![AnsiItem { code: spec_ansi_code(p[0]), color: None }] + rest),
        }
    }
}

/// How one directive changes the carried style. Code 0 resets every
/// attribute; codes 1 to 9 set their attribute; 22 clears bold and faint;
/// colors are set or defaulted; every other code changes nothing.
pub open spec fn apply_item(st: Style, item: AnsiItem) -> Style {
    match item.code {
        AnsiCode::Reset => Style::spec_default(),
        AnsiCode::Bold => Style { modifiers: Modifier { bold: true, ..st.modifiers }, ..st },
        AnsiCode::Faint => Style { modifiers: Modifier { dim: true, ..st.modifiers }, ..st },
        AnsiCode::Italic => Style { modifiers: Modifier { italic: true, ..st.modifiers }, ..st },
        AnsiCode::Underline => Style {
            modifiers: Modifier { underlined: true, ..st.modifiers },
            ..st
        },
        AnsiCode::SlowBlink => Style {
            modifiers: Modifier { slow_blink: true, ..st.modifiers },
            ..st
        },
        AnsiCode::RapidBlink => Style {
            modifiers: Modifier { rapid_blink: true, ..st.modifiers },
            ..st
        },
        AnsiCode::Reverse => Style { modifiers: Modifier { reversed: true, ..st.modifiers }, ..st },
        AnsiCode::Conceal => Style { modifiers: Modifier { hidden: true, ..st.modifiers }, ..st },
        AnsiCode::CrossedOut => Style {
            modifiers: Modifier { crossed_out: true, ..st.modifiers },
            ..st
        },
        AnsiCode::Normal => Style {
            modifiers: Modifier { bold: false, dim: false, ..st.modifiers },
            ..st
        },
        AnsiCode::ForegroundColor(c) => Style { fg: Some(c), ..st },
        AnsiCode::BackgroundColor(c) => Style { bg: Some(c), ..st },
        AnsiCode::SetForegroundColor => match item.color {
            Some(c) => Style { fg: Some(c), ..st },
            None => st,
        },
        AnsiCode::SetBackgroundColor => match item.color {
            Some(c) => Style { bg: Some(c), ..st },
            None => st,
        },
        AnsiCode::DefaultForegroundColor => Style { fg: None, ..st },
        AnsiCode::DefaultBackgroundColor => Style { bg: None, ..st },
        _ => st,
    }
}

/// The directives applied in order, left to right.
pub open spec fn apply_items(st: Style, items: Seq<AnsiItem>) -> Style
    decreases items.len(),
{
    if items.len() == 0 {
        st
    } else {
        apply_item(apply_items(st, items.drop_last()), items.last())
    }
}

/// Where a `CSI` scan ends: the first alphabetic byte at or after `j`, or
/// the line break or end of input that cuts the scan short.
pub open spec fn csi_end(s: Seq<u8>, j: int) -> int
    decreases s.len() - j,
    when 0 <= j <= s.len()
{
    if j >= s.len() || is_alpha_byte(s[j]) || at_line_break(s, j) {
        j
    } else {
        csi_end(s, j + 1)
    }
}

pub proof fn lemma_csi_end(s: Seq<u8>, j: int)
    requires
        0 <= j <= s.len(),
    ensures
        j <= csi_end(s, j) <= s.len(),
        csi_end(s, j) < s.len() ==> is_alpha_byte(s[csi_end(s, j)]) || at_line_break(
            s,
            csi_end(s, j),
        ),
    decreases s.len() - j,
{
    if !(j >= s.len() || is_alpha_byte(s[j]) || at_line_break(s, j)) {
        lemma_csi_end(s, j + 1);
    }
}

/// Where an `OSC` scan ends: the first BEL at or after `j`, or the line
/// break or end of input that cuts the scan short.
pub open spec fn osc_end(s: Seq<u8>, j: int) -> int
    decreases s.len() - j,
    when 0 <= j <= s.len()
{
    if j >= s.len() || s[j] == 0x07 || at_line_break(s, j) {
        j
    } else {
        osc_end(s, j + 1)
    }
}

pub proof fn lemma_osc_end(s: Seq<u8>, j: int)
    requires
        0 <= j <= s.len(),
    ensures
        j <= osc_end(s, j) <= s.len(),
        osc_end(s, j) < s.len() ==> s[osc_end(s, j)] == 0x07 || at_line_break(s, osc_end(s, j)),
    decreases s.len() - j,
{
    if !(j >= s.len() || s[j] == 0x07 || at_line_break(s, j)) {
        lemma_osc_end(s, j + 1);
    }
}

/// One escape step, from the escape byte at `i`: the position after the
/// consumed bytes, and the directives when the escape was a well-formed SGR
/// sequence (an empty body counts as a reset). A `CSI` form is consumed
/// through its final alphabetic byte, an `OSC` form through its BEL; a form
/// cut short by a line break or the end of input is consumed up to there,
/// and anything else costs exactly the escape byte.
pub open spec fn esc_step(s: Seq<u8>, i: int) -> (int, Option<Seq<AnsiItem>>) {
    if i + 1 >= s.len() {
        (i + 1, None)
    } else if s[i + 1] == 0x5B {
        let j = csi_end(s, i + 2);
        if j < s.len() && is_alpha_byte(s[j]) {
            if s[j] == 0x6D {
                if j == i + 2 {
                    (j + 1, Some(seq![AnsiItem { code: AnsiCode::Reset, color: None }]))
                } else {
                    match parse_params(s, i + 2, j) {
                        Some(params) => match items_of_params(params) {
                            Some(items) => (j + 1, Some(items)),
                            None => (j + 1, None),
                        },
                        None => (j + 1, None),
                    }
                }
            } else {
                (j + 1, None)
            }
        } else {
            (j, None)
        }
    } else if s[i + 1] == 0x5D {
        let j = osc_end(s, i + 2);
        if j < s.len() && s[j] == 0x07 {
            (j + 1, None)
        } else {
            (j, None)
        }
    } else {
        (i + 1, None)
    }
}

/// An escape step always makes progress and never passes the end.
pub proof fn lemma_esc_step(s: Seq<u8>, i: int)
    requires
        0 <= i < s.len(),
        s[i] == 0x1B,
    ensures
        i < esc_step(s, i).0 <= s.len(),
{
    if i + 1 < s.len() && s[i + 1] == 0x5B {
        lemma_csi_end(s, i + 2);
    } else if i + 1 < s.len() && s[i + 1] == 0x5D {
        lemma_osc_end(s, i + 2);
    }
}

/// One styled piece of a line.
#[derive(Debug, Clone)]
pub struct Span {
    pub content: String,
    pub style: Style,
}

/// The mathematical value of a `Span`.
pub struct SpanModel {
    pub content: Seq<char>,
    pub style: Style,
}

impl View for Span {
    type V = SpanModel;

    open spec fn view(&self) -> SpanModel {
        SpanModel { content: self.content@, style: self.style }
    }
}

/// One line of styled text: its spans in order.
#[derive(Debug, Clone)]
pub struct Line {
    pub spans: Vec<Span>,
}

impl View for Line {
    type V = Seq<SpanModel>;

    open spec fn view(&self) -> Seq<SpanModel> {
        self.spans@.map_values(|sp: Span| sp@)
    }
}

/// Styled text: its lines in order.
#[derive(Debug, Clone)]
pub struct Text {
    pub lines: Vec<Line>,
}

impl View for Text {
    type V = Seq<Seq<SpanModel>>;

    open spec fn view(&self) -> Seq<Seq<SpanModel>> {
        self.lines@.map_values(|l: Line| l@)
    }
}

/// The lines parsed from `s[i..]` under the carried style `st`. The first
/// element is what remains of the line open at `i`; the rest are the full
/// lines after it. There always is at least one element, and a trailing line
/// break closes the open line without opening a new one.
pub open spec fn parse_from(s: Seq<u8>, i: int, st: Style) -> Seq<Seq<SpanModel>>
    decreases s.len() - i,
    when 0 <= i <= s.len()
    via parse_from_dec
{
    if i >= s.len() {
        seq![Seq::<SpanModel>::empty()]
    } else if s[i] == 0x1B {
        let (j, items) = esc_step(s, i);
        let st2 = match items {
            Some(it) => apply_items(st, it),
            None => st,
        };
        parse_from(s, j, st2)
    } else if at_line_break(s, i) {
        let j = i + break_len(s, i);
        if j >= s.len() {
            seq![Seq::<SpanModel>::empty()]
        } else {
            seq![Seq::<SpanModel>::empty()] + parse_from(s, j, st)
        }
    } else {
        let k = i + run_len(s, i);
        let rest = parse_from(s, k, st);
        rest.update(
            0,
            seq![SpanModel { content: utf8_lossy(s.subrange(i, k)), style: st }] + rest[0],
        )
    }
}

#[via_fn]
proof fn parse_from_dec(s: Seq<u8>, i: int, st: Style) {
    if 0 <= i < s.len() {
        if s[i] == 0x1B {
            lemma_esc_step(s, i);
        } else if !at_line_break(s, i) {
            lemma_run_len(s, i);
            assert(run_len(s, i) == 1 + run_len(s, i + 1));
        }
    }
}

/// The parse always yields at least the open line.
pub proof fn lemma_parse_from_len(s: Seq<u8>, i: int, st: Style)
    requires
        0 <= i <= s.len(),
    ensures
        parse_from(s, i, st).len() >= 1,
    decreases s.len() - i,
{
    if i < s.len() {
        if s[i] == 0x1B {
            lemma_esc_step(s, i);
            let (j, items) = esc_step(s, i);
            let st2 = match items {
                Some(it) => apply_items(st, it),
                None => st,
            };
            lemma_parse_from_len(s, j, st2);
        } else if at_line_break(s, i) {
        } else {
            lemma_run_len(s, i);
            lemma_parse_from_len(s, i + run_len(s, i), st);
        }
    }
}

fn is_alpha_exec(b: u8) -> (r: bool)
    ensures
        r == is_alpha_byte(b),
{
    (0x41 <= b && b <= 0x5A) || (0x61 <= b && b <= 0x7A)
}

fn at_break(s: &[u8], j: usize) -> (r: bool)
    requires
        j < s@.len(),
    ensures
        r == at_line_break(s@, j as int),
{
    let n = s.len();
    s[j] == 0x0A || (s[j] == 0x0D && j + 1 < n && s[j + 1] == 0x0A)
}

/// The extent of the digit run at `i`, looking no further than `j`.
fn bdigits_exec(s: &[u8], i: usize, j: usize) -> (r: usize)
    requires
        i <= j <= s@.len(),
    ensures
        r == bdigits_run(s@, i as int, j as int),
        i + r <= j,
{
    let mut k = i;
    while k < j && 0x30 <= s[k] && s[k] <= 0x39
        invariant
            i <= k <= j <= s@.len(),
            bdigits_run(s@, i as int, j as int) == (k - i) + bdigits_run(s@, k as int, j as int),
        decreases j - k,
    {
        k = k + 1;
    }
    k - i
}

/// The value of the digit bytes `s[a..b)`, clamped to 256 when it does not
/// fit in one byte.
fn bval_capped(s: &[u8], a: usize, b: usize) -> (r: u32)
    requires
        a <= b <= s@.len(),
        forall|m: int| a <= m < b ==> is_digit_byte(#[trigger] s@[m]),
    ensures
        bval(s@, a as int, b as int) <= 255 ==> r == bval(s@, a as int, b as int),
        bval(s@, a as int, b as int) > 255 ==> r == 256,
{
    let mut acc: u32 = 0;
    let mut k = a;
    while k < b
        invariant
            a <= k <= b <= s@.len(),
            forall|m: int| a <= m < b ==> is_digit_byte(#[trigger] s@[m]),
            bval(s@, a as int, k as int) <= 255 ==> acc == bval(s@, a as int, k as int),
            bval(s@, a as int, k as int) > 255 ==> acc == 256,
            acc <= 256,
        decreases b - k,
    {
        proof {
            lemma_bval_nonneg(s@, a as int, k as int);
        }
        let dv = (s[k] - 0x30) as u32;
        if acc > 255 {
            acc = 256;
        } else {
            let t = acc * 10 + dv;
            if t > 255 {
                acc = 256;
            } else {
                acc = t;
            }
        }
        k = k + 1;
    }
    acc
}

/// Read the SGR body `s[i..j)` as its list of integer parameters.
fn parse_params_exec(s: &[u8], i: usize, j: usize) -> (r: Option<Vec<u8>>)
    requires
        i <= j <= s@.len(),
    ensures
        (r matches Some(v) ==> parse_params(s@, i as int, j as int) == Some(v@)),
        r is None ==> parse_params(s@, i as int, j as int) is None,
{
    let mut out: Vec<u8> = Vec::new();
    let mut pos = i;
    proof {
        if parse_params(s@, i as int, j as int) is Some {
            assert(Seq::<u8>::empty() + parse_params(s@, i as int, j as int)->Some_0 =~= parse_params(
                s@,
                i as int,
                j as int,
            )->Some_0);
        }
    }
    while pos < j
        invariant
            i <= pos <= j <= s@.len(),
            parse_params(s@, i as int, j as int) == (match parse_params(
                s@,
                pos as int,
                j as int,
            ) {
                Some(rest) => Some(out@ + rest),
                None => None::<Seq<u8>>,
            }),
        decreases j - pos,
    {
        let d = bdigits_exec(s, pos, j);
        proof {
            lemma_bdigits_run(s@, pos as int, j as int);
        }
        if d == 0 {
            return None;
        }
        let v = bval_capped(s, pos, pos + d);
        if v > 255 {
            return None;
        }
        let ghost pre = out@;
        out.push(v as u8);
        if pos + d == j {
            pos = j;
            proof {
                assert(parse_params(s@, j as int, j as int) == Some(Seq::<u8>::empty()));
                assert(out@ + Seq::<u8>::empty() =~= pre + seq![v as u8]);
            }
        } else if s[pos + d] == 0x3B {
            pos = pos + d + 1;
            proof {
                if parse_params(s@, pos as int, j as int) is Some {
                    assert(out@ + parse_params(s@, pos as int, j as int)->Some_0 =~= pre + (seq![
                        v as u8,
                    ] + parse_params(s@, pos as int, j as int)->Some_0));
                }
            }
        } else {
            return None;
        }
    }
    proof {
        assert(parse_params(s@, pos as int, j as int) == Some(Seq::<u8>::empty()));
        assert(out@ + Seq::<u8>::empty() =~= out@);
    }
    Some(out)
}

/// Turn a parameter list into SGR directives.
fn items_of_params_exec(p: &Vec<u8>) -> (r: Option<Vec<AnsiItem>>)
    ensures
        (r matches Some(v) ==> items_of_params(p@) == Some(v@)),
        r is None ==> items_of_params(p@) is None,
{
    let n = p.len();
    let mut out: Vec<AnsiItem> = Vec::new();
    let mut idx: usize = 0;
    proof {
        assert(p@.skip(0) =~= p@);
        if items_of_params(p@) is Some {
            assert(Seq::<AnsiItem>::empty() + items_of_params(p@)->Some_0 =~= items_of_params(
                p@,
            )->Some_0);
        }
    }
    while idx < n
        invariant
            idx <= n == p@.len(),
            items_of_params(p@) == (match items_of_params(p@.skip(idx as int)) {
                Some(rest) => Some(out@ + rest),
                None => None::<Seq<AnsiItem>>,
            }),
        decreases n - idx,
    {
        let ghost sfx = p@.skip(idx as int);
        proof {
            assert(sfx.len() == n - idx);
            assert forall|m: int| 0 <= m < sfx.len() implies sfx[m] == p@[idx + m] by {}
        }
        let c = p[idx];
        let ghost pre = out@;
        if c == 38 || c == 48 {
            let code = if c == 38 {
                AnsiCode::SetForegroundColor
            } else {
                AnsiCode::SetBackgroundColor
            };
            if n - idx > 2 && p[idx + 1] == 5 {
                out.push(AnsiItem { code, color: Some(Color::Indexed(p[idx + 2])) });
                idx = idx + 3;
                proof {
                    assert(sfx.skip(3) =~= p@.skip(idx as int));
                    if items_of_params(p@.skip(idx as int)) is Some {
                        assert(out@ + items_of_params(p@.skip(idx as int))->Some_0 =~= pre + (seq![
                            AnsiItem { code, color: Some(Color::Indexed(sfx[2])) },
                        ] + items_of_params(p@.skip(idx as int))->Some_0));
                    }
                }
            } else if n - idx > 4 && p[idx + 1] == 2 {
                out.push(
                    AnsiItem { code, color: Some(Color::Rgb(p[idx + 2], p[idx + 3], p[idx + 4])) },
                );
                idx = idx + 5;
                proof {
                    assert(sfx.skip(5) =~= p@.skip(idx as int));
                    if items_of_params(p@.skip(idx as int)) is Some {
                        assert(out@ + items_of_params(p@.skip(idx as int))->Some_0 =~= pre + (seq![
                            AnsiItem { code, color: Some(Color::Rgb(sfx[2], sfx[3], sfx[4])) },
                        ] + items_of_params(p@.skip(idx as int))->Some_0));
                    }
                }
            } else {
                return None;
            }
        } else {
            let item = AnsiItem { code: AnsiCode::from(c), color: None };
            out.push(item);
            idx = idx + 1;
            proof {
                assert(sfx.skip(1) =~= p@.skip(idx as int));
                if items_of_params(p@.skip(idx as int)) is Some {
                    assert(out@ + items_of_params(p@.skip(idx as int))->Some_0 =~= pre + (seq![
                        item,
                    ] + items_of_params(p@.skip(idx as int))->Some_0));
                }
            }
        }
    }
    proof {
        assert(p@.skip(n as int) =~= Seq::<u8>::empty());
        assert(out@ + Seq::<AnsiItem>::empty() =~= out@);
    }
    Some(out)
}

fn apply_ansi_item(st: Style, item: &AnsiItem) -> (r: Style)
    ensures
        r == apply_item(st, *item),
{
    match item.code {
        AnsiCode::Reset => Style::new(),
        AnsiCode::Bold => Style { modifiers: Modifier { bold: true, ..st.modifiers }, ..st },
        AnsiCode::Faint => Style { modifiers: Modifier { dim: true, ..st.modifiers }, ..st },
        AnsiCode::Italic => Style { modifiers: Modifier { italic: true, ..st.modifiers }, ..st },
        AnsiCode::Underline => Style {
            modifiers: Modifier { underlined: true, ..st.modifiers },
            ..st
        },
        AnsiCode::SlowBlink => Style {
            modifiers: Modifier { slow_blink: true, ..st.modifiers },
            ..st
        },
        AnsiCode::RapidBlink => Style {
            modifiers: Modifier { rapid_blink: true, ..st.modifiers },
            ..st
        },
        AnsiCode::Reverse => Style { modifiers: Modifier { reversed: true, ..st.modifiers }, ..st },
        AnsiCode::Conceal => Style { modifiers: Modifier { hidden: true, ..st.modifiers }, ..st },
        AnsiCode::CrossedOut => Style {
            modifiers: Modifier { crossed_out: true, ..st.modifiers },
            ..st
        },
        AnsiCode::Normal => Style {
            modifiers: Modifier { bold: false, dim: false, ..st.modifiers },
            ..st
        },
        AnsiCode::ForegroundColor(c) => Style { fg: Some(c), ..st },
        AnsiCode::BackgroundColor(c) => Style { bg: Some(c), ..st },
        AnsiCode::SetForegroundColor => match item.color {
            Some(c) => Style { fg: Some(c), ..st },
            None => st,
        },
        AnsiCode::SetBackgroundColor => match item.color {
            Some(c) => Style { bg: Some(c), ..st },
            None => st,
        },
        AnsiCode::DefaultForegroundColor => Style { fg: None, ..st },
        AnsiCode::DefaultBackgroundColor => Style { bg: None, ..st },
        _ => st,
    }
}

/// Apply a list of SGR directives to a style, left to right.
pub fn apply_ansi_items(st: Style, items: &Vec<AnsiItem>) -> (r: Style)
    ensures
        r == apply_items(st, items@),
{
    let n = items.len();
    let mut cur = st;
    for i in 0..n
        invariant
            n == items@.len(),
            cur == apply_items(st, items@.take(i as int)),
    {
        cur = apply_ansi_item(cur, &items[i]);
        proof {
            assert(items@.take(i + 1).drop_last() =~= items@.take(i as int));
            assert(items@.take(i + 1).last() == items@[i as int]);
        }
    }
    proof {
        assert(items@.take(n as int) =~= items@);
    }
    cur
}

/// Consume one escape sequence starting at the escape byte `s[i]`: where the
/// input resumes, and the SGR directives when the sequence was a style.
fn parse_escape(s: &[u8], i: usize) -> (r: (usize, Option<Vec<AnsiItem>>))
    requires
        i < s@.len(),
        s@[i as int] == 0x1B,
    ensures
        r.0 == esc_step(s@, i as int).0,
        (r.1 matches Some(v) ==> esc_step(s@, i as int).1 == Some(v@)),
        r.1 is None ==> esc_step(s@, i as int).1 is None,
        i < r.0 <= s@.len(),
{
    proof {
        lemma_esc_step(s@, i as int);
    }
    let n = s.len();
    if i + 1 >= n {
        return (i + 1, None);
    }
    let b1 = s[i + 1];
    if b1 == 0x5B {
        let mut j = i + 2;
        while j < n && !is_alpha_exec(s[j]) && !at_break(s, j)
            invariant
                i + 2 <= j <= n,
                n == s@.len(),
                csi_end(s@, i + 2) == csi_end(s@, j as int),
            decreases n - j,
        {
            j = j + 1;
        }
        assert(csi_end(s@, i + 2) == j);
        if j < n && is_alpha_exec(s[j]) {
            if s[j] == 0x6D {
                if j == i + 2 {
                    let mut items: Vec<AnsiItem> = Vec::new();
                    items.push(AnsiItem { code: AnsiCode::Reset, color: None });
                    proof {
                        assert(items@ =~= seq![AnsiItem { code: AnsiCode::Reset, color: None }]);
                    }
                    return (j + 1, Some(items));
                }
                match parse_params_exec(s, i + 2, j) {
                    Some(params) => match items_of_params_exec(&params) {
                        Some(items) => (j + 1, Some(items)),
                        None => (j + 1, None),
                    },
                    None => (j + 1, None),
                }
            } else {
                (j + 1, None)
            }
        } else {
            (j, None)
        }
    } else if b1 == 0x5D {
        let mut j = i + 2;
        while j < n && s[j] != 0x07 && !at_break(s, j)
            invariant
                i + 2 <= j <= n,
                n == s@.len(),
                osc_end(s@, i + 2) == osc_end(s@, j as int),
            decreases n - j,
        {
            j = j + 1;
        }
        assert(osc_end(s@, i + 2) == j);
        if j < n && s[j] == 0x07 {
            (j + 1, None)
        } else {
            (j, None)
        }
    } else {
        (i + 1, None)
    }
}

/// Parse one escape sequence at the start of `s` and apply it to `base`:
/// the style after an SGR sequence, nothing when the escape carries no style
/// (or `s` starts with no escape at all).
pub fn style(base: Style, s: &[u8]) -> (r: Option<Style>)
    ensures
        (s@.len() > 0 && s@[0] == 0x1B) ==> (match esc_step(s@, 0).1 {
            Some(items) => r == Some(apply_items(base, items)),
            None => r is None,
        }),
        !(s@.len() > 0 && s@[0] == 0x1B) ==> r is None,
{
    if s.len() > 0 {
        if s[0] == 0x1B {
            let (_, items) = parse_escape(s, 0);
            return match items {
                Some(it) => Some(apply_ansi_items(base, &it)),
                None => None,
            };
        }
    }
    None
}

/// What `color` reads from the head of a byte sequence: an 8-bit color
/// `5;N`, or a 24-bit color `2;R;G;B`, together with how many bytes the form
/// spans.
pub open spec fn spec_color(s: Seq<u8>) -> Option<(int, Color)> {
    let d0 = bdigits_run(s, 0, s.len() as int);
    if d0 == 0 || d0 >= s.len() || s[d0] != 0x3B {
        None
    } else if bval(s, 0, d0) == 5 {
        let a1 = d0 + 1;
        let d1 = bdigits_run(s, a1, s.len() as int);
        if d1 == 0 || bval(s, a1, a1 + d1) > 255 {
            None
        } else {
            Some((a1 + d1, Color::Indexed(bval(s, a1, a1 + d1) as u8)))
        }
    } else if bval(s, 0, d0) == 2 {
        let a1 = d0 + 1;
        let d1 = bdigits_run(s, a1, s.len() as int);
        if d1 == 0 || bval(s, a1, a1 + d1) > 255 || a1 + d1 >= s.len() || s[a1 + d1] != 0x3B {
            None
        } else {
            let a2 = a1 + d1 + 1;
            let d2 = bdigits_run(s, a2, s.len() as int);
            if d2 == 0 || bval(s, a2, a2 + d2) > 255 || a2 + d2 >= s.len() || s[a2 + d2] != 0x3B {
                None
            } else {
                let a3 = a2 + d2 + 1;
                let d3 = bdigits_run(s, a3, s.len() as int);
                if d3 == 0 || bval(s, a3, a3 + d3) > 255 {
                    None
                } else {
                    Some(
                        (
                            a3 + d3,
                            Color::Rgb(
                                bval(s, a1, a1 + d1) as u8,
                                bval(s, a2, a2 + d2) as u8,
                                bval(s, a3, a3 + d3) as u8,
                            ),
                        ),
                    )
                }
            }
        }
    } else {
        None
    }
}

/// Read one byte-valued color component at `a`; nothing when there is no
/// digit or the value does not fit in a byte.
fn color_component(s: &[u8], a: usize) -> (r: Option<(usize, u8)>)
    requires
        a <= s@.len(),
    ensures
        ({
            let d = bdigits_run(s@, a as int, s@.len() as int);
            &&& (r matches Some(p) ==> d > 0 && bval(s@, a as int, a + d) <= 255 && p.0 == a + d
                && p.1 == bval(s@, a as int, a + d))
            &&& (r is None ==> d == 0 || bval(s@, a as int, a + d) > 255)
        }),
{
    let n = s.len();
    let d = bdigits_exec(s, a, n);
    proof {
        lemma_bdigits_run(s@, a as int, n as int);
    }
    if d == 0 {
        return None;
    }
    let v = bval_capped(s, a, a + d);
    if v > 255 {
        return None;
    }
    Some((a + d, v as u8))
}

/// Read an 8-bit (`5;N`) or 24-bit (`2;R;G;B`) color from the head of
/// `bytes`: the position after it and the color.
pub fn color(bytes: &[u8]) -> (r: Option<(usize, Color)>)
    ensures
        (r matches Some(p) ==> spec_color(bytes@) == Some((p.0 as int, p.1))),
        r is None ==> spec_color(bytes@) is None,
{
    let n = bytes.len();
    let d0 = bdigits_exec(bytes, 0, n);
    proof {
        lemma_bdigits_run(bytes@, 0, n as int);
    }
    if d0 == 0 || d0 >= n {
        return None;
    }
    if bytes[d0] != 0x3B {
        return None;
    }
    let t = bval_capped(bytes, 0, d0);
    if t == 5 {
        match color_component(bytes, d0 + 1) {
            Some((end, v)) => Some((end, Color::Indexed(v))),
            None => None,
        }
    } else if t == 2 {
        match color_component(bytes, d0 + 1) {
            Some((e1, red)) => {
                if e1 >= n {
                    return None;
                }
                if bytes[e1] != 0x3B {
                    return None;
                }
                match color_component(bytes, e1 + 1) {
                    Some((e2, green)) => {
                        if e2 >= n {
                            return None;
                        }
                        if bytes[e2] != 0x3B {
                            return None;
                        }
                        match color_component(bytes, e2 + 1) {
                            Some((e3, blue)) => Some((e3, Color::Rgb(red, green, blue))),
                            None => None,
                        }
                    },
                    None => None,
                }
            },
            None => None,
        }
    } else {
        None
    }
}

/// The end of the text run starting at `i`.
fn run_end_exec(s: &[u8], i: usize) -> (r: usize)
    requires
        i <= s@.len(),
    ensures
        r == i + run_len(s@, i as int),
{
    let n = s.len();
    let mut j = i;
    while j < n && s[j] != 0x1B && !at_break(s, j)
        invariant
            i <= j <= n,
            n == s@.len(),
            run_len(s@, i as int) == (j - i) + run_len(s@, j as int),
        decreases n - j,
    {
        j = j + 1;
    }
    j
}

/// Parse ANSI-escaped bytes into styled lines, starting from the default
/// style (see `parse_from` for the exact grammar and its handling of
/// malformed escapes).
pub fn ansi_to_text(s: &[u8]) -> (r: Text)
    ensures
        r@ == parse_from(s@, 0, Style::spec_default()),
{
    let n = s.len();
    let mut lines: Vec<Line> = Vec::new();
    let mut spans: Vec<Span> = Vec::new();
    let mut st = Style::new();
    let mut i: usize = 0;
    proof {
        lemma_parse_from_len(s@, 0, Style::spec_default());
        let rest = parse_from(s@, 0, Style::spec_default());
        assert(lines@.map_values(|l: Line| l@) =~= Seq::<Seq<SpanModel>>::empty());
        assert(spans@.map_values(|sp: Span| sp@) =~= Seq::<SpanModel>::empty());
        assert(Seq::<SpanModel>::empty() + rest[0] =~= rest[0]);
        assert(rest.update(0, rest[0]) =~= rest);
        assert(Seq::<Seq<SpanModel>>::empty() + rest =~= rest);
    }
    while i < n
        invariant
            n == s@.len(),
            i <= n,
            parse_from(s@, i as int, st).len() >= 1,
            parse_from(s@, 0, Style::spec_default()) == lines@.map_values(|l: Line| l@)
                + parse_from(s@, i as int, st).update(
                0,
                spans@.map_values(|sp: Span| sp@) + parse_from(s@, i as int, st)[0],
            ),
        decreases n - i,
    {
        let ghost done = lines@.map_values(|l: Line| l@);
        let ghost cur = spans@.map_values(|sp: Span| sp@);
        let ghost rest0 = parse_from(s@, i as int, st);
        let ghost st0 = st;
        let b = s[i];
        if b == 0x1B {
            let (j, items) = parse_escape(s, i);
            match items {
                Some(it) => {
                    st = apply_ansi_items(st, &it);
                },
                None => {},
            }
            i = j;
            proof {
                lemma_parse_from_len(s@, i as int, st);
                assert(parse_from(s@, i as int, st) == rest0);
            }
        } else if at_break(s, i) {
            let j = if s[i] == 0x0A {
                i + 1
            } else {
                i + 2
            };
            if j < n {
                lines.push(Line { spans });
                spans = Vec::new();
                proof {
                    lemma_parse_from_len(s@, j as int, st);
                    let rest1 = parse_from(s@, j as int, st);
                    assert(rest0 == seq![Seq::<SpanModel>::empty()] + rest1);
                    assert(lines@.map_values(|l: Line| l@) =~= done.push(cur));
                    assert(spans@.map_values(|sp: Span| sp@) =~= Seq::<SpanModel>::empty());
                    assert(rest0.update(0, cur + rest0[0]) =~= seq![cur + Seq::<
                        SpanModel,
                    >::empty()] + rest1);
                    assert(cur + Seq::<SpanModel>::empty() =~= cur);
                    assert(Seq::<SpanModel>::empty() + rest1[0] =~= rest1[0]);
                    assert(rest1.update(0, rest1[0]) =~= rest1);
                    assert(done + (seq![cur] + rest1) =~= done.push(cur) + rest1);
                }
            } else {
                proof {
                    assert(parse_from(s@, j as int, st) == seq![Seq::<SpanModel>::empty()]);
                    assert(parse_from(s@, j as int, st) == rest0);
                }
            }
            i = j;
        } else {
            proof {
                lemma_run_len(s@, i as int);
            }
            let k = run_end_exec(s, i);
            let piece = vstd::slice::slice_subrange(s, i, k);
            let content = bytes_to_string_lossy(piece);
            spans.push(Span { content, style: st });
            proof {
                lemma_parse_from_len(s@, k as int, st);
                let rest1 = parse_from(s@, k as int, st);
                let sp = SpanModel {
                    content: utf8_lossy(s@.subrange(i as int, k as int)),
                    style: st0,
                };
                assert(rest0 == rest1.update(0, seq![sp] + rest1[0]));
                assert(spans@.map_values(|sp2: Span| sp2@) =~= cur.push(sp));
                assert(rest0[0] == seq![sp] + rest1[0]);
                assert(cur + (seq![sp] + rest1[0]) =~= cur.push(sp) + rest1[0]);
                assert(rest0.update(0, cur + rest0[0]) =~= rest1.update(
                    0,
                    cur.push(sp) + rest1[0],
                ));
            }
            i = k;
        }
    }
    let ghost done = lines@.map_values(|l: Line| l@);
    let ghost cur = spans@.map_values(|sp: Span| sp@);
    proof {
        assert(parse_from(s@, i as int, st) == seq![Seq::<SpanModel>::empty()]);
        assert(seq![Seq::<SpanModel>::empty()].update(0, cur + Seq::<SpanModel>::empty()) =~= seq![
            cur,
        ]);
        assert(cur + Seq::<SpanModel>::empty() =~= cur);
    }
    lines.push(Line { spans });
    let r = Text { lines };
    proof {
        assert(r@ =~= done.push(cur));
        assert(done + seq![cur] =~= done.push(cur));
    }
    r
}

/// Plain text is one full run.
proof fn lemma_full_run(s: Seq<u8>, i: int)
    requires
        0 <= i <= s.len(),
        forall|m: int| 0 <= m < s.len() ==> !at_stop(s, m),
    ensures
        run_len(s, i) == s.len() - i,
    decreases s.len() - i,
{
    if i < s.len() {
        lemma_full_run(s, i + 1);
    }
}

/// Law: plain text — no escape byte, no line break — parses to a single line
/// holding one span: the text itself, in the carried style; when the bytes
/// are valid UTF-8, the content is exactly their decoding, unchanged.
pub proof fn lemma_plain_text(s: Seq<u8>, st: Style)
    requires
        s.len() > 0,
        forall|m: int| 0 <= m < s.len() ==> !at_stop(s, m),
    ensures
        parse_from(s, 0, st) == seq![
            seq![SpanModel { content: crate::strings::utf8_lossy(s), style: st }],
        ],
        vstd::utf8::valid_utf8(s) ==> parse_from(s, 0, st) == seq![
            seq![SpanModel { content: vstd::utf8::decode_utf8(s), style: st }],
        ],
{
    lemma_full_run(s, 0);
    assert(!at_stop(s, 0));
    assert(s.subrange(0, s.len() as int) =~= s);
    let sp = SpanModel { content: crate::strings::utf8_lossy(s), style: st };
    assert(parse_from(s, s.len() as int, st) == seq![Seq::<SpanModel>::empty()]);
    assert(parse_from(s, 0, st) == seq![Seq::<SpanModel>::empty()].update(
        0,
        seq![sp] + Seq::<SpanModel>::empty(),
    ));
    assert(seq![sp] + Seq::<SpanModel>::empty() =~= seq![sp]);
    assert(seq![Seq::<SpanModel>::empty()].update(0, seq![sp]) =~= seq![seq![sp]]);
}

/// Law: an empty SGR body means reset. `ESC [ m` yields exactly the
/// directives of `ESC [ 0 m`, both sequences are consumed whole, and applying
/// the directives to any carried style yields the default style.
pub proof fn lemma_empty_sgr_is_reset(s1: Seq<u8>, s2: Seq<u8>, st: Style)
    requires
        s1 == seq![0x1Bu8, 0x5Bu8, 0x6Du8],
        s2 == seq![0x1Bu8, 0x5Bu8, 0x30u8, 0x6Du8],
    ensures
        esc_step(s1, 0).1 == esc_step(s2, 0).1,
        esc_step(s1, 0).0 == s1.len(),
        esc_step(s2, 0).0 == s2.len(),
        (esc_step(s1, 0).1 matches Some(items) && apply_items(st, items)
            == Style::spec_default()),
{
    let reset = AnsiItem { code: AnsiCode::Reset, color: None };
    assert(csi_end(s1, 2) == 2);
    assert(esc_step(s1, 0) == (3int, Some(seq![reset])));
    assert(csi_end(s2, 3) == 3);
    assert(csi_end(s2, 2) == 3);
    assert(bdigits_run(s2, 3, 3) == 0);
    assert(bdigits_run(s2, 2, 3) == 1);
    assert(bval(s2, 2, 2) == 0);
    assert(bval(s2, 2, 3) == 0);
    assert(parse_params(s2, 2, 3) == Some(seq![0u8]));
    assert(seq![0u8].skip(1) =~= Seq::<u8>::empty());
    assert(items_of_params(seq![0u8]) == Some(seq![reset] + Seq::<AnsiItem>::empty()));
    assert(seq![reset] + Seq::<AnsiItem>::empty() =~= seq![reset]);
    assert(esc_step(s2, 0) == (4int, Some(seq![reset])));
    assert(seq![reset].drop_last() =~= Seq::<AnsiItem>::empty());
    assert(apply_items(st, seq![reset]) == Style::spec_default());
}

/// Law: the parameters `38;5;N` select the 8-bit indexed foreground color
/// `N`, and `38;2;R;G;B` the 24-bit color `(R,G,B)`: applied to any carried
/// style, each sets exactly that foreground and changes nothing else.
pub proof fn lemma_extended_foreground(st: Style, n: u8, r: u8, g: u8, b: u8)
    ensures
        (items_of_params(seq![38u8, 5u8, n]) matches Some(it) && apply_items(st, it) == (Style {
            fg: Some(Color::Indexed(n)),
            ..st
        })),
        (items_of_params(seq![38u8, 2u8, r, g, b]) matches Some(it) && apply_items(st, it)
            == (Style { fg: Some(Color::Rgb(r, g, b)), ..st })),
{
    assert(items_of_params(Seq::<u8>::empty()) == Some(Seq::<AnsiItem>::empty()));
    assert(apply_items(st, Seq::<AnsiItem>::empty()) == st);
    let p1 = seq![38u8, 5u8, n];
    let it1 = AnsiItem { code: AnsiCode::SetForegroundColor, color: Some(Color::Indexed(n)) };
    assert(p1.len() == 3 && p1[0] == 38 && p1[1] == 5 && p1[2] == n);
    assert(p1.skip(3) =~= Seq::<u8>::empty());
    assert(items_of_params(p1) == Some(seq![it1] + Seq::<AnsiItem>::empty()));
    assert(seq![it1] + Seq::<AnsiItem>::empty() =~= seq![it1]);
    assert(seq![it1].drop_last() =~= Seq::<AnsiItem>::empty());
    assert(seq![it1].last() == it1);
    assert(apply_items(st, seq![it1]) == apply_item(st, it1));
    assert(apply_items(st, seq![it1]) == (Style { fg: Some(Color::Indexed(n)), ..st }));
    let p2 = seq![38u8, 2u8, r, g, b];
    let it2 = AnsiItem { code: AnsiCode::SetForegroundColor, color: Some(Color::Rgb(r, g, b)) };
    assert(p2.len() == 5 && p2[0] == 38 && p2[1] == 2 && p2[2] == r && p2[3] == g && p2[4] == b);
    assert(p2.skip(5) =~= Seq::<u8>::empty());
    assert(items_of_params(p2) == Some(seq![it2] + Seq::<AnsiItem>::empty()));
    assert(seq![it2] + Seq::<AnsiItem>::empty() =~= seq![it2]);
    assert(seq![it2].drop_last() =~= Seq::<AnsiItem>::empty());
    assert(seq![it2].last() == it2);
    assert(apply_items(st, seq![it2]) == apply_item(st, it2));
    assert(apply_items(st, seq![it2]) == (Style { fg: Some(Color::Rgb(r, g, b)), ..st }));
}

} // verus!
