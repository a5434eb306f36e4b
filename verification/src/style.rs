//! The styled-text model: colors, modifiers and the style a span carries, and
//! the parsing of user-written style strings such as `"underline red on blue"`.

use vstd::prelude::*;
use crate::strings::{push_all, str_chars, string_from_chars};

verus! {

/// A terminal color: one of the sixteen named colors, a 24-bit color, or an
/// 8-bit indexed color.
#[derive(Debug, Clone, Copy, PartialEq, Eq, Structural, Hash)]
pub enum Color {
    Black,
    Red,
    Green,
    Yellow,
    Blue,
    Magenta,
    Cyan,
    Gray,
    DarkGray,
    LightRed,
    LightGreen,
    LightYellow,
    LightBlue,
    LightMagenta,
    LightCyan,
    White,
    Rgb(u8, u8, u8),
    Indexed(u8),
}

/// The text attributes a style can carry.
#[derive(Debug, Clone, Copy, PartialEq, Eq, Structural)]
pub struct Modifier {
    pub bold: bool,
    pub dim: bool,
    pub italic: bool,
    pub underlined: bool,
    pub slow_blink: bool,
    pub rapid_blink: bool,
    pub reversed: bool,
    pub hidden: bool,
    pub crossed_out: bool,
}

impl Modifier {
    /// No attribute set.
    pub open spec fn spec_empty() -> Modifier {
        Modifier {
            bold: false,
            dim: false,
            italic: false,
            underlined: false,
            slow_blink: false,
            rapid_blink: false,
            reversed: false,
            hidden: false,
            crossed_out: false,
        }
    }

    pub fn empty() -> (r: Modifier)
        ensures
            r == Modifier::spec_empty(),
    {
        Modifier {
            bold: false,
            dim: false,
            italic: false,
            underlined: false,
            slow_blink: false,
            rapid_blink: false,
            reversed: false,
            hidden: false,
            crossed_out: false,
        }
    }

    pub fn bold() -> (r: Modifier)
        ensures
            r == (Modifier { bold: true, ..Modifier::spec_empty() }),
    {
        let mut r = Modifier::empty();
        r.bold = true;
        r
    }

    pub fn underlined() -> (r: Modifier)
        ensures
            r == (Modifier { underlined: true, ..Modifier::spec_empty() }),
    {
        let mut r = Modifier::empty();
        r.underlined = true;
        r
    }

    pub fn reversed() -> (r: Modifier)
        ensures
            r == (Modifier { reversed: true, ..Modifier::spec_empty() }),
    {
        let mut r = Modifier::empty();
        r.reversed = true;
        r
    }

    /// Whether every attribute set in `other` is set in `self`.
    pub open spec fn spec_contains(self, other: Modifier) -> bool {
        &&& (other.bold ==> self.bold)
        &&& (other.dim ==> self.dim)
        &&& (other.italic ==> self.italic)
        &&& (other.underlined ==> self.underlined)
        &&& (other.slow_blink ==> self.slow_blink)
        &&& (other.rapid_blink ==> self.rapid_blink)
        &&& (other.reversed ==> self.reversed)
        &&& (other.hidden ==> self.hidden)
        &&& (other.crossed_out ==> self.crossed_out)
    }

    pub fn contains(self, other: Modifier) -> (r: bool)
        ensures
            r == self.spec_contains(other),
    {
        (!other.bold || self.bold) && (!other.dim || self.dim) && (!other.italic || self.italic)
            && (!other.underlined || self.underlined) && (!other.slow_blink || self.slow_blink) && (
        !other.rapid_blink || self.rapid_blink) && (!other.reversed || self.reversed) && (
        !other.hidden || self.hidden) && (!other.crossed_out || self.crossed_out)
    }

    /// The attributes set in either operand.
    pub open spec fn spec_union(self, other: Modifier) -> Modifier {
        Modifier {
            bold: self.bold || other.bold,
            dim: self.dim || other.dim,
            italic: self.italic || other.italic,
            underlined: self.underlined || other.underlined,
            slow_blink: self.slow_blink || other.slow_blink,
            rapid_blink: self.rapid_blink || other.rapid_blink,
            reversed: self.reversed || other.reversed,
            hidden: self.hidden || other.hidden,
            crossed_out: self.crossed_out || other.crossed_out,
        }
    }

    pub fn union(self, other: Modifier) -> (r: Modifier)
        ensures
            r == self.spec_union(other),
    {
        Modifier {
            bold: self.bold || other.bold,
            dim: self.dim || other.dim,
            italic: self.italic || other.italic,
            underlined: self.underlined || other.underlined,
            slow_blink: self.slow_blink || other.slow_blink,
            rapid_blink: self.rapid_blink || other.rapid_blink,
            reversed: self.reversed || other.reversed,
            hidden: self.hidden || other.hidden,
            crossed_out: self.crossed_out || other.crossed_out,
        }
    }
}

/// The style a span of text carries: an optional foreground and background
/// color (`None` is the terminal's default) and a set of attributes.
#[derive(Debug, Clone, Copy, PartialEq, Eq)]
pub struct Style {
    pub fg: Option<Color>,
    pub bg: Option<Color>,
    pub modifiers: Modifier,
}

impl Style {
    /// The default style: both colors defaulted, no attribute set.
    pub open spec fn spec_default() -> Style {
        Style { fg: None, bg: None, modifiers: Modifier::spec_empty() }
    }

    pub fn new() -> (r: Style)
        ensures
            r == Style::spec_default(),
    {
        Style { fg: None, bg: None, modifiers: Modifier::empty() }
    }

    pub fn fg(self, color: Color) -> (r: Style)
        ensures
            r == (Style { fg: Some(color), ..self }),
    {
        Style { fg: Some(color), ..self }
    }

    pub fn bg(self, color: Color) -> (r: Style)
        ensures
            r == (Style { bg: Some(color), ..self }),
    {
        Style { bg: Some(color), ..self }
    }

    pub fn add_modifier(self, m: Modifier) -> (r: Style)
        ensures
            r == (Style { modifiers: self.modifiers.spec_union(m), ..self }),
    {
        Style { modifiers: self.modifiers.union(m), ..self }
    }
}

impl Default for Style {
    fn default() -> (r: Style)
        ensures
            r == Style::spec_default(),
    {
        Style::new()
    }
}

/// The attribute a style word names, if any.
pub open spec fn word_modifier(w: Seq<char>) -> Modifier {
    if w == "underline"@ {
        Modifier { underlined: true, ..Modifier::spec_empty() }
    } else if w == "bold"@ {
        Modifier { bold: true, ..Modifier::spec_empty() }
    } else if w == "inverse"@ {
        Modifier { reversed: true, ..Modifier::spec_empty() }
    } else {
        Modifier::spec_empty()
    }
}

/// Whether a style word is an attribute or filler rather than a color.
pub open spec fn is_modifier_word(w: Seq<char>) -> bool {
    ||| w == "underline"@
    ||| w == "bold"@
    ||| w == "inverse"@
    ||| w == "bright"@
    ||| w.len() == 0
}

/// The attributes named by the words of `ws`.
pub open spec fn mods_of(ws: Seq<Seq<char>>) -> Modifier
    decreases ws.len(),
{
    if ws.len() == 0 {
        Modifier::spec_empty()
    } else {
        mods_of(ws.drop_last()).spec_union(word_modifier(ws.last()))
    }
}

/// The color words of `ws`, in order, with the alternate spelling of gray
/// unified.
pub open spec fn color_words(ws: Seq<Seq<char>>) -> Seq<Seq<char>>
    decreases ws.len(),
{
    if ws.len() == 0 {
        Seq::empty()
    } else {
        let rest = color_words(ws.drop_last());
        if is_modifier_word(ws.last()) {
            rest
        } else if ws.last() == "grey"@ {
            rest.push("gray"@)
        } else {
            rest.push(ws.last())
        }
    }
}

/// The words joined with single spaces.
pub open spec fn join_space(ws: Seq<Seq<char>>) -> Seq<char>
    decreases ws.len(),
{
    if ws.len() == 0 {
        Seq::empty()
    } else if ws.len() == 1 {
        ws.last()
    } else {
        join_space(ws.drop_last()) + seq![' '] + ws.last()
    }
}

/// The value of the decimal digits `s[from..]`, when they are digits and
/// small enough to name a color; `Some(0)` for an empty run.
pub open spec fn spec_color_number(s: Seq<char>, from: int) -> Option<int> {
    if (forall|i: int| from <= i < s.len() ==> crate::formatter::is_digit_char(#[trigger] s[i]))
        && crate::formatter::to_nat(s.subrange(from, s.len() as int)) <= 255 && 0 <= from
        <= s.len() {
        Some(crate::formatter::to_nat(s.subrange(from, s.len() as int)) as int)
    } else {
        None
    }
}

/// The color a configuration word names: `rgbRGB` picks from the 6x6x6 cube,
/// `gray<n>` from the gray ramp, `color<n>` by index, and the eight base
/// colors by name; anything else names nothing.
pub open spec fn spec_parse_color(s: Seq<char>) -> Option<Color> {
    if s.len() >= 3 && s.subrange(0, 3) == "rgb"@ {
        if s.len() == 6 && (forall|i: int|
            3 <= i < 6 ==> crate::formatter::is_digit_char(#[trigger] s[i])) {
            let v = 16 + crate::formatter::digit_val(s[3]) * 36 + crate::formatter::digit_val(
                s[4],
            ) * 6 + crate::formatter::digit_val(s[5]);
            if v <= 255 {
                Some(Color::Indexed(v as u8))
            } else {
                None
            }
        } else {
            None
        }
    } else if s.len() >= 4 && s.subrange(0, 4) == "gray"@ {
        match spec_color_number(s, 4) {
            Some(v) => if 232 + v <= 255 {
                Some(Color::Indexed((232 + v) as u8))
            } else {
                None
            },
            None => None,
        }
    } else if s.len() >= 5 && s.subrange(0, 5) == "color"@ {
        match spec_color_number(s, 5) {
            Some(v) => Some(Color::Indexed(v as u8)),
            None => None,
        }
    } else if s == "black"@ {
        Some(Color::Indexed(0))
    } else if s == "red"@ {
        Some(Color::Indexed(1))
    } else if s == "green"@ {
        Some(Color::Indexed(2))
    } else if s == "yellow"@ {
        Some(Color::Indexed(3))
    } else if s == "blue"@ {
        Some(Color::Indexed(4))
    } else if s == "magenta"@ {
        Some(Color::Indexed(5))
    } else if s == "cyan"@ {
        Some(Color::Indexed(6))
    } else if s == "white"@ {
        Some(Color::Indexed(7))
    } else {
        None
    }
}

/// What `parse_style` makes of a style line: the words before the first
/// `on` describe the foreground, those after it the background, and the
/// attribute words of both sides accumulate.
pub open spec fn spec_parse_style(ws: Seq<Seq<char>>) -> Style {
    let cut = first_on(ws, 0);
    let fg_ws = ws.take(cut);
    let bg_ws = if cut < ws.len() {
        ws.skip(cut + 1)
    } else {
        Seq::empty()
    };
    Style {
        fg: spec_parse_color(join_space(color_words(fg_ws))),
        bg: spec_parse_color(join_space(color_words(bg_ws))),
        modifiers: mods_of(fg_ws).spec_union(mods_of(bg_ws)),
    }
}

/// The index of the first word `on`, or the length when there is none.
pub open spec fn first_on(ws: Seq<Seq<char>>, from: int) -> int
    decreases ws.len() - from,
    when 0 <= from <= ws.len()
{
    if from >= ws.len() {
        from
    } else if ws[from] == "on"@ {
        from
    } else {
        first_on(ws, from + 1)
    }
}

/// Character-vector equality.
fn chars_eq(a: &Vec<char>, b: &Vec<char>) -> (r: bool)
    ensures
        r == (a@ == b@),
{
    let n = a.len();
    if n != b.len() {
        assert(a@.len() != b@.len());
        return false;
    }
    for i in 0..n
        invariant
            n == a@.len() == b@.len(),
            forall|j: int| 0 <= j < i ==> a@[j] == b@[j],
    {
        if a[i] != b[i] {
            return false;
        }
    }
    assert(a@ =~= b@);
    true
}

/// Do the characters spell the literal?
pub(crate) fn chars_is(w: &Vec<char>, lit: &str) -> (r: bool)
    ensures
        r == (w@ == lit@),
{
    let l = str_chars(lit);
    chars_eq(w, &l)
}

/// Does the word start with the literal?
fn has_prefix(w: &Vec<char>, lit: &str) -> (r: bool)
    ensures
        r == (w@.len() >= lit@.len() && w@.subrange(0, lit@.len() as int) == lit@),
{
    let l = str_chars(lit);
    let m = l.len();
    if w.len() < m {
        return false;
    }
    for i in 0..m
        invariant
            m == l@.len(),
            l@ == lit@,
            m <= w@.len(),
            forall|j: int| 0 <= j < i ==> w@[j] == l@[j],
    {
        if w[i] != l[i] {
            assert(w@.subrange(0, m as int)[i as int] != lit@[i as int]);
            return false;
        }
    }
    assert(w@.subrange(0, m as int) =~= lit@);
    true
}

fn is_digit(c: char) -> (r: bool)
    ensures
        r == crate::formatter::is_digit_char(c),
{
    let u = c as u32;
    0x30 <= u && u <= 0x39
}

/// The number named by the digits `w[from..]`, when that run is all digits
/// with a value small enough to name a color (an empty run names zero).
fn color_number(w: &Vec<char>, from: usize) -> (r: Option<u8>)
    requires
        from <= w@.len(),
    ensures
        (r matches Some(v) ==> spec_color_number(w@, from as int) == Some(v as int)),
        r is None ==> spec_color_number(w@, from as int) is None,
{
    let n = w.len();
    let mut acc: u32 = 0;
    let mut k = from;
    proof {
        assert(w@.subrange(from as int, from as int) =~= Seq::<char>::empty());
    }
    while k < n
        invariant
            from <= k <= n == w@.len(),
            forall|j: int| from <= j < k ==> crate::formatter::is_digit_char(#[trigger] w@[j]),
            acc == crate::formatter::to_nat(w@.subrange(from as int, k as int)),
            acc <= 255,
        decreases n - k,
    {
        if !is_digit(w[k]) {
            return None;
        }
        let dv = w[k] as u32 - 0x30;
        proof {
            assert(w@.subrange(from as int, k + 1).drop_last() =~= w@.subrange(
                from as int,
                k as int,
            ));
            assert(w@.subrange(from as int, k + 1).last() == w@[k as int]);
        }
        let t = acc * 10 + dv;
        if t > 255 {
            proof {
                crate::formatter::lemma_to_nat_monotone(w@, from as int, k + 1, n as int);
            }
            return None;
        }
        acc = t;
        k = k + 1;
    }
    proof {
        assert(w@.subrange(from as int, n as int) =~= w@.subrange(from as int, w@.len() as int));
    }
    Some(acc as u8)
}

/// The color a configuration word names (see `spec_parse_color`).
pub fn parse_color(s: &str) -> (r: Option<Color>)
    ensures
        r == spec_parse_color(s@),
{
    let w = str_chars(s);
    parse_color_chars(&w)
}

fn parse_color_chars(w: &Vec<char>) -> (r: Option<Color>)
    ensures
        r == spec_parse_color(w@),
{
    proof {
        reveal_strlit("rgb");
        reveal_strlit("gray");
        reveal_strlit("color");
    }
    if has_prefix(w, "rgb") {
        if w.len() == 6 && is_digit(w[3]) && is_digit(w[4]) && is_digit(w[5]) {
            let v = 16 + (w[3] as u32 - 0x30) * 36 + (w[4] as u32 - 0x30) * 6 + (w[5] as u32
                - 0x30);
            if v <= 255 {
                Some(Color::Indexed(v as u8))
            } else {
                None
            }
        } else {
            None
        }
    } else if has_prefix(w, "gray") {
        match color_number(w, 4) {
            Some(v) => {
                if v <= 23 {
                    Some(Color::Indexed(232 + v))
                } else {
                    None
                }
            },
            None => None,
        }
    } else if has_prefix(w, "color") {
        match color_number(w, 5) {
            Some(v) => Some(Color::Indexed(v)),
            None => None,
        }
    } else if chars_is(w, "black") {
        Some(Color::Indexed(0))
    } else if chars_is(w, "red") {
        Some(Color::Indexed(1))
    } else if chars_is(w, "green") {
        Some(Color::Indexed(2))
    } else if chars_is(w, "yellow") {
        Some(Color::Indexed(3))
    } else if chars_is(w, "blue") {
        Some(Color::Indexed(4))
    } else if chars_is(w, "magenta") {
        Some(Color::Indexed(5))
    } else if chars_is(w, "cyan") {
        Some(Color::Indexed(6))
    } else if chars_is(w, "white") {
        Some(Color::Indexed(7))
    } else {
        None
    }
}

/// Collect the attributes and the joined color words of `words[from..to]`.
#[verifier::rlimit(60)]
fn process_words(words: &Vec<Vec<char>>, from: usize, to: usize) -> (r: (Vec<char>, Modifier))
    requires
        from <= to <= words@.len(),
    ensures
        r.0@ == join_space(color_words(words.deep_view().subrange(from as int, to as int))),
        r.1 == mods_of(words.deep_view().subrange(from as int, to as int)),
{
    let ghost ws = words.deep_view();
    let mut out: Vec<char> = Vec::new();
    let mut n_words: usize = 0;
    let mut mods = Modifier::empty();
    proof {
        assert(ws.subrange(from as int, from as int) =~= Seq::<Seq<char>>::empty());
        assert(color_words(ws.subrange(from as int, from as int)) =~= Seq::<Seq<char>>::empty());
    }
    let mut i = from;
    while i < to
        invariant
            from <= i <= to <= words@.len(),
            ws == words.deep_view(),
            ws.len() == words@.len(),
            mods == mods_of(ws.subrange(from as int, i as int)),
            n_words == color_words(ws.subrange(from as int, i as int)).len(),
            n_words <= i,
            out@ == join_space(color_words(ws.subrange(from as int, i as int))),
        decreases to - i,
    {
        let w = &words[i];
        proof {
            assert(ws[i as int] == words@[i as int].deep_view());
            assert(words@[i as int].deep_view() =~= w@);
            assert(ws.subrange(from as int, i + 1).drop_last() =~= ws.subrange(
                from as int,
                i as int,
            ));
            assert(ws.subrange(from as int, i + 1).last() == ws[i as int]);
        }
        let ghost prev_cw = color_words(ws.subrange(from as int, i as int));
        if chars_is(w, "underline") {
            mods = mods.union(Modifier::underlined());
        } else if chars_is(w, "bold") {
            mods = mods.union(Modifier::bold());
        } else if chars_is(w, "inverse") {
            mods = mods.union(Modifier::reversed());
        } else if chars_is(w, "bright") || w.len() == 0 {
            proof {
                assert(mods.spec_union(word_modifier(ws[i as int])) == mods);
            }
        } else {
            let mapped: Vec<char> = if chars_is(w, "grey") {
                str_chars("gray")
            } else {
                let mut copy: Vec<char> = Vec::new();
                push_all(&mut copy, w.as_slice());
                proof {
                    assert(copy@ =~= w@);
                }
                copy
            };
            let ghost pre_out = out@;
            if n_words > 0 {
                out.push(' ');
            }
            push_all(&mut out, mapped.as_slice());
            n_words = n_words + 1;
            proof {
                let cw = color_words(ws.subrange(from as int, i + 1));
                assert(cw == prev_cw.push(mapped@));
                assert(cw.drop_last() =~= prev_cw);
                if prev_cw.len() == 0 {
                    assert(out@ =~= join_space(cw));
                } else {
                    assert(out@ =~= join_space(prev_cw) + seq![' '] + mapped@);
                }
            }
            proof {
                assert(mods.spec_union(word_modifier(ws[i as int])) == mods);
            }
        }
        i = i + 1;
    }
    (out, mods)
}

/// The attributes and the color text of one side of a style line: attribute
/// words are collected, the remaining words joined back into the color's
/// name.
pub fn process_color_string(color_str: &str) -> (r: (String, Modifier))
    ensures
        ({
            let ws = crate::formatter::split_seq(color_str@, seq![' ']);
            r.0@ == join_space(color_words(ws)) && r.1 == mods_of(ws)
        }),
{
    let chars = str_chars(color_str);
    let mut space: Vec<char> = Vec::new();
    space.push(' ');
    proof {
        assert(space@ =~= seq![' ']);
    }
    let words = crate::formatter::split_chars(&chars, &space);
    let n = words.len();
    proof {
        assert(words.deep_view().subrange(0, n as int) =~= words.deep_view());
        assert(words.deep_view().len() == words@.len());
    }
    let (text, mods) = process_words(&words, 0, n);
    (string_from_chars(text.as_slice()), mods)
}

/// Parse a style line such as `"underline red on blue"`: the words before
/// `on` style the foreground, those after it the background, and attribute
/// words on either side accumulate (see `spec_parse_style`).
pub fn parse_style(line: &str) -> (r: Style)
    ensures
        r == spec_parse_style(crate::formatter::split_seq(line@, seq![' '])),
{
    let chars = str_chars(line);
    let mut space: Vec<char> = Vec::new();
    space.push(' ');
    proof {
        assert(space@ =~= seq![' ']);
    }
    let words = crate::formatter::split_chars(&chars, &space);
    let n = words.len();
    let ghost ws = words.deep_view();
    proof {
        assert(ws.len() == words@.len());
        reveal_strlit("on");
    }
    let mut cut: usize = 0;
    while cut < n && !chars_is(&words[cut], "on")
        invariant
            cut <= n == words@.len(),
            ws == words.deep_view(),
            first_on(ws, 0) == first_on(ws, cut as int),
        decreases n - cut,
    {
        proof {
            assert(ws[cut as int] == words@[cut as int].deep_view());
            assert(ws[cut as int] =~= words@[cut as int]@);
        }
        cut = cut + 1;
    }
    proof {
        if cut < n {
            assert(ws[cut as int] == words@[cut as int].deep_view());
            assert(ws[cut as int] =~= words@[cut as int]@);
        }
        assert(first_on(ws, 0) == cut as int);
        assert(ws.take(cut as int) =~= ws.subrange(0, cut as int));
    }
    let (fg_text, fg_mods) = process_words(&words, 0, cut);
    let (bg_text, bg_mods) = if cut < n {
        proof {
            assert(ws.skip(cut + 1) =~= ws.subrange(cut + 1, n as int));
        }
        process_words(&words, cut + 1, n)
    } else {
        let empty: Vec<char> = Vec::new();
        proof {
            assert(Seq::<Seq<char>>::empty() =~= ws.subrange(n as int, n as int));
            assert(color_words(Seq::<Seq<char>>::empty()) =~= Seq::<Seq<char>>::empty());
        }
        (empty, Modifier::empty())
    };
    let fg = parse_color_chars(&fg_text);
    let bg = parse_color_chars(&bg_text);
    Style { fg, bg, modifiers: fg_mods.union(bg_mods) }
}

} // verus!
