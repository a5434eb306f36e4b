//! The editable input line of the prompt: a string of characters, a cursor
//! between them, and the edits key presses ask for.

use vstd::prelude::*;
use vstd::math::min;
use crate::formatter::is_ws_char;
use crate::strings::{str_chars, string_from_chars};

verus! {

/// An edit or cursor movement requested of the input line.
#[derive(Debug, Clone, Copy, PartialEq, Eq)]
pub enum InputRequest {
    SetCursor(usize),
    InsertChar(char),
    GoToPrevChar,
    GoToNextChar,
    GoToStart,
    GoToEnd,
    DeletePrevChar,
    DeleteNextChar,
    DeletePrevWord,
    DeleteLine,
}

/// What a handled request changed: the text, the cursor, either or both.
#[derive(Debug, Clone, Copy, PartialEq, Eq, Structural)]
pub struct StateChanged {
    pub value: bool,
    pub cursor: bool,
}

/// The mathematical value of an `Input`: its text and the cursor's character
/// position.
pub struct InputModel {
    pub value: Seq<char>,
    pub cursor: int,
}

/// The start of the word before position `c`: white space before `c` is
/// skipped first, then the word's characters.
pub open spec fn skip_ws_back(v: Seq<char>, c: int) -> int
    decreases c,
    when 0 <= c <= v.len()
{
    if c > 0 && is_ws_char(v[c - 1]) {
        skip_ws_back(v, c - 1)
    } else {
        c
    }
}

pub open spec fn skip_word_back(v: Seq<char>, c: int) -> int
    decreases c,
    when 0 <= c <= v.len()
{
    if c > 0 && !is_ws_char(v[c - 1]) {
        skip_word_back(v, c - 1)
    } else {
        c
    }
}

pub open spec fn prev_word_start(v: Seq<char>, c: int) -> int {
    skip_word_back(v, skip_ws_back(v, c))
}

proof fn lemma_skip_back_bounds(v: Seq<char>, c: int)
    requires
        0 <= c <= v.len(),
    ensures
        0 <= skip_ws_back(v, c) <= c,
        0 <= skip_word_back(v, c) <= c,
    decreases c,
{
    if c > 0 {
        lemma_skip_back_bounds(v, c - 1);
    }
}

/// What one request does to the input line: the text and cursor afterwards,
/// and what changed (nothing, when the request had no effect).
pub open spec fn input_step(v: Seq<char>, c: int, req: InputRequest) -> (
    Seq<char>,
    int,
    Option<StateChanged>,
) {
    match req {
        InputRequest::SetCursor(pos) => {
            let p = min(pos as int, v.len() as int);
            if p != c {
                (v, p, Some(StateChanged { value: false, cursor: true }))
            } else {
                (v, c, None::<StateChanged>)
            }
        },
        InputRequest::InsertChar(ch) => (
            v.insert(c, ch),
            c + 1,
            Some(StateChanged { value: true, cursor: true }),
        ),
        InputRequest::GoToPrevChar => {
            if c == 0 {
                (v, c, None::<StateChanged>)
            } else {
                (v, c - 1, Some(StateChanged { value: false, cursor: true }))
            }
        },
        InputRequest::GoToNextChar => {
            if c == v.len() {
                (v, c, None::<StateChanged>)
            } else {
                (v, c + 1, Some(StateChanged { value: false, cursor: true }))
            }
        },
        InputRequest::GoToStart => {
            if c == 0 {
                (v, c, None::<StateChanged>)
            } else {
                (v, 0, Some(StateChanged { value: false, cursor: true }))
            }
        },
        InputRequest::GoToEnd => {
            if c == v.len() {
                (v, c, None::<StateChanged>)
            } else {
                (v, v.len() as int, Some(StateChanged { value: false, cursor: true }))
            }
        },
        InputRequest::DeletePrevChar => {
            if c == 0 {
                (v, c, None::<StateChanged>)
            } else {
                (v.remove(c - 1), c - 1, Some(StateChanged { value: true, cursor: true }))
            }
        },
        InputRequest::DeleteNextChar => {
            if c == v.len() {
                (v, c, None::<StateChanged>)
            } else {
                (v.remove(c), c, Some(StateChanged { value: true, cursor: false }))
            }
        },
        InputRequest::DeletePrevWord => {
            if c == 0 {
                (v, c, None::<StateChanged>)
            } else {
                let w = prev_word_start(v, c);
                (
                    v.subrange(0, w) + v.skip(c),
                    w,
                    Some(StateChanged { value: true, cursor: true }),
                )
            }
        },
        InputRequest::DeleteLine => {
            if v.len() == 0 {
                (v, c, None::<StateChanged>)
            } else {
                (Seq::empty(), 0, Some(StateChanged { value: true, cursor: c != 0 }))
            }
        },
    }
}

/// The width, in terminal cells, a character takes: two for the common wide
/// scripts and forms, one otherwise.
pub open spec fn spec_char_width(ch: char) -> int {
    let u = ch as u32;
    if (0x1100 <= u <= 0x115F) || (0x2E80 <= u <= 0x303E) || (0x3041 <= u <= 0x33FF) || (0x3400
        <= u <= 0x4DBF) || (0x4E00 <= u <= 0x9FFF) || (0xA000 <= u <= 0xA4CF) || (0xAC00 <= u
        <= 0xD7A3) || (0xF900 <= u <= 0xFAFF) || (0xFE30 <= u <= 0xFE4F) || (0xFF00 <= u <= 0xFF60)
        || (0xFFE0 <= u <= 0xFFE6) || (0x20000 <= u <= 0x2FFFD) || (0x30000 <= u <= 0x3FFFD) {
        2int
    } else {
        1int
    }
}

pub fn char_width(ch: char) -> (r: usize)
    ensures
        r == spec_char_width(ch),
        1 <= r <= 2,
{
    let u = ch as u32;
    if (0x1100 <= u && u <= 0x115F) || (0x2E80 <= u && u <= 0x303E) || (0x3041 <= u && u <= 0x33FF)
        || (0x3400 <= u && u <= 0x4DBF) || (0x4E00 <= u && u <= 0x9FFF) || (0xA000 <= u && u
        <= 0xA4CF) || (0xAC00 <= u && u <= 0xD7A3) || (0xF900 <= u && u <= 0xFAFF) || (0xFE30 <= u
        && u <= 0xFE4F) || (0xFF00 <= u && u <= 0xFF60) || (0xFFE0 <= u && u <= 0xFFE6) || (0x20000
        <= u && u <= 0x2FFFD) || (0x30000 <= u && u <= 0x3FFFD) {
        2
    } else {
        1
    }
}

/// The summed width of the first `k` characters.
pub open spec fn width_sum(v: Seq<char>, k: int) -> int
    decreases k,
    when 0 <= k <= v.len()
{
    if k <= 0 {
        0
    } else {
        width_sum(v, k - 1) + spec_char_width(v[k - 1])
    }
}

proof fn lemma_width_sum_bounds(v: Seq<char>, k: int)
    requires
        0 <= k <= v.len(),
    ensures
        k <= width_sum(v, k) <= 2 * k,
    decreases k,
{
    if k > 0 {
        lemma_width_sum_bounds(v, k - 1);
    }
}

/// How far the view scrolls: widths accumulate from the left until they
/// reach the target.
pub open spec fn scroll_amount(v: Seq<char>, target: int) -> int
    decreases v.len(),
{
    if target <= 0 || v.len() == 0 {
        0
    } else {
        let w = spec_char_width(v[0]);
        if w >= target {
            w
        } else {
            w + scroll_amount(v.drop_first(), target - w)
        }
    }
}

/// The prompt's input line: its text and a cursor, moved and edited one
/// request at a time (see `input_step` for what each request does).
#[derive(Debug, Clone)]
pub struct Input {
    value: Vec<char>,
    cursor: usize,
}

impl View for Input {
    type V = InputModel;

    closed spec fn view(&self) -> InputModel {
        InputModel { value: self.value@, cursor: self.cursor as int }
    }
}

impl Input {
    /// The cursor never leaves the text.
    pub open spec fn wf(&self) -> bool {
        0 <= self@.cursor <= self@.value.len()
    }

    /// A fresh input line holding `value`, the cursor at its end.
    pub fn new(value: String) -> (r: Input)
        ensures
            r.wf(),
            r@.value == value@,
            r@.cursor == value@.len(),
    {
        let chars = str_chars(value.as_str());
        let cursor = chars.len();
        Input { value: chars, cursor }
    }

    /// The same line with the cursor placed at `cursor` (clamped to the
    /// text's end).
    pub fn with_cursor(self, cursor: usize) -> (r: Input)
        requires
            self.wf(),
        ensures
            r.wf(),
            r@.value == self@.value,
            r@.cursor == min(cursor as int, self@.value.len() as int),
    {
        let n = self.value.len();
        let c = if cursor < n {
            cursor
        } else {
            n
        };
        Input { value: self.value, cursor: c }
    }

    /// The text.
    pub fn value(&self) -> (r: String)
        ensures
            r@ == self@.value,
    {
        string_from_chars(self.value.as_slice())
    }

    /// The cursor's character position.
    pub fn cursor(&self) -> (r: usize)
        ensures
            r == self@.cursor,
    {
        self.cursor
    }

    /// Empty the line and move the cursor home.
    pub fn reset(&mut self)
        ensures
            final(self).wf(),
            final(self)@.value == Seq::<char>::empty(),
            final(self)@.cursor == 0,
    {
        self.value = Vec::new();
        self.cursor = 0;
    }

    /// Carry out one request; what changed, or nothing when the request had
    /// no effect.
    pub fn handle(&mut self, req: InputRequest) -> (r: Option<StateChanged>)
        requires
            old(self).wf(),
            old(self)@.value.len() < usize::MAX,
        ensures
            final(self).wf(),
            ({
                let (v2, c2, ch) = input_step(old(self)@.value, old(self)@.cursor, req);
                final(self)@.value == v2 && final(self)@.cursor == c2 && r == ch
            }),
    {
        let len = self.value.len();
        match req {
            InputRequest::SetCursor(pos) => {
                let p = if pos < len {
                    pos
                } else {
                    len
                };
                if p != self.cursor {
                    self.cursor = p;
                    Some(StateChanged { value: false, cursor: true })
                } else {
                    None
                }
            },
            InputRequest::InsertChar(ch) => {
                self.value.insert(self.cursor, ch);
                self.cursor = self.cursor + 1;
                Some(StateChanged { value: true, cursor: true })
            },
            InputRequest::GoToPrevChar => {
                if self.cursor == 0 {
                    None
                } else {
                    self.cursor = self.cursor - 1;
                    Some(StateChanged { value: false, cursor: true })
                }
            },
            InputRequest::GoToNextChar => {
                if self.cursor == len {
                    None
                } else {
                    self.cursor = self.cursor + 1;
                    Some(StateChanged { value: false, cursor: true })
                }
            },
            InputRequest::GoToStart => {
                if self.cursor == 0 {
                    None
                } else {
                    self.cursor = 0;
                    Some(StateChanged { value: false, cursor: true })
                }
            },
            InputRequest::GoToEnd => {
                if self.cursor == len {
                    None
                } else {
                    self.cursor = len;
                    Some(StateChanged { value: false, cursor: true })
                }
            },
            InputRequest::DeletePrevChar => {
                if self.cursor == 0 {
                    None
                } else {
                    self.value.remove(self.cursor - 1);
                    self.cursor = self.cursor - 1;
                    Some(StateChanged { value: true, cursor: true })
                }
            },
            InputRequest::DeleteNextChar => {
                if self.cursor == len {
                    None
                } else {
                    self.value.remove(self.cursor);
                    Some(StateChanged { value: true, cursor: false })
                }
            },
            InputRequest::DeletePrevWord => {
                if self.cursor == 0 {
                    None
                } else {
                    let w = self.prev_word_start_exec();
                    let ghost v0 = self.value@;
                    let ghost c0 = self.cursor as int;
                    let mut nv: Vec<char> = Vec::new();
                    proof {
                        assert(nv@ =~= v0.subrange(0, 0));
                    }
                    for k in 0..w
                        invariant
                            w <= self.value@.len(),
                            self.value@ == v0,
                            nv@ == v0.subrange(0, k as int),
                    {
                        nv.push(self.value[k]);
                        assert(nv@ =~= v0.subrange(0, k + 1));
                    }
                    let mut k = self.cursor;
                    proof {
                        assert(v0.subrange(c0, c0) =~= Seq::<char>::empty());
                        assert(nv@ =~= v0.subrange(0, w as int) + v0.subrange(c0, c0));
                    }
                    while k < self.value.len()
                        invariant
                            w as int <= c0 <= k as int <= self.value@.len(),
                            self.value@ == v0,
                            nv@ == v0.subrange(0, w as int) + v0.subrange(c0, k as int),
                        decreases self.value@.len() - k,
                    {
                        nv.push(self.value[k]);
                        k = k + 1;
                        proof {
                            assert(v0.subrange(c0, k as int) =~= v0.subrange(c0, k - 1).push(
                                v0[k - 1],
                            ));
                            assert(nv@ =~= v0.subrange(0, w as int) + v0.subrange(c0, k as int));
                        }
                    }
                    proof {
                        assert(v0.subrange(c0, v0.len() as int) =~= v0.skip(c0));
                    }
                    self.value = nv;
                    self.cursor = w;
                    Some(StateChanged { value: true, cursor: true })
                }
            },
            InputRequest::DeleteLine => {
                if len == 0 {
                    None
                } else {
                    let moved = self.cursor != 0;
                    self.value = Vec::new();
                    self.cursor = 0;
                    Some(StateChanged { value: true, cursor: moved })
                }
            },
        }
    }

    /// Where the word before the cursor starts.
    fn prev_word_start_exec(&self) -> (r: usize)
        requires
            self.wf(),
        ensures
            r == prev_word_start(self@.value, self@.cursor),
            r <= self@.cursor,
    {
        proof {
            lemma_skip_back_bounds(self@.value, self@.cursor);
            lemma_skip_back_bounds(self@.value, skip_ws_back(self@.value, self@.cursor));
        }
        let mut c = self.cursor;
        while c > 0 && crate::formatter::is_ws(self.value[c - 1])
            invariant
                c <= self@.value.len(),
                skip_ws_back(self@.value, self@.cursor) == skip_ws_back(self@.value, c as int),
            decreases c,
        {
            c = c - 1;
        }
        while c > 0 && !crate::formatter::is_ws(self.value[c - 1])
            invariant
                c <= self@.value.len(),
                skip_word_back(self@.value, skip_ws_back(self@.value, self@.cursor))
                    == skip_word_back(self@.value, c as int),
            decreases c,
        {
            c = c - 1;
        }
        c
    }

    /// The cursor's position in terminal cells.
    pub fn visual_cursor(&self) -> (r: usize)
        requires
            self.wf(),
            self@.value.len() <= 0x1000_0000,
        ensures
            r == width_sum(self@.value, self@.cursor),
    {
        let mut sum: usize = 0;
        let c = self.cursor;
        proof {
            lemma_width_sum_bounds(self@.value, self@.cursor);
        }
        let mut k: usize = 0;
        while k < c
            invariant
                k <= c <= self@.value.len(),
                self@.value.len() <= 0x1000_0000,
                sum == width_sum(self@.value, k as int),
            decreases c - k,
        {
            let w = char_width(self.value[k]);
            proof {
                lemma_width_sum_bounds(self@.value, k + 1);
                assert(width_sum(self@.value, k + 1) == sum as int + w as int);
                assert(k + 1 <= 0x1000_0000);
                assert(width_sum(self@.value, k + 1) <= 2 * (k + 1));
                assert(sum as int + w as int <= 0x2000_0000int);
            }
            sum = sum + w;
            k = k + 1;
        }
        sum
    }

    /// How far the view scrolls so that the cursor stays within `width`
    /// cells.
    pub fn visual_scroll(&self, width: usize) -> (r: usize)
        requires
            self.wf(),
            self@.value.len() <= 0x1000_0000,
        ensures
            ({
                let vc = width_sum(self@.value, self@.cursor);
                let target = if vc > width {
                    vc - width as int
                } else {
                    0int
                };
                r == scroll_amount(self@.value, target)
            }),
    {
        proof {
            lemma_width_sum_bounds(self@.value, self@.cursor);
        }
        let vc = self.visual_cursor();
        let scroll = if vc > width {
            vc - width
        } else {
            0
        };
        let mut uscroll: usize = 0;
        if scroll > 0 {
            let n = self.value.len();
            let mut k: usize = 0;
            proof {
                assert(self@.value.skip(0) =~= self@.value);
            }
            while k < n
                invariant
                    k <= n == self@.value.len(),
                    self@.value.len() <= 0x1000_0000,
                    uscroll < scroll,
                    scroll <= 0x2000_0000,
                    width_sum(self@.value, self@.cursor) > width,
                    scroll as int == width_sum(self@.value, self@.cursor) - width,
                    scroll_amount(self@.value, scroll as int) == uscroll + scroll_amount(
                        self@.value.skip(k as int),
                        scroll - uscroll,
                    ),
                decreases n - k,
            {
                let w = char_width(self.value[k]);
                proof {
                    assert(self@.value.skip(k as int)[0] == self@.value[k as int]);
                    assert(self@.value.skip(k as int).drop_first() =~= self@.value.skip(k + 1));
                }
                let t = scroll - uscroll;
                if w >= t {
                    proof {
                        assert(scroll_amount(self@.value.skip(k as int), t as int) == w as int);
                    }
                    return uscroll + w;
                }
                uscroll = uscroll + w;
                k = k + 1;
            }
            proof {
                assert(self@.value.skip(n as int) =~= Seq::<char>::empty());
            }
        }
        uscroll
    }
}

impl<'a> From<&'a str> for Input {
    /// The line holding the given text, cursor at its end.
    fn from(s: &'a str) -> (r: Input) {
        Input::new(s.to_owned())
    }
}

impl<'a> vstd::std_specs::convert::FromSpecImpl<&'a str> for Input {
    open spec fn obeys_from_spec() -> bool {
        false
    }

    open spec fn from_spec(s: &'a str) -> Input {
        arbitrary()
    }
}

} // verus!
