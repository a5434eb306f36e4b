//! The picker: which entry is selected, both absolutely in the result list
//! and relative to the visible window, and how the selection moves.

use vstd::prelude::*;
use crate::input::{Input, InputModel};

verus! {

/// The mathematical state of a `Picker`.
pub struct PickerModel {
    pub selected: Option<usize>,
    pub relative: Option<usize>,
    pub inverted: bool,
    pub input: InputModel,
}

/// A missing selection reads as the first entry.
pub open spec fn sel_or_zero(v: Option<usize>) -> int {
    match v {
        Some(x) => x as int,
        None => 0,
    }
}

/// One step towards the next entry: the absolute selection advances and
/// wraps at `total`; the relative selection follows, capped at `height`,
/// and snaps home together with a wrap.
pub open spec fn next_selection(
    sel: Option<usize>,
    rel: Option<usize>,
    total: usize,
    height: usize,
) -> (Option<usize>, Option<usize>)
    recommends
        total >= 1,
{
    let s0 = sel_or_zero(sel);
    let r0 = sel_or_zero(rel);
    let s1 = (if s0 == usize::MAX as int {
        s0
    } else {
        s0 + 1
    }) % (total as int);
    if s1 == 0 {
        (Some(0usize), Some(0usize))
    } else {
        (
            Some(s1 as usize),
            Some(
                (if r0 + 1 <= height {
                    r0 + 1
                } else {
                    height as int
                }) as usize,
            ),
        )
    }
}

/// One step towards the previous entry: the absolute selection moves back
/// and wraps at `total`; the relative selection follows towards home, and a
/// wrap to the last entry pins it to `height`.
pub open spec fn prev_selection(
    sel: Option<usize>,
    rel: Option<usize>,
    total: usize,
    height: usize,
) -> (Option<usize>, Option<usize>)
    recommends
        total >= 1,
{
    let s0 = sel_or_zero(sel);
    let r0 = sel_or_zero(rel);
    let m = s0 % (total as int);
    let s1 = if m == 0 {
        total - 1
    } else {
        m - 1
    };
    if s1 == total - 1 {
        (Some(s1 as usize), Some(height))
    } else {
        (
            Some(s1 as usize),
            Some(
                (if r0 > 0 {
                    r0 - 1
                } else {
                    0int
                }) as usize,
            ),
        )
    }
}

/// `n` selection steps in the given direction.
pub open spec fn selection_steps(
    sel: Option<usize>,
    rel: Option<usize>,
    total: usize,
    height: usize,
    n: int,
    forward: bool,
) -> (Option<usize>, Option<usize>)
    decreases n,
    when n >= 0
{
    if n <= 0 {
        (sel, rel)
    } else {
        let p = selection_steps(sel, rel, total, height, n - 1, forward);
        if forward {
            next_selection(p.0, p.1, total, height)
        } else {
            prev_selection(p.0, p.1, total, height)
        }
    }
}

/// The result-list picker: an absolute and a window-relative selection, an
/// orientation, and the prompt's input line.
#[derive(Debug)]
pub struct Picker {
    selected_index: Option<usize>,
    relative_index: Option<usize>,
    /// Whether the list is drawn bottom-up, reversing the movement keys.
    pub inverted: bool,
    pub input: Input,
}

impl View for Picker {
    type V = PickerModel;

    closed spec fn view(&self) -> PickerModel {
        PickerModel {
            selected: self.selected_index,
            relative: self.relative_index,
            inverted: self.inverted,
            input: self.input@,
        }
    }
}

impl Picker {
    pub open spec fn wf(&self) -> bool {
        0 <= self@.input.cursor <= self@.input.value.len()
    }

    /// A fresh picker, its input holding the given text (or nothing).
    pub fn new(input: Option<String>) -> (r: Self)
        ensures
            r.wf(),
            r@.selected is None,
            r@.relative is None,
            !r@.inverted,
            r@.input.value == match input {
                Some(s) => s@,
                None => Seq::<char>::empty(),
            },
    {
        let text = match input {
            Some(s) => s,
            None => String::new(),
        };
        Picker {
            selected_index: None,
            relative_index: None,
            inverted: false,
            input: Input::new(text),
        }
    }

    /// How far the window is scrolled: the selected entry's distance above
    /// the window-relative selection, never negative.
    pub fn offset(&self) -> (r: usize)
        ensures
            r as int == if sel_or_zero(self@.selected) >= sel_or_zero(self@.relative) {
                sel_or_zero(self@.selected) - sel_or_zero(self@.relative)
            } else {
                0int
            },
    {
        let s = match self.selected_index {
            Some(s) => s,
            None => 0,
        };
        let r = match self.relative_index {
            Some(r) => r,
            None => 0,
        };
        if s >= r {
            s - r
        } else {
            0
        }
    }

    /// The same picker, drawn the other way up.
    pub fn inverted(self) -> (r: Self)
        ensures
            r@ == (PickerModel { inverted: !self@.inverted, ..self@ }),
    {
        Picker { inverted: !self.inverted, ..self }
    }

    /// Select the first entry, absolutely and in the window.
    pub fn reset_selection(&mut self)
        ensures
            final(self)@ == (PickerModel {
                selected: Some(0usize),
                relative: Some(0usize),
                ..old(self)@
            }),
    {
        self.selected_index = Some(0);
        self.relative_index = Some(0);
    }

    /// Empty the input line.
    pub fn reset_input(&mut self)
        ensures
            final(self).wf(),
            final(self)@.input.value == Seq::<char>::empty(),
            final(self)@.input.cursor == 0,
            final(self)@.selected == old(self)@.selected,
            final(self)@.relative == old(self)@.relative,
            final(self)@.inverted == old(self)@.inverted,
    {
        self.input.reset();
    }

    pub fn selected(&self) -> (r: Option<usize>)
        ensures
            r == self@.selected,
    {
        self.selected_index
    }

    pub fn select(&mut self, index: Option<usize>)
        ensures
            final(self)@ == (PickerModel { selected: index, ..old(self)@ }),
    {
        self.selected_index = index;
    }

    pub fn relative_selected(&self) -> (r: Option<usize>)
        ensures
            r == self@.relative,
    {
        self.relative_index
    }

    pub fn relative_select(&mut self, index: Option<usize>)
        ensures
            final(self)@ == (PickerModel { relative: index, ..old(self)@ }),
    {
        self.relative_index = index;
    }

    /// Move the selection `step` entries down the list (up, when the picker
    /// is inverted), wrapping at `total_items` and keeping the
    /// window-relative selection within `height`.
    pub fn select_next(&mut self, step: u32, total_items: usize, height: usize)
        requires
            total_items >= 1,
        ensures
            ({
                let (s, r) = selection_steps(
                    old(self)@.selected,
                    old(self)@.relative,
                    total_items,
                    height,
                    step as int,
                    !old(self)@.inverted,
                );
                final(self)@ == (PickerModel { selected: s, relative: r, ..old(self)@ })
            }),
    {
        let fwd = !self.inverted;
        let mut k: u32 = 0;
        while k < step
            invariant
                k <= step,
                total_items >= 1,
                fwd == !old(self)@.inverted,
                self@ == (PickerModel {
                    selected: selection_steps(
                        old(self)@.selected,
                        old(self)@.relative,
                        total_items,
                        height,
                        k as int,
                        fwd,
                    ).0,
                    relative: selection_steps(
                        old(self)@.selected,
                        old(self)@.relative,
                        total_items,
                        height,
                        k as int,
                        fwd,
                    ).1,
                    ..old(self)@
                }),
            decreases step - k,
        {
            if fwd {
                self.step_next(total_items, height);
            } else {
                self.step_prev(total_items, height);
            }
            k = k + 1;
        }
    }

    /// Move the selection `step` entries up the list (down, when the picker
    /// is inverted).
    pub fn select_prev(&mut self, step: u32, total_items: usize, height: usize)
        requires
            total_items >= 1,
        ensures
            ({
                let (s, r) = selection_steps(
                    old(self)@.selected,
                    old(self)@.relative,
                    total_items,
                    height,
                    step as int,
                    old(self)@.inverted,
                );
                final(self)@ == (PickerModel { selected: s, relative: r, ..old(self)@ })
            }),
    {
        let fwd = self.inverted;
        let mut k: u32 = 0;
        while k < step
            invariant
                k <= step,
                total_items >= 1,
                fwd == old(self)@.inverted,
                self@ == (PickerModel {
                    selected: selection_steps(
                        old(self)@.selected,
                        old(self)@.relative,
                        total_items,
                        height,
                        k as int,
                        fwd,
                    ).0,
                    relative: selection_steps(
                        old(self)@.selected,
                        old(self)@.relative,
                        total_items,
                        height,
                        k as int,
                        fwd,
                    ).1,
                    ..old(self)@
                }),
            decreases step - k,
        {
            if fwd {
                self.step_next(total_items, height);
            } else {
                self.step_prev(total_items, height);
            }
            k = k + 1;
        }
    }

    fn step_next(&mut self, total_items: usize, height: usize)
        requires
            total_items >= 1,
        ensures
            ({
                let (s, r) = next_selection(
                    old(self)@.selected,
                    old(self)@.relative,
                    total_items,
                    height,
                );
                final(self)@ == (PickerModel { selected: s, relative: r, ..old(self)@ })
            }),
    {
        let s0 = match self.selected_index {
            Some(s) => s,
            None => 0,
        };
        let r0 = match self.relative_index {
            Some(r) => r,
            None => 0,
        };
        let bumped = if s0 < usize::MAX {
            s0 + 1
        } else {
            s0
        };
        let s1 = bumped % total_items;
        if s1 == 0 {
            self.selected_index = Some(0);
            self.relative_index = Some(0);
        } else {
            self.selected_index = Some(s1);
            self.relative_index = Some(
                if r0 < height {
                    r0 + 1
                } else {
                    height
                },
            );
        }
    }

    fn step_prev(&mut self, total_items: usize, height: usize)
        requires
            total_items >= 1,
        ensures
            ({
                let (s, r) = prev_selection(
                    old(self)@.selected,
                    old(self)@.relative,
                    total_items,
                    height,
                );
                final(self)@ == (PickerModel { selected: s, relative: r, ..old(self)@ })
            }),
    {
        let s0 = match self.selected_index {
            Some(s) => s,
            None => 0,
        };
        let r0 = match self.relative_index {
            Some(r) => r,
            None => 0,
        };
        let m = s0 % total_items;
        let s1 = if m == 0 {
            total_items - 1
        } else {
            m - 1
        };
        if s1 == total_items - 1 {
            self.selected_index = Some(s1);
            self.relative_index = Some(height);
        } else {
            self.selected_index = Some(s1);
            self.relative_index = Some(
                if r0 > 0 {
                    r0 - 1
                } else {
                    0
                },
            );
        }
    }
}

impl Default for Picker {
    fn default() -> (r: Self)
        ensures
            r.wf(),
            r@.selected is None,
            r@.relative is None,
            !r@.inverted,
            r@.input.value == Seq::<char>::empty(),
    {
        Picker::new(None)
    }
}

} // verus!
