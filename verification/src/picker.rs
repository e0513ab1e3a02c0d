//! The interactive picker's state machine: the ranked projection, the
//! scrollable viewport over it, and the highlighted selection, advanced one
//! input event at a time. All terminal I/O stays outside; the caller feeds
//! events in and paints the rows this module hands back.

use vstd::prelude::*;

use crate::matching::matches_query;
use crate::rank::{project, projection_ok};

verus! {

/// How many list rows fit on a terminal of the given height: one row is
/// reserved for the prompt.
pub open spec fn display_rows(height: u16) -> int {
    if height == 0 {
        0
    } else {
        height - 1
    }
}

/// How many items are displayable: the projection size, capped by the rows
/// that fit.
pub open spec fn disp_count(num_items: int, height: u16) -> int {
    if num_items <= display_rows(height) {
        num_items
    } else {
        display_rows(height)
    }
}

/// An input event, as the picker understands it. The caller translates raw
/// terminal events into these.
#[derive(Clone, Copy, Debug, PartialEq, Eq)]
pub enum PickerEvent {
    /// A printable character typed into the query.
    Char(char),
    /// Remove the last query character.
    Backspace,
    /// Cancel the session.
    Escape,
    /// Move the selection to the previous row.
    Prev,
    /// Move the selection to the next row.
    Next,
    /// Commit to the highlighted row.
    Enter,
    /// A left click on the given terminal row.
    Click(u16),
    /// Scroll the viewport up.
    ScrollUp,
    /// Scroll the viewport down.
    ScrollDown,
    /// The terminal was resized to the given number of rows.
    Resize(u16),
    /// Anything else: ignored.
    Other,
}

/// What a handled event means for the session.
#[derive(Clone, Copy, Debug, PartialEq, Eq)]
pub enum PickerStep {
    /// Keep polling for events.
    Continue,
    /// The session is over: the committed candidate index, or `None` when
    /// cancelled or nothing was selectable.
    Done(Option<usize>),
}

/// One row of the visible slice, ready to draw.
pub struct Row {
    /// The candidate's display text.
    pub text: String,
    /// Whether this row is the highlighted selection.
    pub highlighted: bool,
}

/// The picker over a fixed candidate list.
pub struct Picker {
    /// The display strings of all candidates, in their original order.
    pub candidates: Vec<String>,
    /// The current query.
    pub prompt: String,
    /// The display projection: indices into `candidates`, filtered by the
    /// query and ranked best first.
    pub shown: Vec<usize>,
    /// The projection's length.
    pub num_of_items: usize,
    /// How many rows of the projection fit on screen.
    pub num_of_displayable_items: usize,
    /// The highlighted index into the projection.
    pub selected: usize,
    /// The first drawn projection index.
    pub start_index: usize,
    /// The last projection index the window covers.
    pub end_index: usize,
    /// The terminal height in rows.
    pub height: u16,
}

impl Picker {
    /// The picker's invariant: the projection is the ranked view of the
    /// candidates under the query, the counters agree with it, the window
    /// spans exactly the displayable rows, and the selection is in range.
    pub open spec fn wf(self) -> bool {
        &&& self.candidates@.len() + 65535 <= usize::MAX
        &&& self.shown@.len() <= self.candidates@.len()
        &&& projection_ok(self.candidates@, self.prompt@, self.shown@)
        &&& self.num_of_items == self.shown@.len()
        &&& self.num_of_displayable_items == disp_count(self.num_of_items as int, self.height)
        &&& self.num_of_displayable_items > 0 ==> self.end_index + 1 == self.start_index
            + self.num_of_displayable_items
        &&& self.num_of_displayable_items == 0 ==> self.end_index <= self.num_of_items
        &&& self.start_index <= self.end_index
        &&& self.start_index <= self.num_of_items
        &&& if self.num_of_items == 0 {
            self.selected == 0
        } else {
            self.selected < self.num_of_items
        }
    }

    /// What committing would return: the candidate index under the
    /// highlight, or `None` when nothing is shown.
    pub open spec fn selection_of(self) -> Option<usize> {
        if self.num_of_items > 0 {
            Some(self.shown@[self.selected as int])
        } else {
            None
        }
    }

    /// The fields the navigation operations never touch.
    pub open spec fn same_view(pre: Picker, post: Picker) -> bool {
        &&& post.candidates == pre.candidates
        &&& post.prompt == pre.prompt
        &&& post.shown == pre.shown
        &&& post.num_of_items == pre.num_of_items
        &&& post.num_of_displayable_items == pre.num_of_displayable_items
        &&& post.height == pre.height
    }

    /// The state right after a query change: the projection is rebuilt and
    /// the viewport snaps back to the top.
    pub open spec fn reset_to_top(post: Picker) -> bool {
        &&& post.num_of_items == post.shown@.len()
        &&& post.num_of_displayable_items == disp_count(post.num_of_items as int, post.height)
        &&& post.start_index == 0
        &&& post.selected == 0
        &&& post.end_index as int == (if post.num_of_displayable_items > 0 {
            post.num_of_displayable_items - 1
        } else {
            0
        })
        &&& post.prompt@.len() == 0 ==> post.shown@ == Seq::new(
            post.candidates@.len() as nat,
            |i: int| i as usize,
        )
    }

    /// A character was appended to the query.
    pub open spec fn query_push_rel(pre: Picker, post: Picker, c: char) -> bool {
        &&& post.candidates == pre.candidates
        &&& post.height == pre.height
        &&& post.prompt@ == pre.prompt@.push(c)
        &&& Self::reset_to_top(post)
    }

    /// The last query character was removed (a no-op query when empty),
    /// and the viewport reset either way.
    pub open spec fn query_pop_rel(pre: Picker, post: Picker) -> bool {
        &&& post.candidates == pre.candidates
        &&& post.height == pre.height
        &&& post.prompt@ == (if pre.prompt@.len() > 0 {
            pre.prompt@.drop_last()
        } else {
            pre.prompt@
        })
        &&& Self::reset_to_top(post)
    }

    /// Selection moved to the previous row, wrapping from the first row to
    /// the last, sliding the window when the selection leaves it.
    pub open spec fn prev_rel(pre: Picker, post: Picker) -> bool {
        if pre.num_of_items == 0 {
            post == pre
        } else {
            let sel: int = if pre.selected == 0 {
                pre.num_of_items - 1
            } else {
                pre.selected - 1
            };
            let span: int = if pre.num_of_displayable_items > 0 {
                pre.num_of_displayable_items - 1
            } else {
                0
            };
            &&& Self::same_view(pre, post)
            &&& post.selected as int == sel
            &&& if sel < pre.start_index {
                post.start_index as int == sel && post.end_index as int == sel + span
            } else if sel > pre.end_index {
                post.end_index as int == sel && post.start_index as int == (if sel >= span {
                    sel - span
                } else {
                    0
                })
            } else {
                post.start_index == pre.start_index && post.end_index == pre.end_index
            }
        }
    }

    /// Selection moved to the next row, wrapping from the last row back to
    /// the top, sliding the window down by one when the selection passes
    /// its end.
    pub open spec fn next_rel(pre: Picker, post: Picker) -> bool {
        if pre.num_of_items == 0 {
            post == pre
        } else {
            let sel: int = (pre.selected + 1) % (pre.num_of_items as int);
            let span: int = if pre.num_of_displayable_items > 0 {
                pre.num_of_displayable_items - 1
            } else {
                0
            };
            &&& Self::same_view(pre, post)
            &&& post.selected as int == sel
            &&& if sel == 0 {
                post.start_index == 0 && post.end_index as int == span
            } else if sel > pre.end_index {
                post.start_index as int == pre.start_index + 1 && post.end_index as int
                    == pre.end_index + 1
            } else {
                post.start_index == pre.start_index && post.end_index == pre.end_index
            }
        }
    }

    /// The window slid up by at most two rows and the selection snapped to
    /// its start.
    pub open spec fn scroll_up_rel(pre: Picker, post: Picker) -> bool {
        if pre.start_index > 0 && pre.end_index > 0 {
            let shift: int = if pre.start_index >= 2 {
                2
            } else {
                pre.start_index as int
            };
            &&& Self::same_view(pre, post)
            &&& post.start_index as int == pre.start_index - shift
            &&& post.end_index as int == pre.end_index - shift
            &&& post.selected == post.start_index
        } else {
            post == pre
        }
    }

    /// The window slid down by two rows and the selection snapped to its
    /// start; honored only while a longer, not fully visible list leaves
    /// room below.
    pub open spec fn scroll_down_rel(pre: Picker, post: Picker) -> bool {
        if pre.num_of_displayable_items > 0 && pre.start_index < pre.num_of_items
            && pre.end_index + 2 < pre.num_of_items && pre.num_of_items > display_rows(pre.height) {
            &&& Self::same_view(pre, post)
            &&& post.start_index as int == pre.start_index + 2
            &&& post.end_index as int == pre.end_index + 2
            &&& post.selected == post.start_index
        } else {
            post == pre
        }
    }

    /// A click on terminal row `row` (row zero is the prompt) selected the
    /// corresponding projection index, if it exists; otherwise nothing
    /// changed.
    pub open spec fn click_rel(pre: Picker, post: Picker, row: u16) -> bool {
        let target: int = pre.start_index + (if row == 0 {
            0
        } else {
            row - 1
        });
        &&& Self::same_view(pre, post)
        &&& post.start_index == pre.start_index
        &&& post.end_index == pre.end_index
        &&& post.selected as int == (if target < pre.num_of_items {
            target
        } else {
            pre.selected as int
        })
    }

    /// The displayable count followed the new height and the window's end
    /// was re-derived from its unchanged start.
    pub open spec fn resize_rel(pre: Picker, post: Picker, rows: u16) -> bool {
        &&& post.candidates == pre.candidates
        &&& post.prompt == pre.prompt
        &&& post.shown == pre.shown
        &&& post.num_of_items == pre.num_of_items
        &&& post.selected == pre.selected
        &&& post.height == rows
        &&& post.num_of_displayable_items == disp_count(pre.num_of_items as int, rows)
        &&& post.start_index == pre.start_index
        &&& post.end_index as int == pre.start_index + (if post.num_of_displayable_items > 0 {
            post.num_of_displayable_items - 1
        } else {
            0
        })
    }

    /// Builds a picker over the given candidate display strings for a
    /// terminal of the given height. The query starts empty, so every
    /// candidate is shown in its original order.
    pub fn new(candidates: Vec<String>, height: u16) -> (p: Picker)
        requires
            candidates@.len() + 65535 <= usize::MAX,
        ensures
            p.wf(),
            p.candidates == candidates,
            p.prompt@.len() == 0,
            p.shown@ == Seq::new(candidates@.len() as nat, |i: int| i as usize),
            p.selected == 0,
            p.start_index == 0,
            p.height == height,
    {
        let prompt = String::new();
        let shown = project(&candidates, &prompt);
        let num_of_items = shown.len();
        let rows_avail: usize = (height as usize).saturating_sub(1);
        let num_of_displayable_items = if num_of_items <= rows_avail {
            num_of_items
        } else {
            rows_avail
        };
        let end_index = if num_of_displayable_items > 0 {
            num_of_displayable_items - 1
        } else {
            0
        };
        Picker {
            candidates,
            prompt,
            shown,
            num_of_items,
            num_of_displayable_items,
            selected: 0,
            start_index: 0,
            end_index,
            height,
        }
    }

    /// Rebuilds the projection for the current query and snaps the
    /// viewport back to the top.
    fn refresh_projection(&mut self)
        requires
            old(self).candidates@.len() + 65535 <= usize::MAX,
        ensures
            final(self).wf(),
            final(self).candidates == old(self).candidates,
            final(self).prompt == old(self).prompt,
            final(self).height == old(self).height,
            Self::reset_to_top(*final(self)),
    {
        self.shown = project(&self.candidates, &self.prompt);
        self.num_of_items = self.shown.len();
        let rows_avail: usize = (self.height as usize).saturating_sub(1);
        self.num_of_displayable_items = if self.num_of_items <= rows_avail {
            self.num_of_items
        } else {
            rows_avail
        };
        self.end_index = if self.num_of_displayable_items > 0 {
            self.num_of_displayable_items - 1
        } else {
            0
        };
        self.start_index = 0;
        self.selected = 0;
    }

    /// Appends a character to the query, refilters, and resets the
    /// viewport to the top.
    pub fn push_query_char(&mut self, c: char)
        requires
            old(self).wf(),
        ensures
            final(self).wf(),
            Self::query_push_rel(*old(self), *final(self), c),
    {
        self.prompt.push(c);
        self.refresh_projection();
    }

    /// Removes the last query character (if any), refilters, and resets
    /// the viewport to the top.
    pub fn pop_query_char(&mut self)
        requires
            old(self).wf(),
        ensures
            final(self).wf(),
            Self::query_pop_rel(*old(self), *final(self)),
    {
        self.prompt.pop();
        self.refresh_projection();
    }

    /// Moves the selection to the previous row; at the first row it wraps
    /// to the last. A selection that leaves the window drags the window
    /// with it.
    pub fn prev_item(&mut self)
        requires
            old(self).wf(),
        ensures
            final(self).wf(),
            Self::prev_rel(*old(self), *final(self)),
            old(self).num_of_items > 0 && old(self).start_index <= old(self).selected
                && old(self).selected <= old(self).end_index ==> final(self).start_index
                <= final(self).selected && final(self).selected <= final(self).end_index,
    {
        if self.num_of_items == 0 {
            return ;
        }
        if self.selected == 0 {
            self.selected = self.num_of_items - 1;
        } else {
            self.selected = self.selected - 1;
        }
        let span = if self.num_of_displayable_items > 0 {
            self.num_of_displayable_items - 1
        } else {
            0
        };
        if self.selected < self.start_index {
            self.start_index = self.selected;
            self.end_index = self.start_index + span;
        } else if self.selected > self.end_index {
            self.end_index = self.selected;
            self.start_index = self.end_index.saturating_sub(span);
        }
    }

    /// Moves the selection to the next row; past the last row it wraps to
    /// the top and resets the window there, otherwise a selection past the
    /// window's end slides the window down by one.
    pub fn next_item(&mut self)
        requires
            old(self).wf(),
        ensures
            final(self).wf(),
            Self::next_rel(*old(self), *final(self)),
            old(self).num_of_items > 0 && old(self).start_index <= old(self).selected
                && old(self).selected <= old(self).end_index ==> final(self).start_index
                <= final(self).selected && final(self).selected <= final(self).end_index,
    {
        if self.num_of_items == 0 {
            return ;
        }
        self.selected = (self.selected + 1) % self.num_of_items;
        proof {
            if old(self).selected + 1 == self.num_of_items {
                vstd::arithmetic::div_mod::lemma_mod_self_0(self.num_of_items as int);
            } else {
                vstd::arithmetic::div_mod::lemma_small_mod(
                    (old(self).selected + 1) as nat,
                    self.num_of_items as nat,
                );
            }
        }
        let span = if self.num_of_displayable_items > 0 {
            self.num_of_displayable_items - 1
        } else {
            0
        };
        if self.selected == 0 {
            self.start_index = 0;
            self.end_index = span;
        } else if self.selected > self.end_index {
            self.start_index = self.start_index + 1;
            self.end_index = self.end_index + 1;
        }
    }

    /// Scrolls the window up by up to two rows and snaps the selection to
    /// its start.
    pub fn scroll_up(&mut self)
        requires
            old(self).wf(),
        ensures
            final(self).wf(),
            Self::scroll_up_rel(*old(self), *final(self)),
    {
        if self.start_index > 0 && self.end_index > 0 {
            let shift = if self.start_index >= 2 {
                2
            } else {
                self.start_index
            };
            self.start_index = self.start_index - shift;
            self.end_index = self.end_index - shift;
            self.selected = self.start_index;
        }
    }

    /// Scrolls the window down by two rows and snaps the selection to its
    /// start, while more of the list remains below the window.
    pub fn scroll_down(&mut self)
        requires
            old(self).wf(),
        ensures
            final(self).wf(),
            Self::scroll_down_rel(*old(self), *final(self)),
    {
        let rows_avail: usize = (self.height as usize).saturating_sub(1);
        if self.num_of_displayable_items > 0 && self.start_index < self.num_of_items
            && self.end_index < self.num_of_items.saturating_sub(2)
            && self.num_of_items > rows_avail {
            self.start_index = self.start_index + 2;
            self.end_index = self.end_index + 2;
            self.selected = self.start_index;
        }
    }

    /// Selects the projection row under a left click at the given terminal
    /// row; clicks past the end of the list are ignored.
    pub fn click(&mut self, row: u16)
        requires
            old(self).wf(),
        ensures
            final(self).wf(),
            Self::click_rel(*old(self), *final(self), row),
    {
        let offset: usize = if row == 0 {
            0
        } else {
            (row - 1) as usize
        };
        let target = self.start_index + offset;
        if target < self.num_of_items {
            self.selected = target;
        }
    }

    /// Applies a terminal resize: the displayable count follows the new
    /// height and the window's end is re-derived from its unchanged start.
    pub fn resize(&mut self, rows: u16)
        requires
            old(self).wf(),
        ensures
            final(self).wf(),
            Self::resize_rel(*old(self), *final(self), rows),
    {
        self.height = rows;
        let rows_avail: usize = (rows as usize).saturating_sub(1);
        self.num_of_displayable_items = if self.num_of_items <= rows_avail {
            self.num_of_items
        } else {
            rows_avail
        };
        let span = if self.num_of_displayable_items > 0 {
            self.num_of_displayable_items - 1
        } else {
            0
        };
        self.end_index = self.start_index + span;
    }

    /// The candidate index the highlighted row stands for, or `None` when
    /// the projection is empty.
    pub fn current_selection(&self) -> (r: Option<usize>)
        requires
            self.wf(),
        ensures
            r == self.selection_of(),
    {
        if self.num_of_items > 0 && self.selected < self.shown.len() {
            Some(self.shown[self.selected])
        } else {
            None
        }
    }

    /// Handles one input event and says whether the session goes on. The
    /// caller is expected to redraw after every event.
    pub fn handle_event(&mut self, e: PickerEvent) -> (step: PickerStep)
        requires
            old(self).wf(),
        ensures
            final(self).wf(),
            match e {
                PickerEvent::Char(c) => Self::query_push_rel(*old(self), *final(self), c) && step
                    == PickerStep::Continue,
                PickerEvent::Backspace => Self::query_pop_rel(*old(self), *final(self)) && step
                    == PickerStep::Continue,
                PickerEvent::Escape => *final(self) == *old(self) && step == PickerStep::Done(
                    None,
                ),
                PickerEvent::Prev => Self::prev_rel(*old(self), *final(self)) && step
                    == PickerStep::Continue,
                PickerEvent::Next => Self::next_rel(*old(self), *final(self)) && step
                    == PickerStep::Continue,
                PickerEvent::Enter => *final(self) == *old(self) && step == PickerStep::Done(
                    old(self).selection_of(),
                ),
                PickerEvent::Click(row) => Self::click_rel(*old(self), *final(self), row) && step
                    == PickerStep::Continue,
                PickerEvent::ScrollUp => Self::scroll_up_rel(*old(self), *final(self)) && step
                    == PickerStep::Continue,
                PickerEvent::ScrollDown => Self::scroll_down_rel(*old(self), *final(self)) && step
                    == PickerStep::Continue,
                PickerEvent::Resize(rows) => Self::resize_rel(*old(self), *final(self), rows)
                    && step == PickerStep::Continue,
                PickerEvent::Other => *final(self) == *old(self) && step == PickerStep::Continue,
            },
    {
        match e {
            PickerEvent::Char(c) => {
                self.push_query_char(c);
                PickerStep::Continue
            },
            PickerEvent::Backspace => {
                self.pop_query_char();
                PickerStep::Continue
            },
            PickerEvent::Escape => PickerStep::Done(None),
            PickerEvent::Prev => {
                self.prev_item();
                PickerStep::Continue
            },
            PickerEvent::Next => {
                self.next_item();
                PickerStep::Continue
            },
            PickerEvent::Enter => PickerStep::Done(self.current_selection()),
            PickerEvent::Click(row) => {
                self.click(row);
                PickerStep::Continue
            },
            PickerEvent::ScrollUp => {
                self.scroll_up();
                PickerStep::Continue
            },
            PickerEvent::ScrollDown => {
                self.scroll_down();
                PickerStep::Continue
            },
            PickerEvent::Resize(rows) => {
                self.resize(rows);
                PickerStep::Continue
            },
            PickerEvent::Other => PickerStep::Continue,
        }
    }

    /// How many rows the visible slice actually has: the window size,
    /// clipped to what remains of the projection.
    pub open spec fn visible_count(self) -> int {
        if self.start_index >= self.num_of_items {
            0
        } else if self.num_of_items - self.start_index < self.num_of_displayable_items {
            self.num_of_items - self.start_index
        } else {
            self.num_of_displayable_items as int
        }
    }

    /// The visible slice of the projection, one drawable row per visible
    /// item, with the selected row marked.
    pub fn visible_rows(&self) -> (rows: Vec<Row>)
        requires
            self.wf(),
        ensures
            rows@.len() == self.visible_count(),
            forall|j: int|
                0 <= j < rows@.len() ==> (#[trigger] rows@[j]).text@ == self.candidates@[self.shown@[self.start_index
                    + j] as int]@ && (rows@[j].highlighted <==> self.start_index + j
                    == self.selected),
    {
        let mut rows: Vec<Row> = Vec::new();
        let mut j: usize = self.start_index;
        while j < self.num_of_items && j - self.start_index < self.num_of_displayable_items
            invariant
                self.wf(),
                self.start_index <= j <= self.num_of_items,
                j - self.start_index <= self.num_of_displayable_items,
                j < self.num_of_items || j - self.start_index <= self.visible_count(),
                rows@.len() == j - self.start_index,
                rows@.len() <= self.visible_count(),
                forall|t: int|
                    0 <= t < rows@.len() ==> (#[trigger] rows@[t]).text@ == self.candidates@[self.shown@[self.start_index
                        + t] as int]@ && (rows@[t].highlighted <==> self.start_index + t
                        == self.selected),
            decreases self.num_of_items - j,
        {
            let idx = self.shown[j];
            rows.push(Row { text: self.candidates[idx].clone(), highlighted: j == self.selected });
            j += 1;
        }
        rows
    }
}

/// The window always spans exactly the number of displayable items while
/// anything is displayable: its bounds are never partially stale.
pub proof fn lemma_window_span(p: Picker)
    requires
        p.wf(),
        p.num_of_displayable_items > 0,
    ensures
        p.end_index - p.start_index + 1 == p.num_of_displayable_items,
{
}

/// The selection always stays inside the projection while items exist.
pub proof fn lemma_selected_in_list(p: Picker)
    requires
        p.wf(),
        p.num_of_items > 0,
    ensures
        p.selected < p.num_of_items,
{
}

/// Whatever the picker commits to is a real candidate that matches the
/// query; only an empty projection commits to nothing.
pub proof fn lemma_selection_valid(p: Picker)
    requires
        p.wf(),
    ensures
        match p.selection_of() {
            Some(i) => i < p.candidates@.len() && matches_query(p.candidates@[i as int]@, p.prompt@),
            None => p.num_of_items == 0,
        },
{
}

} // verus!
