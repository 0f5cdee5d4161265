//! Selection and scrolling state for the suggestion list: a page-relative
//! selection index, a scroll offset ("benchmark") into the filtered list,
//! and the cursor-movement operations bound to keys.
//!
//! Subtractions that could underflow are guarded and treated as zero, so
//! every operation is total.

use vstd::prelude::*;

verus! {

/// `a - b`, or zero when `b` exceeds `a`.
pub open spec fn sat_sub(a: nat, b: nat) -> nat {
    if a >= b {
        (a - b) as nat
    } else {
        0
    }
}

/// Saturating subtraction on machine integers.
pub fn sat_sub_usize(a: usize, b: usize) -> (r: usize)
    ensures
        r == sat_sub(a as nat, b as nat),
{
    if a >= b {
        a - b
    } else {
        0
    }
}

/// The counters that drive the suggestion list.
///
/// * `selection_index` — 0 means "nothing selected"; `1..=selection_span`
///   selects a row of the currently rendered page.
/// * `hint_benchmark` — index into the full filtered list of the first
///   rendered row (the scroll offset).
/// * `selection_span` — number of selectable rows on the current page.
/// * `hint_span` — number of configured modules (the unfiltered total).
/// * `filtered_hint_count` — size of the current filtered list.
/// * `suggestion_lines` — the configured page size.
pub struct UiState {
    pub selection_index: usize,
    pub hint_benchmark: usize,
    pub selection_span: usize,
    pub hint_span: usize,
    pub filtered_hint_count: usize,
    pub suggestion_lines: usize,
}

/// The configuration-derived fields an operation never changes.
pub open spec fn same_config(a: UiState, b: UiState) -> bool {
    &&& a.hint_span == b.hint_span
    &&& a.filtered_hint_count == b.filtered_hint_count
    &&& a.suggestion_lines == b.suggestion_lines
}

/// What holds after `clamp`: the span is the page size capped by the
/// filtered count, the selection fits the span, and the scroll offset
/// points into the filtered list.
pub open spec fn clamped(st: UiState) -> bool {
    &&& st.selection_span == if st.suggestion_lines >= st.filtered_hint_count {
        st.filtered_hint_count as nat
    } else {
        st.suggestion_lines as nat
    }
    &&& st.selection_index <= st.selection_span
    &&& st.hint_benchmark <= st.filtered_hint_count
}

/// The scroll offset the renderer actually uses: when fewer than a full
/// page remains past the benchmark, the window is taken from the start.
pub open spec fn effective_offset(st: UiState) -> nat {
    if st.hint_benchmark + st.suggestion_lines > st.filtered_hint_count {
        0
    } else {
        st.hint_benchmark as nat
    }
}

/// Selection invariant: on a clamped state the selection never points
/// past the rendered page, and the rendered window always lies inside
/// the filtered list.
pub proof fn lemma_selection_invariant(st: UiState)
    requires
        clamped(st),
    ensures
        st.selection_index <= st.selection_span,
        effective_offset(st) + st.selection_span <= st.filtered_hint_count,
{
}

impl UiState {
    /// A fresh state with nothing filtered and nothing selected.
    pub fn new(suggestion_lines: usize) -> (st: UiState)
        ensures
            st.selection_index == 0,
            st.hint_benchmark == 0,
            st.selection_span == 0,
            st.hint_span == 0,
            st.filtered_hint_count == 0,
            st.suggestion_lines == suggestion_lines,
    {
        UiState {
            selection_index: 0,
            hint_benchmark: 0,
            selection_span: 0,
            hint_span: 0,
            filtered_hint_count: 0,
            suggestion_lines,
        }
    }

    /// Records the size of the full hint list.
    pub fn set_hint_span(&mut self, n: usize)
        ensures
            *final(self) == (UiState { hint_span: n, ..*old(self) }),
    {
        self.hint_span = n;
    }

    /// Records the size of the filtered list, published by the filter.
    pub fn set_filtered_count(&mut self, n: usize)
        ensures
            *final(self) == (UiState { filtered_hint_count: n, ..*old(self) }),
    {
        self.filtered_hint_count = n;
    }

    /// Re-establishes consistency before a repaint: the span shrinks or
    /// grows with the filtered count, and a selection or offset that fell
    /// outside the filtered list is reset to the top.
    pub fn clamp(&mut self)
        ensures
            same_config(*old(self), *final(self)),
            clamped(*final(self)),
            final(self).selection_span == if old(self).suggestion_lines
                >= old(self).filtered_hint_count {
                old(self).filtered_hint_count as nat
            } else {
                old(self).suggestion_lines as nat
            },
            (old(self).hint_benchmark > old(self).filtered_hint_count
                || old(self).selection_index > old(self).filtered_hint_count)
                ==> final(self).hint_benchmark == 0 && final(self).selection_index == 0,
            !(old(self).hint_benchmark > old(self).filtered_hint_count
                || old(self).selection_index > old(self).filtered_hint_count)
                ==> final(self).hint_benchmark == old(self).hint_benchmark
                && final(self).selection_index == min_reset(
                old(self).selection_index as nat,
                final(self).selection_span as nat,
            ),
    {
        if self.suggestion_lines >= self.filtered_hint_count {
            self.selection_span = self.filtered_hint_count;
        } else {
            self.selection_span = self.suggestion_lines;
        }
        if self.hint_benchmark > self.filtered_hint_count || self.selection_index
            > self.filtered_hint_count {
            self.hint_benchmark = 0;
            self.selection_index = 0;
        } else if self.selection_index > self.selection_span {
            self.selection_index = self.selection_span;
        }
    }
}

/// `a`, capped at `b`.
pub open spec fn min_reset(a: nat, b: nat) -> nat {
    if a > b {
        b
    } else {
        a
    }
}

/// Key handler: move the selection one row up, retreating the scroll
/// offset at the top of a page and wrapping to the bottom from row zero.
pub struct ListItemUp;

/// Key handler: move the selection one row down, advancing the scroll
/// offset at the bottom of a page and wrapping to the top past the end.
pub struct ListItemDown;

/// Key handler: jump to the top of the filtered list.
pub struct ListHome;

/// Key handler: jump to the bottom of the filtered list.
pub struct ListEnd;

/// Key handler: scroll one full page towards the end.
pub struct ListPageDown;

/// Key handler: scroll one full page towards the start.
pub struct ListPageUp;

/// The exact effect of one upward step.
pub open spec fn move_prev_post(os: UiState, ns: UiState) -> bool {
    &&& same_config(os, ns)
    &&& ns.selection_span == os.selection_span
    &&& if os.selection_index > 1 {
        ns.selection_index == os.selection_index - 1 && ns.hint_benchmark == os.hint_benchmark
    } else if os.selection_index == 1 {
        if os.hint_benchmark == 0 {
            ns.selection_index == 0 && ns.hint_benchmark == 0
        } else {
            ns.selection_index == 1 && ns.hint_benchmark == os.hint_benchmark - 1
        }
    } else {
        ns.selection_index == os.selection_span && ns.hint_benchmark == (
        if os.filtered_hint_count > os.suggestion_lines {
            (os.filtered_hint_count - os.suggestion_lines) as nat
        } else {
            os.hint_benchmark as nat
        })
    }
}

/// The exact effect of one downward step: below the last visible row the
/// selection advances; on the last row the window slides while filtered
/// items remain beyond it, and wraps to the top from the last page.
pub open spec fn move_next_post(os: UiState, ns: UiState) -> bool {
    &&& same_config(os, ns)
    &&& ns.selection_span == os.selection_span
    &&& if os.selection_index < os.selection_span {
        ns.selection_index == os.selection_index + 1 && ns.hint_benchmark == os.hint_benchmark
    } else if os.selection_index == os.selection_span {
        if os.hint_benchmark < sat_sub(
            os.filtered_hint_count as nat,
            os.suggestion_lines as nat,
        ) {
            ns.selection_index == os.selection_index && ns.hint_benchmark == os.hint_benchmark
                + 1
        } else {
            ns.selection_index == 0 && ns.hint_benchmark == 0
        }
    } else {
        ns.selection_index == os.selection_index && ns.hint_benchmark == os.hint_benchmark
    }
}

impl ListItemUp {
    /// Applies the upward step; always requests a repaint.
    pub fn handle(&self, st: &mut UiState) -> (repaint: bool)
        ensures
            move_prev_post(*old(st), *final(st)),
            repaint,
    {
        if st.selection_index > 1 {
            st.selection_index = st.selection_index - 1;
        } else if st.selection_index == 1 {
            if st.hint_benchmark == 0 {
                st.selection_index = 0;
            } else {
                st.hint_benchmark = st.hint_benchmark - 1;
            }
        } else {
            if st.filtered_hint_count > st.suggestion_lines {
                st.selection_index = st.selection_span;
                st.hint_benchmark = st.filtered_hint_count - st.suggestion_lines;
            } else {
                st.selection_index = st.selection_span;
            }
        }
        true
    }
}

impl ListItemDown {
    /// Applies the downward step; always requests a repaint.
    pub fn handle(&self, st: &mut UiState) -> (repaint: bool)
        ensures
            move_next_post(*old(st), *final(st)),
            repaint,
    {
        if st.selection_index < st.selection_span {
            st.selection_index = st.selection_index + 1;
        } else if st.selection_index == st.selection_span {
            if st.hint_benchmark < sat_sub_usize(st.filtered_hint_count, st.suggestion_lines) {
                st.hint_benchmark = st.hint_benchmark + 1;
            } else {
                st.hint_benchmark = 0;
                st.selection_index = 0;
            }
        }
        true
    }
}

impl ListHome {
    /// Resets selection and scroll offset to the top.
    pub fn handle(&self, st: &mut UiState) -> (repaint: bool)
        ensures
            same_config(*old(st), *final(st)),
            final(st).selection_span == old(st).selection_span,
            final(st).selection_index == 0,
            final(st).hint_benchmark == 0,
            repaint,
    {
        st.selection_index = 0;
        st.hint_benchmark = 0;
        true
    }
}

impl ListEnd {
    /// Jumps to the last page of the filtered list and selects its last
    /// row.
    pub fn handle(&self, st: &mut UiState) -> (repaint: bool)
        ensures
            same_config(*old(st), *final(st)),
            final(st).selection_span == old(st).selection_span,
            final(st).hint_benchmark == sat_sub(
                old(st).filtered_hint_count as nat,
                old(st).suggestion_lines as nat,
            ),
            final(st).selection_index == old(st).selection_span,
            repaint,
    {
        st.hint_benchmark = sat_sub_usize(st.filtered_hint_count, st.suggestion_lines);
        st.selection_index = st.selection_span;
        true
    }
}

/// The exact effect of scrolling towards the end by `step` rows: the
/// offset advances but never past the last page of the filtered list,
/// and reaching the last page selects its last row.
pub open spec fn page_down_post(os: UiState, ns: UiState, step: nat) -> bool {
    let last = sat_sub(os.filtered_hint_count as nat, os.suggestion_lines as nat);
    &&& same_config(os, ns)
    &&& ns.selection_span == os.selection_span
    &&& if last > os.hint_benchmark {
        let target = if os.hint_benchmark + step > last {
            last
        } else {
            (os.hint_benchmark + step) as nat
        };
        ns.hint_benchmark == target && (if target == last {
            ns.selection_index == os.selection_span
        } else {
            ns.selection_index == os.selection_index
        })
    } else {
        ns.hint_benchmark == last && ns.selection_index == os.selection_span
    }
}

/// The exact effect of scrolling towards the start by `step` rows.
pub open spec fn page_up_post(os: UiState, ns: UiState, step: nat) -> bool {
    &&& same_config(os, ns)
    &&& ns.selection_span == os.selection_span
    &&& if os.hint_benchmark >= os.suggestion_lines {
        ns.hint_benchmark == os.hint_benchmark - step && ns.selection_index == os.selection_index
    } else {
        ns.hint_benchmark == 0 && ns.selection_index == 0
    }
}

impl ListPageDown {
    /// Scrolls a full page towards the end, clamping at the last page.
    pub fn handle(&self, st: &mut UiState) -> (repaint: bool)
        ensures
            page_down_post(*old(st), *final(st), old(st).suggestion_lines as nat),
            repaint,
    {
        page_down_step(st, st.suggestion_lines);
        true
    }
}

fn page_down_step(st: &mut UiState, step: usize)
    ensures
        page_down_post(*old(st), *final(st), step as nat),
{
    let last = sat_sub_usize(st.filtered_hint_count, st.suggestion_lines);
    if last > st.hint_benchmark {
        if step > last - st.hint_benchmark {
            st.hint_benchmark = last;
            st.selection_index = st.selection_span;
        } else {
            st.hint_benchmark = st.hint_benchmark + step;
            if st.hint_benchmark == last {
                st.selection_index = st.selection_span;
            }
        }
    } else {
        st.hint_benchmark = last;
        st.selection_index = st.selection_span;
    }
}

impl ListPageUp {
    /// Scrolls a full page towards the start, clamping at the top.
    pub fn handle(&self, st: &mut UiState) -> (repaint: bool)
        ensures
            page_up_post(*old(st), *final(st), old(st).suggestion_lines as nat),
            repaint,
    {
        if st.hint_benchmark >= st.suggestion_lines {
            st.hint_benchmark = st.hint_benchmark - st.suggestion_lines;
        } else {
            st.hint_benchmark = 0;
            st.selection_index = 0;
        }
        true
    }
}

/// Key handler: in vi command mode, one row down (as `ListItemDown`).
pub struct ViListItemJ;

/// Key handler: in vi command mode, one row up (as `ListItemUp`).
pub struct ViListItemK;

/// Key handler: in vi command mode, jump to the top.
pub struct ViListGgHome;

/// Key handler: in vi command mode, jump to the bottom.
pub struct ViListGEnd;

/// Key handler: in vi command mode, scroll half a page towards the start.
pub struct ViListCtrlU;

/// Key handler: in vi command mode, scroll half a page towards the end.
pub struct ViListCtrlD;

impl ViListItemJ {
    /// Steps down only in vi command mode; otherwise leaves the state as is.
    pub fn handle(&self, st: &mut UiState, vi_command_mode: bool) -> (repaint: bool)
        ensures
            vi_command_mode ==> move_next_post(*old(st), *final(st)) && repaint,
            !vi_command_mode ==> *final(st) == *old(st) && !repaint,
    {
        if vi_command_mode {
            ListItemDown.handle(st)
        } else {
            false
        }
    }
}

impl ViListItemK {
    /// Steps up only in vi command mode; otherwise leaves the state as is.
    pub fn handle(&self, st: &mut UiState, vi_command_mode: bool) -> (repaint: bool)
        ensures
            vi_command_mode ==> move_prev_post(*old(st), *final(st)) && repaint,
            !vi_command_mode ==> *final(st) == *old(st) && !repaint,
    {
        if vi_command_mode {
            ListItemUp.handle(st)
        } else {
            false
        }
    }
}

impl ViListGgHome {
    /// Jumps to the top only in vi command mode.
    pub fn handle(&self, st: &mut UiState, vi_command_mode: bool) -> (repaint: bool)
        ensures
            vi_command_mode ==> same_config(*old(st), *final(st)) && final(st).selection_span
                == old(st).selection_span && final(st).selection_index == 0
                && final(st).hint_benchmark == 0 && repaint,
            !vi_command_mode ==> *final(st) == *old(st) && !repaint,
    {
        if vi_command_mode {
            ListHome.handle(st)
        } else {
            false
        }
    }
}

impl ViListGEnd {
    /// Jumps to the bottom only in vi command mode.
    pub fn handle(&self, st: &mut UiState, vi_command_mode: bool) -> (repaint: bool)
        ensures
            vi_command_mode ==> same_config(*old(st), *final(st)) && final(st).selection_span
                == old(st).selection_span && final(st).hint_benchmark == sat_sub(
                old(st).filtered_hint_count as nat,
                old(st).suggestion_lines as nat,
            ) && final(st).selection_index == old(st).selection_span && repaint,
            !vi_command_mode ==> *final(st) == *old(st) && !repaint,
    {
        if vi_command_mode {
            ListEnd.handle(st)
        } else {
            false
        }
    }
}

impl ViListCtrlU {
    /// Scrolls half a page towards the start, only in vi command mode.
    pub fn handle(&self, st: &mut UiState, vi_command_mode: bool) -> (repaint: bool)
        ensures
            vi_command_mode ==> page_up_post(
                *old(st),
                *final(st),
                (old(st).suggestion_lines / 2) as nat,
            ) && repaint,
            !vi_command_mode ==> *final(st) == *old(st) && !repaint,
    {
        if vi_command_mode {
            if st.hint_benchmark >= st.suggestion_lines {
                st.hint_benchmark = st.hint_benchmark - st.suggestion_lines / 2;
            } else {
                st.hint_benchmark = 0;
                st.selection_index = 0;
            }
            true
        } else {
            false
        }
    }
}

impl ViListCtrlD {
    /// Scrolls half a page towards the end, only in vi command mode.
    pub fn handle(&self, st: &mut UiState, vi_command_mode: bool) -> (repaint: bool)
        ensures
            vi_command_mode ==> page_down_post(
                *old(st),
                *final(st),
                (old(st).suggestion_lines / 2) as nat,
            ) && repaint,
            !vi_command_mode ==> *final(st) == *old(st) && !repaint,
    {
        if vi_command_mode {
            page_down_step(st, st.suggestion_lines / 2);
            true
        } else {
            false
        }
    }
}

} // verus!
