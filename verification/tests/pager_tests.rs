use otter_launcher::pager::{
    ListEnd, ListHome, ListItemDown, ListItemUp, ListPageDown, ListPageUp, UiState, ViListCtrlD,
    ViListCtrlU, ViListGEnd, ViListGgHome, ViListItemJ, ViListItemK,
};

fn state(sel: usize, bench: usize, span: usize, total: usize, filtered: usize, lines: usize) -> UiState {
    UiState {
        selection_index: sel,
        hint_benchmark: bench,
        selection_span: span,
        hint_span: total,
        filtered_hint_count: filtered,
        suggestion_lines: lines,
    }
}

#[test]
fn move_next_cycles_through_seven_items() {
    // Seven filtered items on pages of three: repeated downward steps walk
    // every item once and wrap back to the home position on the eighth.
    let mut st = state(0, 0, 3, 7, 7, 3);
    let mut trace: Vec<(usize, usize)> = Vec::new();
    let mut visited: Vec<usize> = Vec::new();
    for _ in 0..8 {
        ListItemDown.handle(&mut st);
        trace.push((st.selection_index, st.hint_benchmark));
        if st.selection_index > 0 {
            visited.push(st.hint_benchmark + st.selection_index - 1);
        }
    }
    assert_eq!(
        trace,
        vec![(1, 0), (2, 0), (3, 0), (3, 1), (3, 2), (3, 3), (3, 4), (0, 0)]
    );
    assert_eq!(visited, vec![0, 1, 2, 3, 4, 5, 6]);
}

#[test]
fn move_next_wraps_exactly_once_per_cycle() {
    let mut st = state(0, 0, 3, 7, 7, 3);
    let mut wraps = 0;
    for _ in 0..16 {
        ListItemDown.handle(&mut st);
        if st.selection_index == 0 && st.hint_benchmark == 0 {
            wraps += 1;
        }
    }
    assert_eq!(wraps, 2);
}

#[test]
fn move_prev_wraps_to_bottom() {
    let mut st = state(0, 0, 3, 7, 7, 3);
    ListItemUp.handle(&mut st);
    assert_eq!(st.selection_index, 3);
    assert_eq!(st.hint_benchmark, 4);
}

#[test]
fn move_prev_deselects_at_top() {
    let mut st = state(1, 0, 3, 7, 7, 3);
    ListItemUp.handle(&mut st);
    assert_eq!(st.selection_index, 0);
    assert_eq!(st.hint_benchmark, 0);
}

#[test]
fn move_prev_scrolls_up_on_first_row() {
    let mut st = state(1, 2, 3, 7, 7, 3);
    ListItemUp.handle(&mut st);
    assert_eq!(st.selection_index, 1);
    assert_eq!(st.hint_benchmark, 1);
}

#[test]
fn clamp_resets_when_filtered_shrinks_below_state() {
    // Selection and offset pointing past a shrunken filtered list reset,
    // and the invariant of the rendered window is restored.
    let mut st = state(3, 4, 3, 7, 7, 3);
    st.set_filtered_count(2);
    st.clamp();
    assert_eq!(st.selection_span, 2);
    assert_eq!(st.selection_index, 0);
    assert_eq!(st.hint_benchmark, 0);
    assert!(st.selection_index <= st.selection_span);
    assert!(st.hint_benchmark + st.selection_span <= st.filtered_hint_count);
}

#[test]
fn clamp_shrinks_span_to_filtered_count() {
    let mut st = state(0, 0, 3, 7, 2, 3);
    st.clamp();
    assert_eq!(st.selection_span, 2);
    let mut grown = state(0, 0, 2, 7, 9, 3);
    grown.clamp();
    assert_eq!(grown.selection_span, 3);
}

#[test]
fn clamp_holds_selection_invariant_after_random_walk() {
    // The selection invariant survives arbitrary interleavings of moves
    // and filtered-count changes, checked after every clamp.
    let mut st = state(0, 0, 0, 9, 9, 3);
    st.clamp();
    let counts = [9usize, 4, 0, 7, 1, 9, 2];
    let mut step = 0usize;
    for round in 0..40 {
        match round % 5 {
            0 => {
                ListItemDown.handle(&mut st);
            }
            1 => {
                ListItemUp.handle(&mut st);
            }
            2 => {
                ListPageDown.handle(&mut st);
            }
            3 => {
                ListPageUp.handle(&mut st);
            }
            _ => {
                ListEnd.handle(&mut st);
            }
        }
        st.set_filtered_count(counts[step % counts.len()]);
        step += 1;
        st.clamp();
        assert!(st.selection_index <= st.selection_span);
        let effective = if st.hint_benchmark + st.suggestion_lines > st.filtered_hint_count {
            0
        } else {
            st.hint_benchmark
        };
        assert!(effective + st.selection_span <= st.filtered_hint_count);
    }
}

#[test]
fn home_and_end_jump() {
    let mut st = state(2, 1, 3, 7, 7, 3);
    ListEnd.handle(&mut st);
    assert_eq!(st.hint_benchmark, 4);
    assert_eq!(st.selection_index, 3);
    ListHome.handle(&mut st);
    assert_eq!(st.hint_benchmark, 0);
    assert_eq!(st.selection_index, 0);
}

#[test]
fn end_with_short_list_does_not_underflow() {
    // Fewer items than one page: the offset is treated as zero, never
    // wrapped around.
    let mut st = state(0, 0, 2, 2, 2, 5);
    ListEnd.handle(&mut st);
    assert_eq!(st.hint_benchmark, 0);
    assert_eq!(st.selection_index, 2);
}

#[test]
fn page_down_advances_and_clamps() {
    let mut st = state(0, 0, 3, 7, 7, 3);
    ListPageDown.handle(&mut st);
    assert_eq!(st.hint_benchmark, 3);
    assert_eq!(st.selection_index, 0);
    ListPageDown.handle(&mut st);
    assert_eq!(st.hint_benchmark, 4);
    assert_eq!(st.selection_index, 3);
    ListPageDown.handle(&mut st);
    assert_eq!(st.hint_benchmark, 4);
    assert_eq!(st.selection_index, 3);
}

#[test]
fn page_down_never_scrolls_past_last_filtered_page() {
    // Ten filtered items, page three, offset five: one page down lands on
    // the last page (offset seven), not past it.
    let mut st = state(0, 5, 3, 10, 10, 3);
    ListPageDown.handle(&mut st);
    assert_eq!(st.hint_benchmark, 7);
    assert_eq!(st.selection_index, 3);
}

#[test]
fn end_clamps_to_filtered_count() {
    // Ten modules configured but only four filtered: the end key jumps to
    // offset one, the last page of the filtered list.
    let mut st = state(0, 0, 3, 10, 4, 3);
    ListEnd.handle(&mut st);
    assert_eq!(st.hint_benchmark, 1);
    assert_eq!(st.selection_index, 3);
}

#[test]
fn half_page_down_clamps_on_filtered_list() {
    let mut st = state(0, 2, 3, 10, 4, 3);
    ViListCtrlD.handle(&mut st, true);
    assert_eq!(st.hint_benchmark, 1);
    assert_eq!(st.selection_index, 3);
}

#[test]
fn page_up_retreats_and_resets_at_top() {
    let mut st = state(2, 5, 3, 7, 7, 3);
    ListPageUp.handle(&mut st);
    assert_eq!(st.hint_benchmark, 2);
    ListPageUp.handle(&mut st);
    assert_eq!(st.hint_benchmark, 0);
    assert_eq!(st.selection_index, 0);
}

#[test]
fn half_page_scrolls_in_vi_command_mode() {
    let mut st = state(0, 0, 4, 10, 10, 4);
    let acted = ViListCtrlD.handle(&mut st, true);
    assert!(acted);
    assert_eq!(st.hint_benchmark, 2);
    let mut up = state(0, 4, 4, 10, 10, 4);
    ViListCtrlU.handle(&mut up, true);
    assert_eq!(up.hint_benchmark, 2);
}

#[test]
fn vi_bindings_ignore_insert_mode() {
    let mut st = state(1, 1, 3, 7, 7, 3);
    assert!(!ViListItemJ.handle(&mut st, false));
    assert!(!ViListItemK.handle(&mut st, false));
    assert!(!ViListGgHome.handle(&mut st, false));
    assert!(!ViListGEnd.handle(&mut st, false));
    assert!(!ViListCtrlU.handle(&mut st, false));
    assert!(!ViListCtrlD.handle(&mut st, false));
    assert_eq!(st.selection_index, 1);
    assert_eq!(st.hint_benchmark, 1);
}

#[test]
fn vi_bindings_act_in_command_mode() {
    let mut st = state(0, 0, 3, 7, 7, 3);
    assert!(ViListItemJ.handle(&mut st, true));
    assert_eq!(st.selection_index, 1);
    assert!(ViListItemK.handle(&mut st, true));
    assert_eq!(st.selection_index, 0);
    assert!(ViListGEnd.handle(&mut st, true));
    assert_eq!(st.hint_benchmark, 4);
    assert!(ViListGgHome.handle(&mut st, true));
    assert_eq!(st.hint_benchmark, 0);
}
