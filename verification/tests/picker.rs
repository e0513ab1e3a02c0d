use shelf::picker::{Picker, PickerEvent, PickerStep};

fn languages() -> Vec<String> {
    vec![
        "rust".to_string(),
        "python".to_string(),
        "javascript".to_string(),
        "java".to_string(),
        "c++".to_string(),
        "go".to_string(),
        "swift".to_string(),
    ]
}

#[test]
fn test_empty_query_shows_all() {
    let p = Picker::new(languages(), 10);
    assert_eq!(p.shown, vec![0, 1, 2, 3, 4, 5, 6]);
    assert_eq!(p.num_of_items, 7);
    assert_eq!(p.selected, 0);
    assert_eq!(p.start_index, 0);
    assert_eq!(p.end_index, 6);
    assert_eq!(p.num_of_displayable_items, 7);
}

#[test]
fn test_query_ja_filters() {
    let mut p = Picker::new(languages(), 10);
    p.push_query_char('j');
    p.push_query_char('a');
    let mut shown = p.shown.clone();
    shown.sort();
    assert_eq!(shown, vec![2, 3], "only javascript and java match");
    assert_eq!(p.num_of_items, 2);
    assert_eq!(p.selected, 0);
    assert_eq!(p.start_index, 0);
    assert_eq!(p.end_index, 1);
}

#[test]
fn test_lowercase_matching() {
    let mut p = Picker::new(vec!["RUST".to_string(), "go".to_string()], 10);
    p.push_query_char('r');
    p.push_query_char('u');
    assert_eq!(p.shown, vec![0], "an upper-case candidate matches a lower-case query");
    let mut q = Picker::new(vec!["rust".to_string()], 10);
    q.push_query_char('z');
    assert_eq!(q.num_of_items, 0, "a query with no subsequence match filters everything out");
    let mut r = Picker::new(vec!["rust".to_string()], 10);
    r.push_query_char('R');
    r.push_query_char('U');
    assert_eq!(r.shown, vec![0], "an upper-case query matches a lower-case candidate");
}

#[test]
fn test_equal_scores_keep_original_order() {
    // both candidates start with the query, so the scorer ranks them
    // equally and the stable tie-break keeps the original order
    let mut p = Picker::new(languages(), 10);
    p.push_query_char('j');
    p.push_query_char('a');
    assert_eq!(p.shown, vec![2, 3], "javascript comes before java, as in the input");
}

#[test]
fn test_escape_returns_none() {
    let mut p = Picker::new(languages(), 10);
    p.push_query_char('j');
    let step = p.handle_event(PickerEvent::Escape);
    assert_eq!(step, PickerStep::Done(None));
}

#[test]
fn test_enter_empty_projection_returns_none() {
    let mut p = Picker::new(languages(), 10);
    for c in ['q', 'q', 'q'] {
        p.handle_event(PickerEvent::Char(c));
    }
    assert_eq!(p.num_of_items, 0);
    let step = p.handle_event(PickerEvent::Enter);
    assert_eq!(step, PickerStep::Done(None));
}

#[test]
fn test_enter_commits_selected_row() {
    let mut p = Picker::new(languages(), 10);
    p.push_query_char('j');
    p.push_query_char('a');
    let expected = p.shown[p.selected];
    let step = p.handle_event(PickerEvent::Enter);
    assert_eq!(step, PickerStep::Done(Some(expected)));
    assert!(expected == 2 || expected == 3);
}

#[test]
fn test_prev_next_wrap() {
    let mut p = Picker::new(languages(), 10);
    assert_eq!(p.selected, 0);
    p.prev_item();
    assert_eq!(p.selected, 6, "previous from the first row wraps to the last");
    p.next_item();
    assert_eq!(p.selected, 0, "next from the last row wraps to the first");
    p.next_item();
    assert_eq!(p.selected, 1);
    p.prev_item();
    assert_eq!(p.selected, 0);
}

#[test]
fn test_window_slides_with_selection() {
    // height 4 leaves three list rows over seven items
    let mut p = Picker::new(languages(), 4);
    assert_eq!(p.num_of_displayable_items, 3);
    assert_eq!((p.start_index, p.end_index), (0, 2));
    p.next_item();
    p.next_item();
    assert_eq!((p.start_index, p.end_index), (0, 2));
    p.next_item();
    assert_eq!(p.selected, 3);
    assert_eq!((p.start_index, p.end_index), (1, 3), "the window slides down by one");
    p.prev_item();
    p.prev_item();
    p.prev_item();
    assert_eq!(p.selected, 0);
    assert_eq!((p.start_index, p.end_index), (0, 2), "the window slides back up");
    // wrap backwards: the window jumps to the end
    p.prev_item();
    assert_eq!(p.selected, 6);
    assert_eq!((p.start_index, p.end_index), (4, 6));
    assert_eq!(p.end_index - p.start_index + 1, p.num_of_displayable_items);
}

#[test]
fn test_scroll_down_and_up() {
    let mut p = Picker::new(languages(), 4);
    p.scroll_down();
    assert_eq!((p.start_index, p.end_index), (2, 4));
    assert_eq!(p.selected, 2, "scrolling snaps the selection to the window start");
    p.scroll_up();
    assert_eq!((p.start_index, p.end_index), (0, 2));
    assert_eq!(p.selected, 0);
}

#[test]
fn test_scroll_down_needs_room() {
    let mut p = Picker::new(languages(), 10);
    // all seven rows fit: scrolling down must be a no-op
    p.scroll_down();
    assert_eq!((p.start_index, p.end_index), (0, 6));
    assert_eq!(p.selected, 0);
}

#[test]
fn test_scroll_up_clamps_shift() {
    let mut p = Picker::new(languages(), 4);
    p.next_item();
    p.next_item();
    p.next_item();
    assert_eq!((p.start_index, p.end_index), (1, 3));
    p.scroll_up();
    assert_eq!((p.start_index, p.end_index), (0, 2), "a shift of two is clamped at the top");
    assert_eq!(p.end_index - p.start_index + 1, p.num_of_displayable_items);
}

#[test]
fn test_click_selects_visible_row() {
    let mut p = Picker::new(languages(), 10);
    p.handle_event(PickerEvent::Click(3));
    assert_eq!(p.selected, 2, "row three is the third list row");
    p.handle_event(PickerEvent::Click(60));
    assert_eq!(p.selected, 2, "a click past the list is ignored");
}

#[test]
fn test_resize_shrink_recomputes_window() {
    let mut p = Picker::new(languages(), 10);
    assert_eq!((p.start_index, p.end_index), (0, 6));
    p.handle_event(PickerEvent::Resize(2));
    assert_eq!(p.num_of_displayable_items, 1);
    assert_eq!((p.start_index, p.end_index), (0, 0));
    p.handle_event(PickerEvent::Resize(1));
    assert_eq!(p.num_of_displayable_items, 0, "one terminal row leaves no list rows");
    assert_eq!(p.end_index, 0);
}

#[test]
fn test_backspace_resets_to_full_list() {
    let mut p = Picker::new(languages(), 10);
    p.push_query_char('j');
    p.next_item();
    p.handle_event(PickerEvent::Backspace);
    assert_eq!(p.shown, vec![0, 1, 2, 3, 4, 5, 6]);
    assert_eq!(p.selected, 0);
    assert_eq!(p.start_index, 0);
}

#[test]
fn test_visible_rows_slice_and_highlight() {
    let mut p = Picker::new(languages(), 4);
    p.next_item();
    p.next_item();
    p.next_item();
    assert_eq!((p.start_index, p.end_index), (1, 3));
    let rows = p.visible_rows();
    assert_eq!(rows.len(), 3);
    assert_eq!(rows[0].text, "python");
    assert_eq!(rows[1].text, "javascript");
    assert_eq!(rows[2].text, "java");
    assert!(!rows[0].highlighted);
    assert!(!rows[1].highlighted);
    assert!(rows[2].highlighted);
}

#[test]
fn test_visible_rows_clipped_by_list_end() {
    let mut p = Picker::new(languages(), 4);
    p.push_query_char('j');
    p.push_query_char('a');
    let rows = p.visible_rows();
    assert_eq!(rows.len(), 2, "two matches leave only two rows to draw");
}
