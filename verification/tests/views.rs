//! The course-list view state: search filtering, the default row order,
//! and row event handling.

use cryn_rs::models::course_definition::CourseDefinition;
use cryn_rs::views::courses_view::CoursesView;

fn defs() -> Vec<CourseDefinition> {
    let mut v = vec![
        CourseDefinition::new("MATH101", "Calculus"),
        CourseDefinition::new("ARTS100", "Drawing and calc sketching"),
        CourseDefinition::new("PHYS202", "Mechanics"),
    ];
    v[2].selected = true;
    v
}

#[test]
fn new_view_is_blank() {
    let view = CoursesView::new();
    assert!(view.hovered_row_idx.is_none());
    assert!(view.selected_row_idx.is_none());
    assert!(!view.any_hovered);
    assert_eq!(view.search_query, "");
    assert_eq!(view.last_search_query, "");
    assert!(view.filtered_indices.is_empty());
}

#[test]
fn empty_query_yields_selected_first_then_code_order() {
    let definitions = defs();
    let mut view = CoursesView::new();
    // force a rebuild: the last applied query must differ
    view.last_search_query = "stale".to_string();
    view.update_filter(&definitions);
    // PHYS202 is selected and comes first; then ARTS100, MATH101 by code
    assert_eq!(view.filtered_indices, vec![2, 1, 0]);
    assert_eq!(view.last_search_query, "");
}

#[test]
fn uppercase_query_matches_lowercased_code() {
    let definitions = defs();
    let mut view = CoursesView::new();
    view.search_query = "MATH".to_string();
    view.update_filter(&definitions);
    // code match MATH101 at position 0
    assert_eq!(view.filtered_indices, vec![0]);
    assert_eq!(view.last_search_query, "math");
}

#[test]
fn code_matches_come_before_name_matches() {
    let definitions = defs();
    let mut view = CoursesView::new();
    view.search_query = "calc".to_string();
    view.update_filter(&definitions);
    // no code contains "calc"; names of MATH101 ("Calculus") and ARTS100 match
    assert_eq!(view.filtered_indices, vec![0, 1]);
}

#[test]
fn unchanged_query_keeps_the_listing() {
    let definitions = defs();
    let mut view = CoursesView::new();
    view.search_query = "math".to_string();
    view.update_filter(&definitions);
    let before = view.filtered_indices.clone();
    view.hovered_row_idx = Some(0);
    // same query (case-insensitively): nothing is recomputed or reset
    view.search_query = "MATH".to_string();
    view.update_filter(&definitions);
    assert_eq!(view.filtered_indices, before);
    assert_eq!(view.hovered_row_idx, Some(0));
}

#[test]
fn query_resets_hover_and_selection() {
    let definitions = defs();
    let mut view = CoursesView::new();
    view.hovered_row_idx = Some(1);
    view.selected_row_idx = Some(2);
    view.search_query = "phys".to_string();
    view.update_filter(&definitions);
    assert!(view.hovered_row_idx.is_none());
    assert!(view.selected_row_idx.is_none());
    assert_eq!(view.filtered_indices, vec![2]);
}

#[test]
fn create_default_indices_is_stable_for_ties() {
    let mut definitions = vec![
        CourseDefinition::new("SAME100", "first"),
        CourseDefinition::new("SAME100", "second"),
        CourseDefinition::new("AAAA000", "third"),
    ];
    definitions[2].selected = false;
    let mut view = CoursesView::new();
    view.create_default_indices(&definitions);
    // AAAA000 first; the two equal codes keep their original order
    assert_eq!(view.filtered_indices, vec![2, 0, 1]);
}

#[test]
fn double_click_toggles_selection() {
    let mut selected = false;
    let mut hovered_row = None;
    let mut selected_row = None;
    let mut any_hovered = false;
    CoursesView::handle_row_events(
        true,
        false,
        false,
        4,
        &mut selected,
        &mut hovered_row,
        &mut selected_row,
        &mut any_hovered,
    );
    assert!(selected);
    assert!(hovered_row.is_none());
    assert!(selected_row.is_none());
    assert!(!any_hovered);
}

#[test]
fn click_marks_row_selected_and_clears_hover() {
    let mut selected = true;
    let mut hovered_row = Some(1);
    let mut selected_row = None;
    let mut any_hovered = false;
    CoursesView::handle_row_events(
        false,
        true,
        true,
        4,
        &mut selected,
        &mut hovered_row,
        &mut selected_row,
        &mut any_hovered,
    );
    assert!(selected);
    assert_eq!(selected_row, Some(4));
    assert!(hovered_row.is_none());
    assert!(!any_hovered);
}

#[test]
fn hover_marks_row_hovered() {
    let mut selected = false;
    let mut hovered_row = None;
    let mut selected_row = Some(2);
    let mut any_hovered = false;
    CoursesView::handle_row_events(
        false,
        false,
        true,
        7,
        &mut selected,
        &mut hovered_row,
        &mut selected_row,
        &mut any_hovered,
    );
    assert_eq!(hovered_row, Some(7));
    assert_eq!(selected_row, Some(2));
    assert!(any_hovered);
}
