use std::collections::BTreeSet;

use waddle::grid::{
    marquee_cells, motion_target, CellRect, ContextNavigation, ContextOutcome, ContextTarget,
    DeleteMotion, GridInteraction, Layout, Motion,
};

const THREE: Layout = Layout { columns: 3, first_index: 0, last_index: 60 };

fn indices(grid: &GridInteraction) -> Vec<usize> {
    grid.selected_indices().iter().copied().collect()
}

#[test]
fn keyboard_and_visual_selection_share_one_state() {
    let mut grid = GridInteraction::default();

    assert_eq!(grid.move_selection_count(Motion::Right, 1, 8, THREE), Some(0));
    grid.select_only(Some(1), 8);
    grid.toggle_visual_selection(8);
    assert_eq!(grid.move_selection_count(Motion::Down, 1, 8, THREE), Some(4));
    assert_eq!(indices(&grid), [1, 2, 3, 4]);

    grid.cancel_visual_selection(8);
    assert_eq!(indices(&grid), [4]);
    assert!(!grid.visual_active());
}

#[test]
fn conventional_click_keyboard_and_active_selection_are_distinct() {
    let mut grid = GridInteraction::default();
    grid.select_click(2, false, false, 12);
    grid.select_click(5, true, false, 12);
    assert_eq!(grid.selected_entry(), Some(5));
    assert_eq!(grid.selected_indices(), &BTreeSet::from([2, 5]));

    grid.select_click(8, false, true, 12);
    assert_eq!(grid.selected_entry(), Some(8));
    assert_eq!(grid.selected_indices(), &(5..=8).collect());

    grid.move_standard(Motion::Left, true, 12, THREE);
    assert_eq!(grid.selected_entry(), Some(7));
    assert_eq!(grid.selected_indices(), &(5..=7).collect());
    grid.toggle_active(12);
    assert!(!grid.is_selected(7));
    assert_eq!(grid.selected_entry(), Some(7));

    grid.select_all(12);
    assert_eq!(grid.selection_count(), 12);
}

#[test]
fn keyboard_selection_respects_rows_and_short_last_row() {
    let mut grid = GridInteraction::default();
    grid.select_only(Some(1), 8);

    assert_eq!(grid.move_selection_count(Motion::Down, 1, 8, THREE), Some(4));
    assert_eq!(grid.move_selection_count(Motion::Down, 1, 8, THREE), Some(7));
    assert_eq!(grid.move_selection_count(Motion::Down, 1, 8, THREE), Some(7));
    grid.select_only(Some(5), 8);
    assert_eq!(grid.move_selection_count(Motion::Down, 1, 8, THREE), Some(7));
}

#[test]
fn keyboard_selection_starts_at_the_nearest_edge_and_does_not_wrap_rows() {
    let mut grid = GridInteraction::default();

    assert_eq!(grid.move_selection_count(Motion::Right, 1, 8, THREE), Some(0));
    grid.select_only(None, 8);
    assert_eq!(grid.move_selection_count(Motion::Up, 1, 8, THREE), Some(7));
    grid.select_only(Some(3), 8);
    assert_eq!(grid.move_selection_count(Motion::Left, 1, 8, THREE), Some(3));
    assert_eq!(grid.move_selection_count(Motion::Right, 1, 8, THREE), Some(4));

    assert_eq!(grid.move_selection_count(Motion::Right, 1, 0, THREE), None);
    assert_eq!(grid.selected_entry(), None);
}

#[test]
fn row_edge_motions_respect_full_and_partial_rows() {
    let mut grid = GridInteraction::default();
    grid.select_only(Some(4), 8);

    assert_eq!(grid.move_selection_count(Motion::RowStart, 1, 8, THREE), Some(3));
    assert_eq!(grid.move_selection_count(Motion::RowEnd, 1, 8, THREE), Some(5));
    grid.select_only(Some(7), 8);
    assert_eq!(grid.move_selection_count(Motion::RowStart, 1, 8, THREE), Some(6));
    assert_eq!(grid.move_selection_count(Motion::RowEnd, 1, 8, THREE), Some(7));

    grid.select_only(None, 8);
    assert_eq!(grid.move_selection_count(Motion::RowStart, 1, 8, THREE), Some(0));
    grid.select_only(None, 8);
    assert_eq!(grid.move_selection_count(Motion::RowEnd, 1, 8, THREE), Some(7));
    assert_eq!(grid.move_selection_count(Motion::RowStart, 1, 0, THREE), None);
}

#[test]
fn row_edge_motions_extend_visual_selection_from_its_anchor() {
    let mut grid = GridInteraction::default();
    grid.select_only(Some(4), 8);
    grid.toggle_visual_selection(8);

    assert_eq!(grid.move_selection_count(Motion::RowStart, 1, 8, THREE), Some(3));
    assert_eq!(indices(&grid), [3, 4]);
    assert_eq!(grid.move_selection_count(Motion::RowEnd, 1, 8, THREE), Some(5));
    assert_eq!(indices(&grid), [4, 5]);
}

#[test]
fn counted_absolute_and_viewport_motions_use_display_order() {
    let mut grid = GridInteraction::default();
    grid.select_only(Some(1), 60);

    assert_eq!(grid.move_selection_count(Motion::Down, 2, 60, THREE), Some(7));
    assert_eq!(grid.move_selection_count(Motion::DisplayIndex(12), 1, 60, THREE), Some(12));
    assert_eq!(grid.move_selection_count(Motion::First, 1, 60, THREE), Some(0));
    assert_eq!(grid.move_selection_count(Motion::Last, 1, 60, THREE), Some(59));

    // Two rows scrolled: rows one to seven are laid out.
    let scrolled = Layout { columns: 3, first_index: 3, last_index: 21 };
    assert_eq!(grid.move_selection_count(Motion::ViewportTop, 1, 60, scrolled), Some(3));
    assert_eq!(grid.move_selection_count(Motion::ViewportMiddle, 1, 60, scrolled), Some(11));
    assert_eq!(grid.move_selection_count(Motion::ViewportBottom, 1, 60, scrolled), Some(20));
    grid.select_only(Some(10), 60);
    assert_eq!(grid.move_selection_count(Motion::HalfPageDown, 1, 60, scrolled), Some(19));
    assert_eq!(grid.move_selection_count(Motion::HalfPageUp, 2, 60, scrolled), Some(1));
}

#[test]
fn delete_motion_uses_the_same_grid_columns() {
    let mut grid = GridInteraction::default();
    grid.select_only(Some(4), 8);

    assert!(grid.select_delete_motion_count(DeleteMotion::Motion(Motion::RowStart), 1, 8, THREE));
    assert_eq!(indices(&grid), [3, 4]);
    assert!(grid.select_delete_motion_count(DeleteMotion::Motion(Motion::RowEnd), 1, 8, THREE));
    assert_eq!(indices(&grid), [4, 5]);
    assert!(grid.select_delete_motion_count(DeleteMotion::Current, 1, 8, THREE));
    assert_eq!(indices(&grid), [4]);
    assert!(grid.select_delete_motion_count(DeleteMotion::Motion(Motion::Down), 1, 8, THREE));
    assert_eq!(indices(&grid), [4, 5, 6, 7]);
    grid.select_only(None, 8);
    assert!(!grid.select_delete_motion_count(DeleteMotion::Current, 1, 8, THREE));
}

#[test]
fn selected_items_follow_the_selection_or_the_active_entry() {
    let items = ["a", "b", "c", "d"];
    let mut grid = GridInteraction::default();
    assert!(grid.selected_items(&items).is_empty());
    grid.select_only(Some(2), 4);
    assert_eq!(grid.selected_items(&items), ["c"]);
    grid.select_click(0, true, false, 4);
    grid.select_click(3, true, false, 4);
    assert_eq!(grid.selected_items(&items), ["a", "c", "d"]);
    grid.select_indices(&[3, 1, 9], 4);
    assert_eq!(grid.selected_entry(), Some(1));
    assert_eq!(grid.selected_items(&items), ["b", "d"]);
}

#[test]
fn motions_saturate_at_the_edges() {
    assert_eq!(motion_target(0, Motion::Up, 5, 8, THREE), 0);
    assert_eq!(motion_target(7, Motion::Down, usize::MAX, 8, THREE), 7);
    assert_eq!(motion_target(4, Motion::Left, 10, 8, THREE), 3);
    assert_eq!(motion_target(4, Motion::Right, 10, 8, THREE), 5);
    assert_eq!(motion_target(2, Motion::Last, 1, 0, THREE), 0);
}

#[test]
fn context_menu_owns_target_selection_and_keyboard_cursor() {
    let mut grid = GridInteraction::default();
    grid.select_only(Some(1), 2);

    assert!(grid.open_background_context(true, 2));
    assert_eq!(grid.selected_entry(), None);
    assert_eq!(grid.context_menu().map(|menu| menu.target), Some(ContextTarget::Background));
    assert_eq!(
        grid.navigate_context(ContextNavigation::Previous { wrap: true }, 3),
        ContextOutcome::Nothing
    );
    assert_eq!(grid.context_menu().unwrap().focused, 2);
    assert_eq!(grid.navigate_context(ContextNavigation::Activate, 3), ContextOutcome::Activate(2));
    assert_eq!(grid.navigate_context(ContextNavigation::Close, 3), ContextOutcome::Closed);
    assert!(grid.context_menu().is_none());
}

#[test]
fn context_menu_pointer_focus_replaces_the_keyboard_focus() {
    let mut grid = GridInteraction::default();
    assert!(grid.open_background_context(true, 2));

    grid.navigate_context(ContextNavigation::Next { wrap: false }, 3);
    assert_eq!(grid.context_menu().unwrap().focused, 1);

    grid.focus_context(2, 3);
    assert_eq!(grid.context_menu().unwrap().focused, 2);

    grid.focus_context(usize::MAX, 3);
    assert_eq!(grid.context_menu().unwrap().focused, 2);
}

#[test]
fn entry_context_rejects_missing_entries_and_selects_valid_target() {
    let mut grid = GridInteraction::default();

    assert!(!grid.open_entry_context(2, 2));
    assert!(grid.open_entry_context(1, 2));
    assert_eq!(grid.selected_entry(), Some(1));
    assert_eq!(grid.take_context_entry(), Some(1));
    assert!(grid.context_menu().is_none());
}

#[test]
fn entry_context_preserves_a_selection_that_contains_its_target() {
    let mut grid = GridInteraction::default();
    grid.select_click(0, false, false, 3);
    grid.select_click(1, true, false, 3);
    assert_eq!(indices(&grid), [0, 1]);

    assert!(grid.open_entry_context(0, 3));

    assert_eq!(indices(&grid), [0, 1]);
    assert_eq!(grid.selected_entry(), Some(0));
    assert_eq!(grid.context_menu().map(|menu| menu.target), Some(ContextTarget::Entry(0)));

    grid.close_context();
    assert!(grid.open_entry_context(2, 3));
    assert_eq!(indices(&grid), [2]);
}

#[test]
fn refused_background_context_changes_nothing() {
    let mut grid = GridInteraction::default();
    grid.select_only(Some(1), 2);
    assert!(!grid.open_background_context(false, 2));
    assert_eq!(grid.selected_entry(), Some(1));
    assert!(grid.context_menu().is_none());
    assert_eq!(grid.navigate_context(ContextNavigation::Next { wrap: true }, 3), ContextOutcome::Nothing);
}

#[test]
fn context_menu_wraps_forward_and_clamps_without_wrap() {
    let mut grid = GridInteraction::default();
    assert!(grid.open_background_context(true, 0));
    grid.navigate_context(ContextNavigation::Last, 3);
    assert_eq!(grid.context_menu().unwrap().focused, 2);
    grid.navigate_context(ContextNavigation::Next { wrap: false }, 3);
    assert_eq!(grid.context_menu().unwrap().focused, 2);
    grid.navigate_context(ContextNavigation::Next { wrap: true }, 3);
    assert_eq!(grid.context_menu().unwrap().focused, 0);
    grid.navigate_context(ContextNavigation::Previous { wrap: false }, 3);
    assert_eq!(grid.context_menu().unwrap().focused, 0);
    assert_eq!(grid.navigate_context(ContextNavigation::First, 0), ContextOutcome::Nothing);
    assert_eq!(grid.take_context_entry(), None);
}

#[test]
fn marquee_cells_cover_the_rows_and_columns_between_its_corners() {
    let rect = CellRect { start_row: 1, start_column: 2, end_row: 0, end_column: 1 };
    assert_eq!(marquee_cells(rect, 3, 5), vec![1, 2, 4]);
    let before_first = CellRect { start_row: -1, start_column: -2, end_row: 0, end_column: 0 };
    assert_eq!(marquee_cells(before_first, 3, 8), vec![0]);
    assert!(marquee_cells(rect, 3, 0).is_empty());
    let past_columns = CellRect { start_row: 0, start_column: 5, end_row: 2, end_column: 7 };
    assert!(marquee_cells(past_columns, 3, 8).is_empty());
    let list = CellRect { start_row: 4, start_column: 0, end_row: 2, end_column: 0 };
    assert_eq!(marquee_cells(list, 1, 10), vec![2, 3, 4]);
}

#[test]
fn marquee_selects_touched_cells_and_activates_the_one_nearest_its_corner() {
    let mut grid = GridInteraction::default();
    grid.select_only(Some(6), 8);
    grid.toggle_visual_selection(8);
    let rect = CellRect { start_row: 0, start_column: 1, end_row: 1, end_column: 2 };
    grid.select_rectangle(rect, 3, 8, &[1, 4, 7, 4]);
    assert_eq!(indices(&grid), [1, 4]);
    assert_eq!(grid.selected_entry(), Some(4));
    assert!(!grid.visual_active());

    let wide = CellRect { start_row: 1, start_column: 0, end_row: 1, end_column: 1 };
    grid.select_rectangle(wide, 3, 8, &[3, 4, 5]);
    assert_eq!(indices(&grid), [3, 4]);
    assert_eq!(grid.selected_entry(), Some(4));

    let far = CellRect { start_row: 0, start_column: 0, end_row: 9, end_column: 9 };
    grid.select_rectangle(far, 3, 8, &[0, 6]);
    assert_eq!(indices(&grid), [0, 6]);
    assert_eq!(grid.selected_entry(), Some(6));

    grid.select_rectangle(rect, 3, 8, &[]);
    assert!(indices(&grid).is_empty());
    assert_eq!(grid.selected_entry(), None);
}

#[test]
fn marquee_ties_go_to_the_smaller_index() {
    let mut grid = GridInteraction::default();
    let rect = CellRect { start_row: 0, start_column: 2, end_row: 1, end_column: 0 };
    grid.select_rectangle(rect, 3, 9, &[4, 2]);
    assert_eq!(indices(&grid), [2, 4]);
    assert_eq!(grid.selected_entry(), Some(2));
    grid.select_rectangle(rect, 3, 9, &[2, 4]);
    assert_eq!(grid.selected_entry(), Some(2));
}
