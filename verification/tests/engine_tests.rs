use datagrid::widget::DataGrid;
use datagrid::grid::Grid;
use datagrid::selection::SelectionState;
use datagrid::search::SearchState;
use datagrid::values::CellValue;

#[test]
fn set_value_undo_redo_round_trip() {
    let mut dg = DataGrid::new(5, 5, 400, 300);
    dg.set_cell_value(1, 1, "first");
    dg.set_cell_value(1, 1, "second");
    assert_eq!(dg.get_cell_value(1, 1), "second");

    assert!(dg.undo());
    assert_eq!(dg.get_cell_value(1, 1), "first");

    assert!(dg.redo());
    assert_eq!(dg.get_cell_value(1, 1), "second");
}

#[test]
fn undo_on_empty_stack_reports_false() {
    let mut dg = DataGrid::new(2, 2, 100, 100);
    assert!(!dg.undo());
    assert!(!dg.redo());
}

#[test]
fn new_edit_clears_redo() {
    let mut dg = DataGrid::new(3, 3, 100, 100);
    dg.set_cell_value(0, 0, "a");
    assert!(dg.undo());
    assert!(dg.can_redo());
    dg.set_cell_value(0, 0, "b");
    assert!(!dg.can_redo());
}

#[test]
fn delete_row_undo_restores_content_and_order() {
    let mut dg = DataGrid::new(3, 1, 100, 100);
    dg.set_cell_value(0, 0, "north");
    dg.set_cell_value(1, 0, "middle");
    dg.set_cell_value(2, 0, "south");

    dg.delete_row(1);
    assert_eq!(dg.row_count(), 2);
    assert_eq!(dg.get_cell_value(0, 0), "north");
    assert_eq!(dg.get_cell_value(1, 0), "south");

    assert!(dg.undo());
    assert_eq!(dg.row_count(), 3);
    assert_eq!(dg.get_cell_value(0, 0), "north");
    assert_eq!(dg.get_cell_value(1, 0), "middle");
    assert_eq!(dg.get_cell_value(2, 0), "south");
}

#[test]
fn insert_row_undo_removes_it() {
    let mut dg = DataGrid::new(2, 1, 100, 100);
    dg.set_cell_value(0, 0, "top");
    dg.set_cell_value(1, 0, "bottom");
    dg.insert_row(1);
    assert_eq!(dg.row_count(), 3);
    assert_eq!(dg.get_cell_value(2, 0), "bottom");
    assert!(dg.undo());
    assert_eq!(dg.row_count(), 2);
    assert_eq!(dg.get_cell_value(1, 0), "bottom");
}

#[test]
fn delete_rows_removes_batch_bottom_up() {
    let mut dg = DataGrid::new(5, 1, 100, 100);
    for r in 0..5 {
        dg.set_cell_value(r, 0, &format!("row{}", r));
    }
    dg.delete_rows(&vec![1, 3]);
    assert_eq!(dg.row_count(), 3);
    assert_eq!(dg.get_cell_value(0, 0), "row0");
    assert_eq!(dg.get_cell_value(1, 0), "row2");
    assert_eq!(dg.get_cell_value(2, 0), "row4");

    assert!(dg.undo());
    assert_eq!(dg.row_count(), 5);
    for r in 0..5 {
        assert_eq!(dg.get_cell_value(r, 0), format!("row{}", r));
    }
}

#[test]
fn selection_rectangle_counts_positions() {
    let mut sel = SelectionState::new();
    sel.select_single_cell(1, 1);
    sel.select_range(3, 4, 10, 10);
    assert_eq!(sel.get_selection_count(), 12);
    assert!(sel.is_selected(1, 1));
    assert!(sel.is_selected(3, 4));
    assert!(!sel.is_selected(0, 0));

    // Reversed corners span the same rectangle.
    let mut sel2 = SelectionState::new();
    sel2.select_single_cell(3, 4);
    sel2.select_range(1, 1, 10, 10);
    assert_eq!(sel2.get_selection_count(), 12);
}

#[test]
fn selection_rectangle_clips_to_bounds() {
    let mut sel = SelectionState::new();
    sel.select_single_cell(1, 1);
    sel.select_range(4, 4, 3, 3);
    // Only rows 1..=2 and columns 1..=2 exist.
    assert_eq!(sel.get_selection_count(), 4);
}

#[test]
fn toggle_adds_and_removes() {
    let mut sel = SelectionState::new();
    sel.toggle_cell_selection(2, 2);
    assert!(sel.is_selected(2, 2));
    sel.toggle_cell_selection(2, 2);
    assert!(!sel.is_selected(2, 2));
    assert_eq!(sel.get_selection_count(), 0);
}

#[test]
fn paste_clips_at_grid_bounds() {
    let mut dg = DataGrid::new(3, 3, 100, 100);
    dg.select_cell(2, 2);
    let block = "a\tb\tc\nd\te\tf".to_string();
    assert!(dg.paste_cells(&block).is_ok());
    assert_eq!(dg.row_count(), 3);
    assert_eq!(dg.col_count(), 3);
    assert_eq!(dg.get_cell_value(2, 2), "a");
    // Everything else stayed empty.
    assert_eq!(dg.get_cell_value(0, 0), "");
    assert_eq!(dg.get_cell_value(1, 2), "");
}

#[test]
fn paste_types_tokens() {
    let mut dg = DataGrid::new(2, 3, 100, 100);
    dg.select_cell(0, 0);
    assert!(dg.paste_cells(&"12\ttrue\tword".to_string()).is_ok());
    assert_eq!(dg.get_cell_value(0, 0), "12");
    assert_eq!(dg.get_cell_value(0, 1), "true");
    assert_eq!(dg.get_cell_value(0, 2), "word");
}

#[test]
fn paste_without_destination_fails() {
    let mut dg = DataGrid::new(2, 2, 100, 100);
    assert!(dg.paste_cells(&"x".to_string()).is_err());
}

#[test]
fn paste_undo_restores_old_values() {
    let mut dg = DataGrid::new(2, 2, 100, 100);
    dg.set_cell_value(0, 0, "old");
    dg.select_cell(0, 0);
    assert!(dg.paste_cells(&"new\tright".to_string()).is_ok());
    assert_eq!(dg.get_cell_value(0, 0), "new");
    assert!(dg.undo());
    assert_eq!(dg.get_cell_value(0, 0), "old");
    assert_eq!(dg.get_cell_value(0, 1), "");
}

#[test]
fn copy_paste_scenario_five_by_five() {
    let mut dg = DataGrid::new(5, 5, 400, 300);
    dg.set_cell_value(2, 2, "hello");
    dg.select_cell(2, 2);
    let copied = dg.copy_selected_cells();
    assert_eq!(copied, "hello");
    dg.select_cell(0, 0);
    assert!(dg.paste_cells(&copied).is_ok());
    assert_eq!(dg.get_cell_value(0, 0), "hello");
}

#[test]
fn copy_emits_rectangle_with_empty_fields() {
    let mut dg = DataGrid::new(3, 3, 100, 100);
    dg.set_cell_value(0, 0, "a");
    dg.set_cell_value(1, 1, "b");
    dg.select_cell(0, 0);
    dg.toggle_cell_selection(1, 1);
    let copied = dg.copy_selected_cells();
    assert_eq!(copied, "a\t\n\tb");
}

#[test]
fn cut_clears_the_selection_content() {
    let mut dg = DataGrid::new(2, 2, 100, 100);
    dg.set_cell_value(0, 0, "gone");
    dg.select_cell(0, 0);
    let copied = dg.cut_selected_cells();
    assert_eq!(copied, "gone");
    assert_eq!(dg.get_cell_value(0, 0), "");
}

#[test]
fn search_case_folds_by_default() {
    let mut grid = Grid::new(3, 3);
    grid.set_value(1, 2, CellValue::Text("some foo bar".to_string()));
    let mut search = SearchState::new();
    let n = search.search_text("FOO".to_string(), &grid);
    assert_eq!(n, 1);
    assert!(search.is_search_result(1, 2));
}

#[test]
fn search_case_sensitive_misses_other_case() {
    let mut grid = Grid::new(2, 2);
    grid.set_value(0, 0, CellValue::Text("Foo".to_string()));
    let mut search = SearchState::new();
    let n = search.search_text_with_options("foo".to_string(), true, false, &grid);
    assert_eq!(n, 0);
}

#[test]
fn whole_word_requires_a_token_match() {
    let mut grid = Grid::new(2, 2);
    grid.set_value(0, 0, CellValue::Text("foobar baz".to_string()));
    grid.set_value(1, 1, CellValue::Text("foo baz".to_string()));
    let mut search = SearchState::new();
    let n = search.search_text_with_options("foo".to_string(), false, true, &grid);
    assert_eq!(n, 1);
    assert!(search.is_search_result(1, 1));
}

#[test]
fn search_cursor_wraps_both_ways() {
    let mut grid = Grid::new(2, 1);
    grid.set_value(0, 0, CellValue::Text("hit".to_string()));
    grid.set_value(1, 0, CellValue::Text("hit".to_string()));
    let mut search = SearchState::new();
    assert_eq!(search.search_text("hit".to_string(), &grid), 2);
    assert_eq!(search.get_current_search_index(), 1);
    assert_eq!(search.search_next(), Some((1, 0)));
    assert_eq!(search.search_next(), Some((0, 0)));
    assert_eq!(search.search_prev(), Some((1, 0)));
}

#[test]
fn regex_search_matches_and_rejects() {
    let mut grid = Grid::new(2, 1);
    grid.set_value(0, 0, CellValue::Text("abc123".to_string()));
    grid.set_value(1, 0, CellValue::Text("nope".to_string()));
    let mut search = SearchState::new();
    let n = search.search_regex("[a-c]+[0-9]+".to_string(), false, &grid);
    assert_eq!(n, Ok(1));
    assert!(search.is_search_result(0, 0));

    let bad = search.search_regex("[unclosed".to_string(), false, &grid);
    assert!(bad.is_err());
    // The prior results survive a failed pattern.
    assert!(search.is_search_result(0, 0));
    assert!(!SearchState::validate_regex_pattern("[unclosed"));
    assert!(SearchState::validate_regex_pattern("a+b*"));
}

#[test]
fn replace_all_writes_typed_values() {
    let mut grid = Grid::new(2, 1);
    grid.set_value(0, 0, CellValue::Text("old".to_string()));
    grid.set_value(1, 0, CellValue::Text("old".to_string()));
    let mut search = SearchState::new();
    assert_eq!(search.search_text("old".to_string(), &grid), 2);
    let n = search.replace_all("42".to_string(), &mut grid);
    assert_eq!(n, 2);
    assert_eq!(grid.get_value(0, 0), CellValue::Number(42));
    assert_eq!(grid.get_value(1, 0), CellValue::Number(42));
    assert_eq!(search.get_search_result_count(), 0);
}

#[test]
fn keyboard_navigation_moves_active_cell() {
    let mut dg = DataGrid::new(5, 5, 400, 300);
    dg.select_cell(2, 2);
    assert!(dg.handle_keyboard_with_modifiers_key("ArrowDown", false, false));
    assert!(dg.is_selected(3, 2));
    assert!(dg.handle_keyboard_with_modifiers_key("ArrowRight", false, false));
    assert!(dg.is_selected(3, 3));
    assert!(dg.handle_keyboard_with_modifiers_key("Home", false, false));
    assert!(dg.is_selected(3, 0));
    assert!(dg.handle_keyboard_with_modifiers_key("End", true, false));
    assert!(dg.is_selected(4, 4));
    // At the bottom-right corner, moving further does nothing.
    assert!(!dg.handle_keyboard_with_modifiers_key("ArrowRight", false, false));
}

#[test]
fn ctrl_z_undoes_through_the_keyboard() {
    let mut dg = DataGrid::new(3, 3, 100, 100);
    dg.set_cell_value(0, 0, "x");
    assert!(dg.handle_keyboard_with_modifiers_key("z", true, false));
    assert_eq!(dg.get_cell_value(0, 0), "");
}

#[test]
fn sort_via_widget_clears_selection() {
    let mut dg = DataGrid::new(3, 1, 100, 100);
    dg.set_cell_value(0, 0, "2");
    dg.set_cell_value(1, 0, "1");
    dg.select_cell(0, 0);
    dg.sort_by_column(0, true);
    assert_eq!(dg.get_selection_count(), 0);
    assert_eq!(dg.get_cell_value(0, 0), "1");
    assert_eq!(dg.get_cell_value(1, 0), "2");
}

#[test]
fn filter_by_text_case_folds() {
    let mut dg = DataGrid::new(3, 1, 100, 100);
    dg.set_cell_value(0, 0, "Apple");
    dg.set_cell_value(1, 0, "banana");
    dg.set_cell_value(2, 0, "Apricot");
    dg.filter_column_by_text(0, "AP".to_string());
    assert!(!dg.is_row_filtered(0));
    assert!(dg.is_row_filtered(1));
    assert!(!dg.is_row_filtered(2));
    dg.clear_column_filters();
    assert!(!dg.is_row_filtered(1));
}

#[test]
fn number_rendering_matches_decimal() {
    assert_eq!(CellValue::Number(0).to_string(), "0");
    assert_eq!(CellValue::Number(-5).to_string(), "-5");
    assert_eq!(CellValue::Number(1234567).to_string(), "1234567");
    assert_eq!(CellValue::Boolean(true).to_string(), "true");
    assert_eq!(CellValue::Empty.to_string(), "");
}

#[test]
fn replace_current_advances_the_cursor() {
    let mut dg = DataGrid::new(2, 1, 100, 100);
    dg.set_cell_value(0, 0, "old");
    dg.set_cell_value(1, 0, "old");
    assert_eq!(dg.search_text("old".to_string()), 2);
    assert!(dg.replace_current("new".to_string()));
    assert_eq!(dg.get_cell_value(0, 0), "new");
    assert_eq!(dg.get_cell_value(1, 0), "old");
}

#[test]
fn replace_in_selection_restricts_to_selected() {
    let mut dg = DataGrid::new(2, 1, 100, 100);
    dg.set_cell_value(0, 0, "Target");
    dg.set_cell_value(1, 0, "target");
    dg.select_cell(1, 0);
    let n = dg.replace_in_selection("TARGET".to_string(), "done".to_string(), false);
    assert_eq!(n, 1);
    assert_eq!(dg.get_cell_value(0, 0), "Target");
    assert_eq!(dg.get_cell_value(1, 0), "done");
}

#[test]
fn mouse_press_selects_a_cell() {
    let mut dg = DataGrid::new(10, 10, 400, 300);
    // Headers are 60 wide and 30 tall; cells 100 x 25.
    dg.handle_mouse_down_at_with_modifiers(61, 31, false, false);
    assert!(dg.is_selected(0, 0));
    assert_eq!(dg.get_selection_count(), 1);
    // A press on a row header selects that whole row.
    dg.handle_mouse_down_at_with_modifiers(10, 200, false, false);
    assert_eq!(dg.get_selection_count(), 10);
    assert!(dg.is_selected(6, 0));
    // A miss below the content clears the selection.
    dg.handle_mouse_down_at_with_modifiers(500, 295, false, false);
    assert_eq!(dg.get_selection_count(), 0);
}

#[test]
fn mouse_press_on_column_header_sorts() {
    let mut dg = DataGrid::new(3, 1, 400, 300);
    dg.set_cell_value(0, 0, "9");
    dg.set_cell_value(1, 0, "1");
    dg.handle_mouse_down_at_with_modifiers(61, 5, false, false);
    assert_eq!(dg.get_cell_value(0, 0), "1");
    // A second press flips the direction.
    dg.handle_mouse_down_at_with_modifiers(61, 5, false, false);
    assert_eq!(dg.get_cell_value(0, 0), "9");
}

#[test]
fn style_changes_are_undoable() {
    let mut dg = DataGrid::new(2, 2, 100, 100);
    dg.set_cell_bg_color(0, 0, 0xFF0000FF);
    let st = dg.get_cell_style(0, 0);
    assert_eq!(st.bg_color, Some(0xFF0000FF));
    assert!(dg.undo());
    let st2 = dg.get_cell_style(0, 0);
    assert_eq!(st2.bg_color, None);
}

#[test]
fn editing_respects_column_editable_flag() {
    let mut dg = DataGrid::new(2, 2, 100, 100);
    assert!(dg.start_edit(0, 0));
    dg.update_cell_value(0, 0, "typed".to_string());
    assert_eq!(dg.get_cell_value(0, 0), "typed");
    dg.end_edit();
    assert!(!dg.is_editing());
    assert!(!dg.start_edit(5, 5));
}

#[test]
fn paste_uses_first_selected_cell_without_anchor() {
    let mut dg = DataGrid::new(3, 3, 100, 100);
    // Toggling on and off leaves a selection-free state with no anchor
    // only via a fresh widget; instead anchor at the toggled position.
    dg.select_cell(1, 1);
    assert!(dg.paste_cells(&"spot".to_string()).is_ok());
    assert_eq!(dg.get_cell_value(1, 1), "spot");
}

#[test]
fn freezing_caps_at_the_dimension() {
    let mut dg = DataGrid::new(3, 3, 100, 100);
    dg.freeze_rows(10);
    dg.freeze_cols(2);
    let grid = Grid::new(3, 3);
    let (lo, hi) = grid.frozen_row_bounds();
    assert_eq!((lo, hi), (0, 0));
    // Frozen extent of two 100-px columns.
    let mut g2 = Grid::new(3, 3);
    g2.set_frozen_cols(2);
    let (cl, ch) = g2.frozen_col_bounds();
    assert_eq!((cl, ch), (0, 200));
}

#[test]
fn wheel_scroll_clamps_to_content() {
    let mut dg = DataGrid::new(100, 10, 200, 100);
    dg.handle_wheel(0, 50);
    dg.handle_wheel(0, -500);
    let (first, _, _, _) = dg.get_visible_range();
    assert_eq!(first, 0);
}
