use datagrid::grid::Grid;
use datagrid::values::CellValue;
use datagrid::viewport::Viewport;

#[test]
fn grid_test_grid_creation() {
    let grid = Grid::new(100, 50);
    assert_eq!(grid.row_count(), 100);
    assert_eq!(grid.col_count(), 50);
}

#[test]
fn test_cell_operations() {
    let mut grid = Grid::new(10, 10);

    grid.set_value(5, 5, CellValue::Text("test".to_string()));
    assert_eq!(grid.get_value_string(5, 5), "test");

    grid.set_value(3, 3, CellValue::Number(42));
    assert_eq!(grid.get_value_string(3, 3), "42");
}

#[test]
fn test_viewport_creation() {
    let viewport = Viewport::new(800, 600);
    assert_eq!(viewport.canvas_width, 800);
    assert_eq!(viewport.canvas_height, 600);
}

#[test]
fn test_scroll_bounds() {
    let mut viewport = Viewport::new(800, 600);
    let grid = Grid::new(100, 50);

    viewport.set_scroll(-100, -100, &grid);
    assert_eq!(viewport.scroll_x, 0);
    assert_eq!(viewport.scroll_y, 0);
}

#[test]
fn lib_test_grid_creation() {
    let grid = Grid::new(10, 10);
    assert_eq!(grid.row_count(), 10);
    assert_eq!(grid.col_count(), 10);
}

#[test]
fn set_then_get_round_trips() {
    let mut grid = Grid::new(4, 4);
    grid.set_value(1, 2, CellValue::Number(-17));
    let got = grid.get_value(1, 2);
    assert_eq!(got, CellValue::Number(-17));
    assert_eq!(grid.get_value_string(1, 2), "-17");
}

#[test]
fn insert_then_delete_row_restores_mapping() {
    let mut grid = Grid::new(3, 2);
    grid.set_value(0, 0, CellValue::Text("a".to_string()));
    grid.set_value(1, 1, CellValue::Text("b".to_string()));
    grid.set_value(2, 0, CellValue::Text("c".to_string()));

    grid.insert_row(1);
    assert_eq!(grid.row_count(), 4);
    assert_eq!(grid.get_value_string(2, 1), "b");

    grid.delete_row(1);
    assert_eq!(grid.row_count(), 3);
    assert_eq!(grid.get_value_string(0, 0), "a");
    assert_eq!(grid.get_value_string(1, 1), "b");
    assert_eq!(grid.get_value_string(2, 0), "c");
}

#[test]
fn insert_then_delete_column_restores_mapping() {
    let mut grid = Grid::new(2, 3);
    grid.set_value(0, 0, CellValue::Number(1));
    grid.set_value(1, 2, CellValue::Number(2));

    grid.insert_column(1);
    assert_eq!(grid.col_count(), 4);
    assert_eq!(grid.get_value_string(1, 3), "2");

    grid.delete_column(1);
    assert_eq!(grid.col_count(), 3);
    assert_eq!(grid.get_value_string(0, 0), "1");
    assert_eq!(grid.get_value_string(1, 2), "2");
}

#[test]
fn sort_tie_break_orders_types() {
    let mut grid = Grid::new(4, 1);
    grid.set_value(0, 0, CellValue::Number(3));
    grid.set_value(1, 0, CellValue::Number(1));
    grid.set_value(2, 0, CellValue::Text("x".to_string()));
    // Row 3 stays empty.

    grid.sort_by_column(0, true);
    assert_eq!(grid.get_value_string(0, 0), "1");
    assert_eq!(grid.get_value_string(1, 0), "3");
    assert_eq!(grid.get_value_string(2, 0), "x");
    assert_eq!(grid.get_value_string(3, 0), "");

    grid.sort_by_column(0, false);
    assert_eq!(grid.get_value_string(0, 0), "x");
    assert_eq!(grid.get_value_string(1, 0), "3");
    assert_eq!(grid.get_value_string(2, 0), "1");
    assert_eq!(grid.get_value_string(3, 0), "");
}

#[test]
fn sort_moves_row_heights_with_rows() {
    let mut grid = Grid::new(2, 1);
    grid.set_value(0, 0, CellValue::Number(9));
    grid.set_value(1, 0, CellValue::Number(2));
    grid.set_row_height(0, 40);
    grid.sort_by_column(0, true);
    // The tall row held 9, which sorts last.
    assert_eq!(grid.row_height(0), 25);
    assert_eq!(grid.row_height(1), 40);
}

#[test]
fn multi_column_sort_uses_second_key() {
    let mut grid = Grid::new(3, 2);
    grid.set_value(0, 0, CellValue::Number(1));
    grid.set_value(0, 1, CellValue::Text("b".to_string()));
    grid.set_value(1, 0, CellValue::Number(1));
    grid.set_value(1, 1, CellValue::Text("a".to_string()));
    grid.set_value(2, 0, CellValue::Number(0));
    grid.set_value(2, 1, CellValue::Text("z".to_string()));

    grid.add_sort_column(0, true);
    grid.add_sort_column(1, true);
    assert_eq!(grid.get_value_string(0, 1), "z");
    assert_eq!(grid.get_value_string(1, 1), "a");
    assert_eq!(grid.get_value_string(2, 1), "b");
}

#[test]
fn column_letters_follow_spreadsheet_order() {
    assert_eq!(Grid::get_col_name(0), "A");
    assert_eq!(Grid::get_col_name(25), "Z");
    assert_eq!(Grid::get_col_name(26), "AA");
    assert_eq!(Grid::column_index_to_letter(27), "AB");
}

#[test]
fn filters_hide_failing_rows() {
    let mut grid = Grid::new(3, 1);
    grid.set_value(0, 0, CellValue::Text("keep".to_string()));
    // Row 1 stays empty.
    grid.set_value(2, 0, CellValue::Text("keep".to_string()));
    let mut dg = datagrid::widget::DataGrid::new(3, 1, 100, 100);
    dg.set_cell_value(0, 0, "keep");
    dg.set_cell_value(2, 0, "keep");
    dg.filter_column_show_non_empty(0);
    assert!(!dg.is_row_filtered(0));
    assert!(dg.is_row_filtered(1));
    assert!(!dg.is_row_filtered(2));
}

#[test]
fn resize_discards_outside_cells() {
    let mut grid = Grid::new(4, 4);
    grid.set_value(3, 3, CellValue::Number(7));
    grid.set_value(0, 0, CellValue::Number(8));
    grid.resize(2, 2);
    assert_eq!(grid.row_count(), 2);
    assert_eq!(grid.col_count(), 2);
    assert_eq!(grid.get_value_string(0, 0), "8");
    grid.resize(4, 4);
    assert_eq!(grid.get_value_string(3, 3), "");
}

#[test]
fn viewport_visible_range_follows_scroll() {
    let grid = Grid::new(100, 10);
    let mut vp = Viewport::new(200, 100);
    vp.set_scroll(0, 250, &grid);
    vp.update_visible_range(&grid);
    // Rows are 25 px tall: row 10 starts exactly at 250.
    assert_eq!(vp.first_visible_row, 10);
    assert_eq!(vp.last_visible_row, 15);
    assert_eq!(vp.visible_row_count(), 6);
}

#[test]
fn canvas_to_cell_accounts_for_headers_and_scroll() {
    let grid = Grid::new(10, 10);
    let vp = Viewport::new(400, 300);
    // Headers: 60 wide, 30 tall; cells 100 x 25.
    assert_eq!(vp.canvas_to_cell(61, 31, &grid), Some((0, 0)));
    assert_eq!(vp.canvas_to_cell(161, 56, &grid), Some((1, 1)));
    assert_eq!(vp.canvas_to_cell(10, 10, &grid), None);
}

#[test]
fn error_messages_name_the_position() {
    let e = datagrid::error::GridError::OutOfBounds { row: 2, col: 7 };
    assert_eq!(e.message(), "cell (2, 7) is out of bounds");
    let p = datagrid::error::GridError::PasteFailed { reason: "no anchor".to_string() };
    assert_eq!(p.message(), "paste failed: no anchor");
}
