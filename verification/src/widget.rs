//! The grid widget: one owner for the grid, viewport, selection, search,
//! edit log, and editing state, with the mutation entry points a host
//! calls.
//!
//! Each primary mutation records one invertible entry and clears the redo
//! stack; geometry-affecting calls recompute the visible range.  Pointer
//! and key events arrive as plain coordinates and key names.

use vstd::prelude::*;
use vstd::string::*;
use crate::grid::{
    Grid, GridView, value_at, cell_at, sum_prefix, is_row_perm, upsert_sort, MAX_DIM,
};
use crate::values::{Cell, CellValue, CellView, CellStyle, ValueView, value_text, value_cmp};
use crate::viewport::{Viewport, range_derived, clamp_scroll};
use crate::selection::{SelectionState, SelectionView, clipped_rect};
use crate::search::{
    SearchState, SearchView, search_outcome, regex_outcome, typed_replacement,
    put_all_m, lower_of, replace_sel_m,
};
use crate::undo::{
    UndoRedoState, EditAction, apply_undo, apply_redo, viewport_after, set_value_m,
    insert_row_m, delete_row_m, insert_col_m, delete_col_m,
};
use crate::clipboard::{
    ClipboardOps, is_min_row, is_max_row, is_min_col, is_max_col, tsv_block,
    paste_block_m, paste_lines_of, clear_positions_m,
};
use crate::keyboard::{KeyboardHandler, NavigationCommand, key_command, key_command_ctrl};
use crate::text::{chars_of, parse_int_chars, Ord3};

verus! {

/// The position a navigation command moves the active cell to, if any.
pub open spec fn nav_target(
    rows: int,
    cols: int,
    page: int,
    cur: Option<(int, int)>,
    cmd: NavigationCommand,
) -> Option<(int, int)> {
    match cmd {
        NavigationCommand::MoveUp => match cur {
            Some(p) => if p.0 > 0 { Some((p.0 - 1, p.1)) } else { None },
            None => None,
        },
        NavigationCommand::MoveDown => match cur {
            Some(p) => if p.0 < rows - 1 { Some((p.0 + 1, p.1)) } else { None },
            None => None,
        },
        NavigationCommand::MoveLeft => match cur {
            Some(p) => if p.1 > 0 { Some((p.0, p.1 - 1)) } else { None },
            None => None,
        },
        NavigationCommand::MoveRight => match cur {
            Some(p) => if p.1 < cols - 1 { Some((p.0, p.1 + 1)) } else { None },
            None => None,
        },
        NavigationCommand::PageUp => match cur {
            Some(p) => Some((if p.0 >= page { p.0 - page } else { 0 }, p.1)),
            None => None,
        },
        NavigationCommand::PageDown => match cur {
            Some(p) => Some((if p.0 + page < rows - 1 { p.0 + page } else { rows - 1 }, p.1)),
            None => None,
        },
        NavigationCommand::Home => match cur {
            Some(p) => Some((p.0, 0)),
            None => None,
        },
        NavigationCommand::End => match cur {
            Some(p) => Some((p.0, cols - 1)),
            None => None,
        },
        NavigationCommand::DocumentStart => Some((0, 0)),
        NavigationCommand::DocumentEnd => Some((rows - 1, cols - 1)),
        _ => None,
    }
}

/// The interactive data grid: the engine state a host drives.
pub struct DataGrid {
    grid: Grid,
    viewport: Viewport,
    selection: SelectionState,
    search: SearchState,
    undo_redo: UndoRedoState,
    editing: crate::editing::EditingState,
    keyboard_handler: KeyboardHandler,
    active_cell: Option<(usize, usize)>,
}

impl DataGrid {
    /// The widget's invariant: every component is well formed, the grid
    /// keeps at least one row and column, and the active cell and anchor
    /// stay inside the largest possible dimensions.
    pub closed spec fn wf(&self) -> bool {
        &&& self.grid.wf()
        &&& self.viewport.wf()
        &&& self.selection.wf()
        &&& self.search.wf()
        &&& self.grid@.rows >= 1
        &&& self.grid@.cols >= 1
        &&& match self.active_cell {
            Some(p) => p.0 <= MAX_DIM && p.1 <= MAX_DIM,
            None => true,
        }
        &&& match self.selection@.anchor {
            Some(a) => a.0 <= MAX_DIM as int && a.1 <= MAX_DIM as int,
            None => true,
        }
    }

    /// The grid model.
    pub closed spec fn grid_v(&self) -> GridView {
        self.grid@
    }

    /// The viewport state.
    pub closed spec fn vp(&self) -> Viewport {
        self.viewport
    }

    /// The selection model.
    pub closed spec fn sel(&self) -> SelectionView {
        self.selection@
    }

    /// The search model.
    pub closed spec fn search_v(&self) -> SearchView {
        self.search@
    }

    /// The search component itself, for cursor-step statements.
    pub closed spec fn search_state(&self) -> SearchState {
        self.search
    }

    /// The undo stack, newest entry last.
    pub closed spec fn undo_v(&self) -> Seq<EditAction> {
        self.undo_redo@.undo
    }

    /// The redo stack, newest entry last.
    pub closed spec fn redo_v(&self) -> Seq<EditAction> {
        self.undo_redo@.redo
    }

    /// The active (focus) cell.
    pub closed spec fn active(&self) -> Option<(int, int)> {
        match self.active_cell {
            Some(p) => Some((p.0 as int, p.1 as int)),
            None => None,
        }
    }

    /// A fresh widget over an empty grid of the given dimensions, with the
    /// given canvas size.
    pub fn new(rows: usize, cols: usize, canvas_width: u32, canvas_height: u32)
        -> (r: DataGrid)
        requires
            1 <= rows <= MAX_DIM,
            1 <= cols <= MAX_DIM,
        ensures
            r.wf(),
            r.grid_v().rows == rows as int,
            r.grid_v().cols == cols as int,
            r.grid_v().cells == Map::<(int, int), CellView>::empty(),
            r.vp().canvas_width == canvas_width,
            r.vp().canvas_height == canvas_height,
            r.sel().cells == Set::<(int, int)>::empty(),
            r.undo_v().len() == 0,
            r.redo_v().len() == 0,
            r.active() is None,
    {
        let grid = Grid::new(rows, cols);
        let mut viewport = Viewport::new(canvas_width, canvas_height);
        viewport.update_visible_range(&grid);
        DataGrid {
            grid,
            viewport,
            selection: SelectionState::new(),
            search: SearchState::new(),
            undo_redo: UndoRedoState::new(),
            editing: crate::editing::EditingState::new(),
            keyboard_handler: KeyboardHandler::new(),
            active_cell: None,
        }
    }

    /// Number of rows.
    pub fn row_count(&self) -> (r: usize)
        ensures
            r as int == self.grid_v().rows,
    {
        self.grid.row_count()
    }

    /// Number of columns.
    pub fn col_count(&self) -> (r: usize)
        ensures
            r as int == self.grid_v().cols,
    {
        self.grid.col_count()
    }

    /// Both dimensions, rows first.
    pub fn get_dimensions(&self) -> (r: (usize, usize))
        ensures
            r.0 as int == self.grid_v().rows,
            r.1 as int == self.grid_v().cols,
    {
        (self.grid.row_count(), self.grid.col_count())
    }

    /// The text a position displays as.
    pub fn get_cell_value(&self, row: usize, col: usize) -> (r: String)
        requires
            self.wf(),
        ensures
            r@ == value_text(value_at(self.grid_v(), row as int, col as int)),
    {
        self.grid.get_value_string(row, col)
    }

    /// Writes a value typed from text (a number when it parses as one,
    /// else text).  When the value actually changes, the cell is marked
    /// modified and one undo entry is recorded; otherwise nothing happens.
    pub fn set_cell_value(&mut self, row: usize, col: usize, value: &str) -> (changed: bool)
        requires
            old(self).wf(),
        ensures
            final(self).wf(),
            ({
                let ov = value_at(old(self).grid_v(), row as int, col as int);
                let nv = typed_replacement(value@);
                if ov == nv {
                    &&& !changed
                    &&& *final(self) == *old(self)
                } else {
                    &&& changed
                    &&& final(self).grid_v() == mark_modified_m(
                        set_value_m(old(self).grid_v(), row as int, col as int, nv),
                        row as int,
                        col as int,
                    )
                    &&& final(self).undo_v().len() == old(self).undo_v().len() + 1
                    &&& (final(self).undo_v().last() matches EditAction::SetValue {
                        row: ar, col: ac, old_value, new_value,
                    } && ar == row && ac == col && old_value@ == ov && new_value@ == nv)
                    &&& final(self).undo_v().drop_last() == old(self).undo_v()
                    &&& final(self).redo_v().len() == 0
                    &&& final(self).vp() == old(self).vp()
                    &&& final(self).sel() == old(self).sel()
                }
            }),
    {
        let old_value = self.grid.get_value(row, col);
        let cs = chars_of(value);
        let new_value = match parse_int_chars(&cs) {
            Some(n) => CellValue::Number(n),
            None => CellValue::Text(value.to_owned()),
        };
        if old_value.eq(&new_value) {
            return false;
        }
        let nv_copy = new_value.duplicate();
        proof {
            old(self).grid.wf_bounds();
            assert(new_value@ == typed_replacement(value@));
        }
        self.grid.set_value(row, col, new_value);
        self.grid.set_modified(row, col, true);
        proof {
            if !(row < old(self).grid_v().rows && col < old(self).grid_v().cols) {
                assert(!old(self).grid_v().cells.dom().contains((row as int, col as int)));
            }
            assert(self.grid@ == mark_modified_m(
                set_value_m(old(self).grid_v(), row as int, col as int,
                    typed_replacement(value@)),
                row as int,
                col as int,
            ));
        }
        self.undo_redo.record_action(EditAction::SetValue {
            row,
            col,
            old_value,
            new_value: nv_copy,
        });
        true
    }

    /// Writes a raw value without recording an undo entry, as bulk
    /// loading does; silently rejected outside the bounds.
    pub fn set_value(&mut self, row: usize, col: usize, value: CellValue)
        requires
            old(self).wf(),
        ensures
            final(self).wf(),
            final(self).grid_v() == set_value_m(
                old(self).grid_v(), row as int, col as int, value@),
    {
        self.grid.set_value(row, col, value);
    }

    /// The raw value at a position; empty where nothing is stored.
    pub fn get_value(&self, row: usize, col: usize) -> (r: CellValue)
        requires
            self.wf(),
        ensures
            r@ == value_at(self.grid_v(), row as int, col as int),
    {
        self.grid.get_value(row, col)
    }

    /// Undoes the newest entry; see [`UndoRedoState::undo`].
    pub fn undo(&mut self) -> (r: bool)
        requires
            old(self).wf(),
        ensures
            final(self).wf(),
            old(self).undo_v().len() == 0 ==> !r && final(self).grid_v() == old(self).grid_v()
                && final(self).undo_v() == old(self).undo_v()
                && final(self).redo_v() == old(self).redo_v(),
            old(self).undo_v().len() > 0 ==> {
                let a = old(self).undo_v().last();
                &&& r
                &&& final(self).undo_v() == old(self).undo_v().drop_last()
                &&& final(self).redo_v() == old(self).redo_v().push(a)
                &&& final(self).grid_v() == apply_undo(a, old(self).grid_v())
                &&& viewport_after(a, old(self).vp(), final(self).vp(), final(self).grid_v())
            },
    {
        let r = self.undo_redo.undo(&mut self.grid, &mut self.viewport);
        proof { lemma_apply_undo_keeps_dims(old(self).undo_v(), old(self).grid_v()); }
        r
    }

    /// Redoes the newest undone entry; see [`UndoRedoState::redo`].
    pub fn redo(&mut self) -> (r: bool)
        requires
            old(self).wf(),
        ensures
            final(self).wf(),
            old(self).redo_v().len() == 0 ==> !r && final(self).grid_v() == old(self).grid_v()
                && final(self).undo_v() == old(self).undo_v()
                && final(self).redo_v() == old(self).redo_v(),
            old(self).redo_v().len() > 0 ==> {
                let a = old(self).redo_v().last();
                &&& r
                &&& final(self).redo_v() == old(self).redo_v().drop_last()
                &&& final(self).undo_v() == old(self).undo_v().push(a)
                &&& final(self).grid_v() == apply_redo(a, old(self).grid_v())
                &&& viewport_after(a, old(self).vp(), final(self).vp(), final(self).grid_v())
            },
    {
        let r = self.undo_redo.redo(&mut self.grid, &mut self.viewport);
        proof { lemma_apply_redo_keeps_dims(old(self).redo_v(), old(self).grid_v()); }
        r
    }

    /// Whether an undo is available.
    pub fn can_undo(&self) -> (r: bool)
        ensures
            r == (self.undo_v().len() > 0),
    {
        self.undo_redo.undo_len() > 0
    }

    /// Whether a redo is available.
    pub fn can_redo(&self) -> (r: bool)
        ensures
            r == (self.redo_v().len() > 0),
    {
        self.undo_redo.redo_len() > 0
    }

    /// Number of undoable entries.
    pub fn get_undo_count(&self) -> (r: usize)
        ensures
            r == self.undo_v().len(),
    {
        self.undo_redo.undo_len()
    }

    /// Number of redoable entries.
    pub fn get_redo_count(&self) -> (r: usize)
        ensures
            r == self.redo_v().len(),
    {
        self.undo_redo.redo_len()
    }
}

/// The grid with the cell at the position marked modified, where stored.
pub open spec fn mark_modified_m(g: GridView, r: int, c: int) -> GridView {
    if g.cells.dom().contains((r, c)) {
        GridView {
            cells: g.cells.insert((r, c), CellView { modified: true, ..g.cells[(r, c)] }),
            ..g
        }
    } else {
        g
    }
}

/// Replaying an entry backwards never drops the grid to zero rows or
/// columns and never exceeds the dimension cap.
proof fn lemma_apply_undo_keeps_dims(stack: Seq<EditAction>, g: GridView)
    requires
        g.rows >= 1,
        g.cols >= 1,
    ensures
        stack.len() > 0 ==> apply_undo(stack.last(), g).rows >= 1
            && apply_undo(stack.last(), g).cols >= 1,
{
    if stack.len() > 0 {
        lemma_apply_action_dims_undo(stack.last(), g);
    }
}

proof fn lemma_apply_redo_keeps_dims(stack: Seq<EditAction>, g: GridView)
    requires
        g.rows >= 1,
        g.cols >= 1,
    ensures
        stack.len() > 0 ==> apply_redo(stack.last(), g).rows >= 1
            && apply_redo(stack.last(), g).cols >= 1,
{
    if stack.len() > 0 {
        lemma_apply_action_dims_redo(stack.last(), g);
    }
}

proof fn lemma_apply_action_dims_undo(a: EditAction, g: GridView)
    requires
        g.rows >= 1,
        g.cols >= 1,
    ensures
        apply_undo(a, g).rows >= 1,
        apply_undo(a, g).cols >= 1,
{
    match a {
        EditAction::DeleteRows { rows } => {
            lemma_undo_rows_dims(rows@, g);
        },
        EditAction::ClearCells { cells } => {
            lemma_put_values_dims(cells@, g);
        },
        EditAction::SetMultipleCells { cells } => {
            lemma_put_changes_dims(cells@, g, false);
        },
        _ => (),
    }
}

proof fn lemma_apply_action_dims_redo(a: EditAction, g: GridView)
    requires
        g.rows >= 1,
        g.cols >= 1,
    ensures
        apply_redo(a, g).rows >= 1,
        apply_redo(a, g).cols >= 1,
{
    match a {
        EditAction::DeleteRows { rows } => {
            lemma_sweep_dims(rows@, g, g.rows as nat);
        },
        EditAction::ClearCells { cells } => {
            lemma_clear_values_dims(cells@, g);
        },
        EditAction::SetMultipleCells { cells } => {
            lemma_put_changes_dims(cells@, g, true);
        },
        _ => (),
    }
}

proof fn lemma_undo_rows_dims(list: Seq<(usize, Vec<(usize, Cell)>)>, g: GridView)
    requires
        g.rows >= 1,
        g.cols >= 1,
    ensures
        crate::undo::undo_rows_m(list, g).rows >= 1,
        crate::undo::undo_rows_m(list, g).cols >= 1,
    decreases list.len(),
{
    if list.len() > 0 {
        lemma_undo_rows_dims(
            list.drop_last(),
            crate::undo::restore_row_m(
                insert_row_m(g, list.last().0 as int),
                list.last().0 as int,
                list.last().1@,
            ),
        );
    }
}

proof fn lemma_sweep_dims(list: Seq<(usize, Vec<(usize, Cell)>)>, g: GridView, k: nat)
    requires
        g.rows >= 1,
        g.cols >= 1,
    ensures
        crate::undo::sweep_delete_m(list, g, k).rows >= 1,
        crate::undo::sweep_delete_m(list, g, k).cols >= 1,
    decreases k,
{
    if k > 0 {
        let g2 = if crate::undo::has_index(list, k - 1) { delete_row_m(g, k - 1) } else { g };
        lemma_sweep_dims(list, g2, (k - 1) as nat);
    }
}

proof fn lemma_put_values_dims(list: Seq<(usize, usize, CellValue)>, g: GridView)
    requires
        g.rows >= 1,
        g.cols >= 1,
    ensures
        crate::undo::put_values_m(list, g).rows >= 1,
        crate::undo::put_values_m(list, g).cols >= 1,
    decreases list.len(),
{
    if list.len() > 0 {
        lemma_put_values_dims(
            list.subrange(1, list.len() as int),
            set_value_m(g, list[0].0 as int, list[0].1 as int, list[0].2@),
        );
    }
}

proof fn lemma_clear_values_dims(list: Seq<(usize, usize, CellValue)>, g: GridView)
    requires
        g.rows >= 1,
        g.cols >= 1,
    ensures
        crate::undo::clear_values_m(list, g).rows >= 1,
        crate::undo::clear_values_m(list, g).cols >= 1,
    decreases list.len(),
{
    if list.len() > 0 {
        lemma_clear_values_dims(
            list.subrange(1, list.len() as int),
            set_value_m(g, list[0].0 as int, list[0].1 as int, ValueView::Empty),
        );
    }
}

proof fn lemma_put_changes_dims(
    list: Seq<(usize, usize, CellValue, CellValue)>,
    g: GridView,
    use_new: bool,
)
    requires
        g.rows >= 1,
        g.cols >= 1,
    ensures
        crate::undo::put_changes_m(list, g, use_new).rows >= 1,
        crate::undo::put_changes_m(list, g, use_new).cols >= 1,
    decreases list.len(),
{
    if list.len() > 0 {
        lemma_put_changes_dims(
            list.subrange(1, list.len() as int),
            set_value_m(
                g,
                list[0].0 as int,
                list[0].1 as int,
                if use_new { list[0].3@ } else { list[0].2@ },
            ),
            use_new,
        );
    }
}

/// Number of records whose position is inside the bounds.
pub open spec fn count_in_bounds(list: Seq<(usize, usize, CellValue)>, rows: int, cols: int) -> int
    decreases list.len(),
{
    if list.len() == 0 {
        0
    } else {
        count_in_bounds(list.subrange(1, list.len() as int), rows, cols)
            + if (list[0].0 as int) < rows && (list[0].1 as int) < cols { 1int } else { 0 }
    }
}

/// Deletes every listed row index, sweeping from the bottom.
pub open spec fn sweep_delete_idx(idx: Seq<usize>, g: GridView, k: nat) -> GridView
    decreases k,
{
    if k == 0 {
        g
    } else {
        let g2 = if idx.contains((k - 1) as usize) { delete_row_m(g, k - 1) } else { g };
        sweep_delete_idx(idx, g2, (k - 1) as nat)
    }
}

impl DataGrid {
    /// Inserts a row, records the entry that will delete it again, clears
    /// the selection, and recomputes the visible range.
    pub fn insert_row(&mut self, at_index: usize)
        requires
            old(self).wf(),
        ensures
            final(self).wf(),
            final(self).grid_v() == insert_row_m(old(self).grid_v(), at_index as int),
            final(self).undo_v().len() == old(self).undo_v().len() + 1,
            (final(self).undo_v().last() matches EditAction::InsertRow { index, cells }
                && index == at_index && cells@.len() == 0),
            final(self).undo_v().drop_last() == old(self).undo_v(),
            final(self).redo_v().len() == 0,
            final(self).sel().cells == Set::<(int, int)>::empty(),
            range_derived(final(self).grid_v().heights, final(self).vp().scroll_y as int,
                final(self).vp().canvas_height as int,
                final(self).vp().first_visible_row as int,
                final(self).vp().last_visible_row as int),
    {
        self.undo_redo.record_action(EditAction::InsertRow { index: at_index, cells: Vec::new() });
        self.grid.insert_row(at_index);
        self.selection.clear_selection();
        self.viewport.update_visible_range(&self.grid);
    }

    /// Deletes a row after saving its content, records the entry that will
    /// restore it, clears the selection, and recomputes the visible range.
    pub fn delete_row(&mut self, index: usize)
        requires
            old(self).wf(),
        ensures
            final(self).wf(),
            final(self).grid_v() == delete_row_m(old(self).grid_v(), index as int),
            final(self).undo_v().len() == old(self).undo_v().len() + 1,
            (final(self).undo_v().last() matches EditAction::DeleteRow { index: i, cells }
                && i == index
                && crate::store::map_of_row_pairs(cells@, index as int)
                    == crate::store::restrict_row(old(self).grid_v().cells, index as int)),
            final(self).undo_v().drop_last() == old(self).undo_v(),
            final(self).redo_v().len() == 0,
            final(self).sel().cells == Set::<(int, int)>::empty(),
            range_derived(final(self).grid_v().heights, final(self).vp().scroll_y as int,
                final(self).vp().canvas_height as int,
                final(self).vp().first_visible_row as int,
                final(self).vp().last_visible_row as int),
    {
        let cells = self.grid.get_row_cells(index);
        self.undo_redo.record_action(EditAction::DeleteRow { index, cells });
        self.grid.delete_row(index);
        self.selection.clear_selection();
        self.viewport.update_visible_range(&self.grid);
    }

    /// Inserts a column; the mirror image of [`DataGrid::insert_row`].
    pub fn insert_column(&mut self, at_index: usize)
        requires
            old(self).wf(),
        ensures
            final(self).wf(),
            final(self).grid_v() == insert_col_m(old(self).grid_v(), at_index as int),
            final(self).undo_v().len() == old(self).undo_v().len() + 1,
            (final(self).undo_v().last() matches EditAction::InsertColumn { index, cells }
                && index == at_index && cells@.len() == 0),
            final(self).undo_v().drop_last() == old(self).undo_v(),
            final(self).redo_v().len() == 0,
            final(self).sel().cells == Set::<(int, int)>::empty(),
    {
        self.undo_redo.record_action(
            EditAction::InsertColumn { index: at_index, cells: Vec::new() });
        self.grid.insert_column(at_index);
        self.selection.clear_selection();
        self.viewport.update_visible_range(&self.grid);
    }

    /// Deletes a column; the mirror image of [`DataGrid::delete_row`].
    pub fn delete_column(&mut self, index: usize)
        requires
            old(self).wf(),
        ensures
            final(self).wf(),
            final(self).grid_v() == delete_col_m(old(self).grid_v(), index as int),
            final(self).undo_v().len() == old(self).undo_v().len() + 1,
            (final(self).undo_v().last() matches EditAction::DeleteColumn { index: i, cells }
                && i == index
                && crate::store::map_of_col_pairs(cells@, index as int)
                    == crate::store::restrict_col(old(self).grid_v().cells, index as int)),
            final(self).undo_v().drop_last() == old(self).undo_v(),
            final(self).redo_v().len() == 0,
            final(self).sel().cells == Set::<(int, int)>::empty(),
    {
        let cells = self.grid.get_column_cells(index);
        self.undo_redo.record_action(EditAction::DeleteColumn { index, cells });
        self.grid.delete_column(index);
        self.selection.clear_selection();
        self.viewport.update_visible_range(&self.grid);
    }

    /// Deletes every listed row, bottom-most first, as one undoable batch.
    pub fn delete_rows(&mut self, indices: &Vec<usize>)
        requires
            old(self).wf(),
        ensures
            final(self).wf(),
            final(self).grid_v() == sweep_delete_idx(
                indices@, old(self).grid_v(), old(self).grid_v().rows as nat),
            indices@.len() > 0 ==> {
                &&& final(self).undo_v().len() == old(self).undo_v().len() + 1
                &&& (final(self).undo_v().last() matches EditAction::DeleteRows { .. })
                &&& final(self).redo_v().len() == 0
            },
            indices@.len() == 0 ==> final(self).undo_v() == old(self).undo_v()
                && final(self).redo_v() == old(self).redo_v(),
            final(self).sel().cells == Set::<(int, int)>::empty()
                || indices@.len() == 0 && final(self).sel() == old(self).sel(),
    {
        if indices.len() == 0 {
            proof {
                lemma_sweep_idx_noop(indices@, old(self).grid_v(),
                    old(self).grid_v().rows as nat);
            }
            return;
        }
        let rows0: usize = self.grid.row_count();
        let mut deleted: Vec<(usize, Vec<(usize, Cell)>)> = Vec::new();
        let mut k: usize = rows0;
        while k > 0
            invariant
                0 <= k <= rows0,
                self.grid.wf(),
                self.grid@.rows >= 1,
                self.grid@.cols >= 1,
                *self == (DataGrid { grid: self.grid, ..*old(self) }),
                sweep_delete_idx(indices@, old(self).grid_v(), rows0 as nat)
                    == sweep_delete_idx(indices@, self.grid@, k as nat),
            decreases k,
        {
            let hit = contains_index(indices, k - 1);
            if hit {
                let cells = self.grid.get_row_cells(k - 1);
                deleted.push((k - 1, cells));
                self.grid.delete_row(k - 1);
            }
            k = k - 1;
        }
        self.undo_redo.record_action(EditAction::DeleteRows { rows: deleted });
        self.selection.clear_selection();
        self.viewport.update_visible_range(&self.grid);
    }

    // -----------------------------------------------------------------------
    // Selection
    // -----------------------------------------------------------------------

    /// Selects one position, anchors there, and makes it active.
    pub fn select_cell(&mut self, row: usize, col: usize)
        requires
            old(self).wf(),
            row <= MAX_DIM,
            col <= MAX_DIM,
        ensures
            final(self).wf(),
            final(self).sel().cells
                == Set::<(int, int)>::empty().insert((row as int, col as int)),
            final(self).sel().anchor == Some((row as int, col as int)),
            final(self).active() == Some((row as int, col as int)),
            final(self).grid_v() == old(self).grid_v(),
    {
        self.selection.select_single_cell(row, col);
        self.active_cell = Some((row, col));
    }

    /// Selects one position and anchors there.
    pub fn select_single_cell(&mut self, row: usize, col: usize)
        requires
            old(self).wf(),
            row <= MAX_DIM,
            col <= MAX_DIM,
        ensures
            final(self).wf(),
            final(self).sel().cells
                == Set::<(int, int)>::empty().insert((row as int, col as int)),
            final(self).sel().anchor == Some((row as int, col as int)),
            final(self).grid_v() == old(self).grid_v(),
    {
        self.selection.select_single_cell(row, col);
    }

    /// Adds or removes one position from the selection.
    pub fn toggle_cell_selection(&mut self, row: usize, col: usize)
        requires
            old(self).wf(),
            row <= MAX_DIM,
            col <= MAX_DIM,
        ensures
            final(self).wf(),
            old(self).sel().cells.contains((row as int, col as int))
                ==> final(self).sel().cells
                    == old(self).sel().cells.remove((row as int, col as int)),
            !old(self).sel().cells.contains((row as int, col as int))
                ==> final(self).sel().cells
                    == old(self).sel().cells.insert((row as int, col as int)),
            final(self).grid_v() == old(self).grid_v(),
    {
        self.selection.toggle_cell_selection(row, col);
    }

    /// Extends the selection to the rectangle between the anchor and the
    /// target, clipped to the bounds.
    pub fn select_range(&mut self, target_row: usize, target_col: usize)
        requires
            old(self).wf(),
            target_row <= MAX_DIM,
            target_col <= MAX_DIM,
        ensures
            final(self).wf(),
            match old(self).sel().anchor {
                Some(a) => final(self).sel().cells == clipped_rect(
                    a,
                    (target_row as int, target_col as int),
                    old(self).grid_v().rows,
                    old(self).grid_v().cols,
                ) && final(self).sel().anchor == old(self).sel().anchor,
                None => final(self).sel().cells
                    == Set::<(int, int)>::empty().insert(
                        (target_row as int, target_col as int))
                    && final(self).sel().anchor
                        == Some((target_row as int, target_col as int)),
            },
            final(self).grid_v() == old(self).grid_v(),
    {
        proof { old(self).grid.wf_bounds(); }
        let rows = self.grid.row_count();
        let cols = self.grid.col_count();
        self.selection.select_range(target_row, target_col, rows, cols);
    }

    /// Selects every position and anchors at the origin.
    pub fn select_all(&mut self)
        requires
            old(self).wf(),
        ensures
            final(self).wf(),
            final(self).sel().cells == Set::new(|p: (int, int)|
                0 <= p.0 < old(self).grid_v().rows && 0 <= p.1 < old(self).grid_v().cols),
            final(self).sel().anchor == Some((0int, 0int)),
    {
        proof { old(self).grid.wf_bounds(); }
        let rows = self.grid.row_count();
        let cols = self.grid.col_count();
        self.selection.select_all(rows, cols);
    }

    /// Selects one whole row.
    pub fn select_row(&mut self, row: usize)
        requires
            old(self).wf(),
        ensures
            final(self).wf(),
            (row as int) < old(self).grid_v().rows ==> {
                &&& final(self).sel().cells == Set::new(|p: (int, int)|
                    p.0 == row as int && 0 <= p.1 < old(self).grid_v().cols)
                &&& final(self).sel().anchor == Some((row as int, 0int))
            },
            (row as int) >= old(self).grid_v().rows ==> final(self).sel() == old(self).sel(),
    {
        proof { old(self).grid.wf_bounds(); }
        let rows = self.grid.row_count();
        let cols = self.grid.col_count();
        self.selection.select_row(row, rows, cols);
    }

    /// Selects one whole column.
    pub fn select_col(&mut self, col: usize)
        requires
            old(self).wf(),
        ensures
            final(self).wf(),
            (col as int) < old(self).grid_v().cols ==> {
                &&& final(self).sel().cells == Set::new(|p: (int, int)|
                    0 <= p.0 < old(self).grid_v().rows && p.1 == col as int)
                &&& final(self).sel().anchor == Some((0int, col as int))
            },
            (col as int) >= old(self).grid_v().cols ==> final(self).sel() == old(self).sel(),
    {
        proof { old(self).grid.wf_bounds(); }
        let rows = self.grid.row_count();
        let cols = self.grid.col_count();
        self.selection.select_col(col, rows, cols);
    }

    /// Empties the selection.
    pub fn clear_selection(&mut self)
        requires
            old(self).wf(),
        ensures
            final(self).wf(),
            final(self).sel().cells == Set::<(int, int)>::empty(),
    {
        self.selection.clear_selection();
    }

    /// Whether a position is selected.
    pub fn is_selected(&self, row: usize, col: usize) -> (r: bool)
        ensures
            r == self.sel().cells.contains((row as int, col as int)),
    {
        self.selection.is_selected(row, col)
    }

    /// The selected positions, without duplicates.
    pub fn get_selected_cells(&self) -> (r: Vec<(usize, usize)>)
        requires
            self.wf(),
        ensures
            r@.no_duplicates(),
            r@.map_values(|p: (usize, usize)| (p.0 as int, p.1 as int)).to_set()
                == self.sel().cells,
    {
        self.selection.get_selected_cells()
    }

    /// Number of selected positions.
    pub fn get_selection_count(&self) -> (r: usize)
        requires
            self.wf(),
        ensures
            r as int == self.sel().cells.len(),
    {
        self.selection.get_selection_count()
    }

    // -----------------------------------------------------------------------
    // Clipboard
    // -----------------------------------------------------------------------

    /// Serializes the selection's bounding rectangle; see
    /// [`ClipboardOps::copy_selected_cells`].
    pub fn copy_selected_cells(&self) -> (out: String)
        requires
            self.wf(),
        ensures
            self.sel().cells == Set::<(int, int)>::empty()
                ==> out@ == Seq::<char>::empty(),
            self.sel().cells != Set::<(int, int)>::empty()
                ==> exists|r0: int, r1: int, c0: int, c1: int| {
                    &&& #[trigger] is_min_row(self.sel().cells, r0)
                    &&& #[trigger] is_max_row(self.sel().cells, r1)
                    &&& #[trigger] is_min_col(self.sel().cells, c0)
                    &&& #[trigger] is_max_col(self.sel().cells, c1)
                    &&& out@ == tsv_block(self.grid_v(), self.sel().cells, r0, r1, c0, c1)
                },
    {
        let selected = self.selection.get_selected_cells();
        proof {
            if selected@.len() == 0 {
                assert(selected@.map_values(
                    |p: (usize, usize)| (p.0 as int, p.1 as int)).to_set()
                    =~= Set::<(int, int)>::empty());
            } else {
                let m = selected@.map_values(|p: (usize, usize)| (p.0 as int, p.1 as int));
                assert(m.to_set().contains(m[0]));
            }
        }
        ClipboardOps::copy_selected_cells(&selected, &self.grid)
    }

    /// Pastes text at the anchor (or the row-major first selected
    /// position): tokens are typed, out-of-bounds writes fall away, and
    /// every written cell goes into one undoable batch entry.
    pub fn paste_cells(&mut self, tsv_text: &String) -> (res: Result<(), String>)
        requires
            old(self).wf(),
        ensures
            final(self).wf(),
            tsv_text@.len() == 0 ==> res is Ok && final(self).grid_v() == old(self).grid_v()
                && final(self).undo_v() == old(self).undo_v(),
            tsv_text@.len() > 0 && old(self).sel().anchor is None
                && old(self).sel().cells == Set::<(int, int)>::empty()
                ==> res is Err && final(self).grid_v() == old(self).grid_v()
                    && final(self).undo_v() == old(self).undo_v(),
            tsv_text@.len() > 0 && !(old(self).sel().anchor is None
                && old(self).sel().cells == Set::<(int, int)>::empty())
                ==> res is Ok && exists|origin: (int, int)| {
                    &&& #[trigger] paste_origin_ok(old(self).sel(), origin)
                    &&& final(self).grid_v() == paste_block_m(
                        paste_lines_of(tsv_text@), old(self).grid_v(), origin.0, origin.1)
                    &&& (final(self).undo_v() == old(self).undo_v()
                        || (final(self).undo_v().len() == old(self).undo_v().len() + 1
                            && (final(self).undo_v().last()
                                matches EditAction::SetMultipleCells { .. })
                            && final(self).undo_v().drop_last() == old(self).undo_v()
                            && final(self).redo_v().len() == 0))
                },
    {
        if tsv_text.as_str().is_empty() {
            return Ok(());
        }
        let anchor = self.selection.anchor();
        let selected = self.selection.get_selected_cells();
        let origin: (usize, usize) = match crate::clipboard::find_origin(anchor, &selected) {
            Some(o) => o,
            None => {
                proof {
                    reveal_strlit("no cell selected for paste");
                    assert(selected@.len() == 0);
                    assert(selected@.map_values(
                        |p: (usize, usize)| (p.0 as int, p.1 as int)).to_set()
                        =~= Set::<(int, int)>::empty());
                }
                return Err(String::from_str("no cell selected for paste"));
            },
        };
        proof {
            if anchor is None {
                crate::clipboard::lemma_row_major_min_props(selected@);
                let j = choose|j: int| 0 <= j < selected@.len()
                    && ((#[trigger] selected@[j]).0 as int, selected@[j].1 as int)
                        == crate::clipboard::row_major_min(selected@);
                let m = selected@.map_values(|p: (usize, usize)| (p.0 as int, p.1 as int));
                assert(m[j] == (origin.0 as int, origin.1 as int));
                assert(m.to_set().contains((origin.0 as int, origin.1 as int)));
                assert forall|q: (int, int)| old(self).sel().cells.contains(q)
                    implies (origin.0 as int) < q.0
                        || ((origin.0 as int) == q.0 && (origin.1 as int) <= q.1) by {
                    let x = choose|x: int| 0 <= x < m.len() && m[x] == q;
                    assert(selected@[x].0 as int == q.0 && selected@[x].1 as int == q.1);
                }
            }
            assert(paste_origin_ok(old(self).sel(), (origin.0 as int, origin.1 as int)));
        }
        // Split, then write token by token, capturing old and new values
        // for the undo entry.
        let raw = crate::clipboard::split_exec(tsv_text.as_str(), '\n');
        let mut lines = raw;
        let drop_last_piece = lines.len() > 0 && lines[lines.len() - 1].as_str().is_empty();
        if drop_last_piece {
            let _ = lines.pop();
        }
        let ghost lines_spec = paste_lines_of(tsv_text@);
        proof {
            let raw_spec = crate::clipboard::split_on(tsv_text@, '\n');
            crate::clipboard::lemma_split_nonempty(tsv_text@, '\n');
            let kept = if raw_spec.len() > 0 && raw_spec.last().len() == 0 {
                raw_spec.drop_last()
            } else {
                raw_spec
            };
            assert(lines@.len() == kept.len());
            assert(forall|x: int| 0 <= x < lines@.len()
                ==> (#[trigger] lines@[x])@ == kept[x]);
            assert(forall|x: int| 0 <= x < lines_spec.len()
                ==> #[trigger] lines_spec[x] == crate::clipboard::split_on(kept[x], '\t'));
        }
        let rows: usize = self.grid.row_count();
        let mut changed: Vec<(usize, usize, CellValue, CellValue)> = Vec::new();
        let nl: usize = lines.len();
        let mut i: usize = 0;
        proof { assert(lines_spec.skip(0) =~= lines_spec); }
        while i < nl
            invariant
                0 <= i <= nl,
                nl == lines@.len(),
                nl == lines_spec.len(),
                rows == self.grid@.rows,
                self.grid@.cols == old(self).grid_v().cols,
                rows == old(self).grid_v().rows,
                self.wf(),
                *self == (DataGrid { grid: self.grid, ..*old(self) }),
                forall|x: int| 0 <= x < nl
                    ==> #[trigger] lines_spec[x] == crate::clipboard::split_on(lines@[x]@, '\t'),
                paste_block_m(lines_spec, old(self).grid_v(), origin.0 as int, origin.1 as int)
                    == paste_block_m(lines_spec.skip(i as int), self.grid@,
                        origin.0 + i, origin.1 as int),
            decreases nl - i,
        {
            if origin.0 >= rows || i >= rows - origin.0 {
                proof {
                    crate::clipboard::lemma_paste_block_noop(
                        lines_spec.skip(i as int), self.grid@, origin.0 + i, origin.1 as int);
                }
                i = nl;
            } else {
                proof {
                    assert(lines_spec.skip(i as int).subrange(
                        1, lines_spec.skip(i as int).len() as int) =~= lines_spec.skip(i + 1));
                    assert(lines_spec.skip(i as int)[0] == lines_spec[i as int]);
                }
                let tokens = crate::clipboard::split_exec(lines[i].as_str(), '\t');
                proof {
                    assert(tokens@.map_values(|t: String| t@)
                        =~~= crate::clipboard::split_on(lines@[i as int]@, '\t'));
                }
                let ghost g_pre = self.grid@;
                self.paste_line_recorded(&tokens, origin.0 + i, origin.1, &mut changed);
                proof {
                    crate::clipboard::lemma_paste_line_frame(
                        tokens@.map_values(|t: String| t@), g_pre,
                        origin.0 + i, origin.1 as int);
                }
                i = i + 1;
            }
        }
        proof {
            assert(lines_spec.skip(nl as int) =~= Seq::<Seq<Seq<char>>>::empty());
        }
        if changed.len() > 0 {
            self.undo_redo.record_action(EditAction::SetMultipleCells { cells: changed });
        }
        Ok(())
    }

    /// Writes one pasted line, capturing each write for undo.
    fn paste_line_recorded(
        &mut self,
        tokens: &Vec<String>,
        r: usize,
        c0: usize,
        changed: &mut Vec<(usize, usize, CellValue, CellValue)>,
    )
        requires
            old(self).wf(),
        ensures
            final(self).wf(),
            final(self).grid_v() == crate::clipboard::paste_line_m(
                tokens@.map_values(|t: String| t@), old(self).grid_v(),
                r as int, c0 as int),
            *final(self) == (DataGrid { grid: final(self).grid, ..*old(self) }),
    {
        let ghost toks = tokens@.map_values(|t: String| t@);
        let cols: usize = self.grid.col_count();
        let n: usize = tokens.len();
        let mut j: usize = 0;
        proof { assert(toks.skip(0) =~= toks); }
        while j < n
            invariant
                0 <= j <= n,
                n == tokens@.len(),
                n == toks.len(),
                cols == self.grid@.cols,
                self.grid.wf(),
                *self == (DataGrid { grid: self.grid, ..*old(self) }),
                forall|x: int| 0 <= x < n ==> toks[x] == (#[trigger] tokens@[x])@,
                crate::clipboard::paste_line_m(toks, old(self).grid_v(), r as int, c0 as int)
                    == crate::clipboard::paste_line_m(
                        toks.skip(j as int), self.grid@, r as int, c0 + j),
            decreases n - j,
        {
            if c0 >= cols || j >= cols - c0 {
                proof {
                    crate::clipboard::lemma_paste_line_noop(
                        toks.skip(j as int), self.grid@, r as int, c0 + j);
                    crate::clipboard::lemma_paste_line_frame(
                        toks, old(self).grid_v(), r as int, c0 as int);
                }
                return;
            }
            proof {
                assert(toks.skip(j as int).subrange(
                    1, toks.skip(j as int).len() as int) =~= toks.skip(j + 1));
                assert(toks.skip(j as int)[0] == toks[j as int]);
            }
            let v = crate::clipboard::make_token_value(&tokens[j]);
            let ov = self.grid.get_value(r, c0 + j);
            changed.push((r, c0 + j, ov, v.duplicate()));
            self.grid.set_value(r, c0 + j, v);
            j = j + 1;
        }
        proof {
            assert(toks.skip(n as int) =~= Seq::<Seq<char>>::empty());
            crate::clipboard::lemma_paste_line_frame(
                toks, old(self).grid_v(), r as int, c0 as int);
        }
    }
}

/// The origin a paste may start at: the anchor, or the row-major least
/// selected position.
pub open spec fn paste_origin_ok(sel: SelectionView, origin: (int, int)) -> bool {
    match sel.anchor {
        Some(a) => origin == a,
        None => sel.cells.contains(origin)
            && forall|q: (int, int)| #[trigger] sel.cells.contains(q)
                ==> origin.0 < q.0 || (origin.0 == q.0 && origin.1 <= q.1),
    }
}

/// Whether the index list contains `r`; mirrors `Seq::contains`.
fn contains_index(indices: &Vec<usize>, r: usize) -> (hit: bool)
    ensures
        hit == indices@.contains(r),
{
    let n: usize = indices.len();
    let mut j: usize = 0;
    while j < n
        invariant
            0 <= j <= n,
            n == indices@.len(),
            forall|x: int| 0 <= x < j ==> indices@[x] != r,
        decreases n - j,
    {
        if indices[j] == r {
            assert(indices@[j as int] == r);
            return true;
        }
        j = j + 1;
    }
    false
}

proof fn lemma_sweep_idx_noop(idx: Seq<usize>, g: GridView, k: nat)
    requires
        idx.len() == 0,
    ensures
        sweep_delete_idx(idx, g, k) == g,
    decreases k,
{
    if k > 0 {
        assert(!idx.contains((k - 1) as usize));
        lemma_sweep_idx_noop(idx, g, (k - 1) as nat);
    }
}

impl DataGrid {
    /// Cuts the selection: serializes it, then clears every selected
    /// position; see [`ClipboardOps::cut_selected_cells`].
    pub fn cut_selected_cells(&mut self) -> (out: String)
        requires
            old(self).wf(),
        ensures
            final(self).wf(),
            exists|list: Seq<(int, int)>|
                #[trigger] list.to_set() == old(self).sel().cells
                && final(self).grid_v() == clear_positions_m(list, old(self).grid_v()),
    {
        let selected = self.selection.get_selected_cells();
        let out = ClipboardOps::cut_selected_cells(&selected, &mut self.grid);
        proof {
            let list = selected@.map_values(|p: (usize, usize)| (p.0 as int, p.1 as int));
            lemma_clear_positions_dims(list, old(self).grid_v());
        }
        out
    }

    /// Sets the scroll position (clamped) and recomputes the visible
    /// range.
    pub fn set_scroll(&mut self, x: i64, y: i64)
        requires
            old(self).wf(),
        ensures
            final(self).wf(),
            final(self).vp().scroll_x as int == clamp_scroll(
                x as int,
                sum_prefix(old(self).grid_v().widths, old(self).grid_v().cols),
                old(self).vp().canvas_width as int,
            ),
            final(self).vp().scroll_y as int == clamp_scroll(
                y as int,
                sum_prefix(old(self).grid_v().heights, old(self).grid_v().rows),
                old(self).vp().canvas_height as int,
            ),
            range_derived(final(self).grid_v().heights, final(self).vp().scroll_y as int,
                final(self).vp().canvas_height as int,
                final(self).vp().first_visible_row as int,
                final(self).vp().last_visible_row as int),
            final(self).grid_v() == old(self).grid_v(),
    {
        self.viewport.set_scroll(x, y, &self.grid);
        self.viewport.update_visible_range(&self.grid);
    }

    /// Scrolls by a delta (clamped) and recomputes the visible range.
    pub fn handle_wheel(&mut self, delta_x: i64, delta_y: i64)
        requires
            old(self).wf(),
        ensures
            final(self).wf(),
            final(self).vp().scroll_x as int == clamp_scroll(
                old(self).vp().scroll_x + delta_x,
                sum_prefix(old(self).grid_v().widths, old(self).grid_v().cols),
                old(self).vp().canvas_width as int,
            ),
            final(self).vp().scroll_y as int == clamp_scroll(
                old(self).vp().scroll_y + delta_y,
                sum_prefix(old(self).grid_v().heights, old(self).grid_v().rows),
                old(self).vp().canvas_height as int,
            ),
            final(self).grid_v() == old(self).grid_v(),
    {
        self.viewport.scroll_by(delta_x, delta_y, &self.grid);
        self.viewport.update_visible_range(&self.grid);
    }

    /// Resizes the canvas and recomputes the visible range.
    pub fn resize(&mut self, width: u32, height: u32)
        requires
            old(self).wf(),
        ensures
            final(self).wf(),
            final(self).vp().canvas_width == width,
            final(self).vp().canvas_height == height,
            final(self).grid_v() == old(self).grid_v(),
    {
        self.viewport.resize(width, height);
        self.viewport.update_visible_range(&self.grid);
    }

    /// The visible range as `(first row, last row, first column, last
    /// column)`.
    pub fn get_visible_range(&self) -> (r: (usize, usize, usize, usize))
        ensures
            r.0 == self.vp().first_visible_row,
            r.1 == self.vp().last_visible_row,
            r.2 == self.vp().first_visible_col,
            r.3 == self.vp().last_visible_col,
    {
        (
            self.viewport.first_visible_row,
            self.viewport.last_visible_row,
            self.viewport.first_visible_col,
            self.viewport.last_visible_col,
        )
    }

    // -----------------------------------------------------------------------
    // Search
    // -----------------------------------------------------------------------

    /// Case-insensitive substring search over the grid; the first match,
    /// if any, becomes the selection and is scrolled into view.
    pub fn search_text(&mut self, query: String) -> (n: usize)
        requires
            old(self).wf(),
        ensures
            final(self).wf(),
            search_outcome(final(self).search_state(), old(self).search_v(), query@,
                false, false, old(self).grid_v(), n as int),
            n > 0 ==> final(self).sel().cells
                == Set::<(int, int)>::empty().insert(final(self).search_v().results[0]),
            final(self).grid_v() == old(self).grid_v(),
    {
        self.search_text_with_options(query, false, false)
    }

    /// Plain search with case and whole-word options; the first match, if
    /// any, becomes the selection and is scrolled into view.
    pub fn search_text_with_options(&mut self, query: String, case_sensitive: bool, whole_word: bool)
        -> (n: usize)
        requires
            old(self).wf(),
        ensures
            final(self).wf(),
            search_outcome(final(self).search_state(), old(self).search_v(), query@,
                case_sensitive, whole_word, old(self).grid_v(), n as int),
            n > 0 ==> final(self).sel().cells
                == Set::<(int, int)>::empty().insert(final(self).search_v().results[0]),
            final(self).grid_v() == old(self).grid_v(),
    {
        proof { old(self).grid.wf_bounds(); }
        let n = self.search.search_text_with_options(
            query, case_sensitive, whole_word, &self.grid);
        if n > 0 {
            match self.search.current_result() {
                Some(p) => {
                    self.selection.select_single_cell(p.0, p.1);
                    self.active_cell = Some((p.0, p.1));
                    self.viewport.ensure_cell_visible(p.0, p.1, &self.grid);
                },
                None => (),
            }
        }
        n
    }

    /// Pattern search; a malformed pattern fails without touching the
    /// search state.  The first match, if any, becomes the selection and
    /// is scrolled into view.
    pub fn search_regex(&mut self, pattern: String, case_sensitive: bool)
        -> (res: Result<usize, String>)
        requires
            old(self).wf(),
        ensures
            final(self).wf(),
            regex_outcome(final(self).search_state(), old(self).search_state(), pattern@,
                case_sensitive, old(self).grid_v(), res),
            final(self).grid_v() == old(self).grid_v(),
    {
        proof { old(self).grid.wf_bounds(); }
        let res = self.search.search_regex(pattern, case_sensitive, &self.grid);
        if matches!(res, Ok(_)) {
            match self.search.current_result() {
                Some(p) => {
                    self.selection.select_single_cell(p.0, p.1);
                    self.active_cell = Some((p.0, p.1));
                    self.viewport.ensure_cell_visible(p.0, p.1, &self.grid);
                },
                None => (),
            }
        }
        res
    }

    /// Advances the match cursor; the match under it becomes the
    /// selection and is scrolled into view.
    pub fn search_next(&mut self) -> (r: bool)
        requires
            old(self).wf(),
        ensures
            final(self).wf(),
            r == (old(self).search_v().results.len() > 0
                && old(self).search_v().current is Some),
            final(self).grid_v() == old(self).grid_v(),
    {
        proof { old(self).grid.wf_bounds(); }
        let rows = self.grid.row_count();
        let cols = self.grid.col_count();
        match self.search.search_next() {
            Some(p) => {
                if p.0 < rows && p.1 < cols {
                    self.selection.select_single_cell(p.0, p.1);
                    self.active_cell = Some((p.0, p.1));
                    self.viewport.ensure_cell_visible(p.0, p.1, &self.grid);
                }
                true
            },
            None => false,
        }
    }

    /// Steps the match cursor back; the match under it becomes the
    /// selection and is scrolled into view.
    pub fn search_prev(&mut self) -> (r: bool)
        requires
            old(self).wf(),
        ensures
            final(self).wf(),
            r == (old(self).search_v().results.len() > 0
                && old(self).search_v().current is Some),
            final(self).grid_v() == old(self).grid_v(),
    {
        proof { old(self).grid.wf_bounds(); }
        let rows = self.grid.row_count();
        let cols = self.grid.col_count();
        match self.search.search_prev() {
            Some(p) => {
                if p.0 < rows && p.1 < cols {
                    self.selection.select_single_cell(p.0, p.1);
                    self.active_cell = Some((p.0, p.1));
                    self.viewport.ensure_cell_visible(p.0, p.1, &self.grid);
                }
                true
            },
            None => false,
        }
    }

    /// Forgets the query, the matches, and the cursor.
    pub fn clear_search(&mut self)
        requires
            old(self).wf(),
        ensures
            final(self).wf(),
            final(self).search_v().query.len() == 0,
            final(self).search_v().results.len() == 0,
            final(self).search_v().current is None,
    {
        self.search.clear_search();
    }

    /// Number of matches.
    pub fn get_search_result_count(&self) -> (r: usize)
        ensures
            r as int == self.search_v().results.len(),
    {
        self.search.get_search_result_count()
    }

    /// Whether a position is among the matches.
    pub fn is_search_result(&self, row: usize, col: usize) -> (r: bool)
        ensures
            r == self.search_v().results.contains((row as int, col as int)),
    {
        self.search.is_search_result(row, col)
    }

    /// Whether a position is the match under the cursor.
    pub fn is_current_search_result(&self, row: usize, col: usize) -> (r: bool)
        ensures
            r == match self.search_v().current {
                Some(i) => i < self.search_v().results.len()
                    && self.search_v().results[i] == (row as int, col as int),
                None => false,
            },
    {
        self.search.is_current_search_result(row, col)
    }

    /// Overwrites every match with the replacement (typed) and clears the
    /// search; returns how many were replaced.
    pub fn replace_all(&mut self, replacement: String) -> (n: usize)
        requires
            old(self).wf(),
        ensures
            final(self).wf(),
            n as int == old(self).search_v().results.len(),
            final(self).grid_v() == put_all_m(
                old(self).search_v().results,
                typed_replacement(replacement@),
                old(self).grid_v(),
            ),
            final(self).search_v().results.len() == 0,
    {
        let n = self.search.replace_all(replacement, &mut self.grid);
        proof {
            lemma_put_all_dims(old(self).search_v().results,
                typed_replacement(replacement@), old(self).grid_v());
        }
        n
    }

    // -----------------------------------------------------------------------
    // Sorting, filters, freezing
    // -----------------------------------------------------------------------

    /// Sorts by one column; see [`Grid::sort_by_column`].  The selection
    /// is cleared and the visible range recomputed.
    pub fn sort_by_column(&mut self, col: usize, ascending: bool)
        requires
            old(self).wf(),
        ensures
            final(self).wf(),
            (col as int) < old(self).grid_v().cols ==> {
                &&& exists|perm: Seq<int>| {
                    &&& #[trigger] is_row_perm(perm, old(self).grid_v().rows)
                    &&& final(self).grid_v() == (GridView {
                        cells: crate::store::map_remap_rows(old(self).grid_v().cells, perm),
                        heights: Seq::new(
                            old(self).grid_v().rows as nat,
                            |j: int| old(self).grid_v().heights[perm[j]],
                        ),
                        sort_column: Some(col as int),
                        sort_ascending: ascending,
                        sort_columns: Seq::empty(),
                        ..old(self).grid_v()
                    })
                }
                &&& forall|i: int, j: int| 0 <= i < j < old(self).grid_v().rows
                    ==> value_cmp(
                        value_at(final(self).grid_v(), i, col as int),
                        value_at(final(self).grid_v(), j, col as int),
                        ascending,
                    ) != Ord3::Gt
            },
            (col as int) >= old(self).grid_v().cols
                ==> final(self).grid_v() == old(self).grid_v(),
            final(self).sel().cells == Set::<(int, int)>::empty(),
    {
        self.grid.sort_by_column(col, ascending);
        self.selection.clear_selection();
        self.viewport.update_visible_range(&self.grid);
    }

    /// Click on a column header: sorts by the column, flipping the
    /// direction when it is already the primary sort.
    pub fn toggle_column_sort(&mut self, col: usize)
        requires
            old(self).wf(),
        ensures
            final(self).wf(),
            final(self).sel().cells == Set::<(int, int)>::empty()
                || final(self).grid_v() == old(self).grid_v() && final(self).sel() == old(self).sel(),
    {
        let (sort_col, sort_asc) = self.grid.sort_state();
        let ascending = match sort_col {
            Some(c) => {
                if c == col {
                    !sort_asc
                } else {
                    true
                }
            },
            None => true,
        };
        self.sort_by_column(col, ascending);
    }

    /// Adds a column to the multi-column sort and re-sorts; see
    /// [`Grid::add_sort_column`].
    pub fn add_multi_column_sort(&mut self, col: usize, ascending: bool)
        requires
            old(self).wf(),
        ensures
            final(self).wf(),
            (col as int) < old(self).grid_v().cols
                ==> final(self).grid_v().sort_columns == upsert_sort(
                    old(self).grid_v().sort_columns, col as int, ascending),
            final(self).sel().cells == Set::<(int, int)>::empty(),
    {
        self.grid.add_sort_column(col, ascending);
        self.selection.clear_selection();
        self.viewport.update_visible_range(&self.grid);
    }

    /// Clears the multi-column sort.
    pub fn clear_multi_column_sort(&mut self)
        requires
            old(self).wf(),
        ensures
            final(self).wf(),
            final(self).grid_v() == (GridView {
                sort_columns: Seq::empty(),
                sort_column: None,
                ..old(self).grid_v()
            }),
    {
        self.grid.clear_multi_column_sort();
        self.viewport.update_visible_range(&self.grid);
    }

    /// Hides every row whose value in the column does not contain the
    /// text, case-folded.
    pub fn filter_column_by_text(&mut self, col: usize, text: String)
        requires
            old(self).wf(),
        ensures
            final(self).wf(),
            final(self).grid_v() == (GridView {
                filtered: Set::new(|r: int|
                    0 <= r < old(self).grid_v().rows
                        && !crate::text::is_substring(
                            filter_fold(value_at(old(self).grid_v(), r, col as int)),
                            lower_of(text@),
                        )),
                ..old(self).grid_v()
            }),
    {
        let needle = crate::search::lowercase(text.as_str());
        let nchars = chars_of(needle.as_str());
        let ghost pat = lower_of(text@);
        self.grid.apply_column_filter(
            col,
            (|value: &CellValue| -> (keep: bool)
                ensures
                    keep == crate::text::is_substring(filter_fold(value@), pat),
            {
                let folded: String = match value {
                    CellValue::Text(t) => crate::search::lowercase(t.as_str()),
                    CellValue::Date(d) => crate::search::lowercase(d.as_str()),
                    _ => value.to_string(),
                };
                let fchars = chars_of(folded.as_str());
                crate::text::contains_chars(&fchars, &nchars)
            }),
            Ghost(|v: ValueView| crate::text::is_substring(filter_fold(v), pat)),
        );
        proof {
            assert(self.grid@.filtered =~= Set::new(|r: int|
                0 <= r < old(self).grid_v().rows
                    && !crate::text::is_substring(
                        filter_fold(value_at(old(self).grid_v(), r, col as int)),
                        lower_of(text@),
                    )));
        }
        self.viewport.update_visible_range(&self.grid);
    }

    /// Hides every row whose value in the column is empty.
    pub fn filter_column_show_non_empty(&mut self, col: usize)
        requires
            old(self).wf(),
        ensures
            final(self).wf(),
            final(self).grid_v() == (GridView {
                filtered: Set::new(|r: int|
                    0 <= r < old(self).grid_v().rows
                        && value_at(old(self).grid_v(), r, col as int) is Empty),
                ..old(self).grid_v()
            }),
    {
        self.grid.apply_column_filter(
            col,
            (|value: &CellValue| -> (keep: bool)
                ensures
                    keep == !(value@ is Empty),
            {
                !value.is_empty()
            }),
            Ghost(|v: ValueView| !(v is Empty)),
        );
        proof {
            assert(self.grid@.filtered =~= Set::new(|r: int|
                0 <= r < old(self).grid_v().rows
                    && value_at(old(self).grid_v(), r, col as int) is Empty));
        }
        self.viewport.update_visible_range(&self.grid);
    }

    /// Unhides every row.
    pub fn clear_column_filters(&mut self)
        requires
            old(self).wf(),
        ensures
            final(self).wf(),
            final(self).grid_v() == (GridView {
                filtered: Set::<int>::empty(),
                ..old(self).grid_v()
            }),
    {
        self.grid.clear_filters();
        self.viewport.update_visible_range(&self.grid);
    }

    /// Whether a row is hidden by the active filter.
    pub fn is_row_filtered(&self, row: usize) -> (r: bool)
        ensures
            r == self.grid_v().filtered.contains(row as int),
    {
        self.grid.is_row_filtered(row)
    }

    /// Freezes the first `count` rows, capped at the row count.
    pub fn freeze_rows(&mut self, count: usize)
        requires
            old(self).wf(),
        ensures
            final(self).wf(),
            final(self).grid_v() == (GridView {
                frozen_rows: if (count as int) <= old(self).grid_v().rows {
                    count as int
                } else {
                    old(self).grid_v().rows
                },
                ..old(self).grid_v()
            }),
    {
        let rows = self.grid.row_count();
        let capped = if count <= rows { count } else { rows };
        self.grid.set_frozen_rows(capped);
    }

    /// Freezes the first `count` columns, capped at the column count.
    pub fn freeze_cols(&mut self, count: usize)
        requires
            old(self).wf(),
        ensures
            final(self).wf(),
            final(self).grid_v() == (GridView {
                frozen_cols: if (count as int) <= old(self).grid_v().cols {
                    count as int
                } else {
                    old(self).grid_v().cols
                },
                ..old(self).grid_v()
            }),
    {
        let cols = self.grid.col_count();
        let capped = if count <= cols { count } else { cols };
        self.grid.set_frozen_cols(capped);
    }

    // -----------------------------------------------------------------------
    // Keyboard
    // -----------------------------------------------------------------------

    /// Handles a key with modifier state: navigation moves (or, with
    /// shift, extends) the selection from the active cell, the delete key
    /// clears the active cell, and the undo/redo shortcuts replay the edit
    /// log.  Returns whether the key did anything.
    pub fn handle_keyboard_with_modifiers_key(&mut self, key: &str, ctrl: bool, shift: bool)
        -> (handled: bool)
        requires
            old(self).wf(),
        ensures
            final(self).wf(),
            ({
                let cmd = if ctrl { key_command_ctrl(key@) } else { key_command(key@) };
                match cmd {
                    None => !handled && *final(self) == *old(self),
                    Some(c) => match c {
                        NavigationCommand::Undo | NavigationCommand::Redo => true,
                        NavigationCommand::Delete => !handled
                            && (match old(self).active() {
                                Some(p) => final(self).grid_v() == set_value_m(
                                    old(self).grid_v(), p.0, p.1, ValueView::Empty),
                                None => final(self).grid_v() == old(self).grid_v(),
                            }),
                        NavigationCommand::Enter | NavigationCommand::Escape
                        | NavigationCommand::Tab => !handled && *final(self) == *old(self),
                        _ => ({
                            let page = if old(self).vp().last_visible_row
                                >= old(self).vp().first_visible_row {
                                old(self).vp().last_visible_row
                                    - old(self).vp().first_visible_row + 1
                            } else {
                                0
                            };
                            let target = nav_target(
                                old(self).grid_v().rows,
                                old(self).grid_v().cols,
                                page,
                                old(self).active(),
                                c,
                            );
                            match target {
                                None => !handled && *final(self) == *old(self),
                                Some(t) => {
                                    &&& handled
                                    &&& final(self).active() == Some(t)
                                    &&& final(self).grid_v() == old(self).grid_v()
                                    &&& (!shift ==> final(self).sel().cells
                                        == Set::<(int, int)>::empty().insert(t))
                                },
                            }
                        }),
                    },
                }
            }),
    {
        proof { old(self).grid.wf_bounds(); }
        let cmd = self.keyboard_handler.handle_key_with_modifiers(key, ctrl);
        let rows = self.grid.row_count();
        let cols = self.grid.col_count();
        let page = self.viewport.visible_row_count();
        let cur = self.active_cell;
        match cmd {
            None => false,
            Some(NavigationCommand::Undo) => {
                let _ = self.undo();
                true
            },
            Some(NavigationCommand::Redo) => {
                let _ = self.redo();
                true
            },
            Some(NavigationCommand::Delete) => {
                match cur {
                    Some(p) => {
                        self.grid.set_value(p.0, p.1, CellValue::Empty);
                    },
                    None => (),
                }
                false
            },
            Some(NavigationCommand::Enter) => false,
            Some(NavigationCommand::Escape) => false,
            Some(NavigationCommand::Tab) => false,
            Some(c) => {
                let target: Option<(usize, usize)> = match c {
                    NavigationCommand::MoveUp => match cur {
                        Some(p) => if p.0 > 0 { Some((p.0 - 1, p.1)) } else { None },
                        None => None,
                    },
                    NavigationCommand::MoveDown => match cur {
                        Some(p) => if p.0 + 1 < rows { Some((p.0 + 1, p.1)) } else { None },
                        None => None,
                    },
                    NavigationCommand::MoveLeft => match cur {
                        Some(p) => if p.1 > 0 { Some((p.0, p.1 - 1)) } else { None },
                        None => None,
                    },
                    NavigationCommand::MoveRight => match cur {
                        Some(p) => if p.1 + 1 < cols { Some((p.0, p.1 + 1)) } else { None },
                        None => None,
                    },
                    NavigationCommand::PageUp => match cur {
                        Some(p) => Some((if p.0 >= page { p.0 - page } else { 0 }, p.1)),
                        None => None,
                    },
                    NavigationCommand::PageDown => match cur {
                        Some(p) => {
                            let t = if p.0 + page < rows - 1 { p.0 + page } else { rows - 1 };
                            Some((t, p.1))
                        },
                        None => None,
                    },
                    NavigationCommand::Home => match cur {
                        Some(p) => Some((p.0, 0)),
                        None => None,
                    },
                    NavigationCommand::End => match cur {
                        Some(p) => Some((p.0, cols - 1)),
                        None => None,
                    },
                    NavigationCommand::DocumentStart => Some((0, 0)),
                    NavigationCommand::DocumentEnd => Some((rows - 1, cols - 1)),
                    _ => None,
                };
                match target {
                    Some(t) => {
                        if shift {
                            match self.selection.anchor() {
                                Some(_) => (),
                                None => match cur {
                                    Some(p) => self.selection.set_anchor(p.0, p.1),
                                    None => (),
                                },
                            }
                            let rows2 = self.grid.row_count();
                            let cols2 = self.grid.col_count();
                            self.selection.select_range(t.0, t.1, rows2, cols2);
                        } else {
                            self.selection.select_single_cell(t.0, t.1);
                        }
                        self.active_cell = Some(t);
                        if t.0 < rows && t.1 < cols {
                            self.viewport.ensure_cell_visible(t.0, t.1, &self.grid);
                        }
                        true
                    },
                    None => false,
                }
            },
        }
    }
}

/// The text a value is filtered on: text and dates case-folded, other
/// values as displayed.
pub open spec fn filter_fold(v: ValueView) -> Seq<char> {
    match v {
        ValueView::Text(s) => lower_of(s),
        ValueView::Date(d) => lower_of(d),
        _ => value_text(v),
    }
}

proof fn lemma_clear_positions_dims(list: Seq<(int, int)>, g: GridView)
    requires
        g.rows >= 1,
        g.cols >= 1,
    ensures
        clear_positions_m(list, g).rows == g.rows,
        clear_positions_m(list, g).cols == g.cols,
    decreases list.len(),
{
    if list.len() > 0 {
        lemma_clear_positions_dims(
            list.subrange(1, list.len() as int),
            set_value_m(g, list[0].0, list[0].1, ValueView::Empty),
        );
    }
}

proof fn lemma_put_all_dims(list: Seq<(int, int)>, v: ValueView, g: GridView)
    requires
        g.rows >= 1,
        g.cols >= 1,
    ensures
        put_all_m(list, v, g).rows == g.rows,
        put_all_m(list, v, g).cols == g.cols,
    decreases list.len(),
{
    if list.len() > 0 {
        lemma_put_all_dims(
            list.subrange(1, list.len() as int), v,
            set_value_m(g, list[0].0, list[0].1, v),
        );
    }
}

impl DataGrid {
    /// Overwrites the match under the cursor and advances it; see
    /// [`SearchState::replace_current`].
    pub fn replace_current(&mut self, replacement: String) -> (r: bool)
        requires
            old(self).wf(),
        ensures
            final(self).wf(),
            r == (old(self).search_v().current matches Some(i)
                && i < old(self).search_v().results.len()),
            r ==> final(self).grid_v() == set_value_m(
                old(self).grid_v(),
                old(self).search_v().results[old(self).search_v().current->0].0,
                old(self).search_v().results[old(self).search_v().current->0].1,
                typed_replacement(replacement@),
            ),
            !r ==> final(self).grid_v() == old(self).grid_v(),
    {
        self.search.replace_current(replacement, &mut self.grid)
    }

    /// Replaces the query inside the current selection only; see
    /// [`SearchState::replace_in_selection`].
    pub fn replace_in_selection(&mut self, search: String, replacement: String, case_sensitive: bool)
        -> (n: usize)
        requires
            old(self).wf(),
        ensures
            final(self).wf(),
            exists|list: Seq<(int, int)>| {
                &&& #[trigger] list.to_set() == old(self).sel().cells
                &&& ({
                    let q = if case_sensitive { search@ } else { lower_of(search@) };
                    let out = crate::search::replace_sel_m(
                        list, old(self).grid_v(), q, case_sensitive,
                        typed_replacement(replacement@));
                    final(self).grid_v() == out.0 && n as int == out.1
                })
            },
    {
        let selected = self.selection.get_selected_cells();
        let n = SearchState::replace_in_selection(
            search, replacement, case_sensitive, &selected, &mut self.grid);
        proof {
            let list = selected@.map_values(|p: (usize, usize)| (p.0 as int, p.1 as int));
            lemma_replace_sel_dims(list, old(self).grid_v(),
                if case_sensitive { search@ } else { lower_of(search@) },
                case_sensitive, typed_replacement(replacement@));
        }
        n
    }

    /// A pointer press at canvas coordinates: a column-header hit sorts
    /// that column, a row-header hit selects that row, a cell hit selects
    /// (extends with shift, toggles with control) and focuses the cell,
    /// and a miss clears the selection unless control is held.
    pub fn handle_mouse_down_at_with_modifiers(
        &mut self,
        x: u64,
        y: u64,
        shift: bool,
        ctrl: bool,
    )
        requires
            old(self).wf(),
            x <= 0xFFFF_FFFF,
            y <= 0xFFFF_FFFF,
        ensures
            final(self).wf(),
    {
        proof { old(self).grid.wf_bounds(); }
        match self.viewport.canvas_to_column_header(x, y, &self.grid) {
            Some(col) => {
                self.toggle_column_sort(col);
                return;
            },
            None => (),
        }
        match self.viewport.canvas_to_row_header(x, y, &self.grid) {
            Some(row) => {
                self.select_row(row);
                return;
            },
            None => (),
        }
        match self.viewport.canvas_to_cell(x, y, &self.grid) {
            Some((row, col)) => {
                if shift {
                    self.select_range(row, col);
                } else if ctrl {
                    self.toggle_cell_selection(row, col);
                } else {
                    self.selection.select_single_cell(row, col);
                }
                self.active_cell = Some((row, col));
            },
            None => {
                if !ctrl {
                    self.selection.clear_selection();
                }
                self.active_cell = None;
            },
        }
    }

    /// A double click at canvas coordinates: starts editing the cell
    /// under the pointer, if it is editable, and reports which.
    pub fn handle_double_click_at(&mut self, x: u64, y: u64) -> (r: Option<(usize, usize)>)
        requires
            old(self).wf(),
            x <= 0xFFFF_FFFF,
            y <= 0xFFFF_FFFF,
        ensures
            final(self).wf(),
            final(self).grid_v() == old(self).grid_v(),
            match r {
                Some(p) => crate::editing::editable_at(
                    old(self).grid_v(), p.0 as int, p.1 as int),
                None => true,
            },
    {
        proof { old(self).grid.wf_bounds(); }
        match self.viewport.canvas_to_cell(x, y, &self.grid) {
            Some((row, col)) => {
                if self.editing.start_edit(row, col, &self.grid) {
                    Some((row, col))
                } else {
                    None
                }
            },
            None => None,
        }
    }

    /// Starts editing a cell if it is editable.
    pub fn start_edit(&mut self, row: usize, col: usize) -> (r: bool)
        requires
            old(self).wf(),
        ensures
            final(self).wf(),
            r == crate::editing::editable_at(old(self).grid_v(), row as int, col as int),
            final(self).grid_v() == old(self).grid_v(),
    {
        self.editing.start_edit(row, col, &self.grid)
    }

    /// Ends any edit in progress.
    pub fn end_edit(&mut self)
        requires
            old(self).wf(),
        ensures
            final(self).wf(),
            final(self).grid_v() == old(self).grid_v(),
    {
        self.editing.end_edit();
    }

    /// Whether an edit is in progress.
    pub fn is_editing(&self) -> (r: bool) {
        self.editing.editing_now()
    }

    /// Commits text into the cell being edited and records one undo
    /// entry carrying the old and new values.
    pub fn update_cell_value(&mut self, row: usize, col: usize, value: String)
        requires
            old(self).wf(),
        ensures
            final(self).wf(),
            final(self).undo_v().len() == old(self).undo_v().len() + 1,
            (final(self).undo_v().last() matches EditAction::SetValue {
                row: ar, col: ac, old_value, new_value,
            } && ar == row && ac == col
                && old_value@ == value_at(old(self).grid_v(), row as int, col as int)
                && new_value@ == ValueView::Text(value@)),
            final(self).redo_v().len() == 0,
    {
        let old_value = self.grid.get_value(row, col);
        let new_value = CellValue::Text(value.clone());
        self.editing.update_cell_value(row, col, value, &mut self.grid);
        self.undo_redo.record_action(EditAction::SetValue {
            row,
            col,
            old_value,
            new_value,
        });
    }

    /// The style bundle of the cell at a position (the defaults where no
    /// cell is stored).
    pub fn get_cell_style(&self, row: usize, col: usize) -> (r: CellStyle)
        requires
            self.wf(),
        ensures
            r.bg_color == cell_at(self.grid_v(), row as int, col as int).bg_color,
            r.fg_color == cell_at(self.grid_v(), row as int, col as int).fg_color,
            r.font_bold == cell_at(self.grid_v(), row as int, col as int).font_bold,
            r.font_italic == cell_at(self.grid_v(), row as int, col as int).font_italic,
    {
        match self.grid.get_cell(row, col) {
            Some(cell) => CellStyle {
                bg_color: cell.bg_color,
                fg_color: cell.fg_color,
                font_bold: cell.font_bold,
                font_italic: cell.font_italic,
            },
            None => CellStyle {
                bg_color: None,
                fg_color: None,
                font_bold: false,
                font_italic: false,
            },
        }
    }

    /// Sets the whole style bundle of a cell, creating the cell if
    /// needed, and records one undo entry carrying both bundles.
    pub fn set_cell_style(
        &mut self,
        row: usize,
        col: usize,
        bg_color: Option<u32>,
        fg_color: Option<u32>,
        bold: bool,
        italic: bool,
    )
        requires
            old(self).wf(),
        ensures
            final(self).wf(),
            row < old(self).grid_v().rows && col < old(self).grid_v().cols
                ==> final(self).grid_v() == (GridView {
                    cells: old(self).grid_v().cells.insert(
                        (row as int, col as int),
                        CellView {
                            bg_color,
                            fg_color,
                            font_bold: bold,
                            font_italic: italic,
                            ..cell_at(old(self).grid_v(), row as int, col as int)
                        },
                    ),
                    ..old(self).grid_v()
                }),
            final(self).undo_v().len() == old(self).undo_v().len() + 1,
            (final(self).undo_v().last() matches EditAction::SetStyle { .. }),
            final(self).redo_v().len() == 0,
    {
        let old_style = self.get_cell_style(row, col);
        let mut cell = match self.grid.get_cell(row, col) {
            Some(c) => c.duplicate(),
            None => Cell::default(),
        };
        cell.bg_color = bg_color;
        cell.fg_color = fg_color;
        cell.font_bold = bold;
        cell.font_italic = italic;
        self.grid.set_cell(row, col, cell);
        let new_style = CellStyle {
            bg_color,
            fg_color,
            font_bold: bold,
            font_italic: italic,
        };
        self.undo_redo.record_action(EditAction::SetStyle {
            row,
            col,
            old_style,
            new_style,
        });
    }

    /// Sets a cell's background color; see [`DataGrid::set_cell_style`].
    pub fn set_cell_bg_color(&mut self, row: usize, col: usize, color: u32)
        requires
            old(self).wf(),
        ensures
            final(self).wf(),
            row < old(self).grid_v().rows && col < old(self).grid_v().cols
                ==> cell_at(final(self).grid_v(), row as int, col as int).bg_color
                    == Some(color),
            final(self).undo_v().len() == old(self).undo_v().len() + 1,
            final(self).redo_v().len() == 0,
    {
        let st = self.get_cell_style(row, col);
        self.set_cell_style(row, col, Some(color), st.fg_color, st.font_bold, st.font_italic);
    }

    /// Sets a cell's text color; see [`DataGrid::set_cell_style`].
    pub fn set_cell_fg_color(&mut self, row: usize, col: usize, color: u32)
        requires
            old(self).wf(),
        ensures
            final(self).wf(),
            row < old(self).grid_v().rows && col < old(self).grid_v().cols
                ==> cell_at(final(self).grid_v(), row as int, col as int).fg_color
                    == Some(color),
            final(self).undo_v().len() == old(self).undo_v().len() + 1,
            final(self).redo_v().len() == 0,
    {
        let st = self.get_cell_style(row, col);
        self.set_cell_style(row, col, st.bg_color, Some(color), st.font_bold, st.font_italic);
    }

    /// Sets a cell's font style; see [`DataGrid::set_cell_style`].
    pub fn set_cell_font_style(&mut self, row: usize, col: usize, bold: bool, italic: bool)
        requires
            old(self).wf(),
        ensures
            final(self).wf(),
            row < old(self).grid_v().rows && col < old(self).grid_v().cols
                ==> cell_at(final(self).grid_v(), row as int, col as int).font_bold == bold
                    && cell_at(final(self).grid_v(), row as int, col as int).font_italic
                        == italic,
            final(self).undo_v().len() == old(self).undo_v().len() + 1,
            final(self).redo_v().len() == 0,
    {
        let st = self.get_cell_style(row, col);
        self.set_cell_style(row, col, st.bg_color, st.fg_color, bold, italic);
    }

    /// Whether every cell of a row is empty.
    pub fn is_row_empty(&self, row: usize) -> (r: bool)
        requires
            self.wf(),
        ensures
            r == forall|c: int| 0 <= c < self.grid_v().cols
                ==> #[trigger] value_at(self.grid_v(), row as int, c) is Empty,
    {
        let cols = self.grid.col_count();
        let mut c: usize = 0;
        while c < cols
            invariant
                0 <= c <= cols,
                cols == self.grid_v().cols,
                self.wf(),
                forall|x: int| 0 <= x < c
                    ==> #[trigger] value_at(self.grid_v(), row as int, x) is Empty,
            decreases cols - c,
        {
            let v = self.grid.get_value(row, c);
            if !v.is_empty() {
                return false;
            }
            c = c + 1;
        }
        true
    }
}

proof fn lemma_replace_sel_dims(
    list: Seq<(int, int)>,
    g: GridView,
    q: Seq<char>,
    case_sensitive: bool,
    v: ValueView,
)
    requires
        g.rows >= 1,
        g.cols >= 1,
    ensures
        crate::search::replace_sel_m(list, g, q, case_sensitive, v).0.rows == g.rows,
        crate::search::replace_sel_m(list, g, q, case_sensitive, v).0.cols == g.cols,
    decreases list.len(),
{
    if list.len() > 0 {
        let rest = list.subrange(1, list.len() as int);
        let t = value_text(value_at(g, list[0].0, list[0].1));
        let folded = if case_sensitive { t } else { lower_of(t) };
        if crate::text::is_substring(folded, q) {
            lemma_replace_sel_dims(rest, set_value_m(g, list[0].0, list[0].1, v),
                q, case_sensitive, v);
        } else {
            lemma_replace_sel_dims(rest, g, q, case_sensitive, v);
        }
    }
}

} // verus!
