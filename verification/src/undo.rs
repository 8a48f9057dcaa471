//! The edit log: invertible records of mutations, an undo stack and a redo
//! stack.
//!
//! Every primary mutation pushes one entry and clears the redo stack;
//! `undo` pops an entry, applies its stored old state (or the structural
//! inverse) and moves it to the redo stack; `redo` is symmetric.  The
//! exact effect of replaying an entry is the spec function [`apply_undo`]
//! respectively [`apply_redo`].

use vstd::prelude::*;
use crate::values::{Cell, CellValue, CellView, ValueView, CellStyle};
use crate::grid::{Grid, GridView, cell_at, MAX_DIM};
use crate::store::{
    map_insert_row, map_delete_row, map_insert_col, map_delete_col,
    row_pairs_clipped, col_pairs_clipped,
};
use crate::viewport::{Viewport, range_derived};

verus! {

/// One invertible mutation record.
pub enum EditAction {
    /// A single value write, with both values.
    SetValue { row: usize, col: usize, old_value: CellValue, new_value: CellValue },
    /// A row was inserted; undone by deleting it.
    InsertRow { index: usize, cells: Vec<(usize, Cell)> },
    /// A row was deleted; its full content is kept for restoration.
    DeleteRow { index: usize, cells: Vec<(usize, Cell)> },
    /// A column was inserted; undone by deleting it.
    InsertColumn { index: usize, cells: Vec<(usize, Cell)> },
    /// A column was deleted; its full content is kept for restoration.
    DeleteColumn { index: usize, cells: Vec<(usize, Cell)> },
    /// A batch of rows was deleted, listed in the order they were removed
    /// (highest index first).
    DeleteRows { rows: Vec<(usize, Vec<(usize, Cell)>)> },
    /// A batch of cells was cleared; old values are kept.
    ClearCells { cells: Vec<(usize, usize, CellValue)> },
    /// A batch of cells was overwritten (a paste); old and new values are
    /// kept.
    SetMultipleCells { cells: Vec<(usize, usize, CellValue, CellValue)> },
    /// A style change, with both style bundles.
    SetStyle { row: usize, col: usize, old_style: CellStyle, new_style: CellStyle },
}

// ---------------------------------------------------------------------------
// Models of the grid mutations the log replays
// ---------------------------------------------------------------------------

/// Model of [`Grid::set_value`].
pub open spec fn set_value_m(g: GridView, r: int, c: int, v: ValueView) -> GridView {
    if 0 <= r < g.rows && 0 <= c < g.cols {
        GridView {
            cells: g.cells.insert((r, c), CellView { value: v, ..cell_at(g, r, c) }),
            ..g
        }
    } else {
        g
    }
}

/// Model of [`Grid::insert_row`].
pub open spec fn insert_row_m(g: GridView, at: int) -> GridView {
    if at <= g.rows && g.rows < MAX_DIM as int {
        GridView {
            rows: g.rows + 1,
            cells: map_insert_row(g.cells, at),
            heights: g.heights.insert(at, crate::grid::DEFAULT_ROW_HEIGHT),
            ..g
        }
    } else {
        g
    }
}

/// Model of [`Grid::delete_row`].
pub open spec fn delete_row_m(g: GridView, i: int) -> GridView {
    if i < g.rows && g.rows > 1 {
        GridView {
            rows: g.rows - 1,
            cells: map_delete_row(g.cells, i),
            heights: g.heights.remove(i),
            ..g
        }
    } else {
        g
    }
}

/// Model of [`Grid::insert_column`].
pub open spec fn insert_col_m(g: GridView, at: int) -> GridView {
    if at <= g.cols && g.cols < MAX_DIM as int {
        GridView {
            cols: g.cols + 1,
            cells: map_insert_col(g.cells, at),
            widths: g.widths.insert(at, crate::values::DEFAULT_COL_WIDTH),
            ..g
        }
    } else {
        g
    }
}

/// Model of [`Grid::delete_column`].
pub open spec fn delete_col_m(g: GridView, i: int) -> GridView {
    if i < g.cols && g.cols > 1 {
        GridView {
            cols: g.cols - 1,
            cells: map_delete_col(g.cells, i),
            widths: g.widths.remove(i),
            ..g
        }
    } else {
        g
    }
}

/// Model of [`Grid::restore_row_cells`].
pub open spec fn restore_row_m(g: GridView, row: int, ps: Seq<(usize, Cell)>) -> GridView {
    if row < g.rows {
        GridView {
            cells: g.cells.union_prefer_right(row_pairs_clipped(ps, row, g.cols)),
            ..g
        }
    } else {
        g
    }
}

/// Model of [`Grid::restore_column_cells`].
pub open spec fn restore_col_m(g: GridView, col: int, ps: Seq<(usize, Cell)>) -> GridView {
    if col < g.cols {
        GridView {
            cells: g.cells.union_prefer_right(col_pairs_clipped(ps, col, g.rows)),
            ..g
        }
    } else {
        g
    }
}

/// Model of [`Grid::set_cell_style_fields`].
pub open spec fn set_style_m(g: GridView, r: int, c: int, st: CellStyle) -> GridView {
    if g.cells.dom().contains((r, c)) {
        GridView {
            cells: g.cells.insert(
                (r, c),
                CellView {
                    bg_color: st.bg_color,
                    fg_color: st.fg_color,
                    font_bold: st.font_bold,
                    font_italic: st.font_italic,
                    ..g.cells[(r, c)]
                },
            ),
            ..g
        }
    } else {
        g
    }
}

/// Writes each listed old value back, first entry first.
pub open spec fn put_values_m(list: Seq<(usize, usize, CellValue)>, g: GridView) -> GridView
    decreases list.len(),
{
    if list.len() == 0 {
        g
    } else {
        put_values_m(
            list.subrange(1, list.len() as int),
            set_value_m(g, list[0].0 as int, list[0].1 as int, list[0].2@),
        )
    }
}

/// Clears each listed position, first entry first.
pub open spec fn clear_values_m(list: Seq<(usize, usize, CellValue)>, g: GridView) -> GridView
    decreases list.len(),
{
    if list.len() == 0 {
        g
    } else {
        clear_values_m(
            list.subrange(1, list.len() as int),
            set_value_m(g, list[0].0 as int, list[0].1 as int, ValueView::Empty),
        )
    }
}

/// Writes the old (`use_new == false`) or new (`use_new == true`) value of
/// each listed change, first entry first.
pub open spec fn put_changes_m(
    list: Seq<(usize, usize, CellValue, CellValue)>,
    g: GridView,
    use_new: bool,
) -> GridView
    decreases list.len(),
{
    if list.len() == 0 {
        g
    } else {
        put_changes_m(
            list.subrange(1, list.len() as int),
            set_value_m(
                g,
                list[0].0 as int,
                list[0].1 as int,
                if use_new { list[0].3@ } else { list[0].2@ },
            ),
            use_new,
        )
    }
}

/// Replays a deleted-row batch backwards: the last-listed (lowest) row is
/// re-inserted and refilled first.
pub open spec fn undo_rows_m(list: Seq<(usize, Vec<(usize, Cell)>)>, g: GridView) -> GridView
    decreases list.len(),
{
    if list.len() == 0 {
        g
    } else {
        undo_rows_m(
            list.drop_last(),
            restore_row_m(
                insert_row_m(g, list.last().0 as int),
                list.last().0 as int,
                list.last().1@,
            ),
        )
    }
}

/// Whether the batch lists row index `r`.
pub open spec fn has_index(list: Seq<(usize, Vec<(usize, Cell)>)>, r: int) -> bool {
    exists|j: int| 0 <= j < list.len() && (#[trigger] list[j]).0 as int == r
}

/// Deletes every listed row, sweeping from row `k - 1` down to row `0`.
pub open spec fn sweep_delete_m(list: Seq<(usize, Vec<(usize, Cell)>)>, g: GridView, k: nat)
    -> GridView
    decreases k,
{
    if k == 0 {
        g
    } else {
        let g2 = if has_index(list, k - 1) { delete_row_m(g, k - 1) } else { g };
        sweep_delete_m(list, g2, (k - 1) as nat)
    }
}

/// The grid after an entry is undone.
pub open spec fn apply_undo(a: EditAction, g: GridView) -> GridView {
    match a {
        EditAction::SetValue { row, col, old_value, .. } =>
            set_value_m(g, row as int, col as int, old_value@),
        EditAction::InsertRow { index, .. } => delete_row_m(g, index as int),
        EditAction::DeleteRow { index, cells } =>
            restore_row_m(insert_row_m(g, index as int), index as int, cells@),
        EditAction::InsertColumn { index, .. } => delete_col_m(g, index as int),
        EditAction::DeleteColumn { index, cells } =>
            restore_col_m(insert_col_m(g, index as int), index as int, cells@),
        EditAction::DeleteRows { rows } => undo_rows_m(rows@, g),
        EditAction::ClearCells { cells } => put_values_m(cells@, g),
        EditAction::SetMultipleCells { cells } => put_changes_m(cells@, g, false),
        EditAction::SetStyle { row, col, old_style, .. } =>
            set_style_m(g, row as int, col as int, old_style),
    }
}

/// The grid after an entry is redone.
pub open spec fn apply_redo(a: EditAction, g: GridView) -> GridView {
    match a {
        EditAction::SetValue { row, col, new_value, .. } =>
            set_value_m(g, row as int, col as int, new_value@),
        EditAction::InsertRow { index, cells } =>
            restore_row_m(insert_row_m(g, index as int), index as int, cells@),
        EditAction::DeleteRow { index, .. } => delete_row_m(g, index as int),
        EditAction::InsertColumn { index, cells } =>
            restore_col_m(insert_col_m(g, index as int), index as int, cells@),
        EditAction::DeleteColumn { index, .. } => delete_col_m(g, index as int),
        EditAction::DeleteRows { rows } => sweep_delete_m(rows@, g, g.rows as nat),
        EditAction::ClearCells { cells } => clear_values_m(cells@, g),
        EditAction::SetMultipleCells { cells } => put_changes_m(cells@, g, true),
        EditAction::SetStyle { row, col, new_style, .. } =>
            set_style_m(g, row as int, col as int, new_style),
    }
}

/// Whether replaying the entry changes the grid's geometry, so that the
/// viewport's visible range must be recomputed.
pub open spec fn is_structural(a: EditAction) -> bool {
    match a {
        EditAction::InsertRow { .. } => true,
        EditAction::DeleteRow { .. } => true,
        EditAction::InsertColumn { .. } => true,
        EditAction::DeleteColumn { .. } => true,
        EditAction::DeleteRows { .. } => true,
        _ => false,
    }
}

/// Mathematical model of the edit log.
pub struct UndoRedoView {
    pub undo: Seq<EditAction>,
    pub redo: Seq<EditAction>,
}

/// The undo and redo stacks.
pub struct UndoRedoState {
    undo_stack: Vec<EditAction>,
    redo_stack: Vec<EditAction>,
}

impl View for UndoRedoState {
    type V = UndoRedoView;

    closed spec fn view(&self) -> UndoRedoView {
        UndoRedoView { undo: self.undo_stack@, redo: self.redo_stack@ }
    }
}

/// What a successful `undo` leaves of the viewport: structural entries get
/// a freshly derived visible range, others leave it alone.
pub open spec fn viewport_after(
    a: EditAction,
    vp0: Viewport,
    vp1: Viewport,
    g1: GridView,
) -> bool {
    if is_structural(a) {
        &&& vp1.wf()
        &&& vp1.canvas_width == vp0.canvas_width
        &&& vp1.canvas_height == vp0.canvas_height
        &&& vp1.scroll_x == vp0.scroll_x
        &&& vp1.scroll_y == vp0.scroll_y
        &&& range_derived(g1.heights, vp1.scroll_y as int, vp1.canvas_height as int,
            vp1.first_visible_row as int, vp1.last_visible_row as int)
        &&& range_derived(g1.widths, vp1.scroll_x as int, vp1.canvas_width as int,
            vp1.first_visible_col as int, vp1.last_visible_col as int)
    } else {
        vp1 == vp0
    }
}

impl UndoRedoState {
    /// An empty log.
    pub fn new() -> (r: UndoRedoState)
        ensures
            r@.undo.len() == 0,
            r@.redo.len() == 0,
    {
        UndoRedoState { undo_stack: Vec::new(), redo_stack: Vec::new() }
    }

    /// Records a fresh mutation: pushes its entry and clears the redo
    /// stack.
    pub fn record_action(&mut self, action: EditAction)
        ensures
            final(self)@.undo == old(self)@.undo.push(action),
            final(self)@.redo.len() == 0,
    {
        self.undo_stack.push(action);
        self.redo_stack = Vec::new();
    }

    /// Number of entries waiting to be undone.
    pub fn undo_len(&self) -> (r: usize)
        ensures
            r == self@.undo.len(),
    {
        self.undo_stack.len()
    }

    /// Number of entries waiting to be redone.
    pub fn redo_len(&self) -> (r: usize)
        ensures
            r == self@.redo.len(),
    {
        self.redo_stack.len()
    }

    /// Drops the undo history.
    pub fn clear_undo_history(&mut self)
        ensures
            final(self)@.undo.len() == 0,
            final(self)@.redo == old(self)@.redo,
    {
        self.undo_stack = Vec::new();
    }

    /// Drops the redo history.
    pub fn clear_redo_history(&mut self)
        ensures
            final(self)@.redo.len() == 0,
            final(self)@.undo == old(self)@.undo,
    {
        self.redo_stack = Vec::new();
    }

    /// Pops the newest entry, applies its stored old state to the grid
    /// (recomputing the viewport range after structural entries), and
    /// moves the entry to the redo stack; `false` on an empty stack.
    pub fn undo(&mut self, grid: &mut Grid, viewport: &mut Viewport) -> (r: bool)
        requires
            old(grid).wf(),
            old(viewport).wf(),
        ensures
            final(grid).wf(),
            final(viewport).wf(),
            old(self)@.undo.len() == 0 ==> {
                &&& r == false
                &&& final(self)@.undo == old(self)@.undo
                &&& final(self)@.redo == old(self)@.redo
                &&& *final(grid) == *old(grid)
                &&& *final(viewport) == *old(viewport)
            },
            old(self)@.undo.len() > 0 ==> {
                let a = old(self)@.undo.last();
                &&& r == true
                &&& final(self)@.undo == old(self)@.undo.drop_last()
                &&& final(self)@.redo == old(self)@.redo.push(a)
                &&& final(grid)@ == apply_undo(a, old(grid)@)
                &&& viewport_after(a, *old(viewport), *final(viewport), final(grid)@)
            },
    {
        let popped = self.undo_stack.pop();
        match popped {
            None => false,
            Some(action) => {
                apply_undo_exec(&action, grid, viewport);
                self.redo_stack.push(action);
                true
            },
        }
    }

    /// Pops the newest redo entry, re-applies its stored new state to the
    /// grid (recomputing the viewport range after structural entries), and
    /// moves the entry back to the undo stack; `false` on an empty stack.
    pub fn redo(&mut self, grid: &mut Grid, viewport: &mut Viewport) -> (r: bool)
        requires
            old(grid).wf(),
            old(viewport).wf(),
        ensures
            final(grid).wf(),
            final(viewport).wf(),
            old(self)@.redo.len() == 0 ==> {
                &&& r == false
                &&& final(self)@.undo == old(self)@.undo
                &&& final(self)@.redo == old(self)@.redo
                &&& *final(grid) == *old(grid)
                &&& *final(viewport) == *old(viewport)
            },
            old(self)@.redo.len() > 0 ==> {
                let a = old(self)@.redo.last();
                &&& r == true
                &&& final(self)@.redo == old(self)@.redo.drop_last()
                &&& final(self)@.undo == old(self)@.undo.push(a)
                &&& final(grid)@ == apply_redo(a, old(grid)@)
                &&& viewport_after(a, *old(viewport), *final(viewport), final(grid)@)
            },
    {
        let popped = self.redo_stack.pop();
        match popped {
            None => false,
            Some(action) => {
                apply_redo_exec(&action, grid, viewport);
                self.undo_stack.push(action);
                true
            },
        }
    }
}

/// Replays the old state of one entry; mirrors [`apply_undo`] exactly.
#[verifier::rlimit(80)]
fn apply_undo_exec(action: &EditAction, grid: &mut Grid, viewport: &mut Viewport)
    requires
        old(grid).wf(),
        old(viewport).wf(),
    ensures
        final(grid).wf(),
        final(viewport).wf(),
        final(grid)@ == apply_undo(*action, old(grid)@),
        viewport_after(*action, *old(viewport), *final(viewport), final(grid)@),
{
    match action {
        EditAction::SetValue { row, col, old_value, .. } => {
            grid.set_value(*row, *col, old_value.duplicate());
        },
        EditAction::InsertRow { index, .. } => {
            grid.delete_row(*index);
            viewport.update_visible_range(grid);
        },
        EditAction::DeleteRow { index, cells } => {
            grid.insert_row(*index);
            grid.restore_row_cells(*index, cells);
            viewport.update_visible_range(grid);
        },
        EditAction::InsertColumn { index, .. } => {
            grid.delete_column(*index);
            viewport.update_visible_range(grid);
        },
        EditAction::DeleteColumn { index, cells } => {
            grid.insert_column(*index);
            grid.restore_column_cells(*index, cells);
            viewport.update_visible_range(grid);
        },
        EditAction::DeleteRows { rows } => {
            let n: usize = rows.len();
            let mut i: usize = n;
            proof { assert(rows@.take(n as int) =~= rows@); }
            while i > 0
                invariant
                    0 <= i <= n,
                    n == rows@.len(),
                    grid.wf(),
                    undo_rows_m(rows@, old(grid)@) == undo_rows_m(rows@.take(i as int), grid@),
                decreases i,
            {
                proof {
                    assert(rows@.take(i as int).drop_last() =~= rows@.take(i - 1));
                    assert(rows@.take(i as int).last() == rows@[i - 1]);
                }
                let idx = rows[i - 1].0;
                grid.insert_row(idx);
                grid.restore_row_cells(idx, &rows[i - 1].1);
                i = i - 1;
            }
            proof { assert(rows@.take(0) =~= Seq::<(usize, Vec<(usize, Cell)>)>::empty()); }
            viewport.update_visible_range(grid);
        },
        EditAction::ClearCells { cells } => {
            let n: usize = cells.len();
            let mut i: usize = 0;
            proof { assert(cells@.skip(0) =~= cells@); }
            while i < n
                invariant
                    0 <= i <= n,
                    n == cells@.len(),
                    grid.wf(),
                    put_values_m(cells@, old(grid)@) == put_values_m(cells@.skip(i as int), grid@),
                decreases n - i,
            {
                proof {
                    assert(cells@.skip(i as int).subrange(
                        1, cells@.skip(i as int).len() as int) =~= cells@.skip(i + 1));
                    assert(cells@.skip(i as int)[0] == cells@[i as int]);
                }
                grid.set_value(cells[i].0, cells[i].1, cells[i].2.duplicate());
                i = i + 1;
            }
        },
        EditAction::SetMultipleCells { cells } => {
            let n: usize = cells.len();
            let mut i: usize = 0;
            proof { assert(cells@.skip(0) =~= cells@); }
            while i < n
                invariant
                    0 <= i <= n,
                    n == cells@.len(),
                    grid.wf(),
                    put_changes_m(cells@, old(grid)@, false)
                        == put_changes_m(cells@.skip(i as int), grid@, false),
                decreases n - i,
            {
                proof {
                    assert(cells@.skip(i as int).subrange(
                        1, cells@.skip(i as int).len() as int) =~= cells@.skip(i + 1));
                    assert(cells@.skip(i as int)[0] == cells@[i as int]);
                }
                grid.set_value(cells[i].0, cells[i].1, cells[i].2.duplicate());
                i = i + 1;
            }
        },
        EditAction::SetStyle { row, col, old_style, .. } => {
            grid.set_cell_style_fields(*row, *col, old_style);
        },
    }
}

/// Replays the new state of one entry; mirrors [`apply_redo`] exactly.
#[verifier::rlimit(80)]
fn apply_redo_exec(action: &EditAction, grid: &mut Grid, viewport: &mut Viewport)
    requires
        old(grid).wf(),
        old(viewport).wf(),
    ensures
        final(grid).wf(),
        final(viewport).wf(),
        final(grid)@ == apply_redo(*action, old(grid)@),
        viewport_after(*action, *old(viewport), *final(viewport), final(grid)@),
{
    match action {
        EditAction::SetValue { row, col, new_value, .. } => {
            grid.set_value(*row, *col, new_value.duplicate());
        },
        EditAction::InsertRow { index, cells } => {
            grid.insert_row(*index);
            grid.restore_row_cells(*index, cells);
            viewport.update_visible_range(grid);
        },
        EditAction::DeleteRow { index, .. } => {
            grid.delete_row(*index);
            viewport.update_visible_range(grid);
        },
        EditAction::InsertColumn { index, cells } => {
            grid.insert_column(*index);
            grid.restore_column_cells(*index, cells);
            viewport.update_visible_range(grid);
        },
        EditAction::DeleteColumn { index, .. } => {
            grid.delete_column(*index);
            viewport.update_visible_range(grid);
        },
        EditAction::DeleteRows { rows } => {
            let rows0: usize = grid.row_count();
            let mut k: usize = rows0;
            while k > 0
                invariant
                    0 <= k <= rows0,
                    grid.wf(),
                    sweep_delete_m(rows@, old(grid)@, rows0 as nat)
                        == sweep_delete_m(rows@, grid@, k as nat),
                decreases k,
            {
                let hit = batch_lists_row(rows, k - 1);
                if hit {
                    grid.delete_row(k - 1);
                }
                k = k - 1;
            }
            viewport.update_visible_range(grid);
        },
        EditAction::ClearCells { cells } => {
            let n: usize = cells.len();
            let mut i: usize = 0;
            proof { assert(cells@.skip(0) =~= cells@); }
            while i < n
                invariant
                    0 <= i <= n,
                    n == cells@.len(),
                    grid.wf(),
                    clear_values_m(cells@, old(grid)@)
                        == clear_values_m(cells@.skip(i as int), grid@),
                decreases n - i,
            {
                proof {
                    assert(cells@.skip(i as int).subrange(
                        1, cells@.skip(i as int).len() as int) =~= cells@.skip(i + 1));
                    assert(cells@.skip(i as int)[0] == cells@[i as int]);
                }
                grid.set_value(cells[i].0, cells[i].1, CellValue::Empty);
                i = i + 1;
            }
        },
        EditAction::SetMultipleCells { cells } => {
            let n: usize = cells.len();
            let mut i: usize = 0;
            proof { assert(cells@.skip(0) =~= cells@); }
            while i < n
                invariant
                    0 <= i <= n,
                    n == cells@.len(),
                    grid.wf(),
                    put_changes_m(cells@, old(grid)@, true)
                        == put_changes_m(cells@.skip(i as int), grid@, true),
                decreases n - i,
            {
                proof {
                    assert(cells@.skip(i as int).subrange(
                        1, cells@.skip(i as int).len() as int) =~= cells@.skip(i + 1));
                    assert(cells@.skip(i as int)[0] == cells@[i as int]);
                }
                grid.set_value(cells[i].0, cells[i].1, cells[i].3.duplicate());
                i = i + 1;
            }
        },
        EditAction::SetStyle { row, col, new_style, .. } => {
            grid.set_cell_style_fields(*row, *col, new_style);
        },
    }
}

/// Whether the deleted-row batch lists row `r`; mirrors [`has_index`].
fn batch_lists_row(rows: &Vec<(usize, Vec<(usize, Cell)>)>, r: usize) -> (hit: bool)
    ensures
        hit == has_index(rows@, r as int),
{
    let n: usize = rows.len();
    let mut j: usize = 0;
    while j < n
        invariant
            0 <= j <= n,
            n == rows@.len(),
            forall|x: int| 0 <= x < j ==> (#[trigger] rows@[x]).0 != r,
        decreases n - j,
    {
        if rows[j].0 == r {
            proof { assert((rows@[j as int]).0 as int == r as int); }
            return true;
        }
        j = j + 1;
    }
    false
}

} // verus!
