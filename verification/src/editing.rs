//! Cell editing state: which cell, if any, an edit is in progress on.
//!
//! Editing respects per-column and per-cell editable flags; committing a
//! value goes through the grid's bounds-checked write.

use vstd::prelude::*;
use crate::grid::{Grid, GridView, cell_at};
use crate::values::CellValue;
use crate::undo::set_value_m;

verus! {

/// Whether an edit may start at the position: it must be in bounds, the
/// column's configuration (if any) must allow editing, and the stored cell
/// (if any) must allow editing.
pub open spec fn editable_at(g: GridView, r: int, c: int) -> bool {
    &&& 0 <= r < g.rows
    &&& 0 <= c < g.cols
    &&& (c < g.configs.len() ==> g.configs[c].editable)
    &&& cell_at(g, r, c).editable
}

/// Whether an edit is in progress and where.
pub struct EditingState {
    is_editing: bool,
    editing_cell: Option<(usize, usize)>,
}

impl EditingState {
    /// No edit in progress.
    pub fn new() -> (r: EditingState)
        ensures
            !r.is_editing(),
            r.editing_cell_spec() is None,
    {
        EditingState { is_editing: false, editing_cell: None }
    }

    /// The edited position, if any (model form).
    pub closed spec fn editing_cell_spec(&self) -> Option<(int, int)> {
        match self.editing_cell {
            Some(p) => Some((p.0 as int, p.1 as int)),
            None => None,
        }
    }

    /// Whether an edit is in progress (model form).
    pub closed spec fn is_editing(&self) -> bool {
        self.is_editing
    }

    /// Starts editing a cell if it is editable; returns whether it did.
    pub fn start_edit(&mut self, row: usize, col: usize, grid: &Grid) -> (r: bool)
        requires
            grid.wf(),
        ensures
            r == editable_at(grid@, row as int, col as int),
            r ==> final(self).is_editing()
                && final(self).editing_cell_spec() == Some((row as int, col as int)),
            !r ==> *final(self) == *old(self),
    {
        if row >= grid.row_count() || col >= grid.col_count() {
            return false;
        }
        if !grid.is_column_editable(col) {
            return false;
        }
        match grid.get_cell(row, col) {
            Some(cell) => {
                if !cell.editable {
                    return false;
                }
            },
            None => (),
        }
        self.is_editing = true;
        self.editing_cell = Some((row, col));
        true
    }

    /// Ends any edit in progress.
    pub fn end_edit(&mut self)
        ensures
            !final(self).is_editing(),
            final(self).editing_cell_spec() is None,
    {
        self.is_editing = false;
        self.editing_cell = None;
    }

    /// Whether an edit is in progress.
    pub fn editing_now(&self) -> (r: bool)
        ensures
            r == self.is_editing(),
    {
        self.is_editing
    }

    /// The edited position, if any.
    pub fn editing_cell(&self) -> (r: Option<(usize, usize)>)
        ensures
            match r {
                Some(p) => self.editing_cell_spec() == Some((p.0 as int, p.1 as int)),
                None => self.editing_cell_spec() is None,
            },
    {
        self.editing_cell
    }

    /// Writes text into the cell being edited; a call for any other
    /// position, or outside an edit, does nothing.
    pub fn update_cell_value(&mut self, row: usize, col: usize, value: String, grid: &mut Grid)
        requires
            old(grid).wf(),
        ensures
            final(grid).wf(),
            *final(self) == *old(self),
            old(self).is_editing()
                && old(self).editing_cell_spec() == Some((row as int, col as int))
                ==> final(grid)@ == set_value_m(
                    old(grid)@, row as int, col as int,
                    crate::values::ValueView::Text(value@)),
            !(old(self).is_editing()
                && old(self).editing_cell_spec() == Some((row as int, col as int)))
                ==> *final(grid) == *old(grid),
    {
        if self.is_editing {
            match self.editing_cell {
                Some(p) => {
                    if p.0 == row && p.1 == col {
                        grid.set_value(row, col, CellValue::Text(value));
                    }
                },
                None => (),
            }
        }
    }
}

} // verus!
