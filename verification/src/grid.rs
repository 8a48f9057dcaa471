//! The grid: bounded dimensions, the sparse cell store, row/column
//! geometry, column configuration, sort and filter state, and the
//! structural operations over all of them.
//!
//! Mutating operations silently reject out-of-bounds positions, as the
//! widget convention demands; every accepted mutation is specified exactly
//! against the [`GridView`] model.

use vstd::prelude::*;
use vstd::string::*;
use crate::values::{
    Cell, CellValue, CellView, ValueView, ColumnConfig, ColumnConfigView, DataType,
    default_cell_view, value_text, DEFAULT_COL_WIDTH,
};
use crate::store::{
    CellStore, map_insert_row, map_delete_row, map_insert_col, map_delete_col,
    map_clip, restrict_row, restrict_col, map_of_row_pairs, map_of_col_pairs,
    row_pairs_clipped, col_pairs_clipped,
};
use crate::values::CellStyle;
use crate::text::{dec_rep, u64_to_string, Ord3};
use crate::sort::{keys_le, keys_cmp, sort_rows, key_at, vals_view};

verus! {

/// Largest accepted row or column count.
pub const MAX_DIM: usize = 0x0800_0000;

/// Largest accepted row height or column width, in pixels.
pub const MAX_PIX: u32 = 0x0080_0000;

/// Default row height in pixels.
pub const DEFAULT_ROW_HEIGHT: u32 = 25;

/// Smallest accepted column width, in pixels.
pub const MIN_COL_WIDTH: u32 = 20;

/// Smallest accepted row height, in pixels.
pub const MIN_ROW_HEIGHT: u32 = 15;

/// Default width of the row-header strip, in pixels.
pub const DEFAULT_ROW_HEADER_WIDTH: u32 = 60;

/// Default height of the column-header strip, in pixels.
pub const DEFAULT_COL_HEADER_HEIGHT: u32 = 30;

// ---------------------------------------------------------------------------
// Pixel sums
// ---------------------------------------------------------------------------

/// Sum of the first `i` lengths.
pub open spec fn sum_prefix(s: Seq<u32>, i: int) -> int
    decreases i,
{
    if i <= 0 {
        0
    } else {
        sum_prefix(s, i - 1) + s[i - 1]
    }
}

/// A prefix sum of lengths bounded by `cap` is bounded by `i * cap`, and is
/// never negative.
pub proof fn lemma_sum_prefix_bound(s: Seq<u32>, i: int, cap: int)
    requires
        0 <= i <= s.len(),
        forall|j: int| 0 <= j < s.len() ==> s[j] <= cap,
    ensures
        0 <= sum_prefix(s, i) <= i * cap,
    decreases i,
{
    if i == 0 {
        assert(0int * cap == 0) by (nonlinear_arith);
    } else {
        lemma_sum_prefix_bound(s, i - 1, cap);
        assert(s[i - 1] <= cap);
        assert((i - 1) * cap + cap == i * cap) by (nonlinear_arith);
        assert(sum_prefix(s, i) == sum_prefix(s, i - 1) + s[i - 1]);
    }
}

// ---------------------------------------------------------------------------
// Column letters
// ---------------------------------------------------------------------------

/// Bijective base-26 letters for `n >= 1`: 1 is `A`, 26 is `Z`, 27 is `AA`.
pub open spec fn col_letters_rep(n: nat) -> Seq<char>
    recommends
        n >= 1,
    decreases n,
{
    if n <= 26 {
        seq!["ABCDEFGHIJKLMNOPQRSTUVWXYZ"@[n as int - 1]]
    } else {
        col_letters_rep(((n - 1) / 26) as nat).push(
            "ABCDEFGHIJKLMNOPQRSTUVWXYZ"@[(n as int - 1) % 26],
        )
    }
}

fn letter_str(d: usize) -> (r: String)
    requires
        d < 26,
    ensures
        r@ == seq!["ABCDEFGHIJKLMNOPQRSTUVWXYZ"@[d as int]],
{
    let alpha = "ABCDEFGHIJKLMNOPQRSTUVWXYZ";
    proof { reveal_strlit("ABCDEFGHIJKLMNOPQRSTUVWXYZ"); }
    let piece = alpha.substring_char(d, d + 1);
    proof {
        assert(piece@ =~= seq!["ABCDEFGHIJKLMNOPQRSTUVWXYZ"@[d as int]]);
    }
    piece.to_owned()
}

/// Bijective base-26 rendering of `n >= 1`; mirrors [`col_letters_rep`].
fn col_letters(n: usize) -> (r: String)
    requires
        1 <= n,
    ensures
        r@ == col_letters_rep(n as nat),
    decreases n,
{
    if n <= 26 {
        letter_str(n - 1)
    } else {
        let mut s = col_letters((n - 1) / 26);
        let tail = letter_str((n - 1) % 26);
        s.append(tail.as_str());
        proof {
            assert(s@ =~= col_letters_rep(((n - 1) / 26) as nat).push(
                "ABCDEFGHIJKLMNOPQRSTUVWXYZ"@[(n - 1) % 26]));
        }
        s
    }
}

// ---------------------------------------------------------------------------
// The grid
// ---------------------------------------------------------------------------

/// Mathematical model of a [`Grid`].
pub struct GridView {
    pub rows: int,
    pub cols: int,
    pub cells: Map<(int, int), CellView>,
    pub widths: Seq<u32>,
    pub heights: Seq<u32>,
    pub configs: Seq<ColumnConfigView>,
    pub sort_column: Option<int>,
    pub sort_ascending: bool,
    pub sort_columns: Seq<(int, bool)>,
    pub frozen_rows: int,
    pub frozen_cols: int,
    pub filtered: Set<int>,
    pub row_header_width: int,
    pub col_header_height: int,
    pub show_headers: bool,
    pub readonly: bool,
    pub enable_context_menu: bool,
    pub enable_row_selection: bool,
    pub enable_col_selection: bool,
    pub show_grid_lines: bool,
    pub alternate_row_colors: bool,
}

/// The sparse, bounded cell store with its geometry and per-grid state.
pub struct Grid {
    rows: usize,
    cols: usize,
    cells: CellStore,
    column_configs: Vec<ColumnConfig>,
    col_widths: Vec<u32>,
    row_heights: Vec<u32>,
    sort_column: Option<usize>,
    sort_ascending: bool,
    sort_columns: Vec<(usize, bool)>,
    filtered_rows: Vec<usize>,
    row_header_width: u32,
    col_header_height: u32,
    show_headers: bool,
    frozen_rows: usize,
    frozen_cols: usize,
    readonly: bool,
    enable_context_menu: bool,
    enable_row_selection: bool,
    enable_col_selection: bool,
    show_grid_lines: bool,
    alternate_row_colors: bool,
}

impl View for Grid {
    type V = GridView;

    closed spec fn view(&self) -> GridView {
        GridView {
            rows: self.rows as int,
            cols: self.cols as int,
            cells: self.cells@,
            widths: self.col_widths@,
            heights: self.row_heights@,
            configs: self.column_configs@.map_values(|c: ColumnConfig| c@),
            sort_column: match self.sort_column {
                Some(c) => Some(c as int),
                None => None,
            },
            sort_ascending: self.sort_ascending,
            sort_columns: self.sort_columns@.map_values(|p: (usize, bool)| (p.0 as int, p.1)),
            frozen_rows: self.frozen_rows as int,
            frozen_cols: self.frozen_cols as int,
            filtered: self.filtered_rows@.map_values(|r: usize| r as int).to_set(),
            row_header_width: self.row_header_width as int,
            col_header_height: self.col_header_height as int,
            show_headers: self.show_headers,
            readonly: self.readonly,
            enable_context_menu: self.enable_context_menu,
            enable_row_selection: self.enable_row_selection,
            enable_col_selection: self.enable_col_selection,
            show_grid_lines: self.show_grid_lines,
            alternate_row_colors: self.alternate_row_colors,
        }
    }
}

/// The value shown at a position: the stored cell's value, or empty where
/// nothing is stored.
pub open spec fn value_at(g: GridView, r: int, c: int) -> ValueView {
    if g.cells.dom().contains((r, c)) {
        g.cells[(r, c)].value
    } else {
        ValueView::Empty
    }
}

/// The cell model at a position: the stored cell, or the default cell where
/// nothing is stored.
pub open spec fn cell_at(g: GridView, r: int, c: int) -> CellView {
    if g.cells.dom().contains((r, c)) {
        g.cells[(r, c)]
    } else {
        default_cell_view()
    }
}

impl Grid {
    /// The grid's invariant: the store is well formed, its keys lie inside
    /// the bounds, the bounds are capped, the geometry arrays match the
    /// bounds, every length is capped, and the hidden-row list is
    /// duplicate-free.
    pub closed spec fn wf(&self) -> bool {
        &&& self.cells.wf()
        &&& self.rows <= MAX_DIM
        &&& self.cols <= MAX_DIM
        &&& self.row_heights@.len() == self.rows
        &&& self.col_widths@.len() == self.cols
        &&& forall|j: int| 0 <= j < self.row_heights@.len()
            ==> #[trigger] self.row_heights@[j] <= MAX_PIX
        &&& forall|j: int| 0 <= j < self.col_widths@.len()
            ==> #[trigger] self.col_widths@[j] <= MAX_PIX
        &&& forall|k: (int, int)| #[trigger] self.cells@.dom().contains(k)
            ==> 0 <= k.0 < self.rows && 0 <= k.1 < self.cols
        &&& forall|i: int, j: int| 0 <= i < j < self.filtered_rows@.len()
            ==> self.filtered_rows@[i] != self.filtered_rows@[j]
    }

    /// The consequences of well-formedness, for callers outside this
    /// module: capped bounds, geometry arrays matching them, capped
    /// lengths, and stored keys inside the bounds.
    pub proof fn wf_bounds(&self)
        requires
            self.wf(),
        ensures
            self@.rows <= MAX_DIM as int,
            self@.cols <= MAX_DIM as int,
            self@.heights.len() == self@.rows,
            self@.widths.len() == self@.cols,
            forall|j: int| 0 <= j < self@.heights.len()
                ==> #[trigger] self@.heights[j] <= MAX_PIX,
            forall|j: int| 0 <= j < self@.widths.len()
                ==> #[trigger] self@.widths[j] <= MAX_PIX,
            forall|k: (int, int)| #[trigger] self@.cells.dom().contains(k)
                ==> 0 <= k.0 < self@.rows && 0 <= k.1 < self@.cols,
    {
    }

    /// Creates a grid with the given dimensions, default geometry, and one
    /// default column configuration per column (`A`, `B`, ... display
    /// names).
    pub fn new(rows: usize, cols: usize) -> (r: Grid)
        requires
            rows <= MAX_DIM,
            cols <= MAX_DIM,
        ensures
            r.wf(),
            r@.rows == rows as int,
            r@.cols == cols as int,
            r@.cells == Map::<(int, int), CellView>::empty(),
            r@.widths == Seq::new(cols as nat, |i: int| DEFAULT_COL_WIDTH),
            r@.heights == Seq::new(rows as nat, |i: int| DEFAULT_ROW_HEIGHT),
            r@.configs.len() == cols as int,
            forall|i: int| 0 <= i < cols as int ==> {
                &&& (#[trigger] r@.configs[i]).display_name == col_letters_rep((i + 1) as nat)
                &&& r@.configs[i].internal_name == "col_"@ + dec_rep(i as nat)
                &&& r@.configs[i].width == DEFAULT_COL_WIDTH as int
                &&& r@.configs[i].data_type == DataType::Text
                &&& r@.configs[i].editable
            },
            r@.sort_column is None,
            r@.sort_ascending,
            r@.sort_columns.len() == 0,
            r@.frozen_rows == 0 && r@.frozen_cols == 0,
            r@.filtered == Set::<int>::empty(),
            r@.row_header_width == DEFAULT_ROW_HEADER_WIDTH as int,
            r@.col_header_height == DEFAULT_COL_HEADER_HEIGHT as int,
            r@.show_headers,
            !r@.readonly,
    {
        let mut column_configs: Vec<ColumnConfig> = Vec::new();
        let mut i: usize = 0;
        while i < cols
            invariant
                0 <= i <= cols,
                column_configs@.len() == i,
                forall|j: int| 0 <= j < i as int ==> {
                    &&& (#[trigger] column_configs@[j])@.display_name
                        == col_letters_rep((j + 1) as nat)
                    &&& column_configs@[j]@.internal_name == "col_"@ + dec_rep(j as nat)
                    &&& column_configs@[j]@.width == DEFAULT_COL_WIDTH as int
                    &&& column_configs@[j]@.data_type == DataType::Text
                    &&& column_configs@[j]@.editable
                },
            decreases cols - i,
        {
            let letters = col_letters(i + 1);
            proof { reveal_strlit("col_"); }
            let mut internal = String::from_str("col_");
            let number = u64_to_string(i as u64);
            internal.append(number.as_str());
            let config = ColumnConfig::new(letters, internal);
            column_configs.push(config);
            i = i + 1;
        }
        let grid = Grid {
            rows,
            cols,
            cells: CellStore::new(),
            column_configs,
            col_widths: vec![DEFAULT_COL_WIDTH; cols],
            row_heights: vec![DEFAULT_ROW_HEIGHT; rows],
            sort_column: None,
            sort_ascending: true,
            sort_columns: Vec::new(),
            filtered_rows: Vec::new(),
            row_header_width: DEFAULT_ROW_HEADER_WIDTH,
            col_header_height: DEFAULT_COL_HEADER_HEIGHT,
            show_headers: true,
            frozen_rows: 0,
            frozen_cols: 0,
            readonly: false,
            enable_context_menu: true,
            enable_row_selection: true,
            enable_col_selection: true,
            show_grid_lines: true,
            alternate_row_colors: false,
        };
        proof {
            assert(grid@.widths =~= Seq::new(cols as nat, |i: int| DEFAULT_COL_WIDTH));
            assert(grid@.heights =~= Seq::new(rows as nat, |i: int| DEFAULT_ROW_HEIGHT));
            assert(grid@.filtered =~= Set::<int>::empty());
        }
        grid
    }

    /// Number of rows.
    pub fn row_count(&self) -> (r: usize)
        ensures
            r as int == self@.rows,
    {
        self.rows
    }

    /// Number of columns.
    pub fn col_count(&self) -> (r: usize)
        ensures
            r as int == self@.cols,
    {
        self.cols
    }

    /// The stored cell at a position, if any.
    pub fn get_cell(&self, row: usize, col: usize) -> (r: Option<&Cell>)
        requires
            self.wf(),
        ensures
            match r {
                Some(c) => self@.cells.dom().contains((row as int, col as int))
                    && c@ == self@.cells[(row as int, col as int)],
                None => !self@.cells.dom().contains((row as int, col as int)),
            },
    {
        self.cells.get(row, col)
    }

    /// Writes a whole cell; silently rejected outside the bounds.
    pub fn set_cell(&mut self, row: usize, col: usize, cell: Cell)
        requires
            old(self).wf(),
        ensures
            final(self).wf(),
            row < old(self)@.rows && col < old(self)@.cols ==> final(self)@ == (GridView {
                cells: old(self)@.cells.insert((row as int, col as int), cell@),
                ..old(self)@
            }),
            !(row < old(self)@.rows && col < old(self)@.cols) ==> final(self)@ == old(self)@,
    {
        if row < self.rows && col < self.cols {
            self.cells.set(row, col, cell);
        }
    }

    /// Writes a value, creating a default cell if none is stored there;
    /// silently rejected outside the bounds.
    pub fn set_value(&mut self, row: usize, col: usize, value: CellValue)
        requires
            old(self).wf(),
        ensures
            final(self).wf(),
            row < old(self)@.rows && col < old(self)@.cols ==> final(self)@ == (GridView {
                cells: old(self)@.cells.insert(
                    (row as int, col as int),
                    CellView {
                        value: value@,
                        ..cell_at(old(self)@, row as int, col as int)
                    },
                ),
                ..old(self)@
            }),
            !(row < old(self)@.rows && col < old(self)@.cols) ==> final(self)@ == old(self)@,
    {
        if row < self.rows && col < self.cols {
            let mut cell = match self.cells.get(row, col) {
                Some(c) => c.duplicate(),
                None => Cell::default(),
            };
            cell.value = value;
            self.cells.set(row, col, cell);
        }
    }

    /// The value at a position: empty where nothing is stored.
    pub fn get_value(&self, row: usize, col: usize) -> (r: CellValue)
        requires
            self.wf(),
        ensures
            r@ == value_at(self@, row as int, col as int),
    {
        match self.cells.get(row, col) {
            Some(c) => c.value.duplicate(),
            None => CellValue::Empty,
        }
    }

    /// The text a position displays as; empty where nothing is stored.
    pub fn get_value_string(&self, row: usize, col: usize) -> (r: String)
        requires
            self.wf(),
        ensures
            r@ == value_text(value_at(self@, row as int, col as int)),
    {
        self.get_value(row, col).to_string()
    }

    /// Marks or unmarks the stored cell at a position as modified; a
    /// position without a stored cell is left alone.
    pub fn set_modified(&mut self, row: usize, col: usize, modified: bool)
        requires
            old(self).wf(),
        ensures
            final(self).wf(),
            old(self)@.cells.dom().contains((row as int, col as int)) ==> final(self)@
                == (GridView {
                    cells: old(self)@.cells.insert(
                        (row as int, col as int),
                        CellView {
                            modified,
                            ..old(self)@.cells[(row as int, col as int)]
                        },
                    ),
                    ..old(self)@
                }),
            !old(self)@.cells.dom().contains((row as int, col as int))
                ==> final(self)@ == old(self)@,
    {
        match self.cells.get(row, col) {
            Some(c) => {
                let mut cell = c.duplicate();
                cell.modified = modified;
                self.cells.set(row, col, cell);
            },
            None => (),
        }
    }

    // -----------------------------------------------------------------------
    // Geometry
    // -----------------------------------------------------------------------

    /// Width of a column in pixels; the default width outside the bounds.
    pub fn col_width(&self, col: usize) -> (r: u32)
        requires
            self.wf(),
        ensures
            col < self@.cols ==> r == self@.widths[col as int],
            col >= self@.cols ==> r == DEFAULT_COL_WIDTH,
            r <= MAX_PIX,
    {
        if col < self.cols {
            self.col_widths[col]
        } else {
            DEFAULT_COL_WIDTH
        }
    }

    /// Sets a column's width, clamped to the accepted range; silently
    /// rejected outside the bounds.
    pub fn set_col_width(&mut self, col: usize, width: u32)
        requires
            old(self).wf(),
        ensures
            final(self).wf(),
            col < old(self)@.cols ==> final(self)@ == (GridView {
                widths: old(self)@.widths.update(
                    col as int,
                    if width < MIN_COL_WIDTH { MIN_COL_WIDTH }
                    else if width > MAX_PIX { MAX_PIX }
                    else { width },
                ),
                ..old(self)@
            }),
            col >= old(self)@.cols ==> final(self)@ == old(self)@,
    {
        if col < self.cols {
            let w = if width < MIN_COL_WIDTH {
                MIN_COL_WIDTH
            } else if width > MAX_PIX {
                MAX_PIX
            } else {
                width
            };
            self.col_widths.set(col, w);
        }
    }

    /// Height of a row in pixels; the default height outside the bounds.
    pub fn row_height(&self, row: usize) -> (r: u32)
        requires
            self.wf(),
        ensures
            row < self@.rows ==> r == self@.heights[row as int],
            row >= self@.rows ==> r == DEFAULT_ROW_HEIGHT,
            r <= MAX_PIX,
    {
        if row < self.rows {
            self.row_heights[row]
        } else {
            DEFAULT_ROW_HEIGHT
        }
    }

    /// Sets a row's height, clamped to the accepted range; silently
    /// rejected outside the bounds.
    pub fn set_row_height(&mut self, row: usize, height: u32)
        requires
            old(self).wf(),
        ensures
            final(self).wf(),
            row < old(self)@.rows ==> final(self)@ == (GridView {
                heights: old(self)@.heights.update(
                    row as int,
                    if height < MIN_ROW_HEIGHT { MIN_ROW_HEIGHT }
                    else if height > MAX_PIX { MAX_PIX }
                    else { height },
                ),
                ..old(self)@
            }),
            row >= old(self)@.rows ==> final(self)@ == old(self)@,
    {
        if row < self.rows {
            let h = if height < MIN_ROW_HEIGHT {
                MIN_ROW_HEIGHT
            } else if height > MAX_PIX {
                MAX_PIX
            } else {
                height
            };
            self.row_heights.set(row, h);
        }
    }

    /// Pixel x coordinate of a column's left edge.
    pub fn col_x_position(&self, col: usize) -> (r: u64)
        requires
            self.wf(),
            col <= self@.cols,
        ensures
            r as int == sum_prefix(self@.widths, col as int),
    {
        proof { lemma_sum_prefix_bound(self@.widths, col as int, MAX_PIX as int); }
        let mut x: u64 = 0;
        let mut c: usize = 0;
        while c < col
            invariant
                0 <= c <= col,
                x as int == sum_prefix(self@.widths, c as int),
                x <= (c as int) * (MAX_PIX as int),
            decreases col - c,
        {
            x = x + self.col_widths[c] as u64;
            c = c + 1;
        }
        x
    }

    /// Pixel y coordinate of a row's top edge.
    pub fn row_y_position(&self, row: usize) -> (r: u64)
        requires
            self.wf(),
            row <= self@.rows,
        ensures
            r as int == sum_prefix(self@.heights, row as int),
    {
        proof { lemma_sum_prefix_bound(self@.heights, row as int, MAX_PIX as int); }
        let mut y: u64 = 0;
        let mut r: usize = 0;
        while r < row
            invariant
                0 <= r <= row,
                y as int == sum_prefix(self@.heights, r as int),
                y <= (r as int) * (MAX_PIX as int),
            decreases row - r,
        {
            y = y + self.row_heights[r] as u64;
            r = r + 1;
        }
        y
    }

    /// Total pixel width of all columns.
    pub fn total_width(&self) -> (r: u64)
        requires
            self.wf(),
        ensures
            r as int == sum_prefix(self@.widths, self@.cols),
    {
        self.col_x_position(self.cols)
    }

    /// Total pixel height of all rows.
    pub fn total_height(&self) -> (r: u64)
        requires
            self.wf(),
        ensures
            r as int == sum_prefix(self@.heights, self@.rows),
    {
        self.row_y_position(self.rows)
    }

    /// Cumulative pixel extent of the frozen rows, as a `(top, bottom)`
    /// pair; `(0, 0)` when nothing is frozen.
    pub fn frozen_row_bounds(&self) -> (r: (u64, u64))
        requires
            self.wf(),
        ensures
            r.0 == 0,
            r.1 as int == sum_prefix(
                self@.heights,
                if self@.frozen_rows < self@.rows { self@.frozen_rows } else { self@.rows },
            ),
            self@.frozen_rows == 0 ==> r.1 == 0,
    {
        let n: usize = if self.frozen_rows < self.rows { self.frozen_rows } else { self.rows };
        let y = self.row_y_position(n);
        (0, y)
    }

    /// Cumulative pixel extent of the frozen columns, as a `(left, right)`
    /// pair; `(0, 0)` when nothing is frozen.
    pub fn frozen_col_bounds(&self) -> (r: (u64, u64))
        requires
            self.wf(),
        ensures
            r.0 == 0,
            r.1 as int == sum_prefix(
                self@.widths,
                if self@.frozen_cols < self@.cols { self@.frozen_cols } else { self@.cols },
            ),
            self@.frozen_cols == 0 ==> r.1 == 0,
    {
        let n: usize = if self.frozen_cols < self.cols { self.frozen_cols } else { self.cols };
        let x = self.col_x_position(n);
        (0, x)
    }

    // -----------------------------------------------------------------------
    // Structural operations
    // -----------------------------------------------------------------------

    /// Resizes the grid: geometry arrays are truncated or extended with
    /// defaults, and any stored cell outside the new bounds is discarded.
    /// This is destructive and not invertible here.
    pub fn resize(&mut self, rows: usize, cols: usize)
        requires
            old(self).wf(),
            rows <= MAX_DIM,
            cols <= MAX_DIM,
        ensures
            final(self).wf(),
            final(self)@ == (GridView {
                rows: rows as int,
                cols: cols as int,
                cells: map_clip(old(self)@.cells, rows as int, cols as int),
                widths: if cols as int <= old(self)@.cols {
                    old(self)@.widths.take(cols as int)
                } else {
                    old(self)@.widths + Seq::new(
                        (cols - old(self)@.cols) as nat,
                        |i: int| DEFAULT_COL_WIDTH,
                    )
                },
                heights: if rows as int <= old(self)@.rows {
                    old(self)@.heights.take(rows as int)
                } else {
                    old(self)@.heights + Seq::new(
                        (rows - old(self)@.rows) as nat,
                        |i: int| DEFAULT_ROW_HEIGHT,
                    )
                },
                ..old(self)@
            }),
    {
        self.cells.retain_bounds(rows, cols);
        if cols > self.cols {
            self.col_widths.resize(cols, DEFAULT_COL_WIDTH);
        } else {
            self.col_widths.truncate(cols);
        }
        if rows > self.rows {
            self.row_heights.resize(rows, DEFAULT_ROW_HEIGHT);
        } else {
            self.row_heights.truncate(rows);
        }
        self.rows = rows;
        self.cols = cols;
        proof {
            if cols as int <= old(self)@.cols {
                assert(self.col_widths@ =~= old(self)@.widths.take(cols as int));
            } else {
                assert(self.col_widths@ =~= old(self)@.widths + Seq::new(
                    (cols - old(self)@.cols) as nat, |i: int| DEFAULT_COL_WIDTH));
            }
            if rows as int <= old(self)@.rows {
                assert(self.row_heights@ =~= old(self)@.heights.take(rows as int));
            } else {
                assert(self.row_heights@ =~= old(self)@.heights + Seq::new(
                    (rows - old(self)@.rows) as nat, |i: int| DEFAULT_ROW_HEIGHT));
            }
        }
    }

    /// Discards every stored cell; geometry and state stay.
    pub fn clear(&mut self)
        requires
            old(self).wf(),
        ensures
            final(self).wf(),
            final(self)@ == (GridView {
                cells: Map::<(int, int), CellView>::empty(),
                ..old(self)@
            }),
    {
        self.cells.clear();
    }

    /// Inserts a row at `at_index`: stored keys at or below shift down and
    /// a default row height appears there.  Silently rejected when
    /// `at_index` exceeds the row count or the grid is at capacity.
    pub fn insert_row(&mut self, at_index: usize)
        requires
            old(self).wf(),
        ensures
            final(self).wf(),
            at_index <= old(self)@.rows && old(self)@.rows < MAX_DIM ==> final(self)@
                == (GridView {
                    rows: old(self)@.rows + 1,
                    cells: map_insert_row(old(self)@.cells, at_index as int),
                    heights: old(self)@.heights.insert(at_index as int, DEFAULT_ROW_HEIGHT),
                    ..old(self)@
                }),
            !(at_index <= old(self)@.rows && old(self)@.rows < MAX_DIM)
                ==> final(self)@ == old(self)@,
    {
        if at_index > self.rows || self.rows >= MAX_DIM {
            return;
        }
        self.cells.shift_rows_from(at_index);
        self.row_heights.insert(at_index, DEFAULT_ROW_HEIGHT);
        self.rows = self.rows + 1;
    }

    /// Deletes row `index`: its stored cells vanish, later rows shift up,
    /// and its height entry is removed.  Silently rejected out of bounds or
    /// on the last remaining row.
    pub fn delete_row(&mut self, index: usize)
        requires
            old(self).wf(),
        ensures
            final(self).wf(),
            index < old(self)@.rows && old(self)@.rows > 1 ==> final(self)@ == (GridView {
                rows: old(self)@.rows - 1,
                cells: map_delete_row(old(self)@.cells, index as int),
                heights: old(self)@.heights.remove(index as int),
                ..old(self)@
            }),
            !(index < old(self)@.rows && old(self)@.rows > 1)
                ==> final(self)@ == old(self)@,
    {
        if index >= self.rows || self.rows <= 1 {
            return;
        }
        self.cells.collapse_row(index);
        self.row_heights.remove(index);
        self.rows = self.rows - 1;
    }

    /// Inserts a column at `at_index`; the mirror image of
    /// [`Grid::insert_row`].
    pub fn insert_column(&mut self, at_index: usize)
        requires
            old(self).wf(),
        ensures
            final(self).wf(),
            at_index <= old(self)@.cols && old(self)@.cols < MAX_DIM ==> final(self)@
                == (GridView {
                    cols: old(self)@.cols + 1,
                    cells: map_insert_col(old(self)@.cells, at_index as int),
                    widths: old(self)@.widths.insert(at_index as int, DEFAULT_COL_WIDTH),
                    ..old(self)@
                }),
            !(at_index <= old(self)@.cols && old(self)@.cols < MAX_DIM)
                ==> final(self)@ == old(self)@,
    {
        if at_index > self.cols || self.cols >= MAX_DIM {
            return;
        }
        self.cells.shift_cols_from(at_index);
        self.col_widths.insert(at_index, DEFAULT_COL_WIDTH);
        self.cols = self.cols + 1;
    }

    /// Deletes column `index`; the mirror image of [`Grid::delete_row`].
    pub fn delete_column(&mut self, index: usize)
        requires
            old(self).wf(),
        ensures
            final(self).wf(),
            index < old(self)@.cols && old(self)@.cols > 1 ==> final(self)@ == (GridView {
                cols: old(self)@.cols - 1,
                cells: map_delete_col(old(self)@.cells, index as int),
                widths: old(self)@.widths.remove(index as int),
                ..old(self)@
            }),
            !(index < old(self)@.cols && old(self)@.cols > 1)
                ==> final(self)@ == old(self)@,
    {
        if index >= self.cols || self.cols <= 1 {
            return;
        }
        self.cells.collapse_col(index);
        self.col_widths.remove(index);
        self.cols = self.cols - 1;
    }

    /// Collects row `row` as `(column, cell)` pairs; their pair map is
    /// exactly that row's slice of the store.
    pub fn get_row_cells(&self, row: usize) -> (r: Vec<(usize, Cell)>)
        requires
            self.wf(),
        ensures
            map_of_row_pairs(r@, row as int) == restrict_row(self@.cells, row as int),
    {
        self.cells.row_pairs(row)
    }

    /// Collects column `col` as `(row, cell)` pairs; their pair map is
    /// exactly that column's slice of the store.
    pub fn get_column_cells(&self, col: usize) -> (r: Vec<(usize, Cell)>)
        requires
            self.wf(),
        ensures
            map_of_col_pairs(r@, col as int) == restrict_col(self@.cells, col as int),
    {
        self.cells.col_pairs(col)
    }

    /// Writes the given `(column, cell)` pairs back into row `row`,
    /// skipping pairs outside the bounds; a no-op for an out-of-bounds
    /// row.
    pub fn restore_row_cells(&mut self, row: usize, cells: &Vec<(usize, Cell)>)
        requires
            old(self).wf(),
        ensures
            final(self).wf(),
            row < old(self)@.rows ==> final(self)@ == (GridView {
                cells: old(self)@.cells.union_prefer_right(
                    row_pairs_clipped(cells@, row as int, old(self)@.cols),
                ),
                ..old(self)@
            }),
            row >= old(self)@.rows ==> final(self)@ == old(self)@,
    {
        if row >= self.rows {
            return;
        }
        let n: usize = cells.len();
        let mut i: usize = 0;
        proof {
            assert(row_pairs_clipped(cells@.take(0), row as int, old(self)@.cols)
                =~= Map::<(int, int), CellView>::empty());
            assert(old(self)@.cells.union_prefer_right(
                row_pairs_clipped(cells@.take(0), row as int, old(self)@.cols))
                =~= old(self)@.cells);
        }
        while i < n
            invariant
                0 <= i <= n,
                n == cells@.len(),
                row < old(self)@.rows,
                self.wf(),
                self@ == (GridView {
                    cells: old(self)@.cells.union_prefer_right(
                        row_pairs_clipped(cells@.take(i as int), row as int, old(self)@.cols),
                    ),
                    ..old(self)@
                }),
            decreases n - i,
        {
            let c = cells[i].0;
            proof {
                assert(cells@.take(i + 1).drop_last() =~= cells@.take(i as int));
                assert(cells@.take(i + 1).last() == cells@[i as int]);
            }
            if c < self.cols {
                let cell = cells[i].1.duplicate();
                proof {
                    assert(old(self)@.cells.union_prefer_right(
                        row_pairs_clipped(cells@.take(i + 1), row as int, old(self)@.cols))
                        =~= old(self)@.cells.union_prefer_right(
                            row_pairs_clipped(
                                cells@.take(i as int), row as int, old(self)@.cols))
                            .insert((row as int, c as int), cell@));
                }
                self.cells.set(row, c, cell);
            } else {
                proof {
                    assert(row_pairs_clipped(cells@.take(i + 1), row as int, old(self)@.cols)
                        =~= row_pairs_clipped(
                            cells@.take(i as int), row as int, old(self)@.cols));
                }
            }
            i = i + 1;
        }
        proof { assert(cells@.take(n as int) =~= cells@); }
    }

    /// Writes the given `(row, cell)` pairs back into column `col`,
    /// skipping pairs outside the bounds; a no-op for an out-of-bounds
    /// column.
    pub fn restore_column_cells(&mut self, col: usize, cells: &Vec<(usize, Cell)>)
        requires
            old(self).wf(),
        ensures
            final(self).wf(),
            col < old(self)@.cols ==> final(self)@ == (GridView {
                cells: old(self)@.cells.union_prefer_right(
                    col_pairs_clipped(cells@, col as int, old(self)@.rows),
                ),
                ..old(self)@
            }),
            col >= old(self)@.cols ==> final(self)@ == old(self)@,
    {
        if col >= self.cols {
            return;
        }
        let n: usize = cells.len();
        let mut i: usize = 0;
        proof {
            assert(col_pairs_clipped(cells@.take(0), col as int, old(self)@.rows)
                =~= Map::<(int, int), CellView>::empty());
            assert(old(self)@.cells.union_prefer_right(
                col_pairs_clipped(cells@.take(0), col as int, old(self)@.rows))
                =~= old(self)@.cells);
        }
        while i < n
            invariant
                0 <= i <= n,
                n == cells@.len(),
                col < old(self)@.cols,
                self.wf(),
                self@ == (GridView {
                    cells: old(self)@.cells.union_prefer_right(
                        col_pairs_clipped(cells@.take(i as int), col as int, old(self)@.rows),
                    ),
                    ..old(self)@
                }),
            decreases n - i,
        {
            let r = cells[i].0;
            proof {
                assert(cells@.take(i + 1).drop_last() =~= cells@.take(i as int));
                assert(cells@.take(i + 1).last() == cells@[i as int]);
            }
            if r < self.rows {
                let cell = cells[i].1.duplicate();
                proof {
                    assert(old(self)@.cells.union_prefer_right(
                        col_pairs_clipped(cells@.take(i + 1), col as int, old(self)@.rows))
                        =~= old(self)@.cells.union_prefer_right(
                            col_pairs_clipped(
                                cells@.take(i as int), col as int, old(self)@.rows))
                            .insert((r as int, col as int), cell@));
                }
                self.cells.set(r, col, cell);
            } else {
                proof {
                    assert(col_pairs_clipped(cells@.take(i + 1), col as int, old(self)@.rows)
                        =~= col_pairs_clipped(
                            cells@.take(i as int), col as int, old(self)@.rows));
                }
            }
            i = i + 1;
        }
        proof { assert(cells@.take(n as int) =~= cells@); }
    }

    /// Overwrites the style fields of the stored cell at a position; a
    /// position without a stored cell is left alone.
    pub fn set_cell_style_fields(&mut self, row: usize, col: usize, style: &CellStyle)
        requires
            old(self).wf(),
        ensures
            final(self).wf(),
            old(self)@.cells.dom().contains((row as int, col as int)) ==> final(self)@
                == (GridView {
                    cells: old(self)@.cells.insert(
                        (row as int, col as int),
                        CellView {
                            bg_color: style.bg_color,
                            fg_color: style.fg_color,
                            font_bold: style.font_bold,
                            font_italic: style.font_italic,
                            ..old(self)@.cells[(row as int, col as int)]
                        },
                    ),
                    ..old(self)@
                }),
            !old(self)@.cells.dom().contains((row as int, col as int))
                ==> final(self)@ == old(self)@,
    {
        match self.cells.get(row, col) {
            Some(c) => {
                let mut cell = c.duplicate();
                cell.bg_color = style.bg_color;
                cell.fg_color = style.fg_color;
                cell.font_bold = style.font_bold;
                cell.font_italic = style.font_italic;
                self.cells.set(row, col, cell);
            },
            None => (),
        }
    }
}

// ---------------------------------------------------------------------------
// Column letters, configuration, filters, sample data
// ---------------------------------------------------------------------------

/// The configuration a fresh grid gives column `i`.
pub open spec fn default_config_view(i: int) -> ColumnConfigView {
    ColumnConfigView {
        display_name: col_letters_rep((i + 1) as nat),
        internal_name: "col_"@ + dec_rep(i as nat),
        width: DEFAULT_COL_WIDTH as int,
        data_type: DataType::Text,
        editable: true,
        visible: true,
        sortable: true,
        filterable: true,
    }
}

fn default_config(i: usize) -> (r: ColumnConfig)
    requires
        i < MAX_DIM,
    ensures
        r@ == default_config_view(i as int),
{
    let letters = col_letters(i + 1);
    proof { reveal_strlit("col_"); }
    let mut internal = String::from_str("col_");
    let number = u64_to_string(i as u64);
    internal.append(number.as_str());
    ColumnConfig::new(letters, internal)
}

impl Grid {
    /// Column letters for a zero-based index: `0` is `A`, `25` is `Z`,
    /// `26` is `AA`.
    pub fn column_index_to_letter(index: usize) -> (r: String)
        requires
            index < usize::MAX,
        ensures
            r@ == col_letters_rep((index + 1) as nat),
    {
        col_letters(index + 1)
    }

    /// Column letters for a zero-based index; same rendering as
    /// [`Grid::column_index_to_letter`].
    pub fn get_col_name(col: usize) -> (r: String)
        requires
            col < usize::MAX,
        ensures
            r@ == col_letters_rep((col + 1) as nat),
    {
        col_letters(col + 1)
    }

    /// Replaces the configuration of column `col`, extending the
    /// configuration list with defaults if it is shorter; the column's
    /// width is set from the configuration (capped).  Silently rejected
    /// outside the bounds.
    pub fn set_column_config(&mut self, col: usize, config: ColumnConfig)
        requires
            old(self).wf(),
        ensures
            final(self).wf(),
            col < old(self)@.cols ==> {
                &&& final(self)@.configs.len()
                    == if col < old(self)@.configs.len() {
                        old(self)@.configs.len() as int
                    } else {
                        col + 1
                    }
                &&& final(self)@.configs[col as int] == config@
                &&& forall|j: int| 0 <= j < final(self)@.configs.len() && j != col
                    ==> #[trigger] final(self)@.configs[j]
                        == if j < old(self)@.configs.len() {
                            old(self)@.configs[j]
                        } else {
                            default_config_view(j)
                        }
                &&& final(self)@.widths == old(self)@.widths.update(
                    col as int,
                    if config@.width > MAX_PIX as int { MAX_PIX } else { config.width },
                )
                &&& final(self)@ == (GridView {
                    configs: final(self)@.configs,
                    widths: final(self)@.widths,
                    ..old(self)@
                })
            },
            col >= old(self)@.cols ==> final(self)@ == old(self)@,
    {
        if col >= self.cols {
            return;
        }
        let w: u32 = if config.width > MAX_PIX { MAX_PIX } else { config.width };
        if col < self.column_configs.len() {
            self.column_configs.set(col, config);
        } else {
            while self.column_configs.len() < col
                invariant
                    self.column_configs@.len() <= col,
                    col < self.cols <= MAX_DIM,
                    *self == (Grid { column_configs: self.column_configs, ..*old(self) }),
                    old(self)@.configs.len() <= self.column_configs@.len(),
                    forall|j: int| 0 <= j < self.column_configs@.len()
                        ==> (#[trigger] self.column_configs@[j])@
                            == if j < old(self)@.configs.len() {
                                old(self)@.configs[j]
                            } else {
                                default_config_view(j)
                            },
                decreases col - self.column_configs.len(),
            {
                let d = default_config(self.column_configs.len());
                self.column_configs.push(d);
            }
            self.column_configs.push(config);
        }
        self.col_widths.set(col, w);
        proof {
            assert(final(self)@.configs
                == self.column_configs@.map_values(|c: ColumnConfig| c@));
        }
    }

    /// The configuration of column `col`, if one exists.
    pub fn get_column_config(&self, col: usize) -> (r: Option<&ColumnConfig>)
        ensures
            match r {
                Some(c) => col < self@.configs.len() && c@ == self@.configs[col as int],
                None => col >= self@.configs.len(),
            },
    {
        if col < self.column_configs.len() {
            Some(&self.column_configs[col])
        } else {
            None
        }
    }

    /// The first column whose internal name is `name`.
    pub fn get_column_by_name(&self, name: &str) -> (r: Option<usize>)
        ensures
            match r {
                Some(i) => {
                    &&& (i as int) < self@.configs.len()
                    &&& self@.configs[i as int].internal_name == name@
                    &&& forall|j: int| 0 <= j < i as int
                        ==> (#[trigger] self@.configs[j]).internal_name != name@
                },
                None => forall|j: int| 0 <= j < self@.configs.len()
                    ==> (#[trigger] self@.configs[j]).internal_name != name@,
            },
    {
        let n: usize = self.column_configs.len();
        let mut i: usize = 0;
        while i < n
            invariant
                0 <= i <= n,
                forall|j: int| 0 <= j < i
                    ==> (#[trigger] self@.configs[j]).internal_name != name@,
            decreases n - i,
        {
            if crate::text::str_eq(self.column_configs[i].internal_name.as_str(), name) {
                return Some(i);
            }
            i = i + 1;
        }
        None
    }

    /// Renames column `col` in the header; silently rejected where no
    /// configuration exists.
    pub fn set_column_name(&mut self, col: usize, name: String)
        requires
            old(self).wf(),
        ensures
            final(self).wf(),
            col < old(self)@.configs.len() ==> final(self)@ == (GridView {
                configs: old(self)@.configs.update(
                    col as int,
                    ColumnConfigView { display_name: name@, ..old(self)@.configs[col as int] },
                ),
                ..old(self)@
            }),
            col >= old(self)@.configs.len() ==> final(self)@ == old(self)@,
    {
        if col < self.column_configs.len() {
            let mut c = self.column_configs[col].clone_config();
            c.display_name = name;
            self.column_configs.set(col, c);
            proof {
                assert(final(self)@.configs =~= old(self)@.configs.update(
                    col as int,
                    ColumnConfigView {
                        display_name: name@,
                        ..old(self)@.configs[col as int]
                    },
                ));
            }
        }
    }

    /// Sets whether column `col` may be edited; silently rejected where no
    /// configuration exists.
    pub fn set_column_editable(&mut self, col: usize, editable: bool)
        requires
            old(self).wf(),
        ensures
            final(self).wf(),
            col < old(self)@.configs.len() ==> final(self)@ == (GridView {
                configs: old(self)@.configs.update(
                    col as int,
                    ColumnConfigView { editable, ..old(self)@.configs[col as int] },
                ),
                ..old(self)@
            }),
            col >= old(self)@.configs.len() ==> final(self)@ == old(self)@,
    {
        if col < self.column_configs.len() {
            let mut c = self.column_configs[col].clone_config();
            c.editable = editable;
            self.column_configs.set(col, c);
            proof {
                assert(final(self)@.configs =~= old(self)@.configs.update(
                    col as int,
                    ColumnConfigView { editable, ..old(self)@.configs[col as int] },
                ));
            }
        }
    }

    /// Whether column `col` may be edited; a column without a
    /// configuration is editable.
    pub fn is_column_editable(&self, col: usize) -> (r: bool)
        ensures
            r == if (col as int) < self@.configs.len() {
                self@.configs[col as int].editable
            } else {
                true
            },
    {
        if col < self.column_configs.len() {
            self.column_configs[col].editable
        } else {
            true
        }
    }

    /// The editable flag of every configured column, in order.
    pub fn get_all_column_editable_status(&self) -> (r: Vec<bool>)
        ensures
            r@.len() == self@.configs.len(),
            forall|j: int| 0 <= j < r@.len()
                ==> r@[j] == (#[trigger] self@.configs[j]).editable,
    {
        let n: usize = self.column_configs.len();
        let mut out: Vec<bool> = Vec::new();
        let mut i: usize = 0;
        while i < n
            invariant
                0 <= i <= n,
                out@.len() == i,
                forall|j: int| 0 <= j < i
                    ==> out@[j] == (#[trigger] self@.configs[j]).editable,
            decreases n - i,
        {
            out.push(self.column_configs[i].editable);
            i = i + 1;
        }
        out
    }

    // -----------------------------------------------------------------------
    // Filters
    // -----------------------------------------------------------------------

    /// Hides every row whose value in column `col` fails the predicate,
    /// replacing any previous filter.  `p` is the predicate's
    /// specification, which the closure must decide.
    pub fn apply_column_filter<F: Fn(&CellValue) -> bool>(
        &mut self,
        col: usize,
        predicate: F,
        Ghost(p): Ghost<spec_fn(ValueView) -> bool>,
    )
        requires
            old(self).wf(),
            forall|v: &CellValue| #[trigger] call_requires(predicate, (v,)),
            forall|v: &CellValue, r: bool|
                #[trigger] call_ensures(predicate, (v,), r) ==> r == p(v@),
        ensures
            final(self).wf(),
            final(self)@ == (GridView {
                filtered: Set::new(|r: int|
                    0 <= r < old(self)@.rows
                        && !p(value_at(old(self)@, r, col as int))),
                ..old(self)@
            }),
    {
        let rows: usize = self.rows;
        let mut hidden: Vec<usize> = Vec::new();
        let mut row: usize = 0;
        while row < rows
            invariant
                0 <= row <= rows,
                forall|j1: int, j2: int| 0 <= j1 < j2 < hidden@.len()
                    ==> #[trigger] hidden@[j1] < #[trigger] hidden@[j2],
                forall|j: int| 0 <= j < hidden@.len()
                    ==> #[trigger] hidden@[j] < row
                        && !p(value_at(self@, hidden@[j] as int, col as int)),
                forall|r: int| 0 <= r < row && !p(value_at(self@, r, col as int))
                    ==> hidden@.map_values(|x: usize| x as int).to_set().contains(r),
            decreases rows - row,
        {
            let v = self.get_value(row, col);
            let keep = predicate(&v);
            if !keep {
                proof {
                    assert(forall|j: int| 0 <= j < hidden@.len()
                        ==> hidden@.push(row)[j] == hidden@[j]);
                    assert forall|r: int|
                        0 <= r < row + 1 && !p(value_at(self@, r, col as int))
                        implies hidden@.push(row).map_values(|x: usize| x as int)
                            .to_set().contains(r) by {
                        let m = hidden@.push(row).map_values(|x: usize| x as int);
                        if r == row {
                            assert(m[hidden@.len() as int] == r);
                            assert(m.contains(r));
                        } else {
                            let m0 = hidden@.map_values(|x: usize| x as int);
                            assert(m0.contains(r));
                            let j = choose|j: int| 0 <= j < m0.len() && m0[j] == r;
                            assert(m[j] == r);
                            assert(m.contains(r));
                        }
                    }
                }
                hidden.push(row);
            } else {
                proof {
                    assert forall|r: int|
                        0 <= r < row + 1 && !p(value_at(self@, r, col as int))
                        implies hidden@.map_values(|x: usize| x as int)
                            .to_set().contains(r) by {
                    }
                }
            }
            row = row + 1;
        }
        self.filtered_rows = hidden;
        proof {
            assert(final(self)@.filtered =~= Set::new(|r: int|
                0 <= r < old(self)@.rows
                    && !p(value_at(old(self)@, r, col as int)))) by {
                assert forall|r: int|
                    final(self)@.filtered.contains(r)
                    implies 0 <= r < old(self)@.rows
                        && !p(value_at(old(self)@, r, col as int)) by {
                    let m = hidden@.map_values(|x: usize| x as int);
                    let j = choose|j: int| 0 <= j < m.len() && m[j] == r;
                    assert(hidden@[j] as int == r);
                }
            }
        }
    }

    /// Unhides every row.
    pub fn clear_filters(&mut self)
        requires
            old(self).wf(),
        ensures
            final(self).wf(),
            final(self)@ == (GridView { filtered: Set::<int>::empty(), ..old(self)@ }),
    {
        self.filtered_rows = Vec::new();
        proof { assert(final(self)@.filtered =~= Set::<int>::empty()); }
    }

    /// Whether a row is hidden by the active filter.
    pub fn is_row_filtered(&self, row: usize) -> (r: bool)
        ensures
            r == self@.filtered.contains(row as int),
    {
        let n: usize = self.filtered_rows.len();
        let mut i: usize = 0;
        while i < n
            invariant
                0 <= i <= n,
                forall|j: int| 0 <= j < i ==> #[trigger] self.filtered_rows@[j] != row,
            decreases n - i,
        {
            if self.filtered_rows[i] == row {
                proof {
                    let m = self.filtered_rows@.map_values(|x: usize| x as int);
                    assert(m[i as int] == row as int);
                    assert(m.contains(row as int));
                }
                return true;
            }
            i = i + 1;
        }
        proof {
            let m = self.filtered_rows@.map_values(|x: usize| x as int);
            if m.to_set().contains(row as int) {
                let j = choose|j: int| 0 <= j < m.len() && m[j] == row as int;
                assert(self.filtered_rows@[j] == row);
            }
        }
        false
    }

    /// Number of rows not hidden by the filter; zero where a stale filter
    /// hides more rows than remain.
    pub fn visible_row_count(&self) -> (r: usize)
        requires
            self.wf(),
        ensures
            r as int == if self@.filtered.len() <= self@.rows {
                self@.rows - self@.filtered.len()
            } else {
                0
            },
    {
        proof {
            let m = self.filtered_rows@.map_values(|x: usize| x as int);
            assert(m.no_duplicates()) by {
                assert(forall|j1: int, j2: int|
                    0 <= j1 < j2 < m.len()
                        ==> #[trigger] m[j1] == self.filtered_rows@[j1] as int
                            && #[trigger] m[j2] == self.filtered_rows@[j2] as int);
            }
            m.unique_seq_to_set();
        }
        let hidden: usize = self.filtered_rows.len();
        if hidden <= self.rows {
            self.rows - hidden
        } else {
            0
        }
    }

    // -----------------------------------------------------------------------
    // Sample data
    // -----------------------------------------------------------------------

    /// Fills the grid with sample content: a header row of `Column n`
    /// labels, a leading `Row n` label per data row, and ascending numbers
    /// elsewhere.
    pub fn fill_sample_data(&mut self)
        requires
            old(self).wf(),
        ensures
            final(self).wf(),
            final(self)@ == (GridView { cells: final(self)@.cells, ..old(self)@ }),
            forall|r: int, c: int| 0 <= r < old(self)@.rows && 0 <= c < old(self)@.cols
                ==> value_at(final(self)@, r, c) == sample_value(old(self)@, r, c),
    {
        let rows: usize = self.rows;
        let cols: usize = self.cols;
        if rows == 0 {
            return;
        }
        let mut col: usize = 0;
        while col < cols
            invariant
                0 <= col <= cols,
                rows == old(self)@.rows && cols == old(self)@.cols,
                self.wf(),
                self@ == (GridView { cells: self@.cells, ..old(self)@ }),
                forall|c: int| 0 <= c < col
                    ==> value_at(self@, 0, c) == sample_value(old(self)@, 0, c),
            decreases cols - col,
        {
            proof { reveal_strlit("Column "); }
            let mut header = String::from_str("Column ");
            let number = u64_to_string((col + 1) as u64);
            header.append(number.as_str());
            self.set_value(0, col, CellValue::Text(header));
            col = col + 1;
        }
        let mut row: usize = 1;
        while row < rows
            invariant
                1 <= row <= rows || (rows <= 1 && row == 1),
                rows == old(self)@.rows && cols == old(self)@.cols,
                self.wf(),
                self@ == (GridView { cells: self@.cells, ..old(self)@ }),
                forall|c: int| 0 <= c < cols
                    ==> value_at(self@, 0, c) == sample_value(old(self)@, 0, c),
                forall|r: int, c: int| 1 <= r < row && 0 <= c < cols
                    ==> value_at(self@, r, c) == sample_value(old(self)@, r, c),
            decreases rows - row,
        {
            let mut col2: usize = 0;
            while col2 < cols
                invariant
                    0 <= col2 <= cols,
                    1 <= row < rows,
                    rows == old(self)@.rows && cols == old(self)@.cols,
                    self.wf(),
                    self@ == (GridView { cells: self@.cells, ..old(self)@ }),
                    forall|c: int| 0 <= c < cols
                        ==> value_at(self@, 0, c) == sample_value(old(self)@, 0, c),
                    forall|r: int, c: int| 1 <= r < row && 0 <= c < cols
                        ==> value_at(self@, r, c) == sample_value(old(self)@, r, c),
                    forall|c: int| 0 <= c < col2
                        ==> value_at(self@, row as int, c)
                            == sample_value(old(self)@, row as int, c),
                decreases cols - col2,
            {
                if col2 == 0 {
                    proof { reveal_strlit("Row "); }
                    let mut label = String::from_str("Row ");
                    let number = u64_to_string(row as u64);
                    label.append(number.as_str());
                    self.set_value(row, col2, CellValue::Text(label));
                } else {
                    proof {
                        assert(row * cols + col2 <= MAX_DIM * MAX_DIM + MAX_DIM)
                            by (nonlinear_arith)
                            requires
                                row < rows <= MAX_DIM,
                                col2 < cols <= MAX_DIM,
                        ;
                    }
                    let n: u64 = (row as u64) * (cols as u64) + (col2 as u64);
                    self.set_value(row, col2, CellValue::Number(n as i64));
                }
                col2 = col2 + 1;
            }
            row = row + 1;
        }
    }
}

/// What [`Grid::fill_sample_data`] writes at each in-bounds position.
pub open spec fn sample_value(g: GridView, r: int, c: int) -> ValueView {
    if r == 0 {
        ValueView::Text("Column "@ + dec_rep((c + 1) as nat))
    } else if c == 0 {
        ValueView::Text("Row "@ + dec_rep(r as nat))
    } else {
        ValueView::Number(r * g.cols + c)
    }
}

// ---------------------------------------------------------------------------
// Sorting
// ---------------------------------------------------------------------------

/// A sort-column list as the model sees it.
pub open spec fn scv_of(sc: Seq<(usize, bool)>) -> Seq<(int, bool)> {
    sc.map_values(|p: (usize, bool)| (p.0 as int, p.1))
}

/// The per-level directions of a sort-column list.
pub open spec fn dirs_of(sc: Seq<(int, bool)>) -> Seq<bool> {
    sc.map_values(|p: (int, bool)| p.1)
}

/// The sort key of row `r`: its values in the sort columns, in order.
pub open spec fn row_key(g: GridView, sc: Seq<(int, bool)>, r: int) -> Seq<ValueView> {
    Seq::new(sc.len(), |i: int| value_at(g, r, sc[i].0))
}

/// `p` rearranges `0..n` without repetition.
pub open spec fn is_row_perm(p: Seq<int>, n: int) -> bool {
    &&& p.len() == n
    &&& forall|i: int| 0 <= i < n ==> 0 <= #[trigger] p[i] < n
    &&& forall|i: int, j: int| 0 <= i < j < n ==> p[i] != p[j]
}

/// First position of `col` in a sort-column list.
pub open spec fn sort_pos(sc: Seq<(int, bool)>, col: int) -> Option<int>
    decreases sc.len(),
{
    if sc.len() == 0 {
        None
    } else if sc[0].0 == col {
        Some(0)
    } else {
        match sort_pos(sc.drop_first(), col) {
            Some(i) => Some(i + 1),
            None => None,
        }
    }
}

/// What adding `(col, asc)` to a sort-column list yields: the first entry
/// for `col` is redirected, or the pair is appended.
pub open spec fn upsert_sort(sc: Seq<(int, bool)>, col: int, asc: bool) -> Seq<(int, bool)> {
    match sort_pos(sc, col) {
        Some(i) => sc.update(i, (col, asc)),
        None => sc.push((col, asc)),
    }
}

proof fn lemma_sort_pos(sc: Seq<(int, bool)>, col: int)
    ensures
        match sort_pos(sc, col) {
            Some(i) => 0 <= i < sc.len() && sc[i].0 == col
                && forall|j: int| 0 <= j < i ==> (#[trigger] sc[j]).0 != col,
            None => forall|j: int| 0 <= j < sc.len() ==> (#[trigger] sc[j]).0 != col,
        },
    decreases sc.len(),
{
    if sc.len() > 0 && sc[0].0 != col {
        lemma_sort_pos(sc.drop_first(), col);
        match sort_pos(sc.drop_first(), col) {
            Some(i) => {
                assert(sc[i + 1] == sc.drop_first()[i]);
                assert forall|j: int| 0 <= j < i + 1 implies (#[trigger] sc[j]).0 != col by {
                    if j > 0 {
                        assert(sc[j] == sc.drop_first()[j - 1]);
                    }
                }
            },
            None => {
                assert forall|j: int| 0 <= j < sc.len()
                    implies (#[trigger] sc[j]).0 != col by {
                    if j > 0 {
                        assert(sc[j] == sc.drop_first()[j - 1]);
                    }
                }
            },
        }
    }
}

impl Grid {
    /// Sorts the rows by the given key columns: remaps cells and row
    /// heights under one permutation of the rows, leaving everything else
    /// alone, so that the keys come out in order.
    fn sort_rows_by(&mut self, sc: &Vec<(usize, bool)>)
        requires
            old(self).wf(),
        ensures
            final(self).wf(),
            exists|perm: Seq<int>| {
                &&& is_row_perm(perm, old(self)@.rows)
                &&& final(self)@ == (GridView {
                    cells: crate::store::map_remap_rows(old(self)@.cells, perm),
                    heights: Seq::new(
                        old(self)@.rows as nat,
                        |j: int| old(self)@.heights[perm[j]],
                    ),
                    ..old(self)@
                })
            },
            forall|i: int, j: int| 0 <= i < j < old(self)@.rows
                ==> keys_le(
                    #[trigger] row_key(final(self)@, scv_of(sc@), i),
                    #[trigger] row_key(final(self)@, scv_of(sc@), j),
                    dirs_of(scv_of(sc@)),
                ),
    {
        let ghost scv = scv_of(sc@);
        let rows: usize = self.rows;
        let nsc: usize = sc.len();

        // Capture each row's key before anything moves.
        let mut keys: Vec<Vec<CellValue>> = Vec::new();
        let mut r: usize = 0;
        while r < rows
            invariant
                0 <= r <= rows,
                keys@.len() == r,
                forall|x: int| 0 <= x < r
                    ==> (#[trigger] keys@[x])@.len() == scv.len()
                        && vals_view(keys@[x]@) =~= row_key(self@, scv, x),
            decreases rows - r,
        {
            let mut kr: Vec<CellValue> = Vec::new();
            let mut t: usize = 0;
            while t < nsc
                invariant
                    0 <= t <= nsc,
                    kr@.len() == t,
                    forall|x: int| 0 <= x < t
                        ==> (#[trigger] kr@[x])@ == value_at(self@, r as int, scv[x].0),
                decreases nsc - t,
            {
                let v = self.get_value(r, sc[t].0);
                kr.push(v);
                t = t + 1;
            }
            proof { assert(vals_view(kr@) =~= row_key(self@, scv, r as int)); }
            keys.push(kr);
            r = r + 1;
        }
        let mut dirs: Vec<bool> = Vec::new();
        let mut t2: usize = 0;
        while t2 < nsc
            invariant
                0 <= t2 <= nsc,
                dirs@.len() == t2,
                forall|x: int| 0 <= x < t2 ==> #[trigger] dirs@[x] == scv[x].1,
            decreases nsc - t2,
        {
            dirs.push(sc[t2].1);
            t2 = t2 + 1;
        }
        proof { assert(dirs@ =~= dirs_of(scv)); }

        let order = sort_rows(&keys, &dirs);

        // Invert the ordering: fwd sends each old row to its new position.
        let mut fwd: Vec<usize> = vec![0; rows];
        let mut j: usize = 0;
        while j < rows
            invariant
                0 <= j <= rows,
                fwd@.len() == rows,
                order@.len() == rows,
                order@.no_duplicates(),
                forall|x: int| 0 <= x < rows ==> #[trigger] order@[x] < rows,
                forall|x: int| 0 <= x < j ==> #[trigger] fwd@[order@[x] as int] == x,
            decreases rows - j,
        {
            let pos = order[j];
            proof {
                assert(forall|x: int| 0 <= x < j
                    ==> order@[x] != order@[j as int]);
            }
            fwd.set(pos, j);
            j = j + 1;
        }
        let ghost perm = order@.map_values(|x: usize| x as int);
        proof {
            assert(perm.len() == rows);
            assert forall|x: int| 0 <= x < rows implies 0 <= #[trigger] perm[x] < rows by {
                assert(order@[x] < rows);
            }
            assert forall|x: int, y: int| 0 <= x < y < rows implies perm[x] != perm[y] by {
                assert(order@[x] != order@[y]);
            }
            assert(is_row_perm(perm, rows as int));
            assert forall|rr: int| 0 <= rr < rows
                implies 0 <= #[trigger] fwd@[rr] < rows && perm[fwd@[rr] as int] == rr by {
                assert(order@.contains(rr as usize));
                let x = choose|x: int| 0 <= x < order@.len() && order@[x] == rr as usize;
                assert(fwd@[rr] == x);
            }
            assert forall|rr: int| 0 <= rr < perm.len()
                implies 0 <= #[trigger] perm[rr] < fwd@.len() && fwd@[perm[rr]] == rr by {
            }
            assert forall|k: (int, int)| #[trigger] self.cells@.dom().contains(k)
                implies 0 <= k.0 < fwd@.len() by {}
        }
        self.cells.remap_rows(&fwd, Ghost(perm));

        // Remap row heights under the same permutation.
        let mut nh: Vec<u32> = Vec::new();
        let mut j2: usize = 0;
        while j2 < rows
            invariant
                0 <= j2 <= rows,
                nh@.len() == j2,
                order@.len() == rows,
                forall|x: int| 0 <= x < rows ==> #[trigger] order@[x] < rows,
                self.row_heights@ == old(self)@.heights,
                self.row_heights@.len() == rows,
                forall|x: int| 0 <= x < j2
                    ==> #[trigger] nh@[x] == old(self)@.heights[perm[x]],
            decreases rows - j2,
        {
            nh.push(self.row_heights[order[j2]]);
            j2 = j2 + 1;
        }
        self.row_heights = nh;
        proof {
            assert(self.row_heights@ =~= Seq::new(
                old(self)@.rows as nat, |x: int| old(self)@.heights[perm[x]]));
            assert(final(self)@ == (GridView {
                cells: crate::store::map_remap_rows(old(self)@.cells, perm),
                heights: Seq::new(
                    old(self)@.rows as nat, |x: int| old(self)@.heights[perm[x]]),
                ..old(self)@
            }));
            // The sorted order of the captured keys carries to the new grid.
            assert forall|a: int, b: int| 0 <= a < b < old(self)@.rows
                implies keys_le(row_key(final(self)@, scv, a),
                    row_key(final(self)@, scv, b), dirs_of(scv)) by {
                assert(row_key(final(self)@, scv, a) =~= key_at(keys@, perm[a]));
                assert(row_key(final(self)@, scv, b) =~= key_at(keys@, perm[b]));
                assert(keys_le(key_at(keys@, order@[a] as int),
                    key_at(keys@, order@[b] as int), dirs@));
            }
        }
    }

    /// Sorts by one column: establishes the tie-break order over that
    /// column's values, remaps every stored cell and row height under one
    /// row permutation, records the sort, and clears any multi-column
    /// sort.  Silently rejected for an out-of-bounds column.
    pub fn sort_by_column(&mut self, col: usize, ascending: bool)
        requires
            old(self).wf(),
        ensures
            final(self).wf(),
            col < old(self)@.cols ==> exists|perm: Seq<int>| {
                &&& is_row_perm(perm, old(self)@.rows)
                &&& final(self)@ == (GridView {
                    cells: crate::store::map_remap_rows(old(self)@.cells, perm),
                    heights: Seq::new(
                        old(self)@.rows as nat,
                        |j: int| old(self)@.heights[perm[j]],
                    ),
                    sort_column: Some(col as int),
                    sort_ascending: ascending,
                    sort_columns: Seq::empty(),
                    ..old(self)@
                })
            },
            col < old(self)@.cols ==> forall|i: int, j: int|
                0 <= i < j < old(self)@.rows
                    ==> crate::values::value_cmp(
                        value_at(final(self)@, i, col as int),
                        value_at(final(self)@, j, col as int),
                        ascending,
                    ) != Ord3::Gt,
            col >= old(self)@.cols ==> final(self)@ == old(self)@,
    {
        if col >= self.cols {
            return;
        }
        self.sort_column = Some(col);
        self.sort_ascending = ascending;
        self.sort_columns = Vec::new();
        proof {
            assert(self@.sort_columns =~= Seq::<(int, bool)>::empty());
            assert(self@ == (GridView {
                sort_column: Some(col as int),
                sort_ascending: ascending,
                sort_columns: Seq::empty(),
                ..old(self)@
            }));
        }
        let mut sc: Vec<(usize, bool)> = Vec::new();
        sc.push((col, ascending));
        self.sort_rows_by(&sc);
        proof {
            let scv = scv_of(sc@);
            assert forall|i: int, j: int| 0 <= i < j < old(self)@.rows
                implies crate::values::value_cmp(
                    value_at(final(self)@, i, col as int),
                    value_at(final(self)@, j, col as int),
                    ascending,
                ) != Ord3::Gt by {
                let ka = row_key(final(self)@, scv, i);
                let kb = row_key(final(self)@, scv, j);
                assert(keys_le(ka, kb, dirs_of(scv)));
                assert(ka.len() == 1 && kb.len() == 1 && dirs_of(scv).len() == 1);
                assert(ka[0] == value_at(final(self)@, i, col as int));
                assert(kb[0] == value_at(final(self)@, j, col as int));
                assert(dirs_of(scv)[0] == ascending);
                if crate::values::value_cmp(ka[0], kb[0], ascending) == Ord3::Gt {
                    assert(keys_cmp(ka, kb, dirs_of(scv)) == Ord3::Gt);
                }
            }
        }
    }

    /// Re-sorts the rows by the active multi-column sort list; a no-op
    /// when the list is empty.
    pub fn sort_by_multiple_columns(&mut self)
        requires
            old(self).wf(),
        ensures
            final(self).wf(),
            old(self)@.sort_columns.len() > 0 ==> exists|perm: Seq<int>| {
                &&& is_row_perm(perm, old(self)@.rows)
                &&& final(self)@ == (GridView {
                    cells: crate::store::map_remap_rows(old(self)@.cells, perm),
                    heights: Seq::new(
                        old(self)@.rows as nat,
                        |j: int| old(self)@.heights[perm[j]],
                    ),
                    ..old(self)@
                })
            },
            old(self)@.sort_columns.len() > 0 ==> forall|i: int, j: int|
                0 <= i < j < old(self)@.rows
                    ==> keys_le(
                        row_key(final(self)@, old(self)@.sort_columns, i),
                        row_key(final(self)@, old(self)@.sort_columns, j),
                        dirs_of(old(self)@.sort_columns),
                    ),
            old(self)@.sort_columns.len() == 0 ==> final(self)@ == old(self)@,
    {
        let n: usize = self.sort_columns.len();
        if n == 0 {
            return;
        }
        let mut sc: Vec<(usize, bool)> = Vec::new();
        let mut t: usize = 0;
        while t < n
            invariant
                0 <= t <= n,
                sc@.len() == t,
                n == self.sort_columns@.len(),
                *self == *old(self),
                forall|x: int| 0 <= x < t ==> #[trigger] sc@[x] == self.sort_columns@[x],
            decreases n - t,
        {
            sc.push(self.sort_columns[t]);
            t = t + 1;
        }
        proof {
            assert(scv_of(sc@) =~= old(self)@.sort_columns);
        }
        self.sort_rows_by(&sc);
    }

    /// Adds `(col, ascending)` to the multi-column sort (updating the
    /// direction if the column is already listed), makes the first listed
    /// column the primary sort, and re-sorts.  Silently rejected for an
    /// out-of-bounds column.
    pub fn add_sort_column(&mut self, col: usize, ascending: bool)
        requires
            old(self).wf(),
        ensures
            final(self).wf(),
            col < old(self)@.cols ==> {
                let nsc = upsert_sort(old(self)@.sort_columns, col as int, ascending);
                exists|perm: Seq<int>| {
                    &&& is_row_perm(perm, old(self)@.rows)
                    &&& final(self)@ == (GridView {
                        cells: crate::store::map_remap_rows(old(self)@.cells, perm),
                        heights: Seq::new(
                            old(self)@.rows as nat,
                            |j: int| old(self)@.heights[perm[j]],
                        ),
                        sort_columns: nsc,
                        sort_column: Some(nsc[0].0),
                        sort_ascending: nsc[0].1,
                        ..old(self)@
                    })
                }
            },
            col < old(self)@.cols ==> forall|i: int, j: int|
                0 <= i < j < old(self)@.rows
                    ==> keys_le(
                        row_key(final(self)@,
                            upsert_sort(old(self)@.sort_columns, col as int, ascending), i),
                        row_key(final(self)@,
                            upsert_sort(old(self)@.sort_columns, col as int, ascending), j),
                        dirs_of(upsert_sort(old(self)@.sort_columns, col as int, ascending)),
                    ),
            col >= old(self)@.cols ==> final(self)@ == old(self)@,
    {
        if col >= self.cols {
            return;
        }
        let ghost oldsc = self@.sort_columns;
        proof { lemma_sort_pos(oldsc, col as int); }
        let n: usize = self.sort_columns.len();
        let mut found = false;
        let mut i: usize = 0;
        while i < n && !found
            invariant
                0 <= i <= n,
                *self == *old(self),
                n == self.sort_columns@.len(),
                !found ==> forall|x: int| 0 <= x < i
                    ==> (#[trigger] oldsc[x]).0 != col as int,
                found ==> i < n && oldsc[i as int].0 == col as int
                    && (forall|x: int| 0 <= x < i ==> (#[trigger] oldsc[x]).0 != col as int),
            decreases n - i + (if found { 0int } else { 1int }),
        {
            if self.sort_columns[i].0 == col {
                found = true;
            } else {
                i = i + 1;
            }
        }
        let mut sc: Vec<(usize, bool)> = Vec::new();
        let mut t: usize = 0;
        while t < n
            invariant
                0 <= t <= n,
                sc@.len() == t,
                *self == *old(self),
                n == self.sort_columns@.len(),
                forall|x: int| 0 <= x < t ==> #[trigger] sc@[x] == self.sort_columns@[x],
            decreases n - t,
        {
            sc.push(self.sort_columns[t]);
            t = t + 1;
        }
        if found {
            sc.set(i, (col, ascending));
        } else {
            sc.push((col, ascending));
        }
        proof {
            let nsc = upsert_sort(oldsc, col as int, ascending);
            if found {
                assert(sort_pos(oldsc, col as int) == Some(i as int));
            } else {
                assert(sort_pos(oldsc, col as int) is None);
            }
            assert(scv_of(sc@) =~= nsc);
        }
        let first = sc[0];
        self.sort_column = Some(first.0);
        self.sort_ascending = first.1;
        // Replace the stored list, then sort by it.
        let mut stored: Vec<(usize, bool)> = Vec::new();
        let mut t3: usize = 0;
        while t3 < sc.len()
            invariant
                0 <= t3 <= sc@.len(),
                stored@.len() == t3,
                forall|x: int| 0 <= x < t3 ==> #[trigger] stored@[x] == sc@[x],
            decreases sc@.len() - t3,
        {
            stored.push(sc[t3]);
            t3 = t3 + 1;
        }
        proof { assert(stored@ =~= sc@); }
        self.sort_columns = stored;
        let ghost mid = self@;
        self.sort_rows_by(&sc);
        proof {
            let nsc = upsert_sort(oldsc, col as int, ascending);
            assert(mid.sort_columns == nsc);
            assert(scv_of(sc@) == nsc);
            assert(mid.sort_column == Some(nsc[0].0));
            assert(mid.sort_ascending == nsc[0].1);
            let perm = choose|perm: Seq<int>| {
                &&& is_row_perm(perm, mid.rows)
                &&& final(self)@ == (GridView {
                    cells: crate::store::map_remap_rows(mid.cells, perm),
                    heights: Seq::new(mid.rows as nat, |j: int| mid.heights[perm[j]]),
                    ..mid
                })
            };
            assert(is_row_perm(perm, old(self)@.rows));
            assert(Seq::new(mid.rows as nat, |j: int| mid.heights[perm[j]])
                =~= Seq::new(old(self)@.rows as nat, |j: int| old(self)@.heights[perm[j]]));
            assert(final(self)@ == (GridView {
                cells: crate::store::map_remap_rows(old(self)@.cells, perm),
                heights: Seq::new(
                    old(self)@.rows as nat,
                    |j: int| old(self)@.heights[perm[j]],
                ),
                sort_columns: nsc,
                sort_column: Some(nsc[0].0),
                sort_ascending: nsc[0].1,
                ..old(self)@
            }));
        }
    }

    /// Clears the multi-column sort and the primary sort mark.
    pub fn clear_multi_column_sort(&mut self)
        requires
            old(self).wf(),
        ensures
            final(self).wf(),
            final(self)@ == (GridView {
                sort_columns: Seq::empty(),
                sort_column: None,
                ..old(self)@
            }),
    {
        self.sort_columns = Vec::new();
        self.sort_column = None;
        proof { assert(final(self)@.sort_columns =~= Seq::<(int, bool)>::empty()); }
    }

    /// The multi-column sort list, in priority order.
    pub fn get_sort_columns(&self) -> (r: &Vec<(usize, bool)>)
        ensures
            r@.map_values(|p: (usize, bool)| (p.0 as int, p.1)) == self@.sort_columns,
    {
        &self.sort_columns
    }

    /// The primary sort column and direction.
    pub fn sort_state(&self) -> (r: (Option<usize>, bool))
        ensures
            self@.sort_column is Some ==> r.0 is Some
                && r.0->0 as int == self@.sort_column->0,
            self@.sort_column is None ==> r.0 is None,
            r.1 == self@.sort_ascending,
    {
        (self.sort_column, self.sort_ascending)
    }

    /// Removes `col` from the multi-column sort list; clears the primary
    /// sort mark when the list becomes empty.  The rows are not re-sorted.
    pub fn remove_sort_column(&mut self, col: usize)
        requires
            old(self).wf(),
        ensures
            final(self).wf(),
            final(self)@.sort_columns == old(self)@.sort_columns.filter(
                |p: (int, bool)| p.0 != col as int),
            final(self)@ == (GridView {
                sort_columns: final(self)@.sort_columns,
                sort_column: if final(self)@.sort_columns.len() == 0 {
                    None
                } else {
                    old(self)@.sort_column
                },
                ..old(self)@
            }),
    {
        let n: usize = self.sort_columns.len();
        let mut out: Vec<(usize, bool)> = Vec::new();
        let ghost oldsc = self@.sort_columns;
        let mut t: usize = 0;
        proof {
            assert(oldsc.take(0).filter(|p: (int, bool)| p.0 != col as int) =~= Seq::empty());
        }
        while t < n
            invariant
                0 <= t <= n,
                *self == *old(self),
                n == self.sort_columns@.len(),
                out@.map_values(|p: (usize, bool)| (p.0 as int, p.1))
                    =~= oldsc.take(t as int).filter(|p: (int, bool)| p.0 != col as int),
            decreases n - t,
        {
            let p = self.sort_columns[t];
            proof {
                assert(oldsc.take(t + 1).drop_last() =~= oldsc.take(t as int));
                assert(oldsc.take(t + 1).last() == oldsc[t as int]);
                reveal_with_fuel(Seq::filter, 2);
                if p.0 != col {
                    assert(out@.push(p).map_values(|q: (usize, bool)| (q.0 as int, q.1))
                        =~= out@.map_values(|q: (usize, bool)| (q.0 as int, q.1))
                            .push((p.0 as int, p.1)));
                }
            }
            if p.0 != col {
                out.push(p);
            }
            t = t + 1;
        }
        proof { assert(oldsc.take(n as int) =~= oldsc); }
        let empty = out.len() == 0;
        self.sort_columns = out;
        if empty {
            self.sort_column = None;
        }
    }
}

impl Grid {
    /// Width of the row-header strip, in pixels.
    pub fn row_header_width(&self) -> (r: u32)
        ensures
            r as int == self@.row_header_width,
    {
        self.row_header_width
    }

    /// Height of the column-header strip, in pixels.
    pub fn col_header_height(&self) -> (r: u32)
        ensures
            r as int == self@.col_header_height,
    {
        self.col_header_height
    }

    /// Sets the header strip sizes.
    pub fn set_header_sizes(&mut self, row_header_width: u32, col_header_height: u32)
        requires
            old(self).wf(),
        ensures
            final(self).wf(),
            final(self)@ == (GridView {
                row_header_width: row_header_width as int,
                col_header_height: col_header_height as int,
                ..old(self)@
            }),
    {
        self.row_header_width = row_header_width;
        self.col_header_height = col_header_height;
    }

    /// Whether the header strips are shown.
    pub fn show_headers(&self) -> (r: bool)
        ensures
            r == self@.show_headers,
    {
        self.show_headers
    }

    /// Shows or hides the header strips.
    pub fn set_show_headers(&mut self, show: bool)
        requires
            old(self).wf(),
        ensures
            final(self).wf(),
            final(self)@ == (GridView { show_headers: show, ..old(self)@ }),
    {
        self.show_headers = show;
    }

    /// Number of leading rows exempt from scrolling.
    pub fn frozen_rows(&self) -> (r: usize)
        ensures
            r as int == self@.frozen_rows,
    {
        self.frozen_rows
    }

    /// Number of leading columns exempt from scrolling.
    pub fn frozen_cols(&self) -> (r: usize)
        ensures
            r as int == self@.frozen_cols,
    {
        self.frozen_cols
    }

    /// Sets the frozen-row count.
    pub fn set_frozen_rows(&mut self, count: usize)
        requires
            old(self).wf(),
        ensures
            final(self).wf(),
            final(self)@ == (GridView { frozen_rows: count as int, ..old(self)@ }),
    {
        self.frozen_rows = count;
    }

    /// Sets the frozen-column count.
    pub fn set_frozen_cols(&mut self, count: usize)
        requires
            old(self).wf(),
        ensures
            final(self).wf(),
            final(self)@ == (GridView { frozen_cols: count as int, ..old(self)@ }),
    {
        self.frozen_cols = count;
    }

    /// Whether all editing is disabled.
    pub fn readonly(&self) -> (r: bool)
        ensures
            r == self@.readonly,
    {
        self.readonly
    }

    /// Enables or disables all editing.
    pub fn set_readonly(&mut self, readonly: bool)
        requires
            old(self).wf(),
        ensures
            final(self).wf(),
            final(self)@ == (GridView { readonly, ..old(self)@ }),
    {
        self.readonly = readonly;
    }

    /// Sets the grid-wide display toggles: context menu, row selection,
    /// column selection, grid lines, alternating row colors.
    pub fn set_display_toggles(
        &mut self,
        enable_context_menu: bool,
        enable_row_selection: bool,
        enable_col_selection: bool,
        show_grid_lines: bool,
        alternate_row_colors: bool,
    )
        requires
            old(self).wf(),
        ensures
            final(self).wf(),
            final(self)@ == (GridView {
                enable_context_menu,
                enable_row_selection,
                enable_col_selection,
                show_grid_lines,
                alternate_row_colors,
                ..old(self)@
            }),
    {
        self.enable_context_menu = enable_context_menu;
        self.enable_row_selection = enable_row_selection;
        self.enable_col_selection = enable_col_selection;
        self.show_grid_lines = show_grid_lines;
        self.alternate_row_colors = alternate_row_colors;
    }

    /// Whether a context menu is offered.
    pub fn enable_context_menu(&self) -> (r: bool)
        ensures
            r == self@.enable_context_menu,
    {
        self.enable_context_menu
    }

    /// Whether whole rows may be selected.
    pub fn enable_row_selection(&self) -> (r: bool)
        ensures
            r == self@.enable_row_selection,
    {
        self.enable_row_selection
    }

    /// Whether whole columns may be selected.
    pub fn enable_col_selection(&self) -> (r: bool)
        ensures
            r == self@.enable_col_selection,
    {
        self.enable_col_selection
    }

    /// Whether grid lines are drawn.
    pub fn show_grid_lines(&self) -> (r: bool)
        ensures
            r == self@.show_grid_lines,
    {
        self.show_grid_lines
    }

    /// Whether row backgrounds alternate.
    pub fn alternate_row_colors(&self) -> (r: bool)
        ensures
            r == self@.alternate_row_colors,
    {
        self.alternate_row_colors
    }
}

} // verus!
