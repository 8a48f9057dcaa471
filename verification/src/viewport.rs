//! The viewport: scroll state clamped to the content, and the derived
//! visible row/column range over the grid's geometry.
//!
//! All coordinates are integer pixels.  Conversions between canvas space
//! and grid positions walk the cumulative row/column bands.

use vstd::prelude::*;
use crate::grid::{Grid, sum_prefix, lemma_sum_prefix_bound, MAX_PIX};

verus! {

/// Scroll position clamped to `[0, max(0, content - canvas)]`.
pub open spec fn clamp_scroll(x: int, content: int, canvas: int) -> int {
    let m = if content > canvas { content - canvas } else { 0 };
    if x < 0 {
        0
    } else if x > m {
        m
    } else {
        x
    }
}

/// Whether pixel offset `gy` falls inside band `r` of the given lengths.
pub open spec fn band_hit(lens: Seq<u32>, gy: int, r: int) -> bool {
    sum_prefix(lens, r) <= gy < sum_prefix(lens, r + 1)
}

/// The visible area of the grid: canvas size, scroll offsets, and the
/// derived first/last visible row and column.
pub struct Viewport {
    /// Canvas width in pixels.
    pub canvas_width: u32,
    /// Canvas height in pixels.
    pub canvas_height: u32,
    /// Horizontal scroll offset in pixels.
    pub scroll_x: u64,
    /// Vertical scroll offset in pixels.
    pub scroll_y: u64,
    /// First visible row index.
    pub first_visible_row: usize,
    /// Last visible row index.
    pub last_visible_row: usize,
    /// First visible column index.
    pub first_visible_col: usize,
    /// Last visible column index.
    pub last_visible_col: usize,
}

impl Viewport {
    /// The viewport's invariant: the scroll offsets lie inside the largest
    /// possible content extent and the derived indices inside the largest
    /// possible dimensions.
    pub open spec fn wf(&self) -> bool {
        &&& self.scroll_x <= 0x4_0000_0000_0000
        &&& self.scroll_y <= 0x4_0000_0000_0000
        &&& self.first_visible_row <= crate::grid::MAX_DIM
        &&& self.last_visible_row <= crate::grid::MAX_DIM
        &&& self.first_visible_col <= crate::grid::MAX_DIM
        &&& self.last_visible_col <= crate::grid::MAX_DIM
    }
}

/// The visible-range fields are correctly derived for the given geometry
/// and scroll: the first index is the first band reaching below the scroll
/// offset, the last is the first band starting beyond the canvas bottom,
/// each defaulting to the final index.
pub open spec fn range_derived(lens: Seq<u32>, scroll: int, canvas: int, first: int, last: int) -> bool {
    &&& (lens.len() == 0 ==> first == 0 && last == 0)
    &&& (lens.len() > 0 ==> {
        &&& 0 <= first < lens.len()
        &&& sum_prefix(lens, first + 1) > scroll || first == lens.len() - 1
        &&& forall|r: int| 0 <= r < first ==> #[trigger] sum_prefix(lens, r + 1) <= scroll
        &&& 0 <= last < lens.len()
        &&& sum_prefix(lens, last) > scroll + canvas || last == lens.len() - 1
        &&& forall|r: int| 0 <= r < last ==> #[trigger] sum_prefix(lens, r) <= scroll + canvas
    })
}

/// Scans bands for the first index whose cumulative extent (through
/// `include_self`, or up to it otherwise) exceeds `bound`; the final index
/// where none does, `0` on an empty sequence.
fn scan_bands(
    grid_lens: &Grid,
    vertical: bool,
    include_self: bool,
    bound: u64,
    Ghost(lens): Ghost<Seq<u32>>,
) -> (r: usize)
    requires
        grid_lens.wf(),
        lens == if vertical { grid_lens@.heights } else { grid_lens@.widths },
    ensures
        lens.len() == 0 ==> r == 0,
        lens.len() > 0 ==> 0 <= (r as int) < lens.len(),
        lens.len() > 0 && include_self ==> {
            &&& sum_prefix(lens, r + 1) > bound || r as int == lens.len() - 1
            &&& forall|x: int| 0 <= x < r as int
                ==> #[trigger] sum_prefix(lens, x + 1) <= bound
        },
        lens.len() > 0 && !include_self ==> {
            &&& sum_prefix(lens, r as int) > bound || r as int == lens.len() - 1
            &&& forall|x: int| 0 <= x < r as int
                ==> #[trigger] sum_prefix(lens, x) <= bound
        },
{
    proof { grid_lens.wf_bounds(); }
    let n: usize = if vertical { grid_lens.row_count() } else { grid_lens.col_count() };
    if n == 0 {
        return 0;
    }
    let mut cum: u64 = 0;
    let mut i: usize = 0;
    while i < n
        invariant
            0 <= i <= n,
            n == lens.len(),
            lens == (if vertical { grid_lens@.heights } else { grid_lens@.widths }),
            cum as int == sum_prefix(lens, i as int),
            include_self ==> forall|x: int| 0 <= x < i
                ==> #[trigger] sum_prefix(lens, x + 1) <= bound,
            !include_self ==> forall|x: int| 0 <= x < i
                ==> #[trigger] sum_prefix(lens, x) <= bound,
        decreases n - i,
    {
        proof { lemma_sum_prefix_bound(lens, i as int, MAX_PIX as int); }
        let step: u32 = if vertical { grid_lens.row_height(i) } else { grid_lens.col_width(i) };
        proof {
            assert(step == lens[i as int]);
            assert(sum_prefix(lens, i + 1) == sum_prefix(lens, i as int) + lens[i as int]);
        }
        let reach: u64 = if include_self { cum + step as u64 } else { cum };
        if reach > bound {
            return i;
        }
        cum = cum + step as u64;
        i = i + 1;
    }
    n - 1
}

impl Viewport {
    /// A viewport at the origin with nothing derived yet.
    pub fn new(canvas_width: u32, canvas_height: u32) -> (r: Viewport)
        ensures
            r.canvas_width == canvas_width,
            r.canvas_height == canvas_height,
            r.scroll_x == 0 && r.scroll_y == 0,
            r.first_visible_row == 0 && r.last_visible_row == 0,
            r.first_visible_col == 0 && r.last_visible_col == 0,
            r.wf(),
    {
        Viewport {
            canvas_width,
            canvas_height,
            scroll_x: 0,
            scroll_y: 0,
            first_visible_row: 0,
            last_visible_row: 0,
            first_visible_col: 0,
            last_visible_col: 0,
        }
    }

    /// Updates the canvas dimensions.
    pub fn resize(&mut self, width: u32, height: u32)
        requires
            old(self).wf(),
        ensures
            final(self).wf(),
            *final(self) == (Viewport { canvas_width: width, canvas_height: height, ..*old(self) }),
    {
        self.canvas_width = width;
        self.canvas_height = height;
    }

    /// Sets the scroll position, clamped to the grid's content extent.
    pub fn set_scroll(&mut self, x: i64, y: i64, grid: &Grid)
        requires
            grid.wf(),
            old(self).wf(),
        ensures
            final(self).wf(),
            final(self).scroll_x as int == clamp_scroll(
                x as int,
                sum_prefix(grid@.widths, grid@.cols),
                old(self).canvas_width as int,
            ),
            final(self).scroll_y as int == clamp_scroll(
                y as int,
                sum_prefix(grid@.heights, grid@.rows),
                old(self).canvas_height as int,
            ),
            *final(self) == (Viewport {
                scroll_x: final(self).scroll_x,
                scroll_y: final(self).scroll_y,
                ..*old(self)
            }),
    {
        proof {
            grid.wf_bounds();
            lemma_sum_prefix_bound(grid@.widths, grid@.cols, MAX_PIX as int);
            lemma_sum_prefix_bound(grid@.heights, grid@.rows, MAX_PIX as int);
        }
        let total_w: u64 = grid.total_width();
        let total_h: u64 = grid.total_height();
        let max_x: u64 = if total_w > self.canvas_width as u64 {
            total_w - self.canvas_width as u64
        } else {
            0
        };
        let max_y: u64 = if total_h > self.canvas_height as u64 {
            total_h - self.canvas_height as u64
        } else {
            0
        };
        self.scroll_x = if x < 0 {
            0
        } else if (x as u64) > max_x {
            max_x
        } else {
            x as u64
        };
        self.scroll_y = if y < 0 {
            0
        } else if (y as u64) > max_y {
            max_y
        } else {
            y as u64
        };
    }

    /// Scrolls by a signed delta, clamped to the content extent.
    pub fn scroll_by(&mut self, dx: i64, dy: i64, grid: &Grid)
        requires
            grid.wf(),
            old(self).wf(),
        ensures
            final(self).wf(),
            final(self).scroll_x as int == clamp_scroll(
                old(self).scroll_x + dx,
                sum_prefix(grid@.widths, grid@.cols),
                old(self).canvas_width as int,
            ),
            final(self).scroll_y as int == clamp_scroll(
                old(self).scroll_y + dy,
                sum_prefix(grid@.heights, grid@.rows),
                old(self).canvas_height as int,
            ),
            *final(self) == (Viewport {
                scroll_x: final(self).scroll_x,
                scroll_y: final(self).scroll_y,
                ..*old(self)
            }),
    {
        proof {
            grid.wf_bounds();
            lemma_sum_prefix_bound(grid@.widths, grid@.cols, MAX_PIX as int);
            lemma_sum_prefix_bound(grid@.heights, grid@.rows, MAX_PIX as int);
        }
        let tx: i128 = self.scroll_x as i128 + dx as i128;
        let ty: i128 = self.scroll_y as i128 + dy as i128;
        let total_w: u64 = grid.total_width();
        let total_h: u64 = grid.total_height();
        let max_x: u64 = if total_w > self.canvas_width as u64 {
            total_w - self.canvas_width as u64
        } else {
            0
        };
        let max_y: u64 = if total_h > self.canvas_height as u64 {
            total_h - self.canvas_height as u64
        } else {
            0
        };
        self.scroll_x = if tx < 0 {
            0
        } else if tx > max_x as i128 {
            max_x
        } else {
            tx as u64
        };
        self.scroll_y = if ty < 0 {
            0
        } else if ty > max_y as i128 {
            max_y
        } else {
            ty as u64
        };
    }

    /// Recomputes the visible row and column range from the scroll
    /// position by walking the cumulative bands.
    pub fn update_visible_range(&mut self, grid: &Grid)
        requires
            grid.wf(),
            old(self).wf(),
        ensures
            final(self).wf(),
            range_derived(
                grid@.heights,
                old(self).scroll_y as int,
                old(self).canvas_height as int,
                final(self).first_visible_row as int,
                final(self).last_visible_row as int,
            ),
            range_derived(
                grid@.widths,
                old(self).scroll_x as int,
                old(self).canvas_width as int,
                final(self).first_visible_col as int,
                final(self).last_visible_col as int,
            ),
            *final(self) == (Viewport {
                first_visible_row: final(self).first_visible_row,
                last_visible_row: final(self).last_visible_row,
                first_visible_col: final(self).first_visible_col,
                last_visible_col: final(self).last_visible_col,
                ..*old(self)
            }),
    {
        proof { grid.wf_bounds(); }
        let bottom: u64 = self.scroll_y + self.canvas_height as u64;
        let right: u64 = self.scroll_x + self.canvas_width as u64;
        self.first_visible_row = scan_bands(grid, true, true, self.scroll_y, Ghost(grid@.heights));
        self.last_visible_row = scan_bands(grid, true, false, bottom, Ghost(grid@.heights));
        self.first_visible_col = scan_bands(grid, false, true, self.scroll_x, Ghost(grid@.widths));
        self.last_visible_col = scan_bands(grid, false, false, right, Ghost(grid@.widths));
    }

    /// Number of rows in the visible range.
    pub fn visible_row_count(&self) -> (r: usize)
        requires
            self.wf(),
        ensures
            r as int == if self.last_visible_row >= self.first_visible_row {
                self.last_visible_row - self.first_visible_row + 1
            } else {
                0
            },
    {
        if self.last_visible_row >= self.first_visible_row {
            self.last_visible_row - self.first_visible_row + 1
        } else {
            0
        }
    }

    /// Number of columns in the visible range.
    pub fn visible_col_count(&self) -> (r: usize)
        requires
            self.wf(),
        ensures
            r as int == if self.last_visible_col >= self.first_visible_col {
                self.last_visible_col - self.first_visible_col + 1
            } else {
                0
            },
    {
        if self.last_visible_col >= self.first_visible_col {
            self.last_visible_col - self.first_visible_col + 1
        } else {
            0
        }
    }

    /// The grid position under a canvas point: the row and column whose
    /// bands contain the point after removing the header offset and adding
    /// the scroll offset; nothing when the point misses all bands.
    pub fn canvas_to_cell(&self, canvas_x: u64, canvas_y: u64, grid: &Grid)
        -> (r: Option<(usize, usize)>)
        requires
            grid.wf(),
            canvas_x <= 0xFFFF_FFFF,
            canvas_y <= 0xFFFF_FFFF,
            self.wf(),
        ensures
            ({
                let hx = if grid@.show_headers { grid@.row_header_width } else { 0 };
                let hy = if grid@.show_headers { grid@.col_header_height } else { 0 };
                let gx = canvas_x + self.scroll_x - hx;
                let gy = canvas_y + self.scroll_y - hy;
                match r {
                    Some(rc) => {
                        &&& (rc.0 as int) < grid@.rows
                        &&& (rc.1 as int) < grid@.cols
                        &&& canvas_y + self.scroll_y >= hy
                        &&& canvas_x + self.scroll_x >= hx
                        &&& band_hit(grid@.heights, gy, rc.0 as int)
                        &&& band_hit(grid@.widths, gx, rc.1 as int)
                    },
                    None => {
                        ||| !(exists|rr: int| 0 <= rr < grid@.rows
                            && canvas_y + self.scroll_y >= hy
                            && #[trigger] band_hit(grid@.heights, gy, rr))
                        ||| !(exists|cc: int| 0 <= cc < grid@.cols
                            && canvas_x + self.scroll_x >= hx
                            && #[trigger] band_hit(grid@.widths, gx, cc))
                    },
                }
            }),
    {
        proof { grid.wf_bounds(); }
        let hx: u64 = if grid.show_headers() { grid.row_header_width() as u64 } else { 0 };
        let hy: u64 = if grid.show_headers() { grid.col_header_height() as u64 } else { 0 };
        let px: u64 = canvas_x + self.scroll_x;
        let py: u64 = canvas_y + self.scroll_y;
        if px < hx || py < hy {
            return None;
        }
        let gx: u64 = px - hx;
        let gy: u64 = py - hy;
        let row = find_band(grid, true, gy, Ghost(grid@.heights));
        let col = find_band(grid, false, gx, Ghost(grid@.widths));
        match (row, col) {
            (Some(rr), Some(cc)) => Some((rr, cc)),
            _ => None,
        }
    }

    /// The canvas coordinates of a cell's top-left corner (no header
    /// offset), which are negative when the cell is scrolled off.
    pub fn cell_to_canvas(&self, row: usize, col: usize, grid: &Grid) -> (r: (i64, i64))
        requires
            grid.wf(),
            row as int <= grid@.rows,
            col as int <= grid@.cols,
            self.wf(),
        ensures
            r.0 as int == sum_prefix(grid@.widths, col as int) - self.scroll_x,
            r.1 as int == sum_prefix(grid@.heights, row as int) - self.scroll_y,
    {
        proof {
            grid.wf_bounds();
            lemma_sum_prefix_bound(grid@.widths, col as int, MAX_PIX as int);
            lemma_sum_prefix_bound(grid@.heights, row as int, MAX_PIX as int);
        }
        let x: u64 = grid.col_x_position(col);
        let y: u64 = grid.row_y_position(row);
        let rx: i64 = x as i64 - self.scroll_x as i64;
        let ry: i64 = y as i64 - self.scroll_y as i64;
        (rx, ry)
    }

    /// Whether a position lies inside the derived visible range.
    pub fn is_cell_visible(&self, row: usize, col: usize) -> (r: bool)
        ensures
            r == (self.first_visible_row <= row <= self.last_visible_row
                && self.first_visible_col <= col <= self.last_visible_col),
    {
        row >= self.first_visible_row && row <= self.last_visible_row
            && col >= self.first_visible_col && col <= self.last_visible_col
    }

    /// The column whose header band lies under a canvas point, if the
    /// point is inside the header strip.
    pub fn canvas_to_column_header(&self, canvas_x: u64, canvas_y: u64, grid: &Grid)
        -> (r: Option<usize>)
        requires
            grid.wf(),
            canvas_x <= 0xFFFF_FFFF,
            canvas_y <= 0xFFFF_FFFF,
            self.wf(),
        ensures
            ({
                let gx = canvas_x + self.scroll_x - grid@.row_header_width;
                match r {
                    Some(cc) => {
                        &&& grid@.show_headers
                        &&& (canvas_y as int) < grid@.col_header_height
                        &&& canvas_x + self.scroll_x >= grid@.row_header_width
                        &&& (cc as int) < grid@.cols
                        &&& band_hit(grid@.widths, gx, cc as int)
                    },
                    None => {
                        ||| !grid@.show_headers
                        ||| canvas_y as int >= grid@.col_header_height
                        ||| !(exists|cc: int| 0 <= cc < grid@.cols
                            && canvas_x + self.scroll_x >= grid@.row_header_width
                            && #[trigger] band_hit(grid@.widths, gx, cc))
                    },
                }
            }),
    {
        proof { grid.wf_bounds(); }
        if !grid.show_headers() {
            return None;
        }
        if canvas_y >= grid.col_header_height() as u64 {
            return None;
        }
        let px: u64 = canvas_x + self.scroll_x;
        if px < grid.row_header_width() as u64 {
            return None;
        }
        find_band(grid, false, px - grid.row_header_width() as u64, Ghost(grid@.widths))
    }

    /// The row whose header band lies under a canvas point, if the point
    /// is inside the header strip.
    pub fn canvas_to_row_header(&self, canvas_x: u64, canvas_y: u64, grid: &Grid)
        -> (r: Option<usize>)
        requires
            grid.wf(),
            canvas_x <= 0xFFFF_FFFF,
            canvas_y <= 0xFFFF_FFFF,
            self.wf(),
        ensures
            ({
                let gy = canvas_y + self.scroll_y - grid@.col_header_height;
                match r {
                    Some(rr) => {
                        &&& grid@.show_headers
                        &&& (canvas_x as int) < grid@.row_header_width
                        &&& canvas_y + self.scroll_y >= grid@.col_header_height
                        &&& (rr as int) < grid@.rows
                        &&& band_hit(grid@.heights, gy, rr as int)
                    },
                    None => {
                        ||| !grid@.show_headers
                        ||| canvas_x as int >= grid@.row_header_width
                        ||| !(exists|rr: int| 0 <= rr < grid@.rows
                            && canvas_y + self.scroll_y >= grid@.col_header_height
                            && #[trigger] band_hit(grid@.heights, gy, rr))
                    },
                }
            }),
    {
        proof { grid.wf_bounds(); }
        if !grid.show_headers() {
            return None;
        }
        if canvas_x >= grid.row_header_width() as u64 {
            return None;
        }
        let py: u64 = canvas_y + self.scroll_y;
        if py < grid.col_header_height() as u64 {
            return None;
        }
        find_band(grid, true, py - grid.col_header_height() as u64, Ghost(grid@.heights))
    }
}

/// Finds the band containing pixel offset `g`, if any.
fn find_band(grid: &Grid, vertical: bool, g: u64, Ghost(lens): Ghost<Seq<u32>>) -> (r: Option<usize>)
    requires
        grid.wf(),
        lens == if vertical { grid@.heights } else { grid@.widths },
    ensures
        match r {
            Some(i) => (i as int) < lens.len() && band_hit(lens, g as int, i as int),
            None => !(exists|i: int| 0 <= i < lens.len()
                && #[trigger] band_hit(lens, g as int, i)),
        },
{
    proof { grid.wf_bounds(); }
    let n: usize = if vertical { grid.row_count() } else { grid.col_count() };
    let mut cum: u64 = 0;
    let mut i: usize = 0;
    while i < n
        invariant
            0 <= i <= n,
            n == lens.len(),
            lens == (if vertical { grid@.heights } else { grid@.widths }),
            cum as int == sum_prefix(lens, i as int),
            forall|x: int| 0 <= x < i ==> !band_hit(lens, g as int, x),
            g as int >= sum_prefix(lens, i as int),
        decreases n - i,
    {
        proof { lemma_sum_prefix_bound(lens, i as int, MAX_PIX as int); }
        let step: u32 = if vertical { grid.row_height(i) } else { grid.col_width(i) };
        if g < cum + step as u64 {
            return Some(i);
        }
        cum = cum + step as u64;
        i = i + 1;
    }
    proof {
        assert forall|x: int| 0 <= x < lens.len()
            implies !band_hit(lens, g as int, x) by {}
    }
    None
}

/// The minimal scroll adjustment that brings the band
/// `[cell_lo, cell_lo + cell_len)` fully inside a window of the given
/// visible length: align to the near edge, or stay put.
pub open spec fn ensure_scroll(cell_lo: int, cell_len: int, scroll: int, visible: int) -> int {
    if cell_lo < scroll {
        cell_lo
    } else if cell_lo + cell_len > scroll + visible {
        cell_lo + cell_len - visible
    } else {
        scroll
    }
}

impl Viewport {
    /// Adjusts the scroll minimally so the cell's band lies inside the
    /// canvas area left of the headers, and recomputes the visible range
    /// if the scroll changed.
    pub fn ensure_cell_visible(&mut self, row: usize, col: usize, grid: &Grid)
        requires
            grid.wf(),
            old(self).wf(),
            (row as int) < grid@.rows,
            (col as int) < grid@.cols,
        ensures
            final(self).wf(),
            ({
                let vw = if old(self).canvas_width as int > grid@.row_header_width {
                    old(self).canvas_width - grid@.row_header_width
                } else {
                    0
                };
                let vh = if old(self).canvas_height as int > grid@.col_header_height {
                    old(self).canvas_height - grid@.col_header_height
                } else {
                    0
                };
                let tx = ensure_scroll(
                    sum_prefix(grid@.widths, col as int),
                    grid@.widths[col as int] as int,
                    old(self).scroll_x as int,
                    vw,
                );
                let ty = ensure_scroll(
                    sum_prefix(grid@.heights, row as int),
                    grid@.heights[row as int] as int,
                    old(self).scroll_y as int,
                    vh,
                );
                if tx == old(self).scroll_x && ty == old(self).scroll_y {
                    *final(self) == *old(self)
                } else {
                    &&& final(self).scroll_x as int == clamp_scroll(
                        tx, sum_prefix(grid@.widths, grid@.cols), old(self).canvas_width as int)
                    &&& final(self).scroll_y as int == clamp_scroll(
                        ty, sum_prefix(grid@.heights, grid@.rows), old(self).canvas_height as int)
                    &&& range_derived(grid@.heights, final(self).scroll_y as int,
                        old(self).canvas_height as int,
                        final(self).first_visible_row as int,
                        final(self).last_visible_row as int)
                    &&& range_derived(grid@.widths, final(self).scroll_x as int,
                        old(self).canvas_width as int,
                        final(self).first_visible_col as int,
                        final(self).last_visible_col as int)
                    &&& final(self).canvas_width == old(self).canvas_width
                    &&& final(self).canvas_height == old(self).canvas_height
                }
            }),
    {
        proof {
            grid.wf_bounds();
            lemma_sum_prefix_bound(grid@.widths, col as int, MAX_PIX as int);
            lemma_sum_prefix_bound(grid@.heights, row as int, MAX_PIX as int);
        }
        let hdr_w: u64 = grid.row_header_width() as u64;
        let hdr_h: u64 = grid.col_header_height() as u64;
        let vw: u64 = if (self.canvas_width as u64) > hdr_w {
            self.canvas_width as u64 - hdr_w
        } else {
            0
        };
        let vh: u64 = if (self.canvas_height as u64) > hdr_h {
            self.canvas_height as u64 - hdr_h
        } else {
            0
        };
        let cell_x: u64 = grid.col_x_position(col);
        let cell_y: u64 = grid.row_y_position(row);
        let w: u64 = grid.col_width(col) as u64;
        let h: u64 = grid.row_height(row) as u64;
        let tx: u64 = if cell_x < self.scroll_x {
            cell_x
        } else if cell_x + w > self.scroll_x + vw {
            cell_x + w - vw
        } else {
            self.scroll_x
        };
        let ty: u64 = if cell_y < self.scroll_y {
            cell_y
        } else if cell_y + h > self.scroll_y + vh {
            cell_y + h - vh
        } else {
            self.scroll_y
        };
        if tx != self.scroll_x || ty != self.scroll_y {
            self.set_scroll(tx as i64, ty as i64, grid);
            self.update_visible_range(grid);
        }
    }
}

} // verus!
