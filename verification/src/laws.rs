//! Cross-cutting guarantees of the engine, each proved over the same
//! models the operation contracts use.

use vstd::prelude::*;
use vstd::set_lib::lemma_set_disjoint_lens;
use crate::grid::{GridView, value_at};
use crate::values::ValueView;
use crate::undo::{set_value_m, insert_row_m, delete_row_m};
use crate::store::{map_insert_row, map_delete_row};
use crate::selection::{clipped_rect, imin, imax};
use crate::clipboard::{paste_block_m, paste_line_m, token_value};

verus! {

/// Writing a value and reading it back yields that value, for any
/// in-bounds position, and no other position changes.
pub proof fn lemma_set_get_round_trip(g: GridView, r: int, c: int, v: ValueView)
    requires
        0 <= r < g.rows,
        0 <= c < g.cols,
    ensures
        value_at(set_value_m(g, r, c, v), r, c) == v,
        forall|i: int, j: int| (i, j) != (r, c)
            ==> value_at(set_value_m(g, r, c, v), i, j) == value_at(g, i, j),
{
}

/// Undoing a single value write restores the pre-mutation value at every
/// position, and redoing it restores the post-mutation value at every
/// position.  Replaying a value entry is exactly `set_value_m`, so this is
/// what one `undo`/`redo` round does to the grid's values.
pub proof fn lemma_set_value_undo_redo(g: GridView, r: int, c: int, nv: ValueView)
    requires
        0 <= r < g.rows,
        0 <= c < g.cols,
    ensures
        ({
            let mutated = set_value_m(g, r, c, nv);
            let undone = set_value_m(mutated, r, c, value_at(g, r, c));
            let redone = set_value_m(undone, r, c, nv);
            &&& forall|i: int, j: int|
                value_at(undone, i, j) == #[trigger] value_at(g, i, j)
            &&& forall|i: int, j: int|
                value_at(redone, i, j) == #[trigger] value_at(mutated, i, j)
        }),
{
}

/// Inserting a row and deleting it again leaves the grid exactly as it
/// was, for any valid insertion index.
pub proof fn lemma_insert_delete_row_inverse(g: GridView, i: int)
    requires
        0 <= i <= g.rows,
        1 <= g.rows < crate::grid::MAX_DIM as int,
        g.heights.len() == g.rows,
        forall|k: (int, int)| #[trigger] g.cells.dom().contains(k)
            ==> 0 <= k.0 < g.rows && 0 <= k.1 < g.cols,
    ensures
        delete_row_m(insert_row_m(g, i), i) == g,
{
    let g1 = insert_row_m(g, i);
    assert(g1.rows == g.rows + 1);
    assert(map_delete_row(map_insert_row(g.cells, i), i) =~= g.cells) by {
        assert forall|k: (int, int)|
            map_delete_row(map_insert_row(g.cells, i), i).dom().contains(k)
            implies g.cells.dom().contains(k)
                && map_delete_row(map_insert_row(g.cells, i), i)[k] == g.cells[k] by {
        }
        assert forall|k: (int, int)| g.cells.dom().contains(k)
            implies map_delete_row(map_insert_row(g.cells, i), i).dom().contains(k) by {
            if k.0 < i {
            } else {
                assert(map_insert_row(g.cells, i).dom().contains((k.0 + 1, k.1)));
            }
        }
    }
    g.heights.insert_ensures(i, crate::grid::DEFAULT_ROW_HEIGHT);
    g1.heights.remove_ensures(i);
    assert forall|j: int| 0 <= j < g.heights.len()
        implies g1.heights.remove(i)[j] == g.heights[j] by {
        if j < i {
            assert(g1.heights[j] == g.heights[j]);
        } else {
            assert(g1.heights.remove(i)[j] == g1.heights[j + 1]);
            assert(g1.heights[j + 1] == g.heights[j]);
        }
    }
    assert(g1.heights.remove(i) =~= g.heights);
    assert(delete_row_m(insert_row_m(g, i), i) == g);
}

/// A row strip of a rectangle.
spec fn strip(r: int, c0: int, c1: int) -> Set<(int, int)> {
    Set::new(|p: (int, int)| p.0 == r && c0 <= p.1 <= c1)
}

/// The rectangle with inclusive corners.
spec fn rect(r0: int, r1: int, c0: int, c1: int) -> Set<(int, int)> {
    Set::new(|p: (int, int)| r0 <= p.0 <= r1 && c0 <= p.1 <= c1)
}

proof fn lemma_strip_len(r: int, c0: int, c1: int)
    requires
        c0 <= c1,
    ensures
        strip(r, c0, c1).finite(),
        strip(r, c0, c1).len() == c1 - c0 + 1,
    decreases c1 - c0,
{
    if c0 == c1 {
        assert(strip(r, c0, c1) =~= Set::<(int, int)>::empty().insert((r, c0)));
    } else {
        lemma_strip_len(r, c0, c1 - 1);
        assert(strip(r, c0, c1) =~= strip(r, c0, c1 - 1).insert((r, c1)));
    }
}

proof fn lemma_rect_len(r0: int, r1: int, c0: int, c1: int)
    requires
        r0 <= r1,
        c0 <= c1,
    ensures
        rect(r0, r1, c0, c1).finite(),
        rect(r0, r1, c0, c1).len() == (r1 - r0 + 1) * (c1 - c0 + 1),
    decreases r1 - r0,
{
    if r0 == r1 {
        assert(rect(r0, r1, c0, c1) =~= strip(r0, c0, c1));
        lemma_strip_len(r0, c0, c1);
        assert(1int * (c1 - c0 + 1) == c1 - c0 + 1) by (nonlinear_arith);
    } else {
        lemma_rect_len(r0, r1 - 1, c0, c1);
        lemma_strip_len(r1, c0, c1);
        assert(rect(r0, r1, c0, c1) =~= rect(r0, r1 - 1, c0, c1) + strip(r1, c0, c1));
        assert(rect(r0, r1 - 1, c0, c1).disjoint(strip(r1, c0, c1)));
        lemma_set_disjoint_lens(rect(r0, r1 - 1, c0, c1), strip(r1, c0, c1));
        assert((r1 - 1 - r0 + 1) * (c1 - c0 + 1) + (c1 - c0 + 1)
            == (r1 - r0 + 1) * (c1 - c0 + 1)) by (nonlinear_arith);
    }
}

/// Selecting a range between two in-bounds positions selects exactly one
/// position per cell of their spanned rectangle — `(|Δrow| + 1) ×
/// (|Δcol| + 1)` of them — whichever corner is the anchor.
pub proof fn lemma_select_range_count(a: (int, int), t: (int, int), rows: int, cols: int)
    requires
        0 <= a.0 < rows,
        0 <= a.1 < cols,
        0 <= t.0 < rows,
        0 <= t.1 < cols,
    ensures
        clipped_rect(a, t, rows, cols).finite(),
        clipped_rect(a, t, rows, cols).len()
            == (imax(a.0, t.0) - imin(a.0, t.0) + 1) * (imax(a.1, t.1) - imin(a.1, t.1) + 1),
{
    let r0 = imin(a.0, t.0);
    let r1 = imax(a.0, t.0);
    let c0 = imin(a.1, t.1);
    let c1 = imax(a.1, t.1);
    assert(clipped_rect(a, t, rows, cols) =~= rect(r0, r1, c0, c1));
    lemma_rect_len(r0, r1, c0, c1);
}

/// Pasting never creates a stored key outside the grid bounds: writes
/// that would land outside fall away, and the dimensions do not change.
pub proof fn lemma_paste_stays_in_bounds(lines: Seq<Seq<Seq<char>>>, g: GridView, r0: int, c0: int)
    requires
        forall|k: (int, int)| #[trigger] g.cells.dom().contains(k)
            ==> 0 <= k.0 < g.rows && 0 <= k.1 < g.cols,
    ensures
        paste_block_m(lines, g, r0, c0).rows == g.rows,
        paste_block_m(lines, g, r0, c0).cols == g.cols,
        forall|k: (int, int)| #[trigger] paste_block_m(lines, g, r0, c0).cells.dom().contains(k)
            ==> 0 <= k.0 < g.rows && 0 <= k.1 < g.cols,
    decreases lines.len(),
{
    if lines.len() > 0 {
        lemma_paste_line_in_bounds(lines[0], g, r0, c0);
        lemma_paste_stays_in_bounds(
            lines.subrange(1, lines.len() as int),
            paste_line_m(lines[0], g, r0, c0),
            r0 + 1,
            c0,
        );
    }
}

proof fn lemma_paste_line_in_bounds(tokens: Seq<Seq<char>>, g: GridView, r: int, c0: int)
    requires
        forall|k: (int, int)| #[trigger] g.cells.dom().contains(k)
            ==> 0 <= k.0 < g.rows && 0 <= k.1 < g.cols,
    ensures
        paste_line_m(tokens, g, r, c0).rows == g.rows,
        paste_line_m(tokens, g, r, c0).cols == g.cols,
        forall|k: (int, int)| #[trigger] paste_line_m(tokens, g, r, c0).cells.dom().contains(k)
            ==> 0 <= k.0 < g.rows && 0 <= k.1 < g.cols,
    decreases tokens.len(),
{
    if tokens.len() > 0 {
        let g2 = set_value_m(g, r, c0, token_value(tokens[0]));
        assert(forall|k: (int, int)| #[trigger] g2.cells.dom().contains(k)
            ==> 0 <= k.0 < g2.rows && 0 <= k.1 < g2.cols);
        lemma_paste_line_in_bounds(tokens.subrange(1, tokens.len() as int), g2, r, c0 + 1);
    }
}

} // verus!
