//! The selection model: a set of selected positions and an anchor for
//! range extension.
//!
//! Selection owns no cell data; it is an index the rendering layer crosses
//! with the store.  Range selection fills the axis-aligned rectangle
//! between anchor and target, clipped to the grid bounds.

use vstd::prelude::*;

verus! {

/// The smaller of two integers.
pub open spec fn imin(a: int, b: int) -> int {
    if a <= b { a } else { b }
}

/// The larger of two integers.
pub open spec fn imax(a: int, b: int) -> int {
    if a >= b { a } else { b }
}

/// The axis-aligned rectangle spanned by `a` and `t`, clipped to
/// `rows x cols`.
pub open spec fn clipped_rect(a: (int, int), t: (int, int), rows: int, cols: int) -> Set<(int, int)> {
    Set::new(|p: (int, int)| {
        &&& imin(a.0, t.0) <= p.0 <= imax(a.0, t.0)
        &&& imin(a.1, t.1) <= p.1 <= imax(a.1, t.1)
        &&& p.0 < rows
        &&& p.1 < cols
    })
}

/// Mathematical model of a selection.
pub struct SelectionView {
    pub cells: Set<(int, int)>,
    pub anchor: Option<(int, int)>,
}

/// The set of selected positions plus the anchor used to extend ranges.
pub struct SelectionState {
    selected_cells: Vec<(usize, usize)>,
    selection_anchor: Option<(usize, usize)>,
}

impl View for SelectionState {
    type V = SelectionView;

    closed spec fn view(&self) -> SelectionView {
        SelectionView {
            cells: self.selected_cells@.map_values(|p: (usize, usize)| (p.0 as int, p.1 as int))
                .to_set(),
            anchor: match self.selection_anchor {
                Some(p) => Some((p.0 as int, p.1 as int)),
                None => None,
            },
        }
    }
}

/// Fills the rectangle `[rlo, rhi] x [clo, chi]` clipped to
/// `rows x cols`, without duplicates.
fn fill_rect(rlo: usize, rhi: usize, clo: usize, chi: usize, rows: usize, cols: usize)
    -> (out: Vec<(usize, usize)>)
    requires
        rlo <= rhi,
        clo <= chi,
        rhi < usize::MAX,
        chi < usize::MAX,
    ensures
        out@.no_duplicates(),
        out@.map_values(|p: (usize, usize)| (p.0 as int, p.1 as int)).to_set()
            == clipped_rect(
                (rlo as int, clo as int),
                (rhi as int, chi as int),
                rows as int,
                cols as int,
            ),
{
    let ghost target = clipped_rect(
        (rlo as int, clo as int), (rhi as int, chi as int), rows as int, cols as int);
    let mut out: Vec<(usize, usize)> = Vec::new();
    let mut r: usize = rlo;
    while r <= rhi
        invariant
            rlo <= r <= rhi + 1,
            rhi < usize::MAX,
            chi < usize::MAX,
            clo <= chi,
            out@.no_duplicates(),
            forall|j: int| 0 <= j < out@.len()
                ==> (#[trigger] out@[j]).0 < r,
            out@.map_values(|p: (usize, usize)| (p.0 as int, p.1 as int)).to_set()
                =~= Set::new(|p: (int, int)| target.contains(p) && p.0 < r as int),
        decreases rhi + 1 - r,
    {
        if r < rows {
            let mut c: usize = clo;
            while c <= chi
                invariant
                    clo <= c <= chi + 1,
                    chi < usize::MAX,
                    rlo <= r <= rhi,
                    r < rows,
                    out@.no_duplicates(),
                    forall|j: int| 0 <= j < out@.len()
                        ==> (#[trigger] out@[j]).0 < r
                            || ((out@[j]).0 == r && (out@[j]).1 < c),
                    out@.map_values(|p: (usize, usize)| (p.0 as int, p.1 as int)).to_set()
                        =~= Set::new(|p: (int, int)| target.contains(p)
                            && (p.0 < r as int || (p.0 == r as int && p.1 < c as int))),
                decreases chi + 1 - c,
            {
                if c < cols {
                    let ghost pre = out@;
                    let ghost mpre = pre.map_values(
                        |p: (usize, usize)| (p.0 as int, p.1 as int));
                    proof {
                        assert(forall|j: int| 0 <= j < pre.len()
                            ==> #[trigger] mpre[j] == (pre[j].0 as int, pre[j].1 as int));
                        assert(forall|j: int| 0 <= j < pre.len()
                            ==> #[trigger] pre[j] != (r, c)) by {
                            assert(forall|j: int| 0 <= j < pre.len()
                                ==> (#[trigger] pre[j]).0 < r
                                    || (pre[j].0 == r && pre[j].1 < c));
                        }
                    }
                    out.push((r, c));
                    proof {
                        let m1 = out@.map_values(
                            |p: (usize, usize)| (p.0 as int, p.1 as int));
                        assert(out@ =~= pre.push((r, c)));
                        assert(m1.len() == pre.len() + 1);
                        assert(forall|j: int| 0 <= j < pre.len()
                            ==> #[trigger] m1[j] == mpre[j]);
                        assert(m1[pre.len() as int] == (r as int, c as int));
                        assert(m1.to_set() =~= Set::new(|p: (int, int)| target.contains(p)
                            && (p.0 < r as int || (p.0 == r as int && p.1 < c as int + 1)))) by {
                            assert forall|p: (int, int)| m1.to_set().contains(p)
                                implies target.contains(p)
                                    && (p.0 < r as int
                                        || (p.0 == r as int && p.1 < c as int + 1)) by {
                                let j = choose|j: int| 0 <= j < m1.len() && m1[j] == p;
                                if j < pre.len() {
                                    assert(mpre[j] == p);
                                    assert(mpre.to_set().contains(p));
                                }
                            }
                            assert forall|p: (int, int)| target.contains(p)
                                && (p.0 < r as int || (p.0 == r as int && p.1 < c as int + 1))
                                implies m1.to_set().contains(p) by {
                                if p.0 < r as int || (p.0 == r as int && p.1 < c as int) {
                                    assert(mpre.to_set().contains(p));
                                    let j = choose|j: int| 0 <= j < mpre.len() && mpre[j] == p;
                                    assert(m1[j] == p);
                                } else {
                                    assert(m1[pre.len() as int] == p);
                                }
                            }
                        }
                    }
                } else {
                    proof {
                        assert(out@.map_values(
                            |p: (usize, usize)| (p.0 as int, p.1 as int)).to_set()
                            =~= Set::new(|p: (int, int)| target.contains(p)
                                && (p.0 < r as int
                                    || (p.0 == r as int && p.1 < c as int + 1))));
                    }
                }
                c = c + 1;
            }
            proof {
                assert(out@.map_values(|p: (usize, usize)| (p.0 as int, p.1 as int)).to_set()
                    =~= Set::new(|p: (int, int)| target.contains(p) && p.0 < r as int + 1));
            }
        } else {
            proof {
                assert(out@.map_values(|p: (usize, usize)| (p.0 as int, p.1 as int)).to_set()
                    =~= Set::new(|p: (int, int)| target.contains(p) && p.0 < r as int + 1));
            }
        }
        r = r + 1;
    }
    proof {
        assert(out@.map_values(|p: (usize, usize)| (p.0 as int, p.1 as int)).to_set()
            =~= target);
    }
    out
}

impl SelectionState {
    /// The selection's invariant: the stored list holds no position twice.
    pub closed spec fn wf(&self) -> bool {
        self.selected_cells@.no_duplicates()
    }

    /// An empty selection with no anchor.
    pub fn new() -> (r: SelectionState)
        ensures
            r.wf(),
            r@.cells == Set::<(int, int)>::empty(),
            r@.anchor is None,
    {
        let s = SelectionState { selected_cells: Vec::new(), selection_anchor: None };
        proof { assert(s@.cells =~= Set::<(int, int)>::empty()); }
        s
    }

    /// Whether a position is selected.
    pub fn is_selected(&self, row: usize, col: usize) -> (r: bool)
        ensures
            r == self@.cells.contains((row as int, col as int)),
    {
        let n: usize = self.selected_cells.len();
        let mut i: usize = 0;
        while i < n
            invariant
                0 <= i <= n,
                n == self.selected_cells@.len(),
                forall|j: int| 0 <= j < i ==> #[trigger] self.selected_cells@[j] != (row, col),
            decreases n - i,
        {
            if self.selected_cells[i].0 == row && self.selected_cells[i].1 == col {
                proof {
                    let m = self.selected_cells@.map_values(
                        |p: (usize, usize)| (p.0 as int, p.1 as int));
                    assert(m[i as int] == (row as int, col as int));
                    assert(m.contains((row as int, col as int)));
                }
                return true;
            }
            i = i + 1;
        }
        proof {
            let m = self.selected_cells@.map_values(
                |p: (usize, usize)| (p.0 as int, p.1 as int));
            if m.to_set().contains((row as int, col as int)) {
                let j = choose|j: int| 0 <= j < m.len() && m[j] == (row as int, col as int);
                assert(self.selected_cells@[j] == (row, col));
            }
        }
        false
    }

    /// Selects exactly one position and anchors there.
    pub fn select_single_cell(&mut self, row: usize, col: usize)
        ensures
            final(self).wf(),
            final(self)@.cells == Set::<(int, int)>::empty().insert((row as int, col as int)),
            final(self)@.anchor == Some((row as int, col as int)),
    {
        let mut v: Vec<(usize, usize)> = Vec::new();
        v.push((row, col));
        self.selected_cells = v;
        self.selection_anchor = Some((row, col));
        proof {
            let m = self.selected_cells@.map_values(
                |p: (usize, usize)| (p.0 as int, p.1 as int));
            assert(m[0] == (row as int, col as int));
            assert(m.to_set()
                =~= Set::<(int, int)>::empty().insert((row as int, col as int))) by {
                assert forall|p: (int, int)| m.to_set().contains(p)
                    implies p == (row as int, col as int) by {
                    let j = choose|j: int| 0 <= j < m.len() && m[j] == p;
                }
                assert(m.contains((row as int, col as int)));
            }
        }
    }

    /// Adds an unselected position or removes a selected one; the anchor
    /// moves to the toggled position if the selection is non-empty
    /// afterwards.
    pub fn toggle_cell_selection(&mut self, row: usize, col: usize)
        requires
            old(self).wf(),
        ensures
            final(self).wf(),
            old(self)@.cells.contains((row as int, col as int)) ==> final(self)@.cells
                == old(self)@.cells.remove((row as int, col as int)),
            !old(self)@.cells.contains((row as int, col as int)) ==> final(self)@.cells
                == old(self)@.cells.insert((row as int, col as int)),
            final(self)@.anchor == if final(self)@.cells == Set::<(int, int)>::empty() {
                old(self)@.anchor
            } else {
                Some((row as int, col as int))
            },
    {
        let ghost k = (row as int, col as int);
        let n: usize = self.selected_cells.len();
        let mut i: usize = 0;
        let mut found = false;
        while i < n && !found
            invariant
                0 <= i <= n,
                *self == *old(self),
                n == self.selected_cells@.len(),
                !found ==> forall|j: int| 0 <= j < i
                    ==> #[trigger] self.selected_cells@[j] != (row, col),
                found ==> i < n && self.selected_cells@[i as int] == (row, col),
            decreases n - i + (if found { 0int } else { 1int }),
        {
            if self.selected_cells[i].0 == row && self.selected_cells[i].1 == col {
                found = true;
            } else {
                i = i + 1;
            }
        }
        let ghost m0 = self.selected_cells@.map_values(
            |p: (usize, usize)| (p.0 as int, p.1 as int));
        if found {
            // Remove: swap in the last element and pop.
            let last = self.selected_cells.len() - 1;
            let lv = self.selected_cells[last];
            self.selected_cells.set(i, lv);
            let _ = self.selected_cells.pop();
            proof {
                let m1 = self.selected_cells@.map_values(
                    |p: (usize, usize)| (p.0 as int, p.1 as int));
                assert(m0[i as int] == k);
                assert(m1.to_set() =~= m0.to_set().remove(k)) by {
                    assert forall|p: (int, int)| m1.to_set().contains(p)
                        implies m0.to_set().contains(p) && p != k by {
                        let j = choose|j: int| 0 <= j < m1.len() && m1[j] == p;
                        if j == i {
                            assert(m0[last as int] == p);
                            assert(old(self).selected_cells@[last as int]
                                != old(self).selected_cells@[i as int]
                                || last == i);
                        } else {
                            assert(m0[j] == p);
                            assert(old(self).selected_cells@[j]
                                != old(self).selected_cells@[i as int]);
                        }
                    }
                    assert forall|p: (int, int)| m0.to_set().contains(p) && p != k
                        implies m1.to_set().contains(p) by {
                        let j = choose|j: int| 0 <= j < m0.len() && m0[j] == p;
                        if j == last {
                            assert(m1[i as int] == p);
                        } else if j != i {
                            assert(m1[j] == p);
                        }
                    }
                }
                assert(forall|a: int, b: int|
                    0 <= a < b < self.selected_cells@.len()
                        ==> self.selected_cells@[a] != self.selected_cells@[b]) by {
                    assert(forall|a: int| 0 <= a < self.selected_cells@.len() && a != i
                        ==> self.selected_cells@[a] == old(self).selected_cells@[a]);
                }
            }
        } else {
            self.selected_cells.push((row, col));
            proof {
                let m1 = self.selected_cells@.map_values(
                    |p: (usize, usize)| (p.0 as int, p.1 as int));
                assert(m1.to_set() =~= m0.to_set().insert(k)) by {
                    assert forall|p: (int, int)| m1.to_set().contains(p)
                        implies m0.to_set().contains(p) || p == k by {
                        let j = choose|j: int| 0 <= j < m1.len() && m1[j] == p;
                        if j < m1.len() - 1 {
                            assert(m0[j] == p);
                        }
                    }
                    assert forall|p: (int, int)| m0.to_set().contains(p) || p == k
                        implies m1.to_set().contains(p) by {
                        if m0.to_set().contains(p) {
                            let j = choose|j: int| 0 <= j < m0.len() && m0[j] == p;
                            assert(m1[j] == p);
                        } else {
                            assert(m1[m1.len() - 1] == p);
                        }
                    }
                }
            }
        }
        if self.selected_cells.len() != 0 {
            self.selection_anchor = Some((row, col));
            proof {
                let m1 = self.selected_cells@.map_values(
                    |p: (usize, usize)| (p.0 as int, p.1 as int));
                assert(m1.to_set().contains(m1[0]));
                assert(m1.to_set() != Set::<(int, int)>::empty());
            }
        } else {
            proof {
                let m1 = self.selected_cells@.map_values(
                    |p: (usize, usize)| (p.0 as int, p.1 as int));
                assert(m1.to_set() =~= Set::<(int, int)>::empty());
            }
        }
    }

    /// Replaces the selection with the rectangle between the anchor and
    /// the target, clipped to the bounds; anchors at the target when no
    /// anchor exists.
    pub fn select_range(
        &mut self,
        target_row: usize,
        target_col: usize,
        row_count: usize,
        col_count: usize,
    )
        requires
            target_row < usize::MAX,
            target_col < usize::MAX,
            old(self)@.anchor matches Some(a) ==> a.0 < usize::MAX
                && a.1 < usize::MAX,
        ensures
            final(self).wf(),
            match old(self)@.anchor {
                Some(a) => {
                    &&& final(self)@.cells == clipped_rect(
                        a,
                        (target_row as int, target_col as int),
                        row_count as int,
                        col_count as int,
                    )
                    &&& final(self)@.anchor == old(self)@.anchor
                },
                None => {
                    &&& final(self)@.cells
                        == Set::<(int, int)>::empty().insert(
                            (target_row as int, target_col as int))
                    &&& final(self)@.anchor == Some((target_row as int, target_col as int))
                },
            },
    {
        match self.selection_anchor {
            Some(anchor) => {
                let rlo: usize = if anchor.0 <= target_row { anchor.0 } else { target_row };
                let rhi: usize = if anchor.0 <= target_row { target_row } else { anchor.0 };
                let clo: usize = if anchor.1 <= target_col { anchor.1 } else { target_col };
                let chi: usize = if anchor.1 <= target_col { target_col } else { anchor.1 };
                let filled = fill_rect(rlo, rhi, clo, chi, row_count, col_count);
                self.selected_cells = filled;
                proof {
                    assert(clipped_rect(
                        (rlo as int, clo as int),
                        (rhi as int, chi as int),
                        row_count as int,
                        col_count as int,
                    ) =~= clipped_rect(
                        (anchor.0 as int, anchor.1 as int),
                        (target_row as int, target_col as int),
                        row_count as int,
                        col_count as int,
                    ));
                }
            },
            None => {
                self.select_single_cell(target_row, target_col);
            },
        }
    }

    /// Empties the selection; the anchor stays.
    pub fn clear_selection(&mut self)
        ensures
            final(self).wf(),
            final(self)@.cells == Set::<(int, int)>::empty(),
            final(self)@.anchor == old(self)@.anchor,
    {
        self.selected_cells = Vec::new();
        proof { assert(final(self)@.cells =~= Set::<(int, int)>::empty()); }
    }

    /// The selected positions, in no particular order and without
    /// duplicates.
    pub fn get_selected_cells(&self) -> (r: Vec<(usize, usize)>)
        requires
            self.wf(),
        ensures
            r@.no_duplicates(),
            r@.map_values(|p: (usize, usize)| (p.0 as int, p.1 as int)).to_set()
                == self@.cells,
    {
        let n: usize = self.selected_cells.len();
        let mut out: Vec<(usize, usize)> = Vec::new();
        let mut i: usize = 0;
        while i < n
            invariant
                0 <= i <= n,
                n == self.selected_cells@.len(),
                out@ == self.selected_cells@.take(i as int),
            decreases n - i,
        {
            let p = self.selected_cells[i];
            out.push(p);
            proof {
                assert(out@ =~= self.selected_cells@.take(i + 1));
            }
            i = i + 1;
        }
        proof {
            assert(out@ =~= self.selected_cells@);
        }
        proof { self.lemma_distinct(); }
        out
    }

    /// Number of selected positions.
    pub fn get_selection_count(&self) -> (r: usize)
        requires
            self.wf(),
        ensures
            r as int == self@.cells.len(),
    {
        proof { self.lemma_distinct(); }
        self.selected_cells.len()
    }

    /// The anchor position, if any.
    pub fn anchor(&self) -> (r: Option<(usize, usize)>)
        ensures
            match r {
                Some(p) => self@.anchor == Some((p.0 as int, p.1 as int)),
                None => self@.anchor is None,
            },
    {
        self.selection_anchor
    }

    /// Re-anchors the selection.
    pub fn set_anchor(&mut self, row: usize, col: usize)
        requires
            old(self).wf(),
        ensures
            final(self).wf(),
            final(self)@.cells == old(self)@.cells,
            final(self)@.anchor == Some((row as int, col as int)),
    {
        self.selection_anchor = Some((row, col));
    }

    /// Selects every position of the grid and anchors at the origin.
    pub fn select_all(&mut self, row_count: usize, col_count: usize)
        requires
            row_count < usize::MAX,
            col_count < usize::MAX,
        ensures
            final(self).wf(),
            final(self)@.cells == Set::new(|p: (int, int)|
                0 <= p.0 < row_count as int && 0 <= p.1 < col_count as int),
            final(self)@.anchor == Some((0int, 0int)),
    {
        if row_count == 0 || col_count == 0 {
            self.selected_cells = Vec::new();
            self.selection_anchor = Some((0, 0));
            proof {
                assert(final(self)@.cells =~= Set::new(|p: (int, int)|
                    0 <= p.0 < row_count as int && 0 <= p.1 < col_count as int));
            }
            return;
        }
        let filled = fill_rect(0, row_count - 1, 0, col_count - 1, row_count, col_count);
        self.selected_cells = filled;
        self.selection_anchor = Some((0, 0));
        proof {
            assert(final(self)@.cells =~= Set::new(|p: (int, int)|
                0 <= p.0 < row_count as int && 0 <= p.1 < col_count as int));
        }
    }

    /// Selects one whole row and anchors at its first position; silently
    /// rejected out of bounds.
    pub fn select_row(&mut self, row: usize, row_count: usize, col_count: usize)
        requires
            old(self).wf(),
            row_count < usize::MAX,
            col_count < usize::MAX,
        ensures
            final(self).wf(),
            row < row_count ==> {
                &&& final(self)@.cells == Set::new(|p: (int, int)|
                    p.0 == row as int && 0 <= p.1 < col_count as int)
                &&& final(self)@.anchor == Some((row as int, 0int))
            },
            row >= row_count ==> *final(self) == *old(self),
    {
        if row >= row_count {
            return;
        }
        if col_count == 0 {
            self.selected_cells = Vec::new();
            self.selection_anchor = Some((row, 0));
            proof {
                assert(final(self)@.cells =~= Set::new(|p: (int, int)|
                    p.0 == row as int && 0 <= p.1 < col_count as int));
            }
            return;
        }
        let filled = fill_rect(row, row, 0, col_count - 1, row_count, col_count);
        self.selected_cells = filled;
        self.selection_anchor = Some((row, 0));
        proof {
            assert(final(self)@.cells =~= Set::new(|p: (int, int)|
                p.0 == row as int && 0 <= p.1 < col_count as int));
        }
    }

    /// Selects one whole column and anchors at its first position;
    /// silently rejected out of bounds.
    pub fn select_col(&mut self, col: usize, row_count: usize, col_count: usize)
        requires
            old(self).wf(),
            row_count < usize::MAX,
            col_count < usize::MAX,
        ensures
            final(self).wf(),
            col < col_count ==> {
                &&& final(self)@.cells == Set::new(|p: (int, int)|
                    0 <= p.0 < row_count as int && p.1 == col as int)
                &&& final(self)@.anchor == Some((0int, col as int))
            },
            col >= col_count ==> *final(self) == *old(self),
    {
        if col >= col_count {
            return;
        }
        if row_count == 0 {
            self.selected_cells = Vec::new();
            self.selection_anchor = Some((0, col));
            proof {
                assert(final(self)@.cells =~= Set::new(|p: (int, int)|
                    0 <= p.0 < row_count as int && p.1 == col as int));
            }
            return;
        }
        let filled = fill_rect(0, row_count - 1, col, col, row_count, col_count);
        self.selected_cells = filled;
        self.selection_anchor = Some((0, col));
        proof {
            assert(final(self)@.cells =~= Set::new(|p: (int, int)|
                0 <= p.0 < row_count as int && p.1 == col as int));
        }
    }

    /// The stored list never holds a position twice, so the set's
    /// cardinality is the list's length.
    proof fn lemma_distinct(&self)
        requires
            self.wf(),
        ensures
            self@.cells.finite(),
            self@.cells.len() == self.selected_cells@.len(),
    {
        let m = self.selected_cells@.map_values(
            |p: (usize, usize)| (p.0 as int, p.1 as int));
        assert(m.no_duplicates()) by {
            assert(forall|a: int, b: int| 0 <= a < b < m.len()
                ==> #[trigger] m[a] == (self.selected_cells@[a].0 as int,
                        self.selected_cells@[a].1 as int)
                    && #[trigger] m[b] == (self.selected_cells@[b].0 as int,
                        self.selected_cells@[b].1 as int));
        }
        m.unique_seq_to_set();
    }
}

} // verus!
