//! The sparse cell store: an association list from grid position to cell,
//! modelled as a finite map.
//!
//! Only positions that were ever written or styled have an entry; every
//! structural operation (row/column insertion, deletion, clipping,
//! permutation) is verified to transform the map exactly.

use vstd::prelude::*;
use crate::values::{Cell, CellView};

verus! {

/// One stored position.
pub struct StoreEntry {
    pub row: usize,
    pub col: usize,
    pub cell: Cell,
}

/// The key of an entry in the mathematical model.
pub open spec fn entry_key(e: StoreEntry) -> (int, int) {
    (e.row as int, e.col as int)
}

/// The map denoted by an entry sequence; a later entry wins a key clash.
pub open spec fn map_of(s: Seq<StoreEntry>) -> Map<(int, int), CellView>
    decreases s.len(),
{
    if s.len() == 0 {
        Map::empty()
    } else {
        map_of(s.drop_last()).insert(entry_key(s.last()), s.last().cell@)
    }
}

/// No two entries share a key.
pub open spec fn distinct_keys(s: Seq<StoreEntry>) -> bool {
    forall|i: int, j: int|
        0 <= i < j < s.len() ==> #[trigger] entry_key(s[i]) != #[trigger] entry_key(s[j])
}

// ---------------------------------------------------------------------------
// Map transforms used by the structural operations
// ---------------------------------------------------------------------------

/// The store after a row is inserted at `at`: keys at or below shift down.
pub open spec fn map_insert_row(m: Map<(int, int), CellView>, at: int) -> Map<(int, int), CellView> {
    Map::new(
        |k: (int, int)| (k.0 < at && m.dom().contains(k))
            || (k.0 > at && m.dom().contains((k.0 - 1, k.1))),
        |k: (int, int)| if k.0 < at { m[k] } else { m[(k.0 - 1, k.1)] },
    )
}

/// The store after row `at` is deleted: its keys vanish, later rows shift up.
pub open spec fn map_delete_row(m: Map<(int, int), CellView>, at: int) -> Map<(int, int), CellView> {
    Map::new(
        |k: (int, int)| (k.0 < at && m.dom().contains(k))
            || (k.0 >= at && m.dom().contains((k.0 + 1, k.1))),
        |k: (int, int)| if k.0 < at { m[k] } else { m[(k.0 + 1, k.1)] },
    )
}

/// The store after a column is inserted at `at`.
pub open spec fn map_insert_col(m: Map<(int, int), CellView>, at: int) -> Map<(int, int), CellView> {
    Map::new(
        |k: (int, int)| (k.1 < at && m.dom().contains(k))
            || (k.1 > at && m.dom().contains((k.0, k.1 - 1))),
        |k: (int, int)| if k.1 < at { m[k] } else { m[(k.0, k.1 - 1)] },
    )
}

/// The store after column `at` is deleted.
pub open spec fn map_delete_col(m: Map<(int, int), CellView>, at: int) -> Map<(int, int), CellView> {
    Map::new(
        |k: (int, int)| (k.1 < at && m.dom().contains(k))
            || (k.1 >= at && m.dom().contains((k.0, k.1 + 1))),
        |k: (int, int)| if k.1 < at { m[k] } else { m[(k.0, k.1 + 1)] },
    )
}

/// The store clipped to the given bounds; everything outside is discarded.
pub open spec fn map_clip(m: Map<(int, int), CellView>, rows: int, cols: int) -> Map<(int, int), CellView> {
    Map::new(
        |k: (int, int)| m.dom().contains(k) && k.0 < rows && k.1 < cols,
        |k: (int, int)| m[k],
    )
}

/// The store after rows are permuted: new row `r` holds what old row
/// `perm[r]` held.
pub open spec fn map_remap_rows(m: Map<(int, int), CellView>, perm: Seq<int>) -> Map<(int, int), CellView> {
    Map::new(
        |k: (int, int)| 0 <= k.0 < perm.len() && m.dom().contains((perm[k.0], k.1)),
        |k: (int, int)| m[(perm[k.0], k.1)],
    )
}

/// The part of the store lying in row `r`.
pub open spec fn restrict_row(m: Map<(int, int), CellView>, r: int) -> Map<(int, int), CellView> {
    Map::new(|k: (int, int)| m.dom().contains(k) && k.0 == r, |k: (int, int)| m[k])
}

/// The part of the store lying in column `c`.
pub open spec fn restrict_col(m: Map<(int, int), CellView>, c: int) -> Map<(int, int), CellView> {
    Map::new(|k: (int, int)| m.dom().contains(k) && k.1 == c, |k: (int, int)| m[k])
}

/// The map denoted by a `(column, cell)` pair list pinned to one row.
pub open spec fn map_of_row_pairs(ps: Seq<(usize, Cell)>, row: int) -> Map<(int, int), CellView>
    decreases ps.len(),
{
    if ps.len() == 0 {
        Map::empty()
    } else {
        map_of_row_pairs(ps.drop_last(), row).insert(
            (row, ps.last().0 as int),
            ps.last().1@,
        )
    }
}

/// The map denoted by a `(row, cell)` pair list pinned to one column.
pub open spec fn map_of_col_pairs(ps: Seq<(usize, Cell)>, col: int) -> Map<(int, int), CellView>
    decreases ps.len(),
{
    if ps.len() == 0 {
        Map::empty()
    } else {
        map_of_col_pairs(ps.drop_last(), col).insert(
            (ps.last().0 as int, col),
            ps.last().1@,
        )
    }
}

/// The map denoted by a row pair list, keeping only in-bounds columns.
pub open spec fn row_pairs_clipped(ps: Seq<(usize, Cell)>, row: int, cols: int)
    -> Map<(int, int), CellView>
    decreases ps.len(),
{
    if ps.len() == 0 {
        Map::empty()
    } else {
        let m = row_pairs_clipped(ps.drop_last(), row, cols);
        if (ps.last().0 as int) < cols {
            m.insert((row, ps.last().0 as int), ps.last().1@)
        } else {
            m
        }
    }
}

/// The map denoted by a column pair list, keeping only in-bounds rows.
pub open spec fn col_pairs_clipped(ps: Seq<(usize, Cell)>, col: int, rows: int)
    -> Map<(int, int), CellView>
    decreases ps.len(),
{
    if ps.len() == 0 {
        Map::empty()
    } else {
        let m = col_pairs_clipped(ps.drop_last(), col, rows);
        if (ps.last().0 as int) < rows {
            m.insert((ps.last().0 as int, col), ps.last().1@)
        } else {
            m
        }
    }
}

/// Where every column of the pair list is in bounds, clipping changes
/// nothing.
pub proof fn lemma_row_pairs_clipped_all_in(ps: Seq<(usize, Cell)>, row: int, cols: int)
    requires
        forall|j: int| 0 <= j < ps.len() ==> ((#[trigger] ps[j]).0 as int) < cols,
    ensures
        row_pairs_clipped(ps, row, cols) == map_of_row_pairs(ps, row),
    decreases ps.len(),
{
    if ps.len() > 0 {
        assert(forall|j: int| 0 <= j < ps.len() - 1 ==> ps.drop_last()[j] == ps[j]);
        lemma_row_pairs_clipped_all_in(ps.drop_last(), row, cols);
    }
}

/// Where every row of the pair list is in bounds, clipping changes
/// nothing.
pub proof fn lemma_col_pairs_clipped_all_in(ps: Seq<(usize, Cell)>, col: int, rows: int)
    requires
        forall|j: int| 0 <= j < ps.len() ==> ((#[trigger] ps[j]).0 as int) < rows,
    ensures
        col_pairs_clipped(ps, col, rows) == map_of_col_pairs(ps, col),
    decreases ps.len(),
{
    if ps.len() > 0 {
        assert(forall|j: int| 0 <= j < ps.len() - 1 ==> ps.drop_last()[j] == ps[j]);
        lemma_col_pairs_clipped_all_in(ps.drop_last(), col, rows);
    }
}

// ---------------------------------------------------------------------------
// Lemmas about map_of
// ---------------------------------------------------------------------------

/// One step of scanning an entry sequence from the front.
pub proof fn lemma_map_of_take_step(s: Seq<StoreEntry>, i: int)
    requires
        0 <= i < s.len(),
    ensures
        map_of(s.take(i + 1)) == map_of(s.take(i)).insert(entry_key(s[i]), s[i].cell@),
{
    assert(s.take(i + 1).drop_last() =~= s.take(i));
    assert(s.take(i + 1).last() == s[i]);
}

/// An entry of a duplicate-free sequence is in the map with its own cell.
pub proof fn lemma_map_of_index(s: Seq<StoreEntry>, i: int)
    requires
        distinct_keys(s),
        0 <= i < s.len(),
    ensures
        map_of(s).dom().contains(entry_key(s[i])),
        map_of(s)[entry_key(s[i])] == s[i].cell@,
    decreases s.len(),
{
    if i == s.len() - 1 {
    } else {
        assert(distinct_keys(s.drop_last())) by {
            assert(forall|a: int| 0 <= a < s.len() - 1 ==> s.drop_last()[a] == s[a]);
        }
        lemma_map_of_index(s.drop_last(), i);
        assert(entry_key(s[i]) != entry_key(s[s.len() - 1]));
    }
}

/// A key matching no entry is not in the map.
pub proof fn lemma_map_of_no_key(s: Seq<StoreEntry>, k: (int, int))
    requires
        forall|i: int| 0 <= i < s.len() ==> #[trigger] entry_key(s[i]) != k,
    ensures
        !map_of(s).dom().contains(k),
    decreases s.len(),
{
    if s.len() > 0 {
        assert(forall|i: int| 0 <= i < s.len() - 1 ==> s.drop_last()[i] == s[i]);
        lemma_map_of_no_key(s.drop_last(), k);
    }
}

/// Replacing the entry at `i` by one with the same key updates the map at
/// that key alone.
pub proof fn lemma_map_of_update(s: Seq<StoreEntry>, i: int, e: StoreEntry)
    requires
        distinct_keys(s),
        0 <= i < s.len(),
        entry_key(e) == entry_key(s[i]),
    ensures
        map_of(s.update(i, e)) == map_of(s).insert(entry_key(e), e.cell@),
    decreases s.len(),
{
    if i == s.len() - 1 {
        assert(s.update(i, e).drop_last() =~= s.drop_last());
        assert(s.update(i, e).last() == e);
        assert(map_of(s.drop_last()).insert(entry_key(e), e.cell@)
            =~= map_of(s.drop_last()).insert(entry_key(s.last()), s.last().cell@)
                .insert(entry_key(e), e.cell@));
    } else {
        assert(distinct_keys(s.drop_last())) by {
            assert(forall|a: int| 0 <= a < s.len() - 1 ==> s.drop_last()[a] == s[a]);
        }
        assert(s.update(i, e).drop_last() =~= s.drop_last().update(i, e));
        lemma_map_of_update(s.drop_last(), i, e);
        assert(s.update(i, e).last() == s.last());
        assert(entry_key(e) != entry_key(s.last()));
        assert(map_of(s.drop_last()).insert(entry_key(e), e.cell@)
            .insert(entry_key(s.last()), s.last().cell@)
            =~= map_of(s.drop_last()).insert(entry_key(s.last()), s.last().cell@)
                .insert(entry_key(e), e.cell@));
    }
}

/// Pushing an entry whose mapped key extends a duplicate-free image keeps
/// the image duplicate-free.  `f` is the (partial, injective) key transform
/// that carried each source entry below `i` to the output.
pub proof fn lemma_mapped_push_distinct(
    s: Seq<StoreEntry>,
    i: int,
    out: Seq<StoreEntry>,
    e: StoreEntry,
    f: spec_fn((int, int)) -> Option<(int, int)>,
)
    requires
        distinct_keys(s),
        0 <= i < s.len(),
        distinct_keys(out),
        forall|j: int| 0 <= j < out.len()
            ==> exists|j2: int| 0 <= j2 < i && f(entry_key(s[j2])) == Some(#[trigger] entry_key(out[j])),
        forall|k1: (int, int), k2: (int, int)|
            (#[trigger] f(k1)) is Some && f(k1) == #[trigger] f(k2) ==> k1 == k2,
        f(entry_key(s[i])) == Some(entry_key(e)),
    ensures
        distinct_keys(out.push(e)),
        forall|j: int| 0 <= j < out.push(e).len()
            ==> exists|j2: int| 0 <= j2 < i + 1
                && f(entry_key(s[j2])) == Some(#[trigger] entry_key(out.push(e)[j])),
{
    assert forall|j: int| 0 <= j < out.len() implies entry_key(out[j]) != entry_key(e) by {
        let j2 = choose|j2: int| 0 <= j2 < i && f(entry_key(s[j2])) == Some(entry_key(out[j]));
        if entry_key(out[j]) == entry_key(e) {
            assert(f(entry_key(s[j2])) == f(entry_key(s[i])));
            assert(entry_key(s[j2]) == entry_key(s[i]));
        }
    }
    assert(forall|j: int| 0 <= j < out.len() ==> out.push(e)[j] == out[j]);
    assert(out.push(e)[out.len() as int] == e);
    assert forall|j: int| 0 <= j < out.push(e).len()
        implies exists|j2: int| 0 <= j2 < i + 1
            && f(entry_key(s[j2])) == Some(#[trigger] entry_key(out.push(e)[j])) by {
        if j < out.len() {
            let j2 = choose|j2: int| 0 <= j2 < i && f(entry_key(s[j2])) == Some(entry_key(out[j]));
            assert(0 <= j2 < i + 1 && f(entry_key(s[j2])) == Some(entry_key(out.push(e)[j])));
        } else {
            assert(0 <= i < i + 1 && f(entry_key(s[i])) == Some(entry_key(out.push(e)[j])));
        }
    }
}

// ---------------------------------------------------------------------------
// The store
// ---------------------------------------------------------------------------

/// Sparse mapping from `(row, column)` to [`Cell`].
pub struct CellStore {
    entries: Vec<StoreEntry>,
}

impl View for CellStore {
    type V = Map<(int, int), CellView>;

    closed spec fn view(&self) -> Map<(int, int), CellView> {
        map_of(self.entries@)
    }
}

impl CellStore {
    /// The store's invariant: entry keys are pairwise distinct.
    pub closed spec fn wf(&self) -> bool {
        distinct_keys(self.entries@)
    }

    /// An empty store.
    pub fn new() -> (r: CellStore)
        ensures
            r.wf(),
            r@ == Map::<(int, int), CellView>::empty(),
    {
        CellStore { entries: Vec::new() }
    }

    /// Looks a position up.
    pub fn get(&self, row: usize, col: usize) -> (r: Option<&Cell>)
        requires
            self.wf(),
        ensures
            match r {
                Some(c) => self@.dom().contains((row as int, col as int))
                    && c@ == self@[(row as int, col as int)],
                None => !self@.dom().contains((row as int, col as int)),
            },
    {
        let ghost k = (row as int, col as int);
        let n: usize = self.entries.len();
        let mut i: usize = 0;
        while i < n
            invariant
                0 <= i <= n,
                forall|j: int| 0 <= j < i ==> #[trigger] entry_key(self.entries@[j]) != k,
            decreases n - i,
        {
            let e = &self.entries[i];
            if e.row == row && e.col == col {
                proof { lemma_map_of_index(self.entries@, i as int); }
                return Some(&self.entries[i].cell);
            }
            i = i + 1;
        }
        proof { lemma_map_of_no_key(self.entries@, k); }
        None
    }

    /// Writes a cell at a position, replacing any previous cell there.
    pub fn set(&mut self, row: usize, col: usize, cell: Cell)
        requires
            old(self).wf(),
        ensures
            final(self).wf(),
            final(self)@ == old(self)@.insert((row as int, col as int), cell@),
    {
        let ghost k = (row as int, col as int);
        let n: usize = self.entries.len();
        let mut i: usize = 0;
        while i < n
            invariant
                0 <= i <= n,
                self.entries@ == old(self).entries@,
                n == self.entries@.len(),
                forall|j: int| 0 <= j < i ==> #[trigger] entry_key(self.entries@[j]) != k,
            decreases n - i,
        {
            let hit = self.entries[i].row == row && self.entries[i].col == col;
            if hit {
                let e = StoreEntry { row, col, cell };
                proof {
                    lemma_map_of_update(self.entries@, i as int, e);
                    let s2 = self.entries@.update(i as int, e);
                    assert(entry_key(e) == entry_key(self.entries@[i as int]));
                    assert forall|a: int, b: int| 0 <= a < b < s2.len()
                        implies entry_key(s2[a]) != entry_key(s2[b]) by {
                        assert(entry_key(self.entries@[a]) != entry_key(self.entries@[b]));
                        assert(a == i || s2[a] == self.entries@[a]);
                        assert(b == i || s2[b] == self.entries@[b]);
                    }
                    assert(distinct_keys(s2));
                }
                self.entries.set(i, e);
                return;
            }
            i = i + 1;
        }
        let e = StoreEntry { row, col, cell };
        proof {
            assert(self.entries@.push(e).drop_last() =~= self.entries@);
            assert(forall|a: int| 0 <= a < self.entries@.len()
                ==> self.entries@.push(e)[a] == self.entries@[a]);
        }
        self.entries.push(e);
    }

    /// Discards every cell.
    pub fn clear(&mut self)
        ensures
            final(self).wf(),
            final(self)@ == Map::<(int, int), CellView>::empty(),
    {
        self.entries.clear();
    }

    /// Shifts every key with `row >= at` down one row (a row insertion).
    pub fn shift_rows_from(&mut self, at: usize)
        requires
            old(self).wf(),
            forall|k: (int, int)| #[trigger] old(self)@.dom().contains(k)
                ==> k.0 + 1 <= usize::MAX,
        ensures
            final(self).wf(),
            final(self)@ == map_insert_row(old(self)@, at as int),
    {
        let ghost f = |k: (int, int)|
            Some(if k.0 >= at { (k.0 + 1, k.1) } else { k });
        let ghost src = self.entries@;
        let n: usize = self.entries.len();
        let mut out: Vec<StoreEntry> = Vec::new();
        let mut i: usize = 0;
        while i < n
            invariant
                0 <= i <= n,
                distinct_keys(out@),
                forall|j: int| 0 <= j < out@.len()
                    ==> exists|j2: int| 0 <= j2 < i
                        && f(entry_key(src[j2])) == Some(#[trigger] entry_key(out@[j])),
                map_of(out@) == map_insert_row(map_of(src.take(i as int)), at as int),
            decreases n - i,
        {
            proof {
                lemma_map_of_index(src, i as int);
                assert(old(self)@.dom().contains(entry_key(src[i as int])));
            }
            let shift = self.entries[i].row >= at;
            let nrow: usize = if shift { self.entries[i].row + 1 } else { self.entries[i].row };
            let e = StoreEntry {
                row: nrow,
                col: self.entries[i].col,
                cell: self.entries[i].cell.duplicate(),
            };
            proof {
                lemma_map_of_take_step(src, i as int);
                lemma_mapped_push_distinct(src, i as int, out@, e, f);
                assert(out@.push(e).drop_last() =~= out@);
                assert(map_insert_row(map_of(src.take(i + 1)), at as int)
                    =~= map_insert_row(map_of(src.take(i as int)), at as int)
                        .insert(entry_key(e), e.cell@));
            }
            out.push(e);
            i = i + 1;
        }
        proof { assert(src.take(n as int) =~= src); }
        self.entries = out;
    }

    /// Deletes row `at`: its keys vanish and every later row shifts up.
    pub fn collapse_row(&mut self, at: usize)
        requires
            old(self).wf(),
        ensures
            final(self).wf(),
            final(self)@ == map_delete_row(old(self)@, at as int),
    {
        let ghost f = |k: (int, int)|
            if k.0 == at { None } else if k.0 > at { Some((k.0 - 1, k.1)) } else { Some(k) };
        let ghost src = self.entries@;
        let n: usize = self.entries.len();
        let mut out: Vec<StoreEntry> = Vec::new();
        let mut i: usize = 0;
        while i < n
            invariant
                0 <= i <= n,
                distinct_keys(out@),
                forall|j: int| 0 <= j < out@.len()
                    ==> exists|j2: int| 0 <= j2 < i
                        && f(entry_key(src[j2])) == Some(#[trigger] entry_key(out@[j])),
                map_of(out@) == map_delete_row(map_of(src.take(i as int)), at as int),
            decreases n - i,
        {
            proof { lemma_map_of_take_step(src, i as int); }
            let r = self.entries[i].row;
            if r != at {
                let nrow: usize = if r > at { r - 1 } else { r };
                let e = StoreEntry {
                    row: nrow,
                    col: self.entries[i].col,
                    cell: self.entries[i].cell.duplicate(),
                };
                proof {
                    lemma_mapped_push_distinct(src, i as int, out@, e, f);
                    assert(out@.push(e).drop_last() =~= out@);
                    assert(map_delete_row(map_of(src.take(i + 1)), at as int)
                        =~= map_delete_row(map_of(src.take(i as int)), at as int)
                            .insert(entry_key(e), e.cell@));
                }
                out.push(e);
            } else {
                proof {
                    assert(map_delete_row(map_of(src.take(i + 1)), at as int)
                        =~= map_delete_row(map_of(src.take(i as int)), at as int));
                }
            }
            i = i + 1;
        }
        proof { assert(src.take(n as int) =~= src); }
        self.entries = out;
    }

    /// Shifts every key with `col >= at` right one column (a column
    /// insertion).
    pub fn shift_cols_from(&mut self, at: usize)
        requires
            old(self).wf(),
            forall|k: (int, int)| #[trigger] old(self)@.dom().contains(k)
                ==> k.1 + 1 <= usize::MAX,
        ensures
            final(self).wf(),
            final(self)@ == map_insert_col(old(self)@, at as int),
    {
        let ghost f = |k: (int, int)|
            Some(if k.1 >= at { (k.0, k.1 + 1) } else { k });
        let ghost src = self.entries@;
        let n: usize = self.entries.len();
        let mut out: Vec<StoreEntry> = Vec::new();
        let mut i: usize = 0;
        while i < n
            invariant
                0 <= i <= n,
                distinct_keys(out@),
                forall|j: int| 0 <= j < out@.len()
                    ==> exists|j2: int| 0 <= j2 < i
                        && f(entry_key(src[j2])) == Some(#[trigger] entry_key(out@[j])),
                map_of(out@) == map_insert_col(map_of(src.take(i as int)), at as int),
            decreases n - i,
        {
            proof {
                lemma_map_of_index(src, i as int);
                assert(old(self)@.dom().contains(entry_key(src[i as int])));
            }
            let shift = self.entries[i].col >= at;
            let ncol: usize = if shift { self.entries[i].col + 1 } else { self.entries[i].col };
            let e = StoreEntry {
                row: self.entries[i].row,
                col: ncol,
                cell: self.entries[i].cell.duplicate(),
            };
            proof {
                lemma_map_of_take_step(src, i as int);
                lemma_mapped_push_distinct(src, i as int, out@, e, f);
                assert(out@.push(e).drop_last() =~= out@);
                assert(map_insert_col(map_of(src.take(i + 1)), at as int)
                    =~= map_insert_col(map_of(src.take(i as int)), at as int)
                        .insert(entry_key(e), e.cell@));
            }
            out.push(e);
            i = i + 1;
        }
        proof { assert(src.take(n as int) =~= src); }
        self.entries = out;
    }

    /// Deletes column `at`: its keys vanish and every later column shifts
    /// left.
    pub fn collapse_col(&mut self, at: usize)
        requires
            old(self).wf(),
        ensures
            final(self).wf(),
            final(self)@ == map_delete_col(old(self)@, at as int),
    {
        let ghost f = |k: (int, int)|
            if k.1 == at { None } else if k.1 > at { Some((k.0, k.1 - 1)) } else { Some(k) };
        let ghost src = self.entries@;
        let n: usize = self.entries.len();
        let mut out: Vec<StoreEntry> = Vec::new();
        let mut i: usize = 0;
        while i < n
            invariant
                0 <= i <= n,
                distinct_keys(out@),
                forall|j: int| 0 <= j < out@.len()
                    ==> exists|j2: int| 0 <= j2 < i
                        && f(entry_key(src[j2])) == Some(#[trigger] entry_key(out@[j])),
                map_of(out@) == map_delete_col(map_of(src.take(i as int)), at as int),
            decreases n - i,
        {
            proof { lemma_map_of_take_step(src, i as int); }
            let c = self.entries[i].col;
            if c != at {
                let ncol: usize = if c > at { c - 1 } else { c };
                let e = StoreEntry {
                    row: self.entries[i].row,
                    col: ncol,
                    cell: self.entries[i].cell.duplicate(),
                };
                proof {
                    lemma_mapped_push_distinct(src, i as int, out@, e, f);
                    assert(out@.push(e).drop_last() =~= out@);
                    assert(map_delete_col(map_of(src.take(i + 1)), at as int)
                        =~= map_delete_col(map_of(src.take(i as int)), at as int)
                            .insert(entry_key(e), e.cell@));
                }
                out.push(e);
            } else {
                proof {
                    assert(map_delete_col(map_of(src.take(i + 1)), at as int)
                        =~= map_delete_col(map_of(src.take(i as int)), at as int));
                }
            }
            i = i + 1;
        }
        proof { assert(src.take(n as int) =~= src); }
        self.entries = out;
    }

    /// Discards every cell outside the given bounds.
    pub fn retain_bounds(&mut self, rows: usize, cols: usize)
        requires
            old(self).wf(),
        ensures
            final(self).wf(),
            final(self)@ == map_clip(old(self)@, rows as int, cols as int),
    {
        let ghost f = |k: (int, int)|
            if k.0 < rows && k.1 < cols { Some(k) } else { None };
        let ghost src = self.entries@;
        let n: usize = self.entries.len();
        let mut out: Vec<StoreEntry> = Vec::new();
        let mut i: usize = 0;
        while i < n
            invariant
                0 <= i <= n,
                distinct_keys(out@),
                forall|j: int| 0 <= j < out@.len()
                    ==> exists|j2: int| 0 <= j2 < i
                        && f(entry_key(src[j2])) == Some(#[trigger] entry_key(out@[j])),
                map_of(out@) == map_clip(map_of(src.take(i as int)), rows as int, cols as int),
            decreases n - i,
        {
            proof { lemma_map_of_take_step(src, i as int); }
            let inside = self.entries[i].row < rows && self.entries[i].col < cols;
            if inside {
                let e = StoreEntry {
                    row: self.entries[i].row,
                    col: self.entries[i].col,
                    cell: self.entries[i].cell.duplicate(),
                };
                proof {
                    lemma_mapped_push_distinct(src, i as int, out@, e, f);
                    assert(out@.push(e).drop_last() =~= out@);
                    assert(map_clip(map_of(src.take(i + 1)), rows as int, cols as int)
                        =~= map_clip(map_of(src.take(i as int)), rows as int, cols as int)
                            .insert(entry_key(e), e.cell@));
                }
                out.push(e);
            } else {
                proof {
                    assert(map_clip(map_of(src.take(i + 1)), rows as int, cols as int)
                        =~= map_clip(map_of(src.take(i as int)), rows as int, cols as int));
                }
            }
            i = i + 1;
        }
        proof { assert(src.take(n as int) =~= src); }
        self.entries = out;
    }

    /// Remaps rows under a permutation.  `fwd` sends each old row to its new
    /// position; `perm` is its inverse (new position to old row), which the
    /// resulting map is stated over.
    pub fn remap_rows(&mut self, fwd: &Vec<usize>, Ghost(perm): Ghost<Seq<int>>)
        requires
            old(self).wf(),
            perm.len() == fwd.len(),
            forall|r: int| 0 <= r < perm.len()
                ==> 0 <= #[trigger] perm[r] < fwd.len() && fwd[perm[r]] == r,
            forall|r: int| 0 <= r < fwd.len()
                ==> 0 <= #[trigger] fwd[r] < perm.len() && perm[fwd[r] as int] == r,
            forall|k: (int, int)| #[trigger] old(self)@.dom().contains(k)
                ==> 0 <= k.0 < fwd.len(),
        ensures
            final(self).wf(),
            final(self)@ == map_remap_rows(old(self)@, perm),
    {
        let ghost f = |k: (int, int)|
            if 0 <= k.0 < fwd@.len() { Some((fwd@[k.0] as int, k.1)) } else { None };
        let ghost src = self.entries@;
        let n: usize = self.entries.len();
        let mut out: Vec<StoreEntry> = Vec::new();
        let mut i: usize = 0;
        while i < n
            invariant
                0 <= i <= n,
                distinct_keys(out@),
                forall|j: int| 0 <= j < out@.len()
                    ==> exists|j2: int| 0 <= j2 < i
                        && f(entry_key(src[j2])) == Some(#[trigger] entry_key(out@[j])),
                map_of(out@) == map_remap_rows(map_of(src.take(i as int)), perm),
            decreases n - i,
        {
            proof {
                lemma_map_of_index(src, i as int);
                assert(old(self)@.dom().contains(entry_key(src[i as int])));
            }
            let r = self.entries[i].row;
            let nrow: usize = fwd[r];
            let e = StoreEntry {
                row: nrow,
                col: self.entries[i].col,
                cell: self.entries[i].cell.duplicate(),
            };
            proof {
                lemma_map_of_take_step(src, i as int);
                lemma_mapped_push_distinct(src, i as int, out@, e, f);
                assert(out@.push(e).drop_last() =~= out@);
                assert(map_remap_rows(map_of(src.take(i + 1)), perm)
                    =~= map_remap_rows(map_of(src.take(i as int)), perm)
                        .insert(entry_key(e), e.cell@));
            }
            out.push(e);
            i = i + 1;
        }
        proof { assert(src.take(n as int) =~= src); }
        self.entries = out;
    }

    /// Collects row `row` as `(column, cell)` pairs whose pair map is
    /// exactly that row's slice of the store.
    pub fn row_pairs(&self, row: usize) -> (r: Vec<(usize, Cell)>)
        requires
            self.wf(),
        ensures
            map_of_row_pairs(r@, row as int) == restrict_row(self@, row as int),
    {
        let ghost src = self.entries@;
        let n: usize = self.entries.len();
        let mut out: Vec<(usize, Cell)> = Vec::new();
        let mut i: usize = 0;
        while i < n
            invariant
                0 <= i <= n,
                map_of_row_pairs(out@, row as int)
                    == restrict_row(map_of(src.take(i as int)), row as int),
            decreases n - i,
        {
            proof { lemma_map_of_take_step(src, i as int); }
            if self.entries[i].row == row {
                let p = (self.entries[i].col, self.entries[i].cell.duplicate());
                proof {
                    assert(out@.push(p).drop_last() =~= out@);
                    assert(restrict_row(map_of(src.take(i + 1)), row as int)
                        =~= restrict_row(map_of(src.take(i as int)), row as int)
                            .insert((row as int, p.0 as int), p.1@));
                }
                out.push(p);
            } else {
                proof {
                    assert(restrict_row(map_of(src.take(i + 1)), row as int)
                        =~= restrict_row(map_of(src.take(i as int)), row as int));
                }
            }
            i = i + 1;
        }
        proof { assert(src.take(n as int) =~= src); }
        out
    }

    /// Collects column `col` as `(row, cell)` pairs whose pair map is
    /// exactly that column's slice of the store.
    pub fn col_pairs(&self, col: usize) -> (r: Vec<(usize, Cell)>)
        requires
            self.wf(),
        ensures
            map_of_col_pairs(r@, col as int) == restrict_col(self@, col as int),
    {
        let ghost src = self.entries@;
        let n: usize = self.entries.len();
        let mut out: Vec<(usize, Cell)> = Vec::new();
        let mut i: usize = 0;
        while i < n
            invariant
                0 <= i <= n,
                map_of_col_pairs(out@, col as int)
                    == restrict_col(map_of(src.take(i as int)), col as int),
            decreases n - i,
        {
            proof { lemma_map_of_take_step(src, i as int); }
            if self.entries[i].col == col {
                let p = (self.entries[i].row, self.entries[i].cell.duplicate());
                proof {
                    assert(out@.push(p).drop_last() =~= out@);
                    assert(restrict_col(map_of(src.take(i + 1)), col as int)
                        =~= restrict_col(map_of(src.take(i as int)), col as int)
                            .insert((p.0 as int, col as int), p.1@));
                }
                out.push(p);
            } else {
                proof {
                    assert(restrict_col(map_of(src.take(i + 1)), col as int)
                        =~= restrict_col(map_of(src.take(i as int)), col as int));
                }
            }
            i = i + 1;
        }
        proof { assert(src.take(n as int) =~= src); }
        out
    }
}

} // verus!
