//! The sort engine: multi-level key comparison and the row ordering it
//! induces.
//!
//! A row's key is its values in the sort columns; keys compare level by
//! level, the first unequal level deciding.  [`sort_rows`] produces a
//! permutation of the row indices that is sorted under that order.

use vstd::prelude::*;
use crate::values::{
    CellValue, ValueView, value_cmp, cmp_values,
    lemma_value_cmp_flip, lemma_value_cmp_trans_lt, lemma_value_cmp_eq_congruent,
};
use crate::text::{Ord3, ord3_flip};

verus! {

/// The views of a value list.
pub open spec fn vals_view(s: Seq<CellValue>) -> Seq<ValueView> {
    s.map_values(|v: CellValue| v@)
}

/// Level-by-level key comparison; the first level that is not equal wins,
/// and exhausted keys or directions compare equal.
pub open spec fn keys_cmp(a: Seq<ValueView>, b: Seq<ValueView>, dirs: Seq<bool>) -> Ord3
    decreases a.len(),
{
    if a.len() == 0 || b.len() == 0 || dirs.len() == 0 {
        Ord3::Eq
    } else {
        let c = value_cmp(a[0], b[0], dirs[0]);
        if c != Ord3::Eq {
            c
        } else {
            keys_cmp(
                a.subrange(1, a.len() as int),
                b.subrange(1, b.len() as int),
                dirs.subrange(1, dirs.len() as int),
            )
        }
    }
}

/// Key `a` does not come after key `b`.
pub open spec fn keys_le(a: Seq<ValueView>, b: Seq<ValueView>, dirs: Seq<bool>) -> bool {
    keys_cmp(a, b, dirs) != Ord3::Gt
}

/// Swapping the arguments flips the key comparison.
pub proof fn lemma_keys_cmp_flip(a: Seq<ValueView>, b: Seq<ValueView>, dirs: Seq<bool>)
    ensures
        keys_cmp(b, a, dirs) == ord3_flip(keys_cmp(a, b, dirs)),
    decreases a.len(),
{
    if a.len() > 0 && b.len() > 0 && dirs.len() > 0 {
        lemma_value_cmp_flip(a[0], b[0], dirs[0]);
        lemma_keys_cmp_flip(
            a.subrange(1, a.len() as int),
            b.subrange(1, b.len() as int),
            dirs.subrange(1, dirs.len() as int),
        );
    }
}

/// Strict key comparison is transitive over equal-length keys.
pub proof fn lemma_keys_cmp_trans_lt(
    a: Seq<ValueView>,
    b: Seq<ValueView>,
    c: Seq<ValueView>,
    dirs: Seq<bool>,
)
    requires
        a.len() == b.len() && b.len() == c.len(),
        keys_cmp(a, b, dirs) == Ord3::Lt,
        keys_cmp(b, c, dirs) == Ord3::Lt,
    ensures
        keys_cmp(a, c, dirs) == Ord3::Lt,
    decreases a.len(),
{
    let ca = value_cmp(a[0], b[0], dirs[0]);
    let cb = value_cmp(b[0], c[0], dirs[0]);
    if ca == Ord3::Lt && cb == Ord3::Lt {
        lemma_value_cmp_trans_lt(a[0], b[0], c[0], dirs[0]);
    } else if ca == Ord3::Lt {
        lemma_value_cmp_eq_congruent(b[0], c[0], a[0], dirs[0]);
        lemma_value_cmp_flip(a[0], b[0], dirs[0]);
        lemma_value_cmp_flip(a[0], c[0], dirs[0]);
    } else if cb == Ord3::Lt {
        lemma_value_cmp_eq_congruent(a[0], b[0], c[0], dirs[0]);
    } else {
        lemma_value_cmp_eq_congruent(a[0], b[0], c[0], dirs[0]);
        lemma_keys_cmp_trans_lt(
            a.subrange(1, a.len() as int),
            b.subrange(1, b.len() as int),
            c.subrange(1, c.len() as int),
            dirs.subrange(1, dirs.len() as int),
        );
    }
}

/// Keys that compare equal are interchangeable on either side of a key
/// comparison with a key of the same length.
pub proof fn lemma_keys_cmp_eq_congruent(
    a: Seq<ValueView>,
    b: Seq<ValueView>,
    c: Seq<ValueView>,
    dirs: Seq<bool>,
)
    requires
        a.len() == b.len() && b.len() == c.len(),
        keys_cmp(a, b, dirs) == Ord3::Eq,
    ensures
        keys_cmp(a, c, dirs) == keys_cmp(b, c, dirs),
        keys_cmp(c, a, dirs) == keys_cmp(c, b, dirs),
    decreases a.len(),
{
    if a.len() > 0 && dirs.len() > 0 {
        lemma_value_cmp_eq_congruent(a[0], b[0], c[0], dirs[0]);
        lemma_keys_cmp_eq_congruent(
            a.subrange(1, a.len() as int),
            b.subrange(1, b.len() as int),
            c.subrange(1, c.len() as int),
            dirs.subrange(1, dirs.len() as int),
        );
    }
}

/// Non-strict key comparison is transitive over equal-length keys.
pub proof fn lemma_keys_le_trans(
    a: Seq<ValueView>,
    b: Seq<ValueView>,
    c: Seq<ValueView>,
    dirs: Seq<bool>,
)
    requires
        a.len() == b.len() && b.len() == c.len(),
        keys_le(a, b, dirs),
        keys_le(b, c, dirs),
    ensures
        keys_le(a, c, dirs),
{
    let ca = keys_cmp(a, b, dirs);
    let cb = keys_cmp(b, c, dirs);
    if ca == Ord3::Lt && cb == Ord3::Lt {
        lemma_keys_cmp_trans_lt(a, b, c, dirs);
    } else if ca == Ord3::Eq {
        lemma_keys_cmp_eq_congruent(a, b, c, dirs);
    } else {
        lemma_keys_cmp_eq_congruent(b, c, a, dirs);
    }
}

/// Compares two keys; mirrors [`keys_cmp`] exactly.
pub fn cmp_keys(a: &Vec<CellValue>, b: &Vec<CellValue>, dirs: &Vec<bool>) -> (r: Ord3)
    ensures
        r == keys_cmp(vals_view(a@), vals_view(b@), dirs@),
{
    let mut i: usize = 0;
    proof {
        assert(vals_view(a@).skip(0) =~= vals_view(a@));
        assert(vals_view(b@).skip(0) =~= vals_view(b@));
        assert(dirs@.skip(0) =~= dirs@);
    }
    while i < a.len() && i < b.len() && i < dirs.len()
        invariant
            0 <= i <= a.len() && 0 <= i <= b.len() && 0 <= i <= dirs.len(),
            keys_cmp(vals_view(a@), vals_view(b@), dirs@)
                == keys_cmp(
                    vals_view(a@).skip(i as int),
                    vals_view(b@).skip(i as int),
                    dirs@.skip(i as int),
                ),
        decreases a.len() - i,
    {
        let c = cmp_values(&a[i], &b[i], dirs[i]);
        proof {
            let sa = vals_view(a@).skip(i as int);
            let sb = vals_view(b@).skip(i as int);
            let sd = dirs@.skip(i as int);
            assert(sa[0] == vals_view(a@)[i as int]);
            assert(sb[0] == vals_view(b@)[i as int]);
            assert(sd[0] == dirs@[i as int]);
            assert(sa.subrange(1, sa.len() as int) =~= vals_view(a@).skip(i + 1));
            assert(sb.subrange(1, sb.len() as int) =~= vals_view(b@).skip(i + 1));
            assert(sd.subrange(1, sd.len() as int) =~= dirs@.skip(i + 1));
        }
        if !matches!(c, Ord3::Eq) {
            return c;
        }
        i = i + 1;
    }
    proof {
        assert(vals_view(a@).skip(i as int).len() == a@.len() - i);
        assert(vals_view(b@).skip(i as int).len() == b@.len() - i);
        assert(dirs@.skip(i as int).len() == dirs@.len() - i);
    }
    Ord3::Eq
}

/// The key stored for row `r` of a key table.
pub open spec fn key_at(keys: Seq<Vec<CellValue>>, r: int) -> Seq<ValueView> {
    vals_view(keys[r]@)
}

proof fn lemma_swap_props(s: Seq<usize>, i: int, j: int)
    requires
        0 <= i < j < s.len(),
    ensures
        ({
            let t = s.update(i, s[j]).update(j, s[i]);
            &&& (forall|v: usize| t.contains(v) <==> s.contains(v))
            &&& (s.no_duplicates() ==> t.no_duplicates())
        }),
{
    let t = s.update(i, s[j]).update(j, s[i]);
    assert forall|v: usize| t.contains(v) implies s.contains(v) by {
        let k = choose|k: int| 0 <= k < t.len() && t[k] == v;
        if k == i {
            assert(s[j] == v);
        } else if k == j {
            assert(s[i] == v);
        } else {
            assert(s[k] == v);
        }
    }
    assert forall|v: usize| s.contains(v) implies t.contains(v) by {
        let k = choose|k: int| 0 <= k < s.len() && s[k] == v;
        if k == i {
            assert(t[j] == v);
        } else if k == j {
            assert(t[i] == v);
        } else {
            assert(t[k] == v);
        }
    }
    if s.no_duplicates() {
        assert forall|p: int, q: int| 0 <= p < q < t.len() implies t[p] != t[q] by {
            let p2: int = if p == i { j } else if p == j { i } else { p };
            let q2: int = if q == i { j } else if q == j { i } else { q };
            assert(t[p] == s[p2] && t[q] == s[q2]);
            assert(p2 != q2);
        }
    }
}

/// Sorts the row indices `0..keys.len()` by their keys: the result is a
/// duplicate-free rearrangement of all row indices whose key sequence is
/// sorted.  Rows with equal keys keep no particular relative order.
pub fn sort_rows(keys: &Vec<Vec<CellValue>>, dirs: &Vec<bool>) -> (order: Vec<usize>)
    requires
        forall|r: int| 0 <= r < keys@.len()
            ==> (#[trigger] keys@[r])@.len() == dirs@.len(),
    ensures
        order@.len() == keys@.len(),
        forall|i: int| 0 <= i < order@.len() ==> #[trigger] order@[i] < keys@.len(),
        order@.no_duplicates(),
        forall|r: usize| r < keys@.len() ==> order@.contains(r),
        forall|i: int, j: int| 0 <= i < j < order@.len()
            ==> keys_le(key_at(keys@, #[trigger] order@[i] as int),
                key_at(keys@, #[trigger] order@[j] as int), dirs@),
{
    let n: usize = keys.len();
    let mut order: Vec<usize> = Vec::new();
    let mut k: usize = 0;
    while k < n
        invariant
            0 <= k <= n,
            order@.len() == k,
            forall|i: int| 0 <= i < k ==> #[trigger] order@[i] == i as usize,
        decreases n - k,
    {
        order.push(k);
        k = k + 1;
    }
    proof {
        assert(order@.no_duplicates());
        assert forall|r: usize| r < n implies order@.contains(r) by {
            assert(order@[r as int] == r);
        }
    }
    if n < 2 {
        return order;
    }
    let mut i: usize = 1;
    while i < n
        invariant
            1 <= i <= n,
            order@.len() == n,
            forall|x: int| 0 <= x < n ==> #[trigger] order@[x] < n,
            order@.no_duplicates(),
            forall|r: usize| r < n ==> order@.contains(r),
            forall|a: int, b: int| 0 <= a < b < i
                ==> keys_le(key_at(keys@, #[trigger] order@[a] as int),
                    key_at(keys@, #[trigger] order@[b] as int), dirs@),
        decreases n - i,
    {
        let mut j: usize = i;
        let mut done = false;
        while !done && j > 0
            invariant
                0 <= j <= i < n,
                order@.len() == n,
                forall|x: int| 0 <= x < n ==> #[trigger] order@[x] < n,
                order@.no_duplicates(),
                forall|r: usize| r < n ==> order@.contains(r),
                forall|a: int, b: int| 0 <= a < b <= i as int && b != j
                    ==> keys_le(key_at(keys@, #[trigger] order@[a] as int),
                        key_at(keys@, #[trigger] order@[b] as int), dirs@),
                forall|a: int| (j as int) < a <= i as int
                    ==> keys_le(key_at(keys@, order@[j as int] as int),
                        key_at(keys@, #[trigger] order@[a] as int), dirs@),
                done ==> (j == 0 || keys_le(key_at(keys@, order@[j - 1] as int),
                    key_at(keys@, order@[j as int] as int), dirs@)),
            decreases 2 * (j as int) + (if done { 0int } else { 1int }),
        {
            let c = cmp_keys(&keys[order[j - 1]], &keys[order[j]], dirs);
            if matches!(c, Ord3::Gt) {
                let ghost s_old = order@;
                let hi = order[j - 1];
                let lo = order[j];
                proof {
                    lemma_swap_props(s_old, j - 1, j as int);
                    lemma_keys_cmp_flip(
                        key_at(keys@, hi as int), key_at(keys@, lo as int), dirs@);
                }
                order.set(j - 1, lo);
                order.set(j, hi);
                proof {
                    let s_new = order@;
                    assert(s_new =~= s_old.update(j - 1, s_old[j as int])
                        .update(j as int, s_old[j - 1]));
                    assert forall|a: int, b: int|
                        0 <= a < b <= i as int && b != j - 1
                        implies keys_le(key_at(keys@, s_new[a] as int),
                            key_at(keys@, s_new[b] as int), dirs@) by {
                        if a != j - 1 && a != j && b != j {
                            assert(s_new[a] == s_old[a] && s_new[b] == s_old[b]);
                        } else if b == j {
                            // s_new[j] holds the old j-1 element.
                            if a == j - 1 {
                                // mover vs displaced: from the flipped strict
                                // comparison.
                            } else {
                                assert(s_new[a] == s_old[a]);
                                assert(s_new[b] == s_old[j - 1]);
                            }
                        } else {
                            // b > j; a is j-1 or j.
                            if a == j - 1 {
                                assert(s_new[a] == s_old[j as int]);
                                assert(s_new[b] == s_old[b]);
                            } else {
                                assert(s_new[a] == s_old[j - 1]);
                                assert(s_new[b] == s_old[b]);
                            }
                        }
                    }
                    assert forall|a: int| (j - 1) < a <= i as int
                        implies keys_le(key_at(keys@, s_new[j - 1] as int),
                            key_at(keys@, #[trigger] s_new[a] as int), dirs@) by {
                        if a == j {
                            assert(s_new[a] == s_old[j - 1]);
                        } else {
                            assert(s_new[a] == s_old[a]);
                        }
                    }
                }
                j = j - 1;
            } else {
                done = true;
            }
        }
        proof {
            assert forall|a: int, b: int| 0 <= a < b <= i as int
                implies keys_le(key_at(keys@, order@[a] as int),
                    key_at(keys@, order@[b] as int), dirs@) by {
                if b == j as int {
                    if j > 0 {
                        assert(keys_le(key_at(keys@, order@[j - 1] as int),
                            key_at(keys@, order@[j as int] as int), dirs@));
                        if a < j - 1 {
                            assert(keys_le(key_at(keys@, order@[a] as int),
                                key_at(keys@, order@[j - 1] as int), dirs@));
                            lemma_keys_le_trans(
                                key_at(keys@, order@[a] as int),
                                key_at(keys@, order@[j - 1] as int),
                                key_at(keys@, order@[j as int] as int),
                                dirs@,
                            );
                        }
                    }
                }
            }
        }
        i = i + 1;
    }
    order
}

} // verus!
