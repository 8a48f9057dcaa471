//! The clipboard codec: tab-separated serialization of the selection's
//! bounding rectangle, and typed paste starting at an origin, clipped to
//! the grid bounds.
//!
//! Embedded tabs or newlines in cell text are not escaped, so such cells
//! do not round-trip; this matches the interchange format's declared
//! limits.

use vstd::prelude::*;
use vstd::string::*;
use crate::grid::{Grid, GridView, value_at};
use crate::values::{CellValue, ValueView, value_text};
use crate::text::{chars_of, parse_int_chars, int_token, str_eq};
use crate::undo::set_value_m;

verus! {

/// `v` is the least row of the set.
pub open spec fn is_min_row(cells: Set<(int, int)>, v: int) -> bool {
    (exists|p: (int, int)| cells.contains(p) && (#[trigger] p.0) == v)
        && (forall|p: (int, int)| cells.contains(p) ==> (#[trigger] p.0) >= v)
}

/// `v` is the greatest row of the set.
pub open spec fn is_max_row(cells: Set<(int, int)>, v: int) -> bool {
    (exists|p: (int, int)| cells.contains(p) && (#[trigger] p.0) == v)
        && (forall|p: (int, int)| cells.contains(p) ==> (#[trigger] p.0) <= v)
}

/// `v` is the least column of the set.
pub open spec fn is_min_col(cells: Set<(int, int)>, v: int) -> bool {
    (exists|p: (int, int)| cells.contains(p) && (#[trigger] p.1) == v)
        && (forall|p: (int, int)| cells.contains(p) ==> (#[trigger] p.1) >= v)
}

/// `v` is the greatest column of the set.
pub open spec fn is_max_col(cells: Set<(int, int)>, v: int) -> bool {
    (exists|p: (int, int)| cells.contains(p) && (#[trigger] p.1) == v)
        && (forall|p: (int, int)| cells.contains(p) ==> (#[trigger] p.1) <= v)
}

/// One emitted field: the cell's text for selected positions, empty for
/// rectangle positions that are not individually selected.
pub open spec fn field_text(g: GridView, cells: Set<(int, int)>, r: int, c: int) -> Seq<char> {
    if cells.contains((r, c)) {
        value_text(value_at(g, r, c))
    } else {
        Seq::empty()
    }
}

/// One emitted row: fields joined by tabs.
pub open spec fn tsv_row(g: GridView, cells: Set<(int, int)>, r: int, c0: int, c1: int) -> Seq<char>
    decreases c1 - c0,
{
    if c0 >= c1 {
        field_text(g, cells, r, c1)
    } else {
        field_text(g, cells, r, c0) + seq!['\t'] + tsv_row(g, cells, r, c0 + 1, c1)
    }
}

/// The whole serialization: rows joined by newlines.
pub open spec fn tsv_block(g: GridView, cells: Set<(int, int)>, r0: int, r1: int, c0: int, c1: int) -> Seq<char>
    decreases r1 - r0,
{
    if r0 >= r1 {
        tsv_row(g, cells, r1, c0, c1)
    } else {
        tsv_row(g, cells, r0, c0, c1) + seq!['\n'] + tsv_block(g, cells, r0 + 1, r1, c0, c1)
    }
}

proof fn lemma_tsv_block_extend(g: GridView, cells: Set<(int, int)>, r0: int, r: int, c0: int, c1: int)
    requires
        r0 <= r,
    ensures
        tsv_block(g, cells, r0, r + 1, c0, c1)
            == tsv_block(g, cells, r0, r, c0, c1) + seq!['\n'] + tsv_row(g, cells, r + 1, c0, c1),
    decreases r - r0,
{
    if r0 == r {
        assert(tsv_block(g, cells, r + 1, r + 1, c0, c1)
            == tsv_row(g, cells, r + 1, c0, c1));
        assert(tsv_block(g, cells, r0, r + 1, c0, c1)
            == tsv_row(g, cells, r0, c0, c1) + seq!['\n']
                + tsv_block(g, cells, r + 1, r + 1, c0, c1));
        assert(tsv_block(g, cells, r0, r, c0, c1) == tsv_row(g, cells, r0, c0, c1));
        assert(tsv_block(g, cells, r0, r + 1, c0, c1)
            =~= tsv_block(g, cells, r0, r, c0, c1) + seq!['\n']
                + tsv_row(g, cells, r + 1, c0, c1));
    } else {
        lemma_tsv_block_extend(g, cells, r0 + 1, r, c0, c1);
        assert(tsv_block(g, cells, r0, r + 1, c0, c1)
            =~= tsv_block(g, cells, r0, r, c0, c1) + seq!['\n']
                + tsv_row(g, cells, r + 1, c0, c1));
    }
}

/// The value a pasted token denotes: empty for an empty field, a number
/// when it parses as an integer token, the words `true`/`false` as
/// booleans, else text.
pub open spec fn token_value(s: Seq<char>) -> ValueView {
    if s.len() == 0 {
        ValueView::Empty
    } else if int_token(s) is Some {
        ValueView::Number(int_token(s)->0)
    } else if s == "true"@ {
        ValueView::Boolean(true)
    } else if s == "false"@ {
        ValueView::Boolean(false)
    } else {
        ValueView::Text(s)
    }
}

pub fn make_token_value(s: &String) -> (r: CellValue)
    ensures
        r@ == token_value(s@),
{
    if s.as_str().is_empty() {
        return CellValue::Empty;
    }
    let cs = chars_of(s.as_str());
    match parse_int_chars(&cs) {
        Some(n) => CellValue::Number(n),
        None => {
            if str_eq(s.as_str(), "true") {
                proof { reveal_strlit("true"); }
                CellValue::Boolean(true)
            } else if str_eq(s.as_str(), "false") {
                proof { reveal_strlit("true"); reveal_strlit("false"); }
                CellValue::Boolean(false)
            } else {
                proof { reveal_strlit("true"); reveal_strlit("false"); }
                CellValue::Text(s.clone())
            }
        },
    }
}

// ---------------------------------------------------------------------------
// Splitting
// ---------------------------------------------------------------------------

/// Splits a character sequence at every separator; no escaping.
pub open spec fn split_on(s: Seq<char>, sep: char) -> Seq<Seq<char>>
    decreases s.len(),
{
    if s.len() == 0 {
        seq![Seq::empty()]
    } else if s[0] == sep {
        seq![Seq::<char>::empty()] + split_on(s.subrange(1, s.len() as int), sep)
    } else {
        let rest = split_on(s.subrange(1, s.len() as int), sep);
        seq![seq![s[0]] + rest[0]] + rest.subrange(1, rest.len() as int)
    }
}

pub proof fn lemma_split_nonempty(s: Seq<char>, sep: char)
    ensures
        split_on(s, sep).len() >= 1,
    decreases s.len(),
{
    if s.len() > 0 {
        lemma_split_nonempty(s.subrange(1, s.len() as int), sep);
    }
}

proof fn lemma_split_push(s: Seq<char>, c: char, sep: char)
    ensures
        split_on(s.push(c), sep) == if c == sep {
            split_on(s, sep).push(Seq::<char>::empty())
        } else {
            split_on(s, sep).update(
                split_on(s, sep).len() - 1,
                split_on(s, sep).last().push(c),
            )
        },
    decreases s.len(),
{
    lemma_split_nonempty(s, sep);
    if s.len() == 0 {
        assert(s.push(c).subrange(1, 1) =~= Seq::<char>::empty());
        assert(s.push(c)[0] == c);
        assert(s =~= Seq::<char>::empty());
        assert(split_on(s, sep) =~~= seq![Seq::<char>::empty()]);
        if c == sep {
            assert(split_on(s.push(c), sep)
                =~~= seq![Seq::<char>::empty()] + split_on(Seq::<char>::empty(), sep));
            assert(split_on(s.push(c), sep)
                =~~= split_on(s, sep).push(Seq::<char>::empty()));
        } else {
            assert(split_on(s.push(c), sep)
                =~~= seq![seq![c] + split_on(Seq::<char>::empty(), sep)[0]]
                    + split_on(Seq::<char>::empty(), sep).subrange(
                        1, split_on(Seq::<char>::empty(), sep).len() as int));
            assert(split_on(s.push(c), sep) =~~= split_on(s, sep).update(
                0, split_on(s, sep).last().push(c)));
        }
    } else {
        assert(s.push(c)[0] == s[0]);
        assert(s.push(c).subrange(1, s.push(c).len() as int)
            =~= s.subrange(1, s.len() as int).push(c));
        lemma_split_push(s.subrange(1, s.len() as int), c, sep);
        lemma_split_nonempty(s.subrange(1, s.len() as int), sep);
        if c == sep {
            assert(split_on(s.push(c), sep)
                =~~= split_on(s, sep).push(Seq::<char>::empty()));
        } else {
            assert(split_on(s.push(c), sep) =~~= split_on(s, sep).update(
                split_on(s, sep).len() - 1, split_on(s, sep).last().push(c)));
        }
    }
}

/// Relies on `String::push`: appends exactly one character.
#[verifier::external_body]
fn char_string(c: char) -> (r: String)
    ensures
        r@ == seq![c],
{
    let mut s = String::new();
    s.push(c);
    s
}

/// Splits a string on a separator character; mirrors [`split_on`].
pub fn split_exec(s: &str, sep: char) -> (out: Vec<String>)
    ensures
        out@.len() == split_on(s@, sep).len(),
        forall|i: int| 0 <= i < out@.len()
            ==> (#[trigger] out@[i])@ == split_on(s@, sep)[i],
{
    let n: usize = s.unicode_len();
    let mut out: Vec<String> = Vec::new();
    let mut cur = String::new();
    let mut i: usize = 0;
    proof {
        assert(s@.take(0) =~= Seq::<char>::empty());
    }
    while i < n
        invariant
            0 <= i <= n,
            n == s@.len(),
            ({
                let parts = split_on(s@.take(i as int), sep);
                &&& out@.len() == parts.len() - 1
                &&& forall|j: int| 0 <= j < out@.len()
                    ==> (#[trigger] out@[j])@ == parts[j]
                &&& cur@ == parts.last()
            }),
        decreases n - i,
    {
        let c = s.get_char(i);
        proof {
            assert(s@.take(i + 1) =~= s@.take(i as int).push(s@[i as int]));
            lemma_split_push(s@.take(i as int), s@[i as int], sep);
            lemma_split_nonempty(s@.take(i as int), sep);
        }
        if c == sep {
            out.push(cur);
            cur = String::new();
        } else {
            let piece = char_string(c);
            cur.append(piece.as_str());
        }
        i = i + 1;
    }
    proof { assert(s@.take(n as int) =~= s@); }
    out.push(cur);
    out
}

// ---------------------------------------------------------------------------
// Paste model
// ---------------------------------------------------------------------------

/// Writes one pasted line from column `c0`: each token goes one column
/// further right; out-of-bounds writes fall away.
pub open spec fn paste_line_m(tokens: Seq<Seq<char>>, g: GridView, r: int, c0: int) -> GridView
    decreases tokens.len(),
{
    if tokens.len() == 0 {
        g
    } else {
        paste_line_m(
            tokens.subrange(1, tokens.len() as int),
            set_value_m(g, r, c0, token_value(tokens[0])),
            r,
            c0 + 1,
        )
    }
}

/// Writes a pasted block from `(r0, c0)`: each line one row further down.
pub open spec fn paste_block_m(lines: Seq<Seq<Seq<char>>>, g: GridView, r0: int, c0: int) -> GridView
    decreases lines.len(),
{
    if lines.len() == 0 {
        g
    } else {
        paste_block_m(
            lines.subrange(1, lines.len() as int),
            paste_line_m(lines[0], g, r0, c0),
            r0 + 1,
            c0,
        )
    }
}

/// The pasted block a text denotes: split on newlines (a trailing newline
/// adds nothing), each line split on tabs.
pub open spec fn paste_lines_of(text: Seq<char>) -> Seq<Seq<Seq<char>>> {
    let raw = split_on(text, '\n');
    let lines = if raw.len() > 0 && raw.last().len() == 0 { raw.drop_last() } else { raw };
    lines.map_values(|l: Seq<char>| split_on(l, '\t'))
}

// ---------------------------------------------------------------------------
// The codec
// ---------------------------------------------------------------------------

/// Stateless copy, cut, and paste over the grid and a selection.
pub struct ClipboardOps;

impl ClipboardOps {
    /// Serializes the bounding rectangle of the selected positions as
    /// tab-separated fields and newline-separated rows; unselected
    /// positions inside the rectangle serialize as empty fields.  An
    /// empty selection yields the empty string.
    pub fn copy_selected_cells(selected: &Vec<(usize, usize)>, grid: &Grid) -> (out: String)
        requires
            grid.wf(),
        ensures
            selected@.len() == 0 ==> out@ == Seq::<char>::empty(),
            selected@.len() > 0 ==> ({
                let cells = selected@.map_values(
                    |p: (usize, usize)| (p.0 as int, p.1 as int)).to_set();
                exists|r0: int, r1: int, c0: int, c1: int| {
                    &&& #[trigger] is_min_row(cells, r0)
                    &&& #[trigger] is_max_row(cells, r1)
                    &&& #[trigger] is_min_col(cells, c0)
                    &&& #[trigger] is_max_col(cells, c1)
                    &&& out@ == tsv_block(grid@, cells, r0, r1, c0, c1)
                }
            }),
    {
        let n: usize = selected.len();
        if n == 0 {
            return String::new();
        }
        let ghost cells = selected@.map_values(
            |p: (usize, usize)| (p.0 as int, p.1 as int)).to_set();
        let mut min_row: usize = selected[0].0;
        let mut max_row: usize = selected[0].0;
        let mut min_col: usize = selected[0].1;
        let mut max_col: usize = selected[0].1;
        let mut i: usize = 1;
        while i < n
            invariant
                1 <= i <= n,
                n == selected@.len(),
                forall|j: int| 0 <= j < i ==> {
                    &&& min_row <= (#[trigger] selected@[j]).0 <= max_row
                    &&& min_col <= selected@[j].1 <= max_col
                },
                exists|j: int| 0 <= j < i && (#[trigger] selected@[j]).0 == min_row,
                exists|j: int| 0 <= j < i && (#[trigger] selected@[j]).0 == max_row,
                exists|j: int| 0 <= j < i && (#[trigger] selected@[j]).1 == min_col,
                exists|j: int| 0 <= j < i && (#[trigger] selected@[j]).1 == max_col,
            decreases n - i,
        {
            let p = selected[i];
            if p.0 < min_row {
                min_row = p.0;
            }
            if p.0 > max_row {
                max_row = p.0;
            }
            if p.1 < min_col {
                min_col = p.1;
            }
            if p.1 > max_col {
                max_col = p.1;
            }
            i = i + 1;
        }
        proof {
            let m = selected@.map_values(|p: (usize, usize)| (p.0 as int, p.1 as int));
            assert forall|p: (int, int)| cells.contains(p)
                implies min_row as int <= p.0 <= max_row as int
                    && min_col as int <= p.1 <= max_col as int by {
                let j = choose|j: int| 0 <= j < m.len() && m[j] == p;
                assert((selected@[j].0, selected@[j].1) == (p.0 as usize, p.1 as usize));
            }
            let jr = choose|j: int| 0 <= j < n && (#[trigger] selected@[j]).0 == min_row;
            assert(m[jr] == (selected@[jr].0 as int, selected@[jr].1 as int));
            assert(cells.contains(m[jr]));
            let jr2 = choose|j: int| 0 <= j < n && (#[trigger] selected@[j]).0 == max_row;
            assert(m[jr2] == (selected@[jr2].0 as int, selected@[jr2].1 as int));
            assert(cells.contains(m[jr2]));
            let jc = choose|j: int| 0 <= j < n && (#[trigger] selected@[j]).1 == min_col;
            assert(m[jc] == (selected@[jc].0 as int, selected@[jc].1 as int));
            assert(cells.contains(m[jc]));
            let jc2 = choose|j: int| 0 <= j < n && (#[trigger] selected@[j]).1 == max_col;
            assert(m[jc2] == (selected@[jc2].0 as int, selected@[jc2].1 as int));
            assert(cells.contains(m[jc2]));
            assert(is_min_row(cells, min_row as int));
            assert(is_max_row(cells, max_row as int));
            assert(is_min_col(cells, min_col as int));
            assert(is_max_col(cells, max_col as int));
        }
        let mut out = emit_row(grid, selected, min_row, min_col, max_col);
        let mut r: usize = min_row;
        while r < max_row
            invariant
                min_row <= r <= max_row,
                min_col <= max_col,
                grid.wf(),
                cells == selected@.map_values(
                    |p: (usize, usize)| (p.0 as int, p.1 as int)).to_set(),
                out@ == tsv_block(grid@, cells, min_row as int, r as int,
                    min_col as int, max_col as int),
            decreases max_row - r,
        {
            proof {
                lemma_tsv_block_extend(grid@, cells, min_row as int, r as int,
                    min_col as int, max_col as int);
                reveal_strlit("\n");
            }
            out.append("\n");
            let row_text = emit_row(grid, selected, r + 1, min_col, max_col);
            out.append(row_text.as_str());
            proof {
                assert(out@ =~= tsv_block(grid@, cells, min_row as int, r + 1,
                    min_col as int, max_col as int));
            }
            r = r + 1;
        }
        out
    }

    /// Copies the selection, then clears every selected position.
    pub fn cut_selected_cells(selected: &Vec<(usize, usize)>, grid: &mut Grid) -> (out: String)
        requires
            old(grid).wf(),
        ensures
            final(grid).wf(),
            final(grid)@ == clear_positions_m(
                selected@.map_values(|p: (usize, usize)| (p.0 as int, p.1 as int)),
                old(grid)@,
            ),
            selected@.len() == 0 ==> out@ == Seq::<char>::empty(),
            selected@.len() > 0 ==> ({
                let cells = selected@.map_values(
                    |p: (usize, usize)| (p.0 as int, p.1 as int)).to_set();
                exists|r0: int, r1: int, c0: int, c1: int| {
                    &&& #[trigger] is_min_row(cells, r0)
                    &&& #[trigger] is_max_row(cells, r1)
                    &&& #[trigger] is_min_col(cells, c0)
                    &&& #[trigger] is_max_col(cells, c1)
                    &&& out@ == tsv_block(old(grid)@, cells, r0, r1, c0, c1)
                }
            }),
    {
        let out = ClipboardOps::copy_selected_cells(selected, grid);
        let ghost list = selected@.map_values(|p: (usize, usize)| (p.0 as int, p.1 as int));
        let n: usize = selected.len();
        let mut i: usize = 0;
        proof { assert(list.skip(0) =~= list); }
        while i < n
            invariant
                0 <= i <= n,
                n == selected@.len(),
                grid.wf(),
                list == selected@.map_values(|p: (usize, usize)| (p.0 as int, p.1 as int)),
                clear_positions_m(list, old(grid)@)
                    == clear_positions_m(list.skip(i as int), grid@),
            decreases n - i,
        {
            proof {
                assert(list.skip(i as int).subrange(
                    1, list.skip(i as int).len() as int) =~= list.skip(i + 1));
                assert(list.skip(i as int)[0] == list[i as int]);
            }
            let p = selected[i];
            grid.set_value(p.0, p.1, CellValue::Empty);
            i = i + 1;
        }
        proof { assert(list.skip(n as int) =~= Seq::<(int, int)>::empty()); }
        out
    }

    /// Pastes tab/newline-separated text starting at the anchor (or the
    /// row-major first selected position without one): tokens are typed,
    /// writes outside the bounds fall away.  Empty text pastes nothing;
    /// with no anchor and no selection the call fails.
    pub fn paste_cells(
        tsv_text: &String,
        selection_anchor: Option<(usize, usize)>,
        selected: &Vec<(usize, usize)>,
        grid: &mut Grid,
    ) -> (res: Result<(), String>)
        requires
            old(grid).wf(),
        ensures
            final(grid).wf(),
            tsv_text@.len() == 0 ==> res is Ok && *final(grid) == *old(grid),
            tsv_text@.len() > 0 ==> match paste_origin(selection_anchor, selected@) {
                Some(origin) => res is Ok && final(grid)@ == paste_block_m(
                    paste_lines_of(tsv_text@), old(grid)@, origin.0, origin.1),
                None => res is Err && *final(grid) == *old(grid),
            },
    {
        if tsv_text.as_str().is_empty() {
            return Ok(());
        }
        let origin: (usize, usize) = match find_origin(selection_anchor, selected) {
            Some(o) => o,
            None => {
                proof { reveal_strlit("no cell selected for paste"); }
                return Err(String::from_str("no cell selected for paste"));
            },
        };
        let raw = split_exec(tsv_text.as_str(), '\n');
        let mut lines = raw;
        let drop_last_piece = lines.len() > 0 && lines[lines.len() - 1].as_str().is_empty();
        if drop_last_piece {
            let _ = lines.pop();
        }
        let ghost lines_spec = paste_lines_of(tsv_text@);
        proof {
            let raw_spec = split_on(tsv_text@, '\n');
            lemma_split_nonempty(tsv_text@, '\n');
            let kept = if raw_spec.len() > 0 && raw_spec.last().len() == 0 {
                raw_spec.drop_last()
            } else {
                raw_spec
            };
            assert(lines@.len() == kept.len());
            assert(forall|x: int| 0 <= x < lines@.len()
                ==> (#[trigger] lines@[x])@ == kept[x]);
            assert(forall|x: int| 0 <= x < lines_spec.len()
                ==> #[trigger] lines_spec[x] == split_on(kept[x], '\t'));
        }
        let rows: usize = grid.row_count();
        let nl: usize = lines.len();
        let mut i: usize = 0;
        proof {
            assert(lines_spec.skip(0) =~= lines_spec);
        }
        while i < nl
            invariant
                0 <= i <= nl,
                nl == lines@.len(),
                nl == lines_spec.len(),
                rows == grid@.rows,
                grid.wf(),
                forall|x: int| 0 <= x < nl
                    ==> #[trigger] lines_spec[x] == split_on(lines@[x]@, '\t'),
                paste_block_m(lines_spec, old(grid)@, origin.0 as int, origin.1 as int)
                    == paste_block_m(lines_spec.skip(i as int), grid@,
                        origin.0 + i, origin.1 as int),
            decreases nl - i,
        {
            if origin.0 >= rows || i >= rows - origin.0 {
                // Every remaining write would fall outside the bounds.
                proof {
                    lemma_paste_block_noop(
                        lines_spec.skip(i as int), grid@, origin.0 + i, origin.1 as int);
                    assert(lines_spec.skip(nl as int) =~= Seq::<Seq<Seq<char>>>::empty());
                    assert(paste_block_m(lines_spec, old(grid)@,
                        origin.0 as int, origin.1 as int) == grid@);
                }
                return Ok(());
            }
            proof {
                assert(lines_spec.skip(i as int).subrange(
                    1, lines_spec.skip(i as int).len() as int) =~= lines_spec.skip(i + 1));
                assert(lines_spec.skip(i as int)[0] == lines_spec[i as int]);
            }
            let tokens = split_exec(lines[i].as_str(), '\t');
            proof {
                assert(tokens@.map_values(|t: String| t@)
                    =~~= split_on(lines@[i as int]@, '\t'));
            }
            let ghost g_pre = grid@;
            paste_one_line(&tokens, grid, origin.0 + i, origin.1);
            proof {
                lemma_paste_line_frame(
                    tokens@.map_values(|t: String| t@), g_pre,
                    origin.0 + i, origin.1 as int);
            }
            i = i + 1;
        }
        proof {
            assert(lines_spec.skip(nl as int) =~= Seq::<Seq<Seq<char>>>::empty());
        }
        Ok(())
    }
}

/// Clears each listed position, first entry first.
pub open spec fn clear_positions_m(list: Seq<(int, int)>, g: GridView) -> GridView
    decreases list.len(),
{
    if list.len() == 0 {
        g
    } else {
        clear_positions_m(
            list.subrange(1, list.len() as int),
            set_value_m(g, list[0].0, list[0].1, ValueView::Empty),
        )
    }
}

/// The paste origin: the anchor, or the row-major first selected
/// position, or nothing.
pub open spec fn paste_origin(anchor: Option<(usize, usize)>, selected: Seq<(usize, usize)>)
    -> Option<(int, int)> {
    match anchor {
        Some(a) => Some((a.0 as int, a.1 as int)),
        None => {
            if selected.len() == 0 {
                None
            } else {
                Some(row_major_min(selected))
            }
        },
    }
}

/// The row-major least position of a non-empty list.
pub open spec fn row_major_min(selected: Seq<(usize, usize)>) -> (int, int)
    decreases selected.len(),
{
    if selected.len() <= 1 {
        (selected[0].0 as int, selected[0].1 as int)
    } else {
        let rest = row_major_min(selected.subrange(1, selected.len() as int));
        let head = (selected[0].0 as int, selected[0].1 as int);
        if head.0 < rest.0 || (head.0 == rest.0 && head.1 <= rest.1) {
            head
        } else {
            rest
        }
    }
}

/// The paste origin for an anchor and selection; mirrors
/// [`paste_origin`].
pub fn find_origin(anchor: Option<(usize, usize)>, selected: &Vec<(usize, usize)>)
    -> (r: Option<(usize, usize)>)
    ensures
        match r {
            Some(o) => paste_origin(anchor, selected@) == Some((o.0 as int, o.1 as int)),
            None => paste_origin(anchor, selected@) is None,
        },
{
    match anchor {
        Some(a) => Some(a),
        None => {
            let n: usize = selected.len();
            if n == 0 {
                return None;
            }
            let mut best = selected[0];
            let mut i: usize = 1;
            while i < n
                invariant
                    1 <= i <= n,
                    n == selected@.len(),
                    (best.0 as int, best.1 as int)
                        == row_major_min(selected@.take(i as int)),
                decreases n - i,
            {
                let p = selected[i];
                proof {
                    lemma_row_major_min_push(selected@.take(i as int), selected@[i as int]);
                    assert(selected@.take(i + 1) =~= selected@.take(i as int).push(
                        selected@[i as int]));
                }
                if p.0 < best.0 || (p.0 == best.0 && p.1 < best.1) {
                    best = p;
                }
                i = i + 1;
            }
            proof { assert(selected@.take(n as int) =~= selected@); }
            Some(best)
        },
    }
}

/// The row-major least element belongs to the list and bounds every
/// element from below.
pub proof fn lemma_row_major_min_props(s: Seq<(usize, usize)>)
    requires
        s.len() >= 1,
    ensures
        exists|j: int| 0 <= j < s.len()
            && ((#[trigger] s[j]).0 as int, s[j].1 as int) == row_major_min(s),
        forall|j: int| 0 <= j < s.len() ==> {
            let m = row_major_min(s);
            m.0 < (#[trigger] s[j]).0 as int
                || (m.0 == s[j].0 as int && m.1 <= s[j].1 as int)
        },
    decreases s.len(),
{
    if s.len() == 1 {
        assert(((s[0]).0 as int, s[0].1 as int) == row_major_min(s));
    } else {
        let rest = s.subrange(1, s.len() as int);
        lemma_row_major_min_props(rest);
        let m = row_major_min(s);
        assert forall|j: int| 0 <= j < s.len() implies {
            let m2 = row_major_min(s);
            m2.0 < (#[trigger] s[j]).0 as int
                || (m2.0 == s[j].0 as int && m2.1 <= s[j].1 as int)
        } by {
            if j > 0 {
                assert(rest[j - 1] == s[j]);
            }
        }
        let mr = row_major_min(rest);
        if m == mr {
            let j0 = choose|j: int| 0 <= j < rest.len()
                && ((#[trigger] rest[j]).0 as int, rest[j].1 as int) == mr;
            assert(s[j0 + 1] == rest[j0]);
        } else {
            assert(((s[0]).0 as int, s[0].1 as int) == m);
        }
    }
}

proof fn lemma_row_major_min_push(s: Seq<(usize, usize)>, e: (usize, usize))
    requires
        s.len() >= 1,
    ensures
        row_major_min(s.push(e)) == ({
            let cur = row_major_min(s);
            let cand = (e.0 as int, e.1 as int);
            if cand.0 < cur.0 || (cand.0 == cur.0 && cand.1 < cur.1) {
                cand
            } else {
                cur
            }
        }),
    decreases s.len(),
{
    if s.len() == 1 {
        assert(s.push(e)[0] == s[0]);
        assert(s.push(e).subrange(1, 2) =~= seq![e]);
        assert(row_major_min(seq![e]) == (e.0 as int, e.1 as int));
    } else {
        assert(s.push(e).subrange(1, s.push(e).len() as int)
            =~= s.subrange(1, s.len() as int).push(e));
        lemma_row_major_min_push(s.subrange(1, s.len() as int), e);
    }
}

/// Writes one pasted line; mirrors [`paste_line_m`].
fn paste_one_line(tokens: &Vec<String>, grid: &mut Grid, r: usize, c0: usize)
    requires
        old(grid).wf(),
    ensures
        final(grid).wf(),
        final(grid)@ == paste_line_m(
            tokens@.map_values(|t: String| t@), old(grid)@, r as int, c0 as int),
{
    let ghost toks = tokens@.map_values(|t: String| t@);
    let cols: usize = grid.col_count();
    let n: usize = tokens.len();
    let mut j: usize = 0;
    proof { assert(toks.skip(0) =~= toks); }
    while j < n
        invariant
            0 <= j <= n,
            n == tokens@.len(),
            n == toks.len(),
            cols == grid@.cols,
            grid.wf(),
            forall|x: int| 0 <= x < n ==> toks[x] == (#[trigger] tokens@[x])@,
            paste_line_m(toks, old(grid)@, r as int, c0 as int)
                == paste_line_m(toks.skip(j as int), grid@, r as int, c0 + j),
        decreases n - j,
    {
        if c0 >= cols || j >= cols - c0 {
            // Every remaining write would fall outside the bounds.
            proof {
                lemma_paste_line_noop(toks.skip(j as int), grid@, r as int, c0 + j);
            }
            return;
        }
        proof {
            assert(toks.skip(j as int).subrange(
                1, toks.skip(j as int).len() as int) =~= toks.skip(j + 1));
            assert(toks.skip(j as int)[0] == toks[j as int]);
        }
        let v = make_token_value(&tokens[j]);
        grid.set_value(r, c0 + j, v);
        j = j + 1;
    }
    proof { assert(toks.skip(n as int) =~= Seq::<Seq<char>>::empty()); }
}

/// Pasting one line changes cells only.
pub proof fn lemma_paste_line_frame(tokens: Seq<Seq<char>>, g: GridView, r: int, c0: int)
    ensures
        paste_line_m(tokens, g, r, c0) == (GridView {
            cells: paste_line_m(tokens, g, r, c0).cells,
            ..g
        }),
    decreases tokens.len(),
{
    if tokens.len() > 0 {
        lemma_paste_line_frame(
            tokens.subrange(1, tokens.len() as int),
            set_value_m(g, r, c0, token_value(tokens[0])),
            r,
            c0 + 1,
        );
    }
}

pub proof fn lemma_paste_line_noop(tokens: Seq<Seq<char>>, g: GridView, r: int, c0: int)
    requires
        c0 >= g.cols,
    ensures
        paste_line_m(tokens, g, r, c0) == g,
    decreases tokens.len(),
{
    if tokens.len() > 0 {
        lemma_paste_line_noop(tokens.subrange(1, tokens.len() as int), g, r, c0 + 1);
    }
}

pub proof fn lemma_paste_block_noop(lines: Seq<Seq<Seq<char>>>, g: GridView, r0: int, c0: int)
    requires
        r0 >= g.rows,
    ensures
        paste_block_m(lines, g, r0, c0) == g,
    decreases lines.len(),
{
    if lines.len() > 0 {
        lemma_line_noop_rows(lines[0], g, r0, c0);
        lemma_paste_block_noop(lines.subrange(1, lines.len() as int), g, r0 + 1, c0);
    }
}

proof fn lemma_line_noop_rows(tokens: Seq<Seq<char>>, g: GridView, r: int, c0: int)
    requires
        r >= g.rows,
    ensures
        paste_line_m(tokens, g, r, c0) == g,
    decreases tokens.len(),
{
    if tokens.len() > 0 {
        lemma_line_noop_rows(tokens.subrange(1, tokens.len() as int), g, r, c0 + 1);
    }
}

/// One serialized row of the selection rectangle.
fn emit_row(grid: &Grid, selected: &Vec<(usize, usize)>, r: usize, c0: usize, c1: usize)
    -> (out: String)
    requires
        grid.wf(),
        c0 <= c1,
    ensures
        out@ == tsv_row(
            grid@,
            selected@.map_values(|p: (usize, usize)| (p.0 as int, p.1 as int)).to_set(),
            r as int,
            c0 as int,
            c1 as int,
        ),
{
    let ghost cells = selected@.map_values(
        |p: (usize, usize)| (p.0 as int, p.1 as int)).to_set();
    let mut c: usize = c1;
    let mut tail = emit_field(grid, selected, r, c1);
    while c > c0
        invariant
            c0 <= c <= c1,
            grid.wf(),
            cells == selected@.map_values(
                |p: (usize, usize)| (p.0 as int, p.1 as int)).to_set(),
            tail@ == tsv_row(grid@, cells, r as int, c as int, c1 as int),
        decreases c - c0,
    {
        c = c - 1;
        let f = emit_field(grid, selected, r, c);
        let mut piece = f;
        proof { reveal_strlit("\t"); }
        piece.append("\t");
        piece.append(tail.as_str());
        proof {
            assert(piece@ =~= field_text(grid@, cells, r as int, c as int)
                + seq!['\t'] + tsv_row(grid@, cells, r as int, c + 1, c1 as int));
        }
        tail = piece;
    }
    tail
}

/// One serialized field.
fn emit_field(grid: &Grid, selected: &Vec<(usize, usize)>, r: usize, c: usize) -> (out: String)
    requires
        grid.wf(),
    ensures
        out@ == field_text(
            grid@,
            selected@.map_values(|p: (usize, usize)| (p.0 as int, p.1 as int)).to_set(),
            r as int,
            c as int,
        ),
{
    let n: usize = selected.len();
    let mut i: usize = 0;
    while i < n
        invariant
            0 <= i <= n,
            n == selected@.len(),
            forall|j: int| 0 <= j < i ==> #[trigger] selected@[j] != (r, c),
        decreases n - i,
    {
        if selected[i].0 == r && selected[i].1 == c {
            proof {
                let m = selected@.map_values(|p: (usize, usize)| (p.0 as int, p.1 as int));
                assert(m[i as int] == (r as int, c as int));
                assert(m.to_set().contains((r as int, c as int)));
            }
            return grid.get_value_string(r, c);
        }
        i = i + 1;
    }
    proof {
        let m = selected@.map_values(|p: (usize, usize)| (p.0 as int, p.1 as int));
        if m.to_set().contains((r as int, c as int)) {
            let j = choose|j: int| 0 <= j < m.len() && m[j] == (r as int, c as int);
            assert(selected@[j] == (r, c));
        }
    }
    String::new()
}

} // verus!
