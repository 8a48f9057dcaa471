//! Search and replace: plain, whole-word, and pattern search over the
//! grid, a circular match cursor, and typed replacement.
//!
//! Case folding relies on the standard library and pattern matching on the
//! `regex` crate, each behind a trusted wrapper whose result is named; all
//! scanning and bookkeeping around them is verified.

use vstd::prelude::*;
use vstd::string::*;
use crate::grid::{Grid, GridView, value_at};
use crate::values::{CellValue, ValueView, value_text};
use crate::text::{
    chars_of, contains_chars, has_word_chars, is_substring, has_word, int_token,
    parse_int_chars,
};
use crate::undo::set_value_m;

verus! {

/// What `str::to_lowercase` returns for the given characters.
pub uninterp spec fn lower_of(s: Seq<char>) -> Seq<char>;

/// Relies on `str::to_lowercase`: the result depends on the characters
/// alone, and an empty string stays empty.
#[verifier::external_body]
pub(crate) fn lowercase(s: &str) -> (r: String)
    ensures
        r@ == lower_of(s@),
        s@.len() == 0 ==> r@.len() == 0,
{
    s.to_lowercase()
}

/// Whether the given pattern compiles, under the given case option, with
/// `regex`'s default limits.
pub uninterp spec fn regex_valid(pattern: Seq<char>, case_insensitive: bool) -> bool;

/// What `regex::Regex::is_match` returns for the given pattern, case
/// option, and text.
pub uninterp spec fn regex_match(pattern: Seq<char>, case_insensitive: bool, text: Seq<char>) -> bool;

/// Relies on `regex::RegexBuilder::build` and `regex::Regex::is_match`:
/// whether a pattern compiles, and whether it matches a text, depend on
/// the pattern, the case option, and the text alone.
#[verifier::external_body]
fn regex_is_match(pattern: &str, case_insensitive: bool, text: &str) -> (r: Result<bool, String>)
    ensures
        r is Ok <==> regex_valid(pattern@, case_insensitive),
        r matches Ok(b) ==> b == regex_match(pattern@, case_insensitive, text@),
{
    match regex::RegexBuilder::new(pattern).case_insensitive(case_insensitive).build() {
        Ok(re) => Ok(re.is_match(text)),
        Err(e) => Err(e.to_string()),
    }
}

/// Relies on `regex::RegexBuilder::build`: whether a pattern compiles
/// depends on the pattern and the case option alone.
#[verifier::external_body]
fn regex_compiles(pattern: &str, case_insensitive: bool) -> (r: bool)
    ensures
        r == regex_valid(pattern@, case_insensitive),
{
    regex::RegexBuilder::new(pattern).case_insensitive(case_insensitive).build().is_ok()
}

/// Whether a cell's text matches a plain query.  The stored query is
/// already folded; the cell text is folded unless the search is case
/// sensitive.
pub open spec fn text_match(cell: Seq<char>, q: Seq<char>, case_sensitive: bool, whole_word: bool) -> bool {
    let t = if case_sensitive { cell } else { lower_of(cell) };
    if whole_word {
        has_word(t, q)
    } else {
        is_substring(t, q)
    }
}

/// Whether the grid position matches a plain query.
pub open spec fn cell_matches(g: GridView, r: int, c: int, q: Seq<char>, case_sensitive: bool, whole_word: bool) -> bool {
    text_match(value_text(value_at(g, r, c)), q, case_sensitive, whole_word)
}

/// Whether the grid position matches a pattern.
pub open spec fn cell_matches_regex(g: GridView, r: int, c: int, pattern: Seq<char>, case_insensitive: bool) -> bool {
    regex_match(pattern, case_insensitive, value_text(value_at(g, r, c)))
}

/// `list` holds exactly the in-bounds positions satisfying `hit`, in
/// row-major order.
pub open spec fn row_major_matches(
    list: Seq<(int, int)>,
    g: GridView,
    hit: spec_fn(int, int) -> bool,
) -> bool {
    &&& forall|j: int| 0 <= j < list.len() ==> {
        &&& 0 <= (#[trigger] list[j]).0 < g.rows
        &&& 0 <= list[j].1 < g.cols
        &&& hit(list[j].0, list[j].1)
    }
    &&& forall|r: int, c: int| 0 <= r < g.rows && 0 <= c < g.cols && hit(r, c)
        ==> list.contains((r, c))
    &&& forall|i: int, j: int| 0 <= i < j < list.len()
        ==> ((#[trigger] list[i]).0 < (#[trigger] list[j]).0
            || (list[i].0 == list[j].0 && list[i].1 < list[j].1))
}

/// The value a replacement string denotes: a number when it parses as an
/// integer token, else text.
pub open spec fn typed_replacement(s: Seq<char>) -> ValueView {
    match int_token(s) {
        Some(n) => ValueView::Number(n),
        None => ValueView::Text(s),
    }
}

fn make_replacement(replacement: &String) -> (r: CellValue)
    ensures
        r@ == typed_replacement(replacement@),
{
    let cs = chars_of(replacement.as_str());
    match parse_int_chars(&cs) {
        Some(n) => CellValue::Number(n),
        None => CellValue::Text(replacement.clone()),
    }
}

/// Mathematical model of the search state.
pub struct SearchView {
    pub query: Seq<char>,
    pub results: Seq<(int, int)>,
    pub current: Option<int>,
    pub case_sensitive: bool,
    pub whole_word: bool,
}

/// The active query, its ordered match list, and the match cursor.
pub struct SearchState {
    search_query: String,
    search_results: Vec<(usize, usize)>,
    current_search_index: Option<usize>,
    search_case_sensitive: bool,
    search_whole_word: bool,
}

impl View for SearchState {
    type V = SearchView;

    closed spec fn view(&self) -> SearchView {
        SearchView {
            query: self.search_query@,
            results: self.search_results@.map_values(
                |p: (usize, usize)| (p.0 as int, p.1 as int)),
            current: match self.current_search_index {
                Some(i) => Some(i as int),
                None => None,
            },
            case_sensitive: self.search_case_sensitive,
            whole_word: self.search_whole_word,
        }
    }
}

impl SearchState {
    /// The search state's invariant: the cursor, when set, points into
    /// the match list.
    pub closed spec fn wf(&self) -> bool {
        match self.current_search_index {
            Some(i) => (i as int) < self.search_results@.len(),
            None => true,
        }
    }
}

/// Scans the whole grid in row-major order for positions satisfying the
/// verified test `hit_exec`, which must decide the spec predicate `hit`.
fn scan_grid<F: Fn(&String) -> bool>(grid: &Grid, hit_exec: F, Ghost(hit): Ghost<spec_fn(int, int) -> bool>)
    -> (out: Vec<(usize, usize)>)
    requires
        grid.wf(),
        forall|t: &String| #[trigger] call_requires(hit_exec, (t,)),
        forall|r: int, c: int, t: &String, b: bool|
            #![trigger call_ensures(hit_exec, (t,), b), hit(r, c)]
            0 <= r < grid@.rows && 0 <= c < grid@.cols
                && t@ == value_text(value_at(grid@, r, c))
                && call_ensures(hit_exec, (t,), b)
            ==> b == hit(r, c),
    ensures
        row_major_matches(
            out@.map_values(|p: (usize, usize)| (p.0 as int, p.1 as int)),
            grid@,
            hit,
        ),
{
    let rows: usize = grid.row_count();
    let cols: usize = grid.col_count();
    let mut out: Vec<(usize, usize)> = Vec::new();
    let mut r: usize = 0;
    while r < rows
        invariant
            0 <= r <= rows,
            rows == grid@.rows && cols == grid@.cols,
            grid.wf(),
            forall|t: &String| #[trigger] call_requires(hit_exec, (t,)),
            forall|r2: int, c2: int, t: &String, b: bool|
                #![trigger call_ensures(hit_exec, (t,), b), hit(r2, c2)]
                0 <= r2 < grid@.rows && 0 <= c2 < grid@.cols
                    && t@ == value_text(value_at(grid@, r2, c2))
                    && call_ensures(hit_exec, (t,), b)
                ==> b == hit(r2, c2),
            forall|j: int| 0 <= j < out@.len() ==> {
                &&& 0 <= (#[trigger] out@[j]).0 < r
                &&& 0 <= out@[j].1 < cols
                &&& hit(out@[j].0 as int, out@[j].1 as int)
            },
            forall|r2: int, c2: int|
                #![trigger hit(r2, c2)]
                0 <= r2 < r && 0 <= c2 < cols && hit(r2, c2)
                ==> out@.map_values(|p: (usize, usize)| (p.0 as int, p.1 as int))
                    .contains((r2, c2)),
            forall|i: int, j: int| 0 <= i < j < out@.len()
                ==> ((#[trigger] out@[i]).0 < (#[trigger] out@[j]).0
                    || (out@[i].0 == out@[j].0 && out@[i].1 < out@[j].1)),
        decreases rows - r,
    {
        let mut c: usize = 0;
        while c < cols
            invariant
                0 <= c <= cols,
                0 <= r < rows,
                rows == grid@.rows && cols == grid@.cols,
                grid.wf(),
                forall|t: &String| #[trigger] call_requires(hit_exec, (t,)),
                forall|r2: int, c2: int, t: &String, b: bool|
                    #![trigger call_ensures(hit_exec, (t,), b), hit(r2, c2)]
                    0 <= r2 < grid@.rows && 0 <= c2 < grid@.cols
                        && t@ == value_text(value_at(grid@, r2, c2))
                        && call_ensures(hit_exec, (t,), b)
                    ==> b == hit(r2, c2),
                forall|j: int| 0 <= j < out@.len() ==> {
                    &&& 0 <= (#[trigger] out@[j]).0 <= r
                    &&& 0 <= out@[j].1 < cols
                    &&& (out@[j].0 < r || out@[j].1 < c)
                    &&& hit(out@[j].0 as int, out@[j].1 as int)
                },
                forall|r2: int, c2: int|
                    #![trigger hit(r2, c2)]
                    ((0 <= r2 < r && 0 <= c2 < cols)
                        || (r2 == r && 0 <= c2 < c)) && hit(r2, c2)
                    ==> out@.map_values(|p: (usize, usize)| (p.0 as int, p.1 as int))
                        .contains((r2, c2)),
                forall|i: int, j: int| 0 <= i < j < out@.len()
                    ==> ((#[trigger] out@[i]).0 < (#[trigger] out@[j]).0
                        || (out@[i].0 == out@[j].0 && out@[i].1 < out@[j].1)),
            decreases cols - c,
        {
            let text = grid.get_value_string(r, c);
            let is_hit = hit_exec(&text);
            if is_hit {
                let ghost pre = out@;
                out.push((r, c));
                proof {
                    let m0 = pre.map_values(|p: (usize, usize)| (p.0 as int, p.1 as int));
                    let m1 = out@.map_values(|p: (usize, usize)| (p.0 as int, p.1 as int));
                    assert(out@ =~= pre.push((r, c)));
                    assert(forall|j: int| 0 <= j < pre.len() ==> #[trigger] m1[j] == m0[j]);
                    assert(m1[pre.len() as int] == (r as int, c as int));
                    assert forall|r2: int, c2: int|
                        ((0 <= r2 < r as int && 0 <= c2 < cols)
                            || (r2 == r as int && 0 <= c2 < c + 1)) && hit(r2, c2)
                        implies m1.contains((r2, c2)) by {
                        if r2 == r as int && c2 == c as int {
                            assert(m1[pre.len() as int] == (r2, c2));
                        } else {
                            assert(m0.contains((r2, c2)));
                            let j = choose|j: int| 0 <= j < m0.len() && m0[j] == (r2, c2);
                            assert(m1[j] == (r2, c2));
                        }
                    }
                }
            } else {
                proof {
                    let m1 = out@.map_values(|p: (usize, usize)| (p.0 as int, p.1 as int));
                    assert forall|r2: int, c2: int|
                        ((0 <= r2 < r as int && 0 <= c2 < cols)
                            || (r2 == r as int && 0 <= c2 < c + 1)) && hit(r2, c2)
                        implies m1.contains((r2, c2)) by {}
                }
            }
            c = c + 1;
        }
        r = r + 1;
    }
    out
}

impl SearchState {
    /// An idle search: empty query, no results, no cursor,
    /// case-insensitive substring mode.
    pub fn new() -> (r: SearchState)
        ensures
            r.wf(),
            r@.query.len() == 0,
            r@.results.len() == 0,
            r@.current is None,
            !r@.case_sensitive,
            !r@.whole_word,
    {
        let s = SearchState {
            search_query: String::new(),
            search_results: Vec::new(),
            current_search_index: None,
            search_case_sensitive: false,
            search_whole_word: false,
        };
        proof {
            assert(s@.results =~= Seq::<(int, int)>::empty());
        }
        s
    }

    /// Case-insensitive substring search; see
    /// [`SearchState::search_text_with_options`].
    pub fn search_text(&mut self, query: String, grid: &Grid) -> (n: usize)
        requires
            grid.wf(),
        ensures
            final(self).wf(),
            search_outcome(*final(self), old(self)@, query@, false, false, grid@, n as int),
    {
        self.search_text_with_options(query, false, false, grid)
    }

    /// Scans every cell for the query: the stored query is case-folded
    /// unless case-sensitive, matches are collected in row-major order,
    /// and the cursor starts at the first match.  An empty query clears
    /// the results.
    pub fn search_text_with_options(
        &mut self,
        query: String,
        case_sensitive: bool,
        whole_word: bool,
        grid: &Grid,
    ) -> (n: usize)
        requires
            grid.wf(),
        ensures
            final(self).wf(),
            search_outcome(
                *final(self), old(self)@, query@, case_sensitive, whole_word, grid@, n as int),
    {
        self.search_case_sensitive = case_sensitive;
        self.search_whole_word = whole_word;
        let stored: String = if case_sensitive { query.clone() } else { lowercase(query.as_str()) };
        self.search_query = stored;
        self.search_results = Vec::new();
        self.current_search_index = None;
        if query.as_str().is_empty() {
            proof {
                assert(final(self)@.results =~= Seq::<(int, int)>::empty());
            }
            return 0;
        }
        let ghost q = self.search_query@;
        let qchars = chars_of(self.search_query.as_str());
        let ghost g = grid@;
        let results = scan_grid(
            grid,
            (|text: &String| -> (b: bool)
                ensures
                    b == text_match(text@, q, case_sensitive, whole_word),
            {
                let t = if case_sensitive { text.clone() } else { lowercase(text.as_str()) };
                let tchars = chars_of(t.as_str());
                if whole_word {
                    has_word_chars(&tchars, &qchars)
                } else {
                    contains_chars(&tchars, &qchars)
                }
            }),
            Ghost(|r: int, c: int| cell_matches(g, r, c, q, case_sensitive, whole_word)),
        );
        let n = results.len();
        self.search_results = results;
        if n > 0 {
            self.current_search_index = Some(0);
        }
        n
    }

    /// Compiles the query as a pattern (case-insensitive unless the search
    /// is case-sensitive) and scans every cell with it; a malformed
    /// pattern fails without touching the state.
    pub fn search_regex(&mut self, pattern: String, case_sensitive: bool, grid: &Grid)
        -> (res: Result<usize, String>)
        requires
            grid.wf(),
            old(self).wf(),
        ensures
            final(self).wf(),
            regex_outcome(*final(self), *old(self), pattern@, case_sensitive, grid@, res),
    {
        if !regex_compiles(pattern.as_str(), !case_sensitive) {
            let probe = regex_is_match(pattern.as_str(), !case_sensitive, "");
            match probe {
                Err(e) => {
                    return Err(e);
                },
                Ok(_) => {
                    proof { assert(false); }
                    return Err(String::new());
                },
            }
        }
        let ghost g = grid@;
        let ghost pat = pattern@;
        let ci = !case_sensitive;
        let results = scan_grid(
            grid,
            (|text: &String| -> (b: bool)
                ensures
                    b == regex_match(pat, ci, text@),
            {
                match regex_is_match(pattern.as_str(), ci, text.as_str()) {
                    Ok(b) => b,
                    Err(_) => {
                        proof { assert(false); }
                        false
                    },
                }
            }),
            Ghost(|r: int, c: int| cell_matches_regex(g, r, c, pat, ci)),
        );
        let n = results.len();
        self.search_query = pattern;
        self.search_case_sensitive = case_sensitive;
        self.search_whole_word = false;
        self.search_results = results;
        self.current_search_index = if n > 0 { Some(0) } else { None };
        Ok(n)
    }

    /// Whether the pattern would compile (with `regex`'s defaults).
    pub fn validate_regex_pattern(pattern: &str) -> (r: bool)
        ensures
            r == regex_valid(pattern@, false),
    {
        regex_compiles(pattern, false)
    }

    /// Advances the cursor circularly and returns the match under it.
    pub fn search_next(&mut self) -> (r: Option<(usize, usize)>)
        requires
            old(self).wf(),
        ensures
            final(self).wf(),
            cursor_step(*old(self), *final(self), r, true),
    {
        let n = self.search_results.len();
        if n == 0 {
            return None;
        }
        match self.current_search_index {
            Some(idx) => {
                let next = if idx + 1 < n { idx + 1 } else { 0 };
                self.current_search_index = Some(next);
                Some(self.search_results[next])
            },
            None => None,
        }
    }

    /// Steps the cursor back circularly and returns the match under it.
    pub fn search_prev(&mut self) -> (r: Option<(usize, usize)>)
        requires
            old(self).wf(),
        ensures
            final(self).wf(),
            cursor_step(*old(self), *final(self), r, false),
    {
        let n = self.search_results.len();
        if n == 0 {
            return None;
        }
        match self.current_search_index {
            Some(idx) => {
                let prev = if idx == 0 { n - 1 } else { idx - 1 };
                self.current_search_index = Some(prev);
                Some(self.search_results[prev])
            },
            None => None,
        }
    }

    /// Forgets the query, the matches, and the cursor.
    pub fn clear_search(&mut self)
        ensures
            final(self).wf(),
            final(self)@.query.len() == 0,
            final(self)@.results.len() == 0,
            final(self)@.current is None,
            final(self)@.case_sensitive == old(self)@.case_sensitive,
            final(self)@.whole_word == old(self)@.whole_word,
    {
        self.search_query = String::new();
        self.search_results = Vec::new();
        self.current_search_index = None;
        proof { assert(final(self)@.results =~= Seq::<(int, int)>::empty()); }
    }

    /// Number of matches.
    pub fn get_search_result_count(&self) -> (r: usize)
        ensures
            r as int == self@.results.len(),
    {
        self.search_results.len()
    }

    /// One-based cursor position for display; `-1` without a cursor.
    pub fn get_current_search_index(&self) -> (r: i32)
        requires
            self.wf(),
            self@.results.len() < 0x7FFF_FFFF,
        ensures
            match self@.current {
                Some(i) => r == i + 1,
                None => r == -1,
            },
    {
        match self.current_search_index {
            Some(i) => (i + 1) as i32,
            None => -1,
        }
    }

    /// Whether a position is among the matches.
    pub fn is_search_result(&self, row: usize, col: usize) -> (r: bool)
        ensures
            r == self@.results.contains((row as int, col as int)),
    {
        let n: usize = self.search_results.len();
        let mut i: usize = 0;
        while i < n
            invariant
                0 <= i <= n,
                n == self.search_results@.len(),
                forall|j: int| 0 <= j < i
                    ==> #[trigger] self.search_results@[j] != (row, col),
            decreases n - i,
        {
            if self.search_results[i].0 == row && self.search_results[i].1 == col {
                proof {
                    let m = self.search_results@.map_values(
                        |p: (usize, usize)| (p.0 as int, p.1 as int));
                    assert(m[i as int] == (row as int, col as int));
                }
                return true;
            }
            i = i + 1;
        }
        proof {
            let m = self.search_results@.map_values(
                |p: (usize, usize)| (p.0 as int, p.1 as int));
            if m.contains((row as int, col as int)) {
                let j = choose|j: int| 0 <= j < m.len() && m[j] == (row as int, col as int);
                assert(self.search_results@[j] == (row, col));
            }
        }
        false
    }

    /// Whether a position is the match under the cursor.
    pub fn is_current_search_result(&self, row: usize, col: usize) -> (r: bool)
        ensures
            r == match self@.current {
                Some(i) => i < self@.results.len()
                    && self@.results[i] == (row as int, col as int),
                None => false,
            },
    {
        match self.current_search_index {
            Some(idx) => {
                if idx < self.search_results.len() {
                    let p = self.search_results[idx];
                    p.0 == row && p.1 == col
                } else {
                    false
                }
            },
            None => false,
        }
    }

    /// The match under the cursor, if the cursor is on one.
    pub fn current_result(&self) -> (r: Option<(usize, usize)>)
        ensures
            match r {
                Some(p) => self@.current matches Some(i) && i < self@.results.len()
                    && self@.results[i] == (p.0 as int, p.1 as int),
                None => match self@.current {
                    Some(i) => i >= self@.results.len(),
                    None => true,
                },
            },
    {
        match self.current_search_index {
            Some(idx) => {
                if idx < self.search_results.len() {
                    Some(self.search_results[idx])
                } else {
                    None
                }
            },
            None => None,
        }
    }

    /// Overwrites the match under the cursor with the replacement (a
    /// number when it parses as one, else text) and advances the cursor;
    /// `false` without a cursor.
    pub fn replace_current(&mut self, replacement: String, grid: &mut Grid) -> (r: bool)
        requires
            old(grid).wf(),
            old(self).wf(),
        ensures
            final(self).wf(),
            final(grid).wf(),
            match old(self)@.current {
                Some(i) => {
                    if i < old(self)@.results.len() {
                        &&& r == true
                        &&& final(grid)@ == set_value_m(
                            old(grid)@,
                            old(self)@.results[i].0,
                            old(self)@.results[i].1,
                            typed_replacement(replacement@),
                        )
                        &&& cursor_step(
                            *old(self),
                            *final(self),
                            cursor_step_result(*old(self)),
                            true,
                        )
                    } else {
                        &&& r == false
                        &&& *final(self) == *old(self)
                        &&& *final(grid) == *old(grid)
                    }
                },
                None => r == false && *final(self) == *old(self) && *final(grid) == *old(grid),
            },
    {
        match self.current_search_index {
            Some(idx) => {
                if idx < self.search_results.len() {
                    let p = self.search_results[idx];
                    let v = make_replacement(&replacement);
                    grid.set_value(p.0, p.1, v);
                    let _ = self.search_next();
                    true
                } else {
                    false
                }
            },
            None => false,
        }
    }

    /// Overwrites every match with the replacement and clears the search;
    /// returns how many matches were replaced.
    pub fn replace_all(&mut self, replacement: String, grid: &mut Grid) -> (n: usize)
        requires
            old(grid).wf(),
        ensures
            final(self).wf(),
            final(grid).wf(),
            n as int == old(self)@.results.len(),
            final(grid)@ == put_all_m(
                old(self)@.results, typed_replacement(replacement@), old(grid)@),
            final(self)@.query.len() == 0,
            final(self)@.results.len() == 0,
            final(self)@.current is None,
    {
        let count = self.search_results.len();
        let n: usize = count;
        let mut i: usize = 0;
        proof { assert(self@.results.skip(0) =~= self@.results); }
        let ghost results0 = self@.results;
        while i < n
            invariant
                0 <= i <= n,
                n == self.search_results@.len(),
                self@.results == results0,
                grid.wf(),
                put_all_m(results0, typed_replacement(replacement@), old(grid)@)
                    == put_all_m(results0.skip(i as int), typed_replacement(replacement@), grid@),
            decreases n - i,
        {
            proof {
                assert(results0.skip(i as int).subrange(
                    1, results0.skip(i as int).len() as int) =~= results0.skip(i + 1));
                assert(results0.skip(i as int)[0] == results0[i as int]);
                assert(results0[i as int] == (self.search_results@[i as int].0 as int,
                    self.search_results@[i as int].1 as int));
            }
            let p = self.search_results[i];
            let v = make_replacement(&replacement);
            grid.set_value(p.0, p.1, v);
            i = i + 1;
        }
        proof {
            assert(results0.skip(n as int) =~= Seq::<(int, int)>::empty());
        }
        self.clear_search();
        count
    }
}

/// One selection-restricted replacement pass: positions whose folded
/// text contains the folded query get the replacement, first entry
/// first; the count of replacements rides along.
pub open spec fn replace_sel_m(
    list: Seq<(int, int)>,
    g: GridView,
    q: Seq<char>,
    case_sensitive: bool,
    v: ValueView,
) -> (GridView, int)
    decreases list.len(),
{
    if list.len() == 0 {
        (g, 0)
    } else {
        let t = value_text(value_at(g, list[0].0, list[0].1));
        let folded = if case_sensitive { t } else { lower_of(t) };
        let rest = list.subrange(1, list.len() as int);
        if is_substring(folded, q) {
            let (g2, n2) = replace_sel_m(rest, set_value_m(g, list[0].0, list[0].1, v),
                q, case_sensitive, v);
            (g2, n2 + 1)
        } else {
            replace_sel_m(rest, g, q, case_sensitive, v)
        }
    }
}

impl SearchState {
    /// Replaces the query inside the given selection only: each selected
    /// cell whose (case-folded unless case-sensitive) text contains the
    /// query is overwritten with the typed replacement.  Returns the
    /// count replaced.
    pub fn replace_in_selection(
        search: String,
        replacement: String,
        case_sensitive: bool,
        selected: &Vec<(usize, usize)>,
        grid: &mut Grid,
    ) -> (n: usize)
        requires
            old(grid).wf(),
        ensures
            final(grid).wf(),
            ({
                let q = if case_sensitive { search@ } else { lower_of(search@) };
                let out = replace_sel_m(
                    selected@.map_values(|p: (usize, usize)| (p.0 as int, p.1 as int)),
                    old(grid)@,
                    q,
                    case_sensitive,
                    typed_replacement(replacement@),
                );
                final(grid)@ == out.0 && n as int == out.1
            }),
    {
        let needle: String = if case_sensitive {
            search.clone()
        } else {
            lowercase(search.as_str())
        };
        let nchars = chars_of(needle.as_str());
        let ghost q = needle@;
        let ghost v = typed_replacement(replacement@);
        let ghost list = selected@.map_values(|p: (usize, usize)| (p.0 as int, p.1 as int));
        let total: usize = selected.len();
        let mut count: usize = 0;
        let mut i: usize = 0;
        proof { assert(list.skip(0) =~= list); }
        while i < total
            invariant
                0 <= i <= total,
                count <= i,
                total == selected@.len(),
                grid.wf(),
                list == selected@.map_values(|p: (usize, usize)| (p.0 as int, p.1 as int)),
                q == if case_sensitive { search@ } else { lower_of(search@) },
                replace_sel_m(list, old(grid)@, q, case_sensitive, v)
                    == ({
                        let out = replace_sel_m(
                            list.skip(i as int), grid@, q, case_sensitive, v);
                        (out.0, out.1 + count)
                    }),
            decreases total - i,
        {
            proof {
                assert(list.skip(i as int).subrange(
                    1, list.skip(i as int).len() as int) =~= list.skip(i + 1));
                assert(list.skip(i as int)[0] == list[i as int]);
            }
            let p = selected[i];
            let text = grid.get_value_string(p.0, p.1);
            let folded: String = if case_sensitive { text } else { lowercase(text.as_str()) };
            let fchars = chars_of(folded.as_str());
            if contains_chars(&fchars, &nchars) {
                let nv = make_replacement(&replacement);
                grid.set_value(p.0, p.1, nv);
                count = count + 1;
            }
            i = i + 1;
        }
        proof { assert(list.skip(total as int) =~= Seq::<(int, int)>::empty()); }
        count
    }
}

/// Writes `v` at every listed position, first entry first.
pub open spec fn put_all_m(list: Seq<(int, int)>, v: ValueView, g: GridView) -> GridView
    decreases list.len(),
{
    if list.len() == 0 {
        g
    } else {
        put_all_m(list.subrange(1, list.len() as int), v, set_value_m(g, list[0].0, list[0].1, v))
    }
}

/// What a finished plain search guarantees: flags stored, the query
/// folded unless case-sensitive, matches listed in row-major order with
/// the cursor on the first, and an empty query clearing everything.
pub open spec fn search_outcome(
    s1: SearchState,
    s0: SearchView,
    raw_query: Seq<char>,
    case_sensitive: bool,
    whole_word: bool,
    g: GridView,
    n: int,
) -> bool {
    let q = if case_sensitive { raw_query } else { lower_of(raw_query) };
    &&& s1@.case_sensitive == case_sensitive
    &&& s1@.whole_word == whole_word
    &&& s1@.query == q
    &&& (raw_query.len() == 0 ==> s1@.results.len() == 0 && s1@.current is None && n == 0)
    &&& (raw_query.len() > 0 ==> {
        &&& row_major_matches(
            s1@.results,
            g,
            |r: int, c: int| cell_matches(g, r, c, q, case_sensitive, whole_word),
        )
        &&& n == s1@.results.len()
        &&& s1@.current == if n > 0 { Some(0int) } else { None::<int> }
    })
}

/// What a pattern search guarantees: a malformed pattern fails and leaves
/// the state alone; otherwise matches are listed in row-major order with
/// the cursor on the first.
pub open spec fn regex_outcome(
    s1: SearchState,
    s0: SearchState,
    pattern: Seq<char>,
    case_sensitive: bool,
    g: GridView,
    res: Result<usize, String>,
) -> bool {
    if regex_valid(pattern, !case_sensitive) {
        &&& res matches Ok(n)
        &&& s1@.query == pattern
        &&& s1@.case_sensitive == case_sensitive
        &&& !s1@.whole_word
        &&& row_major_matches(
            s1@.results,
            g,
            |r: int, c: int| cell_matches_regex(g, r, c, pattern, !case_sensitive),
        )
        &&& n as int == s1@.results.len()
        &&& s1@.current == if s1@.results.len() > 0 { Some(0int) } else { None::<int> }
    } else {
        res is Err && s1 == s0
    }
}

/// What one circular cursor step does: nothing without matches or a
/// cursor; otherwise the cursor moves one place (wrapping) and the match
/// under it is returned.
pub open spec fn cursor_step(
    s0: SearchState,
    s1: SearchState,
    r: Option<(usize, usize)>,
    forward: bool,
) -> bool {
    if s0@.results.len() == 0 {
        r is None && s1 == s0
    } else {
        match s0@.current {
            Some(idx) => {
                let len = s0@.results.len() as int;
                let target = if forward {
                    if idx + 1 < len { idx + 1 } else { 0 }
                } else {
                    if idx == 0 { len - 1 } else { idx - 1 }
                };
                &&& s1@.current == Some(target)
                &&& s1@.results == s0@.results
                &&& s1@.query == s0@.query
                &&& s1@.case_sensitive == s0@.case_sensitive
                &&& s1@.whole_word == s0@.whole_word
                &&& (r matches Some(p) && (p.0 as int, p.1 as int) == s0@.results[target])
            },
            None => r is None && s1 == s0,
        }
    }
}

/// The position a forward cursor step would return.
pub open spec fn cursor_step_result(s0: SearchState) -> Option<(usize, usize)> {
    if s0@.results.len() == 0 {
        None
    } else {
        match s0@.current {
            Some(idx) => {
                let len = s0@.results.len() as int;
                let target: int = if idx + 1 < len { idx + 1 } else { 0 };
                if 0 <= target < len {
                    Some((s0@.results[target].0 as usize, s0@.results[target].1 as usize))
                } else {
                    None
                }
            },
            None => None,
        }
    }
}

} // verus!
