//! Character-sequence utilities: decimal formatting and parsing, substring
//! and whole-word matching, and lexicographic comparison.
//!
//! Cell text is modelled as `Seq<char>` (the view of `String`); every
//! function here is verified against a spec over that model.

use vstd::prelude::*;
use vstd::string::*;

verus! {

/// Three-way comparison result used by the sort engine.
#[derive(Clone, Copy, Debug, PartialEq, Eq, Structural)]
pub enum Ord3 {
    Lt,
    Eq,
    Gt,
}

/// Reverses a comparison result.
pub open spec fn ord3_flip(o: Ord3) -> Ord3 {
    match o {
        Ord3::Lt => Ord3::Gt,
        Ord3::Eq => Ord3::Eq,
        Ord3::Gt => Ord3::Lt,
    }
}

// ---------------------------------------------------------------------------
// Decimal digits
// ---------------------------------------------------------------------------

/// Whether `c` is an ASCII decimal digit.
pub open spec fn is_digit(c: char) -> bool {
    ('0' as u32) <= (c as u32) && (c as u32) <= ('9' as u32)
}

/// Numeric value of a digit character.
pub open spec fn digit_val(c: char) -> int {
    (c as u32) - ('0' as u32)
}

/// The digit character for `d` in `0..10`.
pub open spec fn digit_char(d: int) -> char {
    if d == 0 { '0' }
    else if d == 1 { '1' }
    else if d == 2 { '2' }
    else if d == 3 { '3' }
    else if d == 4 { '4' }
    else if d == 5 { '5' }
    else if d == 6 { '6' }
    else if d == 7 { '7' }
    else if d == 8 { '8' }
    else if d == 9 { '9' }
    else { ' ' }
}

/// Decimal representation of a natural number, most significant digit first.
pub open spec fn dec_rep(n: nat) -> Seq<char>
    decreases n,
{
    if n < 10 {
        seq![digit_char(n as int)]
    } else {
        dec_rep(n / 10).push(digit_char((n % 10) as int))
    }
}

/// Decimal representation of an integer: a minus sign for negatives.
pub open spec fn int_rep(i: int) -> Seq<char> {
    if i >= 0 {
        dec_rep(i as nat)
    } else {
        seq!['-'] + dec_rep((-i) as nat)
    }
}

fn digit_str(d: u64) -> (r: &'static str)
    requires
        d < 10,
    ensures
        r@ == seq![digit_char(d as int)],
{
    if d == 0 {
        proof { reveal_strlit("0"); }
        let r = "0";
        proof { assert(r@ =~= seq![digit_char(d as int)]); }
        r
    } else if d == 1 {
        proof { reveal_strlit("1"); }
        let r = "1";
        proof { assert(r@ =~= seq![digit_char(d as int)]); }
        r
    } else if d == 2 {
        proof { reveal_strlit("2"); }
        let r = "2";
        proof { assert(r@ =~= seq![digit_char(d as int)]); }
        r
    } else if d == 3 {
        proof { reveal_strlit("3"); }
        let r = "3";
        proof { assert(r@ =~= seq![digit_char(d as int)]); }
        r
    } else if d == 4 {
        proof { reveal_strlit("4"); }
        let r = "4";
        proof { assert(r@ =~= seq![digit_char(d as int)]); }
        r
    } else if d == 5 {
        proof { reveal_strlit("5"); }
        let r = "5";
        proof { assert(r@ =~= seq![digit_char(d as int)]); }
        r
    } else if d == 6 {
        proof { reveal_strlit("6"); }
        let r = "6";
        proof { assert(r@ =~= seq![digit_char(d as int)]); }
        r
    } else if d == 7 {
        proof { reveal_strlit("7"); }
        let r = "7";
        proof { assert(r@ =~= seq![digit_char(d as int)]); }
        r
    } else if d == 8 {
        proof { reveal_strlit("8"); }
        let r = "8";
        proof { assert(r@ =~= seq![digit_char(d as int)]); }
        r
    } else {
        proof { reveal_strlit("9"); }
        let r = "9";
        proof { assert(r@ =~= seq![digit_char(d as int)]); }
        r
    }
}

/// Renders `n` in decimal.
pub fn u64_to_string(n: u64) -> (s: String)
    ensures
        s@ == dec_rep(n as nat),
    decreases n,
{
    if n < 10 {
        String::from_str(digit_str(n))
    } else {
        let mut s = u64_to_string(n / 10);
        s.append(digit_str(n % 10));
        s
    }
}

/// Renders `n` in decimal, with a leading minus sign when negative.
pub fn i64_to_string(n: i64) -> (s: String)
    ensures
        s@ == int_rep(n as int),
{
    if n >= 0 {
        u64_to_string(n as u64)
    } else {
        let mag: u64 = if n == i64::MIN {
            0x8000_0000_0000_0000u64
        } else {
            (-n) as u64
        };
        proof { reveal_strlit("-"); }
        let mut s = String::from_str("-");
        proof { assert(s@ =~= seq!['-']); }
        let tail = u64_to_string(mag);
        s.append(tail.as_str());
        s
    }
}

// ---------------------------------------------------------------------------
// Integer tokens
// ---------------------------------------------------------------------------

/// Whether every character of `s` is a decimal digit.
pub open spec fn all_digits(s: Seq<char>) -> bool {
    forall|i: int| 0 <= i < s.len() ==> is_digit(s[i])
}

/// Value of a digit string, most significant digit first.
pub open spec fn digits_value(s: Seq<char>) -> int
    decreases s.len(),
{
    if s.len() == 0 {
        0
    } else {
        digits_value(s.drop_last()) * 10 + digit_val(s.last())
    }
}

/// Powers of ten.
pub open spec fn pow10(e: nat) -> int
    decreases e,
{
    if e == 0 { 1 } else { 10 * pow10((e - 1) as nat) }
}

/// The longest digit run accepted by [`int_token`].
pub const MAX_INT_DIGITS: usize = 18;

/// The integer denoted by `s`, where `s` is an optional minus sign followed
/// by one to eighteen decimal digits; `None` for any other shape.  Eighteen
/// digits keeps every accepted token inside `i64` range.
pub open spec fn int_token(s: Seq<char>) -> Option<int> {
    let ds = if s.len() > 0 && s[0] == '-' { s.subrange(1, s.len() as int) } else { s };
    if 1 <= ds.len() <= MAX_INT_DIGITS && all_digits(ds) {
        if s.len() > 0 && s[0] == '-' {
            Some(-digits_value(ds))
        } else {
            Some(digits_value(ds))
        }
    } else {
        None
    }
}

proof fn lemma_digits_value_bounds(s: Seq<char>)
    requires
        all_digits(s),
    ensures
        0 <= digits_value(s) < pow10(s.len()),
    decreases s.len(),
{
    if s.len() == 0 {
    } else {
        assert(all_digits(s.drop_last())) by {
            assert(forall|i: int| 0 <= i < s.len() - 1 ==> s.drop_last()[i] == s[i]);
        }
        lemma_digits_value_bounds(s.drop_last());
        assert(0 <= digit_val(s.last()) <= 9);
    }
}

proof fn lemma_pow10_18()
    ensures
        pow10(MAX_INT_DIGITS as nat) == 0xDE0B6B3A7640000,
{
    reveal_with_fuel(pow10, 19);
}

/// Parses `s` as an integer token; mirrors [`int_token`] exactly.
pub fn parse_int_chars(s: &Vec<char>) -> (r: Option<i64>)
    ensures
        match r {
            Some(v) => int_token(s@) == Some(v as int),
            None => int_token(s@) is None,
        },
{
    let neg: bool = s.len() > 0 && s[0] == '-';
    let start: usize = if neg { 1 } else { 0 };
    let ghost ds = if neg { s@.subrange(1, s@.len() as int) } else { s@ };
    proof {
        assert(ds.len() == s@.len() - start);
        assert(forall|i: int| 0 <= i < ds.len() ==> ds[i] == s@[i + start]);
    }
    let n_digits: usize = s.len() - start;
    if n_digits < 1 || n_digits > MAX_INT_DIGITS {
        return None;
    }
    let mut acc: i64 = 0;
    let mut i: usize = start;
    proof {
        lemma_pow10_monotone(0, MAX_INT_DIGITS as nat);
    }
    while i < s.len()
        invariant
            start <= i <= s.len(),
            s.len() - start <= MAX_INT_DIGITS,
            neg == (s@.len() > 0 && s@[0] == '-'),
            start == if neg { 1int } else { 0int },
            ds == if neg { s@.subrange(1, s@.len() as int) } else { s@ },
            ds.len() == s@.len() - start,
            forall|j: int| 0 <= j < ds.len() ==> ds[j] == s@[j + start],
            all_digits(ds.take(i - start)),
            acc == digits_value(ds.take(i - start)),
            0 <= acc < pow10((i - start) as nat),
            pow10((i - start) as nat) <= pow10(MAX_INT_DIGITS as nat),
        decreases s.len() - i,
    {
        let c = s[i];
        let code: u32 = c as u32;
        if code < 48 || code > 57 {
            proof {
                assert(!is_digit(ds[i - start]));
                assert(!all_digits(ds));
            }
            return None;
        }
        proof {
            lemma_pow10_18();
            assert(ds.take(i + 1 - start).drop_last() =~= ds.take(i - start));
            assert(ds.take(i + 1 - start).last() == ds[i - start]);
            assert(pow10((i + 1 - start) as nat) == 10 * pow10((i - start) as nat));
            assert(pow10((i + 1 - start) as nat) <= pow10(MAX_INT_DIGITS as nat)) by {
                lemma_pow10_monotone((i + 1 - start) as nat, MAX_INT_DIGITS as nat);
            }
        }
        let d: i64 = (code - 48) as i64;
        acc = acc * 10 + d;
        i = i + 1;
    }
    proof {
        assert(ds.take(i - start) =~= ds);
        lemma_pow10_18();
    }
    if neg {
        Some(-acc)
    } else {
        Some(acc)
    }
}

proof fn lemma_pow10_pos(e: nat)
    ensures
        pow10(e) >= 1,
    decreases e,
{
    if e > 0 {
        lemma_pow10_pos((e - 1) as nat);
    }
}

proof fn lemma_pow10_monotone(a: nat, b: nat)
    requires
        a <= b,
    ensures
        1 <= pow10(a) <= pow10(b),
    decreases b,
{
    lemma_pow10_pos(a);
    if a < b {
        lemma_pow10_monotone(a, (b - 1) as nat);
        lemma_pow10_pos((b - 1) as nat);
    }
}

// ---------------------------------------------------------------------------
// Character vectors
// ---------------------------------------------------------------------------

/// Collects the characters of `s` into a vector.
pub fn chars_of(s: &str) -> (v: Vec<char>)
    ensures
        v@ == s@,
{
    let n: usize = s.unicode_len();
    let mut v: Vec<char> = Vec::new();
    let mut i: usize = 0;
    while i < n
        invariant
            0 <= i <= n,
            n == s@.len(),
            v@ == s@.take(i as int),
        decreases n - i,
    {
        let c = s.get_char(i);
        v.push(c);
        proof { assert(v@ =~= s@.take(i + 1)); }
        i = i + 1;
    }
    proof { assert(v@ =~= s@); }
    v
}

/// String-slice equality over character views.
pub fn str_eq(a: &str, b: &str) -> (r: bool)
    ensures
        r == (a@ == b@),
{
    let la: usize = a.unicode_len();
    let lb: usize = b.unicode_len();
    if la != lb {
        return false;
    }
    let mut i: usize = 0;
    while i < la
        invariant
            0 <= i <= la,
            la == a@.len() && la == b@.len(),
            forall|j: int| 0 <= j < i ==> a@[j] == b@[j],
        decreases la - i,
    {
        if a.get_char(i) != b.get_char(i) {
            return false;
        }
        i = i + 1;
    }
    proof { assert(a@ =~= b@); }
    true
}

// ---------------------------------------------------------------------------
// Substring search
// ---------------------------------------------------------------------------

/// Whether `p` occurs contiguously inside `t` (an empty `p` always occurs).
pub open spec fn is_substring(t: Seq<char>, p: Seq<char>) -> bool {
    exists|i: int| 0 <= i <= t.len() - p.len() && #[trigger] t.subrange(i, i + p.len()) =~= p
}

fn chars_match_at(t: &Vec<char>, i: usize, p: &Vec<char>) -> (r: bool)
    requires
        i + p.len() <= t.len(),
    ensures
        r == (t@.subrange(i as int, i + p@.len()) =~= p@),
{
    let mut j: usize = 0;
    while j < p.len()
        invariant
            0 <= j <= p.len(),
            i + p.len() <= t.len(),
            forall|k: int| 0 <= k < j ==> t@[i + k] == p@[k],
        decreases p.len() - j,
    {
        let tc = t[i + j];
        let pc = p[j];
        if tc != pc {
            proof {
                assert(t@.subrange(i as int, i + p@.len())[j as int] == t@[i + j]);
            }
            return false;
        }
        j = j + 1;
    }
    proof {
        assert(t@.subrange(i as int, i + p@.len()) =~= p@);
    }
    true
}

/// Substring test; mirrors [`is_substring`] exactly.
pub fn contains_chars(t: &Vec<char>, p: &Vec<char>) -> (r: bool)
    ensures
        r == is_substring(t@, p@),
{
    if p.len() > t.len() {
        return false;
    }
    let last_start: usize = t.len() - p.len();
    let mut i: usize = 0;
    while i <= last_start
        invariant
            0 <= i <= last_start + 1,
            last_start == t.len() - p.len(),
            p.len() <= t.len(),
            forall|k: int| 0 <= k < i ==> !(#[trigger] t@.subrange(k, k + p@.len()) =~= p@),
        decreases last_start + 1 - i,
    {
        if chars_match_at(t, i, p) {
            proof {
                assert(0 <= i as int <= t@.len() - p@.len()
                    && t@.subrange(i as int, i as int + p@.len()) =~= p@);
            }
            return true;
        }
        i = i + 1;
    }
    proof {
        assert(forall|k: int| 0 <= k <= t@.len() - p@.len()
            ==> !(#[trigger] t@.subrange(k, k + p@.len()) =~= p@));
    }
    false
}

// ---------------------------------------------------------------------------
// Whole-word matching
// ---------------------------------------------------------------------------

/// ASCII whitespace, the token separators for whole-word search.
pub open spec fn is_space(c: char) -> bool {
    c == ' ' || c == '\t' || c == '\n' || c == '\r'
}

fn space_exec(c: char) -> (r: bool)
    ensures
        r == is_space(c),
{
    c == ' ' || c == '\t' || c == '\n' || c == '\r'
}

/// Whether `q` equals one whitespace-delimited token of `t`: `q` is
/// non-empty, contains no whitespace, and occurs in `t` bounded on each side
/// by whitespace or the text's edge.
pub open spec fn has_word(t: Seq<char>, q: Seq<char>) -> bool {
    &&& q.len() > 0
    &&& (forall|k: int| 0 <= k < q.len() ==> !is_space(q[k]))
    &&& exists|i: int| {
        &&& 0 <= i <= t.len() - q.len()
        &&& #[trigger] t.subrange(i, i + q.len()) =~= q
        &&& (i == 0 || is_space(t[i - 1]))
        &&& (i + q.len() == t.len() || is_space(t[i + q.len()]))
    }
}

/// Whole-word test; mirrors [`has_word`] exactly.
pub fn has_word_chars(t: &Vec<char>, q: &Vec<char>) -> (r: bool)
    ensures
        r == has_word(t@, q@),
{
    if q.len() == 0 || q.len() > t.len() {
        return false;
    }
    let mut k: usize = 0;
    while k < q.len()
        invariant
            0 <= k <= q.len(),
            forall|j: int| 0 <= j < k ==> !is_space(q@[j]),
        decreases q.len() - k,
    {
        if space_exec(q[k]) {
            return false;
        }
        k = k + 1;
    }
    let last_start: usize = t.len() - q.len();
    let mut i: usize = 0;
    while i <= last_start
        invariant
            0 <= i <= last_start + 1,
            last_start == t.len() - q.len(),
            0 < q.len() <= t.len(),
            forall|j: int| 0 <= j < q.len() ==> !is_space(q@[j]),
            forall|k2: int| 0 <= k2 < i ==> !{
                &&& #[trigger] t@.subrange(k2, k2 + q@.len()) =~= q@
                &&& (k2 == 0 || is_space(t@[k2 - 1]))
                &&& (k2 + q@.len() == t@.len() || is_space(t@[k2 + q@.len()]))
            },
        decreases last_start + 1 - i,
    {
        let left_ok: bool = i == 0 || space_exec(t[i - 1]);
        let right_ok: bool = i + q.len() == t.len() || space_exec(t[i + q.len()]);
        if left_ok && right_ok && chars_match_at(t, i, q) {
            proof {
                let wi = i as int;
                assert({
                    &&& 0 <= wi <= t@.len() - q@.len()
                    &&& t@.subrange(wi, wi + q@.len()) =~= q@
                    &&& (wi == 0 || is_space(t@[wi - 1]))
                    &&& (wi + q@.len() == t@.len() || is_space(t@[wi + q@.len()]))
                });
            }
            return true;
        }
        i = i + 1;
    }
    proof {
        assert(forall|k2: int| 0 <= k2 <= t@.len() - q@.len() ==> !{
            &&& #[trigger] t@.subrange(k2, k2 + q@.len()) =~= q@
            &&& (k2 == 0 || is_space(t@[k2 - 1]))
            &&& (k2 + q@.len() == t@.len() || is_space(t@[k2 + q@.len()]))
        });
    }
    false
}

// ---------------------------------------------------------------------------
// Lexicographic comparison
// ---------------------------------------------------------------------------

/// Lexicographic three-way comparison by Unicode scalar value; a proper
/// prefix sorts first.
pub open spec fn lex_cmp(a: Seq<char>, b: Seq<char>) -> Ord3
    decreases a.len(),
{
    if a.len() == 0 && b.len() == 0 {
        Ord3::Eq
    } else if a.len() == 0 {
        Ord3::Lt
    } else if b.len() == 0 {
        Ord3::Gt
    } else if (a[0] as u32) < (b[0] as u32) {
        Ord3::Lt
    } else if (a[0] as u32) > (b[0] as u32) {
        Ord3::Gt
    } else {
        lex_cmp(a.subrange(1, a.len() as int), b.subrange(1, b.len() as int))
    }
}

/// Lexicographic comparison; mirrors [`lex_cmp`] exactly.
pub fn lex_cmp_chars(a: &Vec<char>, b: &Vec<char>) -> (r: Ord3)
    ensures
        r == lex_cmp(a@, b@),
{
    let mut i: usize = 0;
    proof {
        assert(a@.skip(0) =~= a@);
        assert(b@.skip(0) =~= b@);
    }
    while i < a.len() && i < b.len()
        invariant
            0 <= i <= a.len(),
            0 <= i <= b.len(),
            lex_cmp(a@, b@) == lex_cmp(a@.skip(i as int), b@.skip(i as int)),
        decreases a.len() - i,
    {
        let ca: u32 = a[i] as u32;
        let cb: u32 = b[i] as u32;
        proof {
            assert(a@.skip(i as int)[0] == a@[i as int]);
            assert(b@.skip(i as int)[0] == b@[i as int]);
            assert(a@.skip(i as int).subrange(1, a@.skip(i as int).len() as int)
                =~= a@.skip(i + 1));
            assert(b@.skip(i as int).subrange(1, b@.skip(i as int).len() as int)
                =~= b@.skip(i + 1));
        }
        if ca < cb {
            return Ord3::Lt;
        } else if ca > cb {
            return Ord3::Gt;
        }
        i = i + 1;
    }
    proof {
        assert(a@.skip(i as int).len() == a@.len() - i);
        assert(b@.skip(i as int).len() == b@.len() - i);
    }
    if a.len() == b.len() {
        Ord3::Eq
    } else if a.len() < b.len() {
        Ord3::Lt
    } else {
        Ord3::Gt
    }
}

/// Comparison is antisymmetric: swapping the arguments flips the result.
pub proof fn lemma_lex_cmp_flip(a: Seq<char>, b: Seq<char>)
    ensures
        lex_cmp(b, a) == ord3_flip(lex_cmp(a, b)),
    decreases a.len(),
{
    if a.len() > 0 && b.len() > 0 && (a[0] as u32) == (b[0] as u32) {
        lemma_lex_cmp_flip(a.subrange(1, a.len() as int), b.subrange(1, b.len() as int));
    }
}

/// Strict comparison is transitive.
pub proof fn lemma_lex_cmp_trans(a: Seq<char>, b: Seq<char>, c: Seq<char>)
    requires
        lex_cmp(a, b) == Ord3::Lt,
        lex_cmp(b, c) == Ord3::Lt,
    ensures
        lex_cmp(a, c) == Ord3::Lt,
    decreases a.len() + b.len() + c.len(),
{
    if a.len() > 0 && b.len() > 0 && c.len() > 0
        && (a[0] as u32) == (b[0] as u32) && (b[0] as u32) == (c[0] as u32) {
        lemma_lex_cmp_trans(
            a.subrange(1, a.len() as int),
            b.subrange(1, b.len() as int),
            c.subrange(1, c.len() as int),
        );
    }
}

/// Sequences that compare equal are interchangeable on either side of a
/// comparison.
pub proof fn lemma_lex_cmp_eq_congruent(a: Seq<char>, b: Seq<char>, c: Seq<char>)
    requires
        lex_cmp(a, b) == Ord3::Eq,
    ensures
        lex_cmp(a, c) == lex_cmp(b, c),
        lex_cmp(c, a) == lex_cmp(c, b),
    decreases a.len() + c.len(),
{
    if a.len() > 0 && b.len() > 0 && (a[0] as u32) == (b[0] as u32) {
        if c.len() > 0 {
            lemma_lex_cmp_eq_congruent(
                a.subrange(1, a.len() as int),
                b.subrange(1, b.len() as int),
                c.subrange(1, c.len() as int),
            );
        }
    }
}

} // verus!
