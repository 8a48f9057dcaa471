//! Cell contents: the typed value sum, per-cell styling, and column
//! configuration, together with the ordering used by the sort engine.
//!
//! Numeric cell content is modelled as a 64-bit signed integer; pixel
//! lengths as unsigned integers.

use vstd::prelude::*;
use vstd::string::*;
use crate::text::{
    Ord3, ord3_flip, lex_cmp, lex_cmp_chars, chars_of, int_rep, i64_to_string,
    lemma_lex_cmp_flip, lemma_lex_cmp_trans, lemma_lex_cmp_eq_congruent,
};

verus! {

/// Declared data type of a column.
#[derive(Clone, Copy, Debug, PartialEq, Eq, Structural)]
pub enum DataType {
    Text,
    Number,
    Date,
    Boolean,
}

/// Mathematical model of a cell value: text as character sequences,
/// numbers as unbounded integers.
pub enum ValueView {
    Empty,
    Text(Seq<char>),
    Number(int),
    Boolean(bool),
    Date(Seq<char>),
}

/// The value stored in a grid cell.  Dates carry their text form
/// (for example `YYYY-MM-DD`).
#[derive(Clone, Debug)]
pub enum CellValue {
    Empty,
    Text(String),
    Number(i64),
    Boolean(bool),
    Date(String),
}

impl View for CellValue {
    type V = ValueView;

    open spec fn view(&self) -> ValueView {
        match self {
            CellValue::Empty => ValueView::Empty,
            CellValue::Text(s) => ValueView::Text(s@),
            CellValue::Number(n) => ValueView::Number(*n as int),
            CellValue::Boolean(b) => ValueView::Boolean(*b),
            CellValue::Date(s) => ValueView::Date(s@),
        }
    }
}

impl PartialEq for CellValue {
    fn eq(&self, other: &Self) -> (r: bool) {
        match (self, other) {
            (CellValue::Empty, CellValue::Empty) => true,
            (CellValue::Text(a), CellValue::Text(b)) => a.eq(b),
            (CellValue::Number(a), CellValue::Number(b)) => *a == *b,
            (CellValue::Boolean(a), CellValue::Boolean(b)) => *a == *b,
            (CellValue::Date(a), CellValue::Date(b)) => a.eq(b),
            _ => false,
        }
    }
}

impl vstd::std_specs::cmp::PartialEqSpecImpl for CellValue {
    open spec fn obeys_eq_spec() -> bool {
        true
    }

    open spec fn eq_spec(&self, other: &CellValue) -> bool {
        self@ == other@
    }
}

/// The character sequence a value displays as.
pub open spec fn value_text(v: ValueView) -> Seq<char> {
    match v {
        ValueView::Empty => Seq::empty(),
        ValueView::Text(s) => s,
        ValueView::Number(n) => int_rep(n),
        ValueView::Boolean(b) => if b { "true"@ } else { "false"@ },
        ValueView::Date(s) => s,
    }
}

impl CellValue {
    /// Renders the value as text; mirrors [`value_text`] exactly.
    pub fn to_string(&self) -> (r: String)
        ensures
            r@ == value_text(self@),
    {
        match self {
            CellValue::Empty => String::new(),
            CellValue::Text(s) => s.clone(),
            CellValue::Number(n) => i64_to_string(*n),
            CellValue::Boolean(b) => {
                if *b {
                    String::from_str("true")
                } else {
                    String::from_str("false")
                }
            },
            CellValue::Date(s) => s.clone(),
        }
    }

    /// A copy of the value with an identical model, unlike the derived
    /// `Clone`, whose result Verus knows nothing about.
    pub fn duplicate(&self) -> (r: CellValue)
        ensures
            r@ == self@,
    {
        match self {
            CellValue::Empty => CellValue::Empty,
            CellValue::Text(s) => CellValue::Text(s.clone()),
            CellValue::Number(n) => CellValue::Number(*n),
            CellValue::Boolean(b) => CellValue::Boolean(*b),
            CellValue::Date(s) => CellValue::Date(s.clone()),
        }
    }

    /// Whether the value is the empty variant.
    pub fn is_empty(&self) -> (r: bool)
        ensures
            r == (self@ is Empty),
    {
        matches!(self, CellValue::Empty)
    }
}

impl Default for CellValue {
    fn default() -> (r: Self)
        ensures
            r@ is Empty,
    {
        CellValue::Empty
    }
}

// ---------------------------------------------------------------------------
// Ordering
// ---------------------------------------------------------------------------

/// Variant rank for mixed-type comparison: numbers before booleans before
/// text before dates; the empty value ranks last.
pub open spec fn value_rank(v: ValueView) -> int {
    match v {
        ValueView::Number(_) => 0,
        ValueView::Boolean(_) => 1,
        ValueView::Text(_) => 2,
        ValueView::Date(_) => 3,
        ValueView::Empty => 4,
    }
}

/// Ascending three-way comparison: rank first, then the natural order of
/// the shared variant.
pub open spec fn value_cmp_asc(a: ValueView, b: ValueView) -> Ord3 {
    if value_rank(a) < value_rank(b) {
        Ord3::Lt
    } else if value_rank(a) > value_rank(b) {
        Ord3::Gt
    } else {
        match (a, b) {
            (ValueView::Number(x), ValueView::Number(y)) => {
                if x < y { Ord3::Lt } else if x > y { Ord3::Gt } else { Ord3::Eq }
            },
            (ValueView::Boolean(x), ValueView::Boolean(y)) => {
                if !x && y { Ord3::Lt } else if x && !y { Ord3::Gt } else { Ord3::Eq }
            },
            (ValueView::Text(x), ValueView::Text(y)) => lex_cmp(x, y),
            (ValueView::Date(x), ValueView::Date(y)) => lex_cmp(x, y),
            _ => Ord3::Eq,
        }
    }
}

/// Directed comparison for sorting: descending reverses the order of
/// non-empty values, while the empty value sorts last either way.
pub open spec fn value_cmp(a: ValueView, b: ValueView, ascending: bool) -> Ord3 {
    if a is Empty || b is Empty {
        value_cmp_asc(a, b)
    } else if ascending {
        value_cmp_asc(a, b)
    } else {
        ord3_flip(value_cmp_asc(a, b))
    }
}

fn rank_exec(v: &CellValue) -> (r: u8)
    ensures
        r as int == value_rank(v@),
{
    match v {
        CellValue::Number(_) => 0,
        CellValue::Boolean(_) => 1,
        CellValue::Text(_) => 2,
        CellValue::Date(_) => 3,
        CellValue::Empty => 4,
    }
}

fn cmp_values_asc(a: &CellValue, b: &CellValue) -> (r: Ord3)
    ensures
        r == value_cmp_asc(a@, b@),
{
    let ra = rank_exec(a);
    let rb = rank_exec(b);
    if ra < rb {
        Ord3::Lt
    } else if ra > rb {
        Ord3::Gt
    } else {
        match (a, b) {
            (CellValue::Number(x), CellValue::Number(y)) => {
                if *x < *y { Ord3::Lt } else if *x > *y { Ord3::Gt } else { Ord3::Eq }
            },
            (CellValue::Boolean(x), CellValue::Boolean(y)) => {
                if !*x && *y { Ord3::Lt } else if *x && !*y { Ord3::Gt } else { Ord3::Eq }
            },
            (CellValue::Text(x), CellValue::Text(y)) => {
                let xc = chars_of(x.as_str());
                let yc = chars_of(y.as_str());
                lex_cmp_chars(&xc, &yc)
            },
            (CellValue::Date(x), CellValue::Date(y)) => {
                let xc = chars_of(x.as_str());
                let yc = chars_of(y.as_str());
                lex_cmp_chars(&xc, &yc)
            },
            _ => Ord3::Eq,
        }
    }
}

/// Compares two values under the sort order; mirrors [`value_cmp`] exactly.
pub fn cmp_values(a: &CellValue, b: &CellValue, ascending: bool) -> (r: Ord3)
    ensures
        r == value_cmp(a@, b@, ascending),
{
    let empty_involved = a.is_empty() || b.is_empty();
    let c = cmp_values_asc(a, b);
    if empty_involved || ascending {
        c
    } else {
        match c {
            Ord3::Lt => Ord3::Gt,
            Ord3::Eq => Ord3::Eq,
            Ord3::Gt => Ord3::Lt,
        }
    }
}

proof fn lemma_value_cmp_asc_flip(a: ValueView, b: ValueView)
    ensures
        value_cmp_asc(b, a) == ord3_flip(value_cmp_asc(a, b)),
{
    match (a, b) {
        (ValueView::Text(x), ValueView::Text(y)) => lemma_lex_cmp_flip(x, y),
        (ValueView::Date(x), ValueView::Date(y)) => lemma_lex_cmp_flip(x, y),
        _ => (),
    }
}

/// Swapping the arguments flips the comparison.
pub proof fn lemma_value_cmp_flip(a: ValueView, b: ValueView, ascending: bool)
    ensures
        value_cmp(b, a, ascending) == ord3_flip(value_cmp(a, b, ascending)),
{
    match (a, b) {
        (ValueView::Text(x), ValueView::Text(y)) => lemma_lex_cmp_flip(x, y),
        (ValueView::Date(x), ValueView::Date(y)) => lemma_lex_cmp_flip(x, y),
        _ => (),
    }
}

proof fn lemma_value_cmp_asc_trans_lt(a: ValueView, b: ValueView, c: ValueView)
    requires
        value_cmp_asc(a, b) == Ord3::Lt,
        value_cmp_asc(b, c) == Ord3::Lt,
    ensures
        value_cmp_asc(a, c) == Ord3::Lt,
{
    match (a, b, c) {
        (ValueView::Text(x), ValueView::Text(y), ValueView::Text(z)) =>
            lemma_lex_cmp_trans(x, y, z),
        (ValueView::Date(x), ValueView::Date(y), ValueView::Date(z)) =>
            lemma_lex_cmp_trans(x, y, z),
        _ => (),
    }
}

proof fn lemma_value_cmp_asc_eq_congruent(a: ValueView, b: ValueView, c: ValueView)
    requires
        value_cmp_asc(a, b) == Ord3::Eq,
    ensures
        value_cmp_asc(a, c) == value_cmp_asc(b, c),
        value_cmp_asc(c, a) == value_cmp_asc(c, b),
{
    match (a, b, c) {
        (ValueView::Text(x), ValueView::Text(y), ValueView::Text(z)) =>
            lemma_lex_cmp_eq_congruent(x, y, z),
        (ValueView::Date(x), ValueView::Date(y), ValueView::Date(z)) =>
            lemma_lex_cmp_eq_congruent(x, y, z),
        _ => (),
    }
}

/// Strict comparison is transitive.
pub proof fn lemma_value_cmp_trans_lt(a: ValueView, b: ValueView, c: ValueView, ascending: bool)
    requires
        value_cmp(a, b, ascending) == Ord3::Lt,
        value_cmp(b, c, ascending) == Ord3::Lt,
    ensures
        value_cmp(a, c, ascending) == Ord3::Lt,
{
    if a is Empty || b is Empty || c is Empty {
        // A strict comparison never places the empty value first, so these
        // cases resolve by variant rank alone.
    } else if ascending {
        lemma_value_cmp_asc_trans_lt(a, b, c);
    } else {
        lemma_value_cmp_asc_flip(a, b);
        lemma_value_cmp_asc_flip(b, c);
        lemma_value_cmp_asc_trans_lt(c, b, a);
        lemma_value_cmp_asc_flip(c, a);
    }
}

/// Values that compare equal are interchangeable on either side of a
/// comparison.
pub proof fn lemma_value_cmp_eq_congruent(
    a: ValueView,
    b: ValueView,
    c: ValueView,
    ascending: bool,
)
    requires
        value_cmp(a, b, ascending) == Ord3::Eq,
    ensures
        value_cmp(a, c, ascending) == value_cmp(b, c, ascending),
        value_cmp(c, a, ascending) == value_cmp(c, b, ascending),
{
    lemma_value_cmp_asc_eq_congruent(a, b, c);
}

// ---------------------------------------------------------------------------
// Cells
// ---------------------------------------------------------------------------

/// One edge of a per-cell border: a packed RGBA color and a pixel width.
#[derive(Clone, Copy, Debug, PartialEq, Eq, Structural)]
pub struct CellBorder {
    pub color: u32,
    pub width: u32,
}

/// Mathematical model of a cell.
pub struct CellView {
    pub value: ValueView,
    pub editable: bool,
    pub modified: bool,
    pub bg_color: Option<u32>,
    pub fg_color: Option<u32>,
    pub font_bold: bool,
    pub font_italic: bool,
    pub border_top: Option<CellBorder>,
    pub border_right: Option<CellBorder>,
    pub border_bottom: Option<CellBorder>,
    pub border_left: Option<CellBorder>,
}

/// A single grid cell: a value plus styling.
#[derive(Clone, Debug)]
pub struct Cell {
    pub value: CellValue,
    pub editable: bool,
    pub modified: bool,
    pub bg_color: Option<u32>,
    pub fg_color: Option<u32>,
    pub font_bold: bool,
    pub font_italic: bool,
    pub border_top: Option<CellBorder>,
    pub border_right: Option<CellBorder>,
    pub border_bottom: Option<CellBorder>,
    pub border_left: Option<CellBorder>,
}

impl View for Cell {
    type V = CellView;

    open spec fn view(&self) -> CellView {
        CellView {
            value: self.value@,
            editable: self.editable,
            modified: self.modified,
            bg_color: self.bg_color,
            fg_color: self.fg_color,
            font_bold: self.font_bold,
            font_italic: self.font_italic,
            border_top: self.border_top,
            border_right: self.border_right,
            border_bottom: self.border_bottom,
            border_left: self.border_left,
        }
    }
}

/// The model of a cell never written or styled: empty, editable, unstyled.
pub open spec fn default_cell_view() -> CellView {
    CellView {
        value: ValueView::Empty,
        editable: true,
        modified: false,
        bg_color: None,
        fg_color: None,
        font_bold: false,
        font_italic: false,
        border_top: None,
        border_right: None,
        border_bottom: None,
        border_left: None,
    }
}

impl Cell {
    /// A fresh, editable, unstyled cell holding `value`.
    pub fn new(value: CellValue) -> (r: Self)
        ensures
            r@ == (CellView { value: value@, ..default_cell_view() }),
    {
        Cell {
            value,
            editable: true,
            modified: false,
            bg_color: None,
            fg_color: None,
            font_bold: false,
            font_italic: false,
            border_top: None,
            border_right: None,
            border_bottom: None,
            border_left: None,
        }
    }

    /// A fresh cell holding the given text.
    pub fn with_text(text: String) -> (r: Self)
        ensures
            r@ == (CellView { value: ValueView::Text(text@), ..default_cell_view() }),
    {
        Cell::new(CellValue::Text(text))
    }

    /// A fresh cell holding the given number.
    pub fn with_number(num: i64) -> (r: Self)
        ensures
            r@ == (CellView { value: ValueView::Number(num as int), ..default_cell_view() }),
    {
        Cell::new(CellValue::Number(num))
    }

    /// A copy of the cell with an identical model, unlike the derived
    /// `Clone`, whose result Verus knows nothing about.
    pub fn duplicate(&self) -> (r: Cell)
        ensures
            r@ == self@,
    {
        Cell {
            value: self.value.duplicate(),
            editable: self.editable,
            modified: self.modified,
            bg_color: self.bg_color,
            fg_color: self.fg_color,
            font_bold: self.font_bold,
            font_italic: self.font_italic,
            border_top: self.border_top,
            border_right: self.border_right,
            border_bottom: self.border_bottom,
            border_left: self.border_left,
        }
    }

    /// A fresh empty cell.
    pub fn empty() -> (r: Self)
        ensures
            r@ == default_cell_view(),
    {
        Cell::new(CellValue::Empty)
    }
}

impl Default for Cell {
    fn default() -> (r: Self)
        ensures
            r@ == default_cell_view(),
    {
        Cell::empty()
    }
}

/// The style bundle recorded by style edits, for undo.
#[derive(Clone, Debug)]
pub struct CellStyle {
    pub bg_color: Option<u32>,
    pub fg_color: Option<u32>,
    pub font_bold: bool,
    pub font_italic: bool,
}

// ---------------------------------------------------------------------------
// Column configuration
// ---------------------------------------------------------------------------

/// Mathematical model of a column configuration.
pub struct ColumnConfigView {
    pub display_name: Seq<char>,
    pub internal_name: Seq<char>,
    pub width: int,
    pub data_type: DataType,
    pub editable: bool,
    pub visible: bool,
    pub sortable: bool,
    pub filterable: bool,
}

/// Per-column settings: names, pixel width, declared type, and behaviour
/// flags.
#[derive(Clone, Debug)]
pub struct ColumnConfig {
    pub display_name: String,
    pub internal_name: String,
    pub width: u32,
    pub data_type: DataType,
    pub editable: bool,
    pub visible: bool,
    pub sortable: bool,
    pub filterable: bool,
}

impl View for ColumnConfig {
    type V = ColumnConfigView;

    open spec fn view(&self) -> ColumnConfigView {
        ColumnConfigView {
            display_name: self.display_name@,
            internal_name: self.internal_name@,
            width: self.width as int,
            data_type: self.data_type,
            editable: self.editable,
            visible: self.visible,
            sortable: self.sortable,
            filterable: self.filterable,
        }
    }
}

/// Column width given to configurations that do not set one, in pixels.
pub const DEFAULT_COL_WIDTH: u32 = 100;

impl ColumnConfig {
    /// A configuration with the default width, text type, and all
    /// behaviour flags enabled.
    pub fn new(display_name: String, internal_name: String) -> (r: Self)
        ensures
            r@.display_name == display_name@,
            r@.internal_name == internal_name@,
            r@.width == DEFAULT_COL_WIDTH as int,
            r@.data_type == DataType::Text,
            r@.editable && r@.visible && r@.sortable && r@.filterable,
    {
        ColumnConfig {
            display_name,
            internal_name,
            width: DEFAULT_COL_WIDTH,
            data_type: DataType::Text,
            editable: true,
            visible: true,
            sortable: true,
            filterable: true,
        }
    }

    /// A copy of the configuration with an identical model, unlike the
    /// derived `Clone`, whose result Verus knows nothing about.
    pub fn clone_config(&self) -> (r: ColumnConfig)
        ensures
            r@ == self@,
    {
        ColumnConfig {
            display_name: self.display_name.clone(),
            internal_name: self.internal_name.clone(),
            width: self.width,
            data_type: self.data_type,
            editable: self.editable,
            visible: self.visible,
            sortable: self.sortable,
            filterable: self.filterable,
        }
    }

    /// Returns the configuration with its width replaced.
    pub fn with_width(self, width: u32) -> (r: Self)
        ensures
            r@ == (ColumnConfigView { width: width as int, ..self@ }),
    {
        ColumnConfig { width, ..self }
    }

    /// Returns the configuration with its data type replaced.
    pub fn with_data_type(self, data_type: DataType) -> (r: Self)
        ensures
            r@ == (ColumnConfigView { data_type, ..self@ }),
    {
        ColumnConfig { data_type, ..self }
    }

    /// Returns the configuration with its editable flag replaced.
    pub fn with_editable(self, editable: bool) -> (r: Self)
        ensures
            r@ == (ColumnConfigView { editable, ..self@ }),
    {
        ColumnConfig { editable, ..self }
    }
}

} // verus!
