//! Typed cell values, their normalization for comparison, and their display
//! form.

use vstd::prelude::*;

use crate::text::collapse_from;
use crate::text::collapse_string;
use crate::text::i64_to_string;
use crate::text::int_str;
use crate::text::lemma_collapse_idempotent;

verus! {

/// One cell of a worksheet. Numeric and date-time payloads are carried as
/// their decimal text: the reader that fills a worksheet renders a number
/// once (rounded to ten decimal digits, absorbing representation noise) and
/// the engine compares and displays that text.
#[derive(Debug)]
pub enum CellValue {
    /// UTF-8 text.
    Text(String),
    /// A numeric value, as its decimal text.
    Number(String),
    /// A 64-bit signed integer.
    Int(i64),
    /// A boolean.
    Bool(bool),
    /// A date-time, as the decimal text of its day count.
    DateTime(String),
    /// An explicitly empty cell.
    Empty,
}

/// The mathematical shape of a cell value: text payloads as character
/// sequences, integers unbounded.
#[verifier::ext_equal]
pub enum CellVal {
    Text(Seq<char>),
    Number(Seq<char>),
    Int(int),
    Bool(bool),
    DateTime(Seq<char>),
    Empty,
}

impl View for CellValue {
    type V = CellVal;

    open spec fn view(&self) -> CellVal {
        match self {
            CellValue::Text(s) => CellVal::Text(s@),
            CellValue::Number(t) => CellVal::Number(t@),
            CellValue::Int(i) => CellVal::Int(*i as int),
            CellValue::Bool(b) => CellVal::Bool(*b),
            CellValue::DateTime(t) => CellVal::DateTime(t@),
            CellValue::Empty => CellVal::Empty,
        }
    }
}

impl DeepView for CellValue {
    type V = CellVal;

    open spec fn deep_view(&self) -> CellVal {
        self.view()
    }
}

impl Clone for CellValue {
    fn clone(&self) -> (res: Self)
        ensures
            res == *self,
    {
        match self {
            CellValue::Text(s) => CellValue::Text(s.clone()),
            CellValue::Number(t) => CellValue::Number(t.clone()),
            CellValue::Int(i) => CellValue::Int(*i),
            CellValue::Bool(b) => CellValue::Bool(*b),
            CellValue::DateTime(t) => CellValue::DateTime(t.clone()),
            CellValue::Empty => CellValue::Empty,
        }
    }
}

impl PartialEq for CellValue {
    fn eq(&self, other: &Self) -> (r: bool) {
        match (self, other) {
            (CellValue::Text(a), CellValue::Text(b)) => *a == *b,
            (CellValue::Number(a), CellValue::Number(b)) => *a == *b,
            (CellValue::Int(a), CellValue::Int(b)) => *a == *b,
            (CellValue::Bool(a), CellValue::Bool(b)) => *a == *b,
            (CellValue::DateTime(a), CellValue::DateTime(b)) => *a == *b,
            (CellValue::Empty, CellValue::Empty) => true,
            _ => false,
        }
    }
}

impl vstd::std_specs::cmp::PartialEqSpecImpl for CellValue {
    open spec fn obeys_eq_spec() -> bool {
        true
    }

    open spec fn eq_spec(&self, other: &Self) -> bool {
        self@ == other@
    }
}

/// A row is an ordered sequence of cell values; the position is the column.
pub type Row = Vec<CellValue>;

/// A worksheet is an ordered sequence of rows.
pub type Worksheet = Vec<Row>;

/// The comparison form of a cell: text has its whitespace runs collapsed when
/// `ignore_whitespace` is set; every other variant passes through unchanged.
pub open spec fn norm_cell(c: CellVal, ignore_whitespace: bool) -> CellVal {
    match c {
        CellVal::Text(s) => if ignore_whitespace {
            CellVal::Text(collapse_from(s))
        } else {
            c
        },
        _ => c,
    }
}

/// The display text of a cell: text and numeric payloads as they stand,
/// integers and booleans in their decimal and `true`/`false` forms, nothing
/// for an empty cell.
pub open spec fn cell_text(c: CellVal) -> Seq<char> {
    match c {
        CellVal::Text(s) => s,
        CellVal::Number(t) => t,
        CellVal::Int(i) => int_str(i),
        CellVal::Bool(b) => if b {
            "true"@
        } else {
            "false"@
        },
        CellVal::DateTime(t) => t,
        CellVal::Empty => Seq::empty(),
    }
}

impl CellValue {
    /// Normalize the value for comparison, keeping whitespace as it stands.
    pub fn normalize(&self) -> (r: CellValue)
        ensures
            r@ == norm_cell(self@, false),
    {
        self.normalize_with_options(false)
    }

    /// Normalize the value for comparison. With `ignore_whitespace` set,
    /// whitespace runs inside text are collapsed to single spaces and the
    /// ends are trimmed; all other variants pass through unchanged.
    pub fn normalize_with_options(&self, ignore_whitespace: bool) -> (r: CellValue)
        ensures
            r@ == norm_cell(self@, ignore_whitespace),
    {
        match self {
            CellValue::Text(s) => {
                if ignore_whitespace {
                    CellValue::Text(collapse_string(s.as_str()))
                } else {
                    self.clone()
                }
            },
            _ => self.clone(),
        }
    }

    /// The display text of the value, used for row keys and for reporting.
    pub fn to_string(&self) -> (r: String)
        ensures
            r@ == cell_text(self@),
    {
        match self {
            CellValue::Text(s) => s.clone(),
            CellValue::Number(t) => t.clone(),
            CellValue::Int(i) => i64_to_string(*i),
            CellValue::Bool(b) => if *b {
                "true".to_owned()
            } else {
                "false".to_owned()
            },
            CellValue::DateTime(t) => t.clone(),
            CellValue::Empty => String::new(),
        }
    }
}

/// Normalizing a cell value twice gives exactly the value normalized once,
/// for every cell value and either whitespace setting.
pub proof fn lemma_normalize_idempotent(c: CellVal, ignore_whitespace: bool)
    ensures
        norm_cell(norm_cell(c, ignore_whitespace), ignore_whitespace) == norm_cell(
            c,
            ignore_whitespace,
        ),
{
    match c {
        CellVal::Text(s) => {
            if ignore_whitespace {
                lemma_collapse_idempotent(s);
            }
        },
        _ => {},
    }
}

} // verus!
