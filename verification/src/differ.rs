//! The row-diff engine: normalization of column counts, exact matching by
//! row key, the fuzzy best-match heuristic, and the ordered diff records.

use vstd::prelude::*;

use crate::cell::cell_text;
use crate::cell::norm_cell;
use crate::cell::CellVal;
use crate::cell::CellValue;
use crate::cell::Row;
use crate::cell::Worksheet;

verus! {

/// The classification of one row of the comparison result.
#[derive(Debug, Clone, Copy, PartialEq, Eq, Hash)]
pub enum DiffType {
    Identical,
    Modified,
    Removed,
    Added,
}

/// The display text of each classification.
pub open spec fn diff_type_text(t: DiffType) -> Seq<char> {
    match t {
        DiffType::Identical => "identical"@,
        DiffType::Modified => "modified"@,
        DiffType::Removed => "removed"@,
        DiffType::Added => "added"@,
    }
}

impl DiffType {
    /// The lower-case name of the classification.
    pub fn as_str(&self) -> (r: &'static str)
        ensures
            r@ == diff_type_text(*self),
    {
        match self {
            DiffType::Identical => "identical",
            DiffType::Modified => "modified",
            DiffType::Removed => "removed",
            DiffType::Added => "added",
        }
    }
}

/// The diff information for a single result row.
#[derive(Debug)]
pub struct RowDiff {
    /// Position of the record in the result.
    pub row_index: usize,
    /// Classification of the row.
    pub diff_type: DiffType,
    /// The row values to display (the new values).
    pub row_data: Row,
    /// Column indices that changed (only for a modified row).
    pub modified_cells: Vec<usize>,
    /// The pre-change row values (only for a modified row).
    pub original_row_data: Option<Row>,
}

/// The mathematical shape of one diff record.
#[verifier::ext_equal]
pub struct RowDiffV {
    pub row_index: int,
    pub diff_type: DiffType,
    pub row_data: Seq<CellVal>,
    pub modified_cells: Seq<int>,
    pub original_row_data: Option<Seq<CellVal>>,
}

impl View for RowDiff {
    type V = RowDiffV;

    open spec fn view(&self) -> RowDiffV {
        RowDiffV {
            row_index: self.row_index as int,
            diff_type: self.diff_type,
            row_data: self.row_data.deep_view(),
            modified_cells: self.modified_cells@.map_values(|u: usize| u as int),
            original_row_data: match self.original_row_data {
                Option::Some(r) => Option::Some(r.deep_view()),
                Option::None => Option::None,
            },
        }
    }
}

impl DeepView for RowDiff {
    type V = RowDiffV;

    open spec fn deep_view(&self) -> RowDiffV {
        self.view()
    }
}

impl RowDiff {
    /// Assemble a record from its parts.
    pub fn new(
        row_index: usize,
        diff_type: DiffType,
        row_data: Row,
        modified_cells: Vec<usize>,
        original_row_data: Option<Row>,
    ) -> (r: RowDiff)
        ensures
            r.row_index == row_index,
            r.diff_type == diff_type,
            r.row_data == row_data,
            r.modified_cells == modified_cells,
            r.original_row_data == original_row_data,
    {
        RowDiff { row_index, diff_type, row_data, modified_cells, original_row_data }
    }
}

/// The greatest row length in a sheet.
pub open spec fn row_len_max(s: Seq<Seq<CellVal>>) -> nat
    decreases s.len(),
{
    if s.len() == 0 {
        0
    } else {
        let m = row_len_max(s.drop_last());
        if s.last().len() > m {
            s.last().len()
        } else {
            m
        }
    }
}

/// A row brought to exactly `width` columns: truncated when longer,
/// right-padded with empty cells when shorter.
pub open spec fn pad_row(r: Seq<CellVal>, width: nat) -> Seq<CellVal> {
    if r.len() >= width {
        r.take(width as int)
    } else {
        r + Seq::new((width - r.len()) as nat, |k: int| CellVal::Empty)
    }
}

/// A sheet with every row brought to `width` columns.
pub open spec fn norm_sheet(s: Seq<Seq<CellVal>>, width: nat) -> Seq<Seq<CellVal>> {
    s.map_values(|r: Seq<CellVal>| pad_row(r, width))
}

/// The lookup key of a row: each cell's normalized display text followed by
/// one NUL separator.
pub open spec fn row_key(r: Seq<CellVal>, ignore_whitespace: bool) -> Seq<char>
    decreases r.len(),
{
    if r.len() == 0 {
        Seq::empty()
    } else {
        row_key(r.drop_last(), ignore_whitespace) + cell_text(
            norm_cell(r.last(), ignore_whitespace),
        ) + seq!['\0']
    }
}

/// The keys of every row of a sheet.
pub open spec fn sheet_keys(s: Seq<Seq<CellVal>>, ignore_whitespace: bool) -> Seq<Seq<char>> {
    s.map_values(|r: Seq<CellVal>| row_key(r, ignore_whitespace))
}

/// The position of the last key equal to `key`, if any: the index the key
/// lookup of the engine resolves to.
pub open spec fn last_key_idx(keys: Seq<Seq<char>>, key: Seq<char>) -> Option<int>
    decreases keys.len(),
{
    if keys.len() == 0 {
        Option::None
    } else if keys.last() == key {
        Option::Some(keys.len() - 1)
    } else {
        last_key_idx(keys.drop_last(), key)
    }
}

/// How many of the first `k` columns hold equal values after normalization.
pub open spec fn match_count_upto(a: Seq<CellVal>, b: Seq<CellVal>, iw: bool, k: int) -> nat
    decreases k,
{
    if k <= 0 {
        0
    } else {
        match_count_upto(a, b, iw, k - 1) + (if norm_cell(a[k - 1], iw) == norm_cell(
            b[k - 1],
            iw,
        ) {
            1nat
        } else {
            0nat
        })
    }
}

/// How many aligned columns of the two rows hold equal values after
/// normalization.
pub open spec fn match_count(a: Seq<CellVal>, b: Seq<CellVal>, iw: bool) -> nat {
    match_count_upto(a, b, iw, vstd::math::min(a.len() as int, b.len() as int))
}

/// The aligned columns, among the first `k`, whose values differ after
/// normalization, in ascending order.
pub open spec fn diff_cols_upto(a: Seq<CellVal>, b: Seq<CellVal>, iw: bool, k: int) -> Seq<int>
    decreases k,
{
    if k <= 0 {
        Seq::empty()
    } else {
        let prev = diff_cols_upto(a, b, iw, k - 1);
        if norm_cell(a[k - 1], iw) == norm_cell(b[k - 1], iw) {
            prev
        } else {
            prev.push(k - 1)
        }
    }
}

/// The aligned columns whose values differ after normalization.
pub open spec fn diff_cols(a: Seq<CellVal>, b: Seq<CellVal>, iw: bool) -> Seq<int> {
    diff_cols_upto(a, b, iw, vstd::math::min(a.len() as int, b.len() as int))
}

/// Whether row `b` qualifies as a modified form of row `a`: at least half of
/// the columns of `a` match, and `a` is not empty.
pub open spec fn qualifies(a: Seq<CellVal>, b: Seq<CellVal>, iw: bool) -> bool {
    a.len() > 0 && 2 * match_count(a, b, iw) >= a.len()
}

/// One scan step of the fuzzy search: the best candidate so far is replaced
/// only by an unconsumed qualifying row with strictly more matching columns.
pub open spec fn best_step(
    t: Seq<CellVal>,
    b: Seq<Seq<CellVal>>,
    used: Seq<bool>,
    iw: bool,
    j: int,
    cur: Option<(int, nat)>,
) -> Option<(int, nat)>
    decreases b.len() - j,
{
    if j < 0 || j >= b.len() {
        cur
    } else {
        let m = match_count(t, b[j], iw);
        let better = match cur {
            Option::None => true,
            Option::Some(jm) => m > jm.1,
        };
        let next = if !used[j] && qualifies(t, b[j], iw) && better {
            Option::Some((j, m))
        } else {
            cur
        };
        best_step(t, b, used, iw, j + 1, next)
    }
}

/// The fuzzy best match of `t` among the unconsumed rows of `b`: the first
/// row reaching the highest matching-column count at or above the half
/// threshold, with that count.
pub open spec fn best_match(t: Seq<CellVal>, b: Seq<Seq<CellVal>>, used: Seq<bool>, iw: bool) -> Option<
    (int, nat),
> {
    best_step(t, b, used, iw, 0, Option::None)
}

/// An identical record: row `i` of the first sheet, shown as it stands.
pub open spec fn ident_rec(i: int, row: Seq<CellVal>) -> RowDiffV {
    RowDiffV {
        row_index: i,
        diff_type: DiffType::Identical,
        row_data: row,
        modified_cells: Seq::empty(),
        original_row_data: Option::None,
    }
}

/// A modified record: row `i` of the first sheet paired with its match,
/// showing the new values, the differing columns, and the old values.
pub open spec fn modified_rec(
    i: int,
    original: Seq<CellVal>,
    current: Seq<CellVal>,
    iw: bool,
) -> RowDiffV {
    RowDiffV {
        row_index: i,
        diff_type: DiffType::Modified,
        row_data: current,
        modified_cells: diff_cols(original, current, iw),
        original_row_data: Option::Some(original),
    }
}

/// A removed record: row `i` of the first sheet with no counterpart.
pub open spec fn removed_rec(i: int, row: Seq<CellVal>) -> RowDiffV {
    RowDiffV {
        row_index: i,
        diff_type: DiffType::Removed,
        row_data: row,
        modified_cells: Seq::empty(),
        original_row_data: Option::None,
    }
}

/// An added record: an unmatched row of the second sheet, indexed by the
/// running length of the result.
pub open spec fn added_rec(i: int, row: Seq<CellVal>) -> RowDiffV {
    RowDiffV {
        row_index: i,
        diff_type: DiffType::Added,
        row_data: row,
        modified_cells: Seq::empty(),
        original_row_data: Option::None,
    }
}

/// The fuzzy leg of the first pass for row `i`: a modified record when some
/// candidate qualifies, else a removed record.
pub open spec fn pass1_fuzzy(
    a: Seq<Seq<CellVal>>,
    b: Seq<Seq<CellVal>>,
    iw: bool,
    i: int,
    used: Seq<bool>,
    acc: Seq<RowDiffV>,
) -> (Seq<RowDiffV>, Seq<bool>)
    decreases a.len() - i, 0int,
{
    if i < 0 || i >= a.len() {
        (acc, used)
    } else {
        match best_match(a[i], b, used, iw) {
            Option::Some(jm) => pass1(
                a,
                b,
                iw,
                i + 1,
                used.update(jm.0, true),
                acc.push(modified_rec(i, a[i], b[jm.0], iw)),
            ),
            Option::None => pass1(a, b, iw, i + 1, used, acc.push(removed_rec(i, a[i]))),
        }
    }
}

/// The first pass of the engine from row `i` on: exact match by key when the
/// resolved row is still unconsumed, else the fuzzy leg.
pub open spec fn pass1(
    a: Seq<Seq<CellVal>>,
    b: Seq<Seq<CellVal>>,
    iw: bool,
    i: int,
    used: Seq<bool>,
    acc: Seq<RowDiffV>,
) -> (Seq<RowDiffV>, Seq<bool>)
    decreases a.len() - i, 1int,
{
    if i < 0 || i >= a.len() {
        (acc, used)
    } else {
        match last_key_idx(sheet_keys(b, iw), row_key(a[i], iw)) {
            Option::Some(j) => if !used[j] {
                pass1(a, b, iw, i + 1, used.update(j, true), acc.push(ident_rec(i, a[i])))
            } else {
                pass1_fuzzy(a, b, iw, i, used, acc)
            },
            Option::None => pass1_fuzzy(a, b, iw, i, used, acc),
        }
    }
}

/// The second pass: every row of the second sheet not consumed by the first
/// pass becomes an added record, indexed by the running result length.
pub open spec fn pass2(
    b: Seq<Seq<CellVal>>,
    used: Seq<bool>,
    j: int,
    acc: Seq<RowDiffV>,
) -> Seq<RowDiffV>
    decreases b.len() - j,
{
    if j < 0 || j >= b.len() {
        acc
    } else if used[j] {
        pass2(b, used, j + 1, acc)
    } else {
        pass2(b, used, j + 1, acc.push(added_rec(acc.len() as int, b[j])))
    }
}

/// The width every row is brought to: the greatest row length of the two
/// sheets.
pub open spec fn spec_width(a0: Seq<Seq<CellVal>>, b0: Seq<Seq<CellVal>>) -> nat {
    if row_len_max(a0) >= row_len_max(b0) {
        row_len_max(a0)
    } else {
        row_len_max(b0)
    }
}

/// The whole comparison: both sheets brought to one width, the first pass
/// over the first sheet, then the unconsumed rows of the second sheet.
pub open spec fn spec_compare(
    a0: Seq<Seq<CellVal>>,
    b0: Seq<Seq<CellVal>>,
    iw: bool,
) -> Seq<RowDiffV> {
    let width = spec_width(a0, b0);
    let a = norm_sheet(a0, width);
    let b = norm_sheet(b0, width);
    let p = pass1(a, b, iw, 0, Seq::new(b.len(), |k: int| false), Seq::empty());
    pass2(b, p.1, 0, p.0)
}

/// Engine comparing two worksheets row by row.
pub struct WorksheetDiffer {
    ignore_whitespace: bool,
}

impl WorksheetDiffer {
    /// Whether string cells are compared with whitespace runs collapsed.
    pub closed spec fn spec_ignore_whitespace(&self) -> bool {
        self.ignore_whitespace
    }

    /// An engine that compares strings byte for byte.
    pub fn new() -> (r: Self)
        ensures
            !r.spec_ignore_whitespace(),
    {
        WorksheetDiffer { ignore_whitespace: false }
    }

    /// An engine with the whitespace handling chosen by the caller.
    pub fn with_options(ignore_whitespace: bool) -> (r: Self)
        ensures
            r.spec_ignore_whitespace() == ignore_whitespace,
    {
        WorksheetDiffer { ignore_whitespace }
    }

    /// Bring a row to exactly `target_length` columns.
    #[verifier::loop_isolation(false)]
    fn normalize_row(&self, row: &Row, target_length: usize) -> (r: Row)
        ensures
            r.deep_view() == pad_row(row.deep_view(), target_length as nat),
    {
        let mut out: Vec<CellValue> = Vec::new();
        let mut k: usize = 0;
        while k < target_length
            invariant
                k <= target_length,
                out@.len() == k,
                forall|m: int|
                    0 <= m < k ==> out.deep_view()[m] == pad_row(
                        row.deep_view(),
                        target_length as nat,
                    )[m],
            decreases target_length - k,
        {
            let ghost rv = row.deep_view();
            let ghost w = target_length as nat;
            let ghost prev = out@;
            let ghost prevdv = out.deep_view();
            proof {
                assert(forall|m: int| 0 <= m < k ==> #[trigger] prevdv[m] == pad_row(rv, w)[m]);
            }
            if k < row.len() {
                let cell = &row[k];
                out.push(cell.clone());
                proof {
                    assert(rv[k as int] == row@[k as int].deep_view());
                    assert(out@[k as int].deep_view() == rv[k as int]);
                    assert(pad_row(rv, w)[k as int] == rv[k as int]);
                }
            } else {
                out.push(CellValue::Empty);
                proof {
                    assert(out@[k as int].deep_view() == CellVal::Empty);
                    assert(rv.len() == row@.len());
                    assert(pad_row(rv, w)[k as int] == CellVal::Empty);
                }
            }
            proof {
                assert forall|m: int| 0 <= m < k + 1 implies out.deep_view()[m] == pad_row(
                    rv,
                    w,
                )[m] by {
                    assert(out.deep_view()[m] == out@[m].deep_view());
                    if m < k {
                        assert(prevdv[m] == pad_row(rv, w)[m]);
                        assert(prevdv[m] == prev[m].deep_view());
                        assert(out@[m] == prev[m]);
                    }
                }
            }
            k += 1;
        }
        proof {
            assert(pad_row(row.deep_view(), target_length as nat).len() == target_length);
            assert(out.deep_view() =~= pad_row(row.deep_view(), target_length as nat));
        }
        out
    }

    /// The lookup key of a row: each cell's normalized display text followed
    /// by one NUL separator.
    #[verifier::loop_isolation(false)]
    fn row_to_key(&self, row: &Row) -> (k: String)
        ensures
            k@ == row_key(row.deep_view(), self.spec_ignore_whitespace()),
    {
        let ghost iw = self.spec_ignore_whitespace();
        let mut key = String::new();
        let mut idx: usize = 0;
        proof {
            assert(row.deep_view().take(0) =~= Seq::<CellVal>::empty());
            assert(row_key(row.deep_view().take(0), iw) == Seq::<char>::empty());
        }
        while idx < row.len()
            invariant
                idx <= row@.len(),
                key@ == row_key(row.deep_view().take(idx as int), self.spec_ignore_whitespace()),
            decreases row@.len() - idx,
        {
            let cell = &row[idx];
            let normalized = cell.normalize_with_options(self.ignore_whitespace);
            let s = normalized.to_string();
            key.append(s.as_str());
            key.push('\0');
            proof {
                let rv = row.deep_view();
                assert(rv[idx as int] == row@[idx as int].deep_view());
                assert(s@ == cell_text(norm_cell(rv[idx as int], iw)));
                assert(rv.take(idx + 1).drop_last() =~= rv.take(idx as int));
                assert(rv.take(idx + 1).last() == rv[idx as int]);
                assert(row_key(rv.take(idx + 1), iw) == row_key(rv.take(idx as int), iw)
                    + cell_text(norm_cell(rv[idx as int], iw)) + seq!['\0']);
                assert(key@ =~= row_key(rv.take(idx as int), iw) + cell_text(
                    norm_cell(rv[idx as int], iw),
                ) + seq!['\0']);
            }
            idx += 1;
        }
        proof {
            assert(row.deep_view().take(row@.len() as int) =~= row.deep_view());
        }
        key
    }
}

/// What the key lookup resolves to: a position holding `key` with no later
/// position holding it, or nothing when no position holds it.
pub proof fn lemma_last_key_idx(keys: Seq<Seq<char>>, key: Seq<char>)
    ensures
        match last_key_idx(keys, key) {
            Option::Some(j) => 0 <= j < keys.len() && keys[j] == key && (forall|jj: int|
                j < jj < keys.len() ==> keys[jj] != key),
            Option::None => forall|jj: int| 0 <= jj < keys.len() ==> keys[jj] != key,
        },
    decreases keys.len(),
{
    if keys.len() == 0 {
    } else if keys.last() == key {
    } else {
        lemma_last_key_idx(keys.drop_last(), key);
        assert forall|jj: int| 0 <= jj < keys.len() - 1 implies keys.drop_last()[jj]
            == keys[jj] by {}
    }
}

/// A winner of the fuzzy scan is always a position inside the second sheet.
pub proof fn lemma_best_step_in_range(
    t: Seq<CellVal>,
    b: Seq<Seq<CellVal>>,
    used: Seq<bool>,
    iw: bool,
    j: int,
    cur: Option<(int, nat)>,
)
    requires
        match cur {
            Option::None => true,
            Option::Some(c) => 0 <= c.0 < b.len(),
        },
    ensures
        match best_step(t, b, used, iw, j, cur) {
            Option::None => true,
            Option::Some(c) => 0 <= c.0 < b.len(),
        },
    decreases b.len() - j,
{
    if j < 0 || j >= b.len() {
    } else {
        let m = match_count(t, b[j], iw);
        let better = match cur {
            Option::None => true,
            Option::Some(jm) => m > jm.1,
        };
        let next = if !used[j] && qualifies(t, b[j], iw) && better {
            Option::Some((j, m))
        } else {
            cur
        };
        lemma_best_step_in_range(t, b, used, iw, j + 1, next);
    }
}

/// The first pass never changes how many consumption marks there are, only
/// which of them are set.
pub proof fn lemma_pass1_used_len(
    a: Seq<Seq<CellVal>>,
    b: Seq<Seq<CellVal>>,
    iw: bool,
    i: int,
    used: Seq<bool>,
    acc: Seq<RowDiffV>,
)
    requires
        used.len() == b.len(),
    ensures
        pass1(a, b, iw, i, used, acc).1.len() == used.len(),
    decreases a.len() - i, 1int,
{
    if i < 0 || i >= a.len() {
    } else {
        lemma_last_key_idx(sheet_keys(b, iw), row_key(a[i], iw));
        match last_key_idx(sheet_keys(b, iw), row_key(a[i], iw)) {
            Option::Some(j) => {
                if !used[j] {
                    lemma_pass1_used_len(a, b, iw, i + 1, used.update(j, true), acc.push(
                        ident_rec(i, a[i])));
                } else {
                    lemma_pass1_fuzzy_used_len(a, b, iw, i, used, acc);
                }
            },
            Option::None => {
                lemma_pass1_fuzzy_used_len(a, b, iw, i, used, acc);
            },
        }
    }
}

/// The fuzzy leg never changes how many consumption marks there are either.
proof fn lemma_pass1_fuzzy_used_len(
    a: Seq<Seq<CellVal>>,
    b: Seq<Seq<CellVal>>,
    iw: bool,
    i: int,
    used: Seq<bool>,
    acc: Seq<RowDiffV>,
)
    requires
        0 <= i < a.len(),
        used.len() == b.len(),
    ensures
        pass1_fuzzy(a, b, iw, i, used, acc).1.len() == used.len(),
    decreases a.len() - i, 0int,
{
    lemma_best_step_in_range(a[i], b, used, iw, 0, Option::None);
    match best_match(a[i], b, used, iw) {
        Option::Some(jm) => {
            lemma_pass1_used_len(a, b, iw, i + 1, used.update(jm.0, true), acc.push(
                modified_rec(i, a[i], b[jm.0], iw)));
        },
        Option::None => {
            lemma_pass1_used_len(a, b, iw, i + 1, used, acc.push(removed_rec(i, a[i])));
        },
    }
}

/// Greatest row length across both sheets: the width every row is brought
/// to before comparison.
#[verifier::loop_isolation(false)]
fn sheet_width(sheet1: &Worksheet, sheet2: &Worksheet) -> (n: usize)
    ensures
        n as nat == spec_width(sheet1.deep_view(), sheet2.deep_view()),
{
    let ghost a0 = sheet1.deep_view();
    let ghost b0 = sheet2.deep_view();
    proof {
        assert(a0.take(0) =~= Seq::<Seq<CellVal>>::empty());
        assert(b0.take(0) =~= Seq::<Seq<CellVal>>::empty());
    }
    let mut max1: usize = 0;
    let mut i: usize = 0;
    while i < sheet1.len()
        invariant
            i <= sheet1@.len(),
            max1 as nat == row_len_max(a0.take(i as int)),
        decreases sheet1@.len() - i,
    {
        proof {
            assert(a0.take(i + 1).drop_last() =~= a0.take(i as int));
            assert(a0.take(i + 1).last() == a0[i as int]);
            assert(a0[i as int].len() == sheet1@[i as int]@.len());
        }
        let row = &sheet1[i];
        if row.len() > max1 {
            max1 = row.len();
        }
        i += 1;
    }
    let mut max2: usize = 0;
    let mut i2: usize = 0;
    while i2 < sheet2.len()
        invariant
            i2 <= sheet2@.len(),
            max2 as nat == row_len_max(b0.take(i2 as int)),
        decreases sheet2@.len() - i2,
    {
        proof {
            assert(b0.take(i2 + 1).drop_last() =~= b0.take(i2 as int));
            assert(b0.take(i2 + 1).last() == b0[i2 as int]);
            assert(b0[i2 as int].len() == sheet2@[i2 as int]@.len());
        }
        let row = &sheet2[i2];
        if row.len() > max2 {
            max2 = row.len();
        }
        i2 += 1;
    }
    proof {
        assert(a0.take(sheet1@.len() as int) =~= a0);
        assert(b0.take(sheet2@.len() as int) =~= b0);
    }
    if max1 >= max2 {
        max1
    } else {
        max2
    }
}

impl WorksheetDiffer {
    /// Bring every row of a sheet to exactly `width` columns.
    #[verifier::loop_isolation(false)]
    fn normalize_sheet(&self, sheet: &Worksheet, width: usize) -> (r: Vec<Row>)
        ensures
            r.deep_view() == norm_sheet(sheet.deep_view(), width as nat),
    {
        let ghost s0 = sheet.deep_view();
        let mut out: Vec<Row> = Vec::new();
        let mut k: usize = 0;
        while k < sheet.len()
            invariant
                k <= sheet@.len(),
                out@.len() == k,
                forall|m: int|
                    0 <= m < k ==> out.deep_view()[m] == pad_row(s0[m], width as nat),
            decreases sheet@.len() - k,
        {
            let row = &sheet[k];
            let nrow = self.normalize_row(row, width);
            proof {
                assert(row.deep_view() == s0[k as int]);
            }
            let ghost prevdv = out.deep_view();
            out.push(nrow);
            proof {
                assert forall|m: int| 0 <= m < k + 1 implies out.deep_view()[m] == pad_row(
                    s0[m],
                    width as nat,
                ) by {
                    assert(out.deep_view()[m] == out@[m].deep_view());
                    if m < k {
                        assert(prevdv[m] == pad_row(s0[m], width as nat));
                        assert(prevdv[m] == out@[m].deep_view());
                    }
                }
            }
            k += 1;
        }
        proof {
            assert(out.deep_view() =~= norm_sheet(s0, width as nat));
        }
        out
    }

    /// The lookup key of every row of a normalized sheet.
    #[verifier::loop_isolation(false)]
    fn build_keys(&self, rows: &Vec<Row>) -> (keys: Vec<String>)
        ensures
            keys.deep_view() == sheet_keys(rows.deep_view(), self.spec_ignore_whitespace()),
    {
        let ghost iw = self.spec_ignore_whitespace();
        let ghost rs = rows.deep_view();
        let mut keys: Vec<String> = Vec::new();
        let mut k: usize = 0;
        while k < rows.len()
            invariant
                k <= rows@.len(),
                keys@.len() == k,
                forall|m: int| 0 <= m < k ==> keys.deep_view()[m] == row_key(rs[m], iw),
            decreases rows@.len() - k,
        {
            let row = &rows[k];
            let key = self.row_to_key(row);
            proof {
                assert(row.deep_view() == rs[k as int]);
            }
            let ghost prevdv = keys.deep_view();
            keys.push(key);
            proof {
                assert forall|m: int| 0 <= m < k + 1 implies keys.deep_view()[m] == row_key(
                    rs[m],
                    iw,
                ) by {
                    assert(keys.deep_view()[m] == keys@[m].deep_view());
                    if m < k {
                        assert(prevdv[m] == row_key(rs[m], iw));
                        assert(prevdv[m] == keys@[m].deep_view());
                    }
                }
            }
            k += 1;
        }
        proof {
            assert(keys.deep_view() =~= sheet_keys(rs, iw));
        }
        keys
    }

    /// First pass over the first sheet: emit one identical, modified, or
    /// removed record per row, consuming matched rows of the second sheet.
    #[verifier::loop_isolation(false)]
    fn run_pass1(
        &self,
        a_rows: &Vec<Row>,
        b_rows: &Vec<Row>,
        keys: &Vec<String>,
        processed: &mut Vec<bool>,
        result: &mut Vec<RowDiff>,
    )
        requires
            old(processed)@.len() == b_rows@.len(),
            old(result)@.len() == 0,
            keys.deep_view() == sheet_keys(b_rows.deep_view(), self.spec_ignore_whitespace()),
        ensures
            (final(result).deep_view(), final(processed)@) == pass1(
                a_rows.deep_view(),
                b_rows.deep_view(),
                self.spec_ignore_whitespace(),
                0,
                old(processed)@,
                Seq::<RowDiffV>::empty(),
            ),
    {
        let ghost iw = self.spec_ignore_whitespace();
        let ghost an = a_rows.deep_view();
        let ghost bn = b_rows.deep_view();
        let ghost used0 = processed@;
        proof {
            assert(result.deep_view() =~= Seq::<RowDiffV>::empty());
        }
        let mut i1: usize = 0;
        while i1 < a_rows.len()
            invariant
                i1 <= a_rows@.len(),
                processed@.len() == bn.len(),
                pass1(an, bn, iw, i1 as int, processed@, result.deep_view()) == pass1(
                    an,
                    bn,
                    iw,
                    0,
                    used0,
                    Seq::<RowDiffV>::empty(),
                ),
            decreases a_rows@.len() - i1,
        {
            let row1 = &a_rows[i1];
            proof {
                assert(row1.deep_view() == an[i1 as int]);
            }
            let key1 = self.row_to_key(row1);
            let exact = find_exact(keys, &key1);
            let ghost used_pre = processed@;
            let ghost acc_pre = result.deep_view();
            let mut exact_ok = false;
            let mut idx2: usize = 0;
            match exact {
                Option::Some(j2) => {
                    if !processed[j2] {
                        exact_ok = true;
                        idx2 = j2;
                    }
                },
                Option::None => {},
            }
            if exact_ok {
                let data = clone_row(row1);
                let rd = RowDiff::new(i1, DiffType::Identical, data, Vec::new(), Option::None);
                proof {
                    assert(data.deep_view() =~= an[i1 as int]);
                    assert(rd@ =~= ident_rec(i1 as int, an[i1 as int]));
                }
                result.push(rd);
                processed[idx2] = true;
                proof {
                    assert(processed@ =~= used_pre.update(idx2 as int, true));
                    assert(result.deep_view() =~= acc_pre.push(ident_rec(i1 as int, an[
                        i1 as int])));
                    assert(pass1(an, bn, iw, i1 as int, used_pre, acc_pre) == pass1(
                        an,
                        bn,
                        iw,
                        i1 + 1,
                        processed@,
                        result.deep_view(),
                    ));
                }
            } else {
                match self.find_modified_row(row1, b_rows, processed) {
                    Option::Some((midx, mcols)) => {
                        let brow = &b_rows[midx];
                        let data = clone_row(brow);
                        let orig = clone_row(row1);
                        let rd = RowDiff::new(
                            i1,
                            DiffType::Modified,
                            data,
                            mcols,
                            Option::Some(orig),
                        );
                        proof {
                            assert(data.deep_view() =~= bn[midx as int]);
                            assert(orig.deep_view() =~= an[i1 as int]);
                            assert(rd@ =~= modified_rec(
                                i1 as int,
                                an[i1 as int],
                                bn[midx as int],
                                iw,
                            ));
                        }
                        result.push(rd);
                        processed[midx] = true;
                        proof {
                            assert(processed@ =~= used_pre.update(midx as int, true));
                            assert(result.deep_view() =~= acc_pre.push(modified_rec(
                                i1 as int,
                                an[i1 as int],
                                bn[midx as int],
                                iw,
                            )));
                            assert(pass1_fuzzy(an, bn, iw, i1 as int, used_pre, acc_pre) == pass1(
                                an,
                                bn,
                                iw,
                                i1 + 1,
                                processed@,
                                result.deep_view(),
                            ));
                            assert(pass1(an, bn, iw, i1 as int, used_pre, acc_pre) == pass1(
                                an,
                                bn,
                                iw,
                                i1 + 1,
                                processed@,
                                result.deep_view(),
                            ));
                        }
                    },
                    Option::None => {
                        let data = clone_row(row1);
                        let rd = RowDiff::new(
                            i1,
                            DiffType::Removed,
                            data,
                            Vec::new(),
                            Option::None,
                        );
                        proof {
                            assert(data.deep_view() =~= an[i1 as int]);
                            assert(rd@ =~= removed_rec(i1 as int, an[i1 as int]));
                        }
                        result.push(rd);
                        proof {
                            assert(result.deep_view() =~= acc_pre.push(removed_rec(
                                i1 as int,
                                an[i1 as int],
                            )));
                            assert(pass1_fuzzy(an, bn, iw, i1 as int, used_pre, acc_pre) == pass1(
                                an,
                                bn,
                                iw,
                                i1 + 1,
                                processed@,
                                result.deep_view(),
                            ));
                            assert(pass1(an, bn, iw, i1 as int, used_pre, acc_pre) == pass1(
                                an,
                                bn,
                                iw,
                                i1 + 1,
                                processed@,
                                result.deep_view(),
                            ));
                        }
                    },
                }
            }
            i1 += 1;
        }
        proof {
            assert(pass1(an, bn, iw, an.len() as int, processed@, result.deep_view()) == (
                result.deep_view(),
                processed@,
            ));
        }
    }

    /// Second pass: every row of the second sheet not consumed by the first
    /// pass becomes an added record, indexed by the running result length.
    #[verifier::loop_isolation(false)]
    fn run_pass2(&self, b_rows: &Vec<Row>, processed: &Vec<bool>, result: &mut Vec<RowDiff>)
        requires
            processed@.len() == b_rows@.len(),
        ensures
            final(result).deep_view() == pass2(
                b_rows.deep_view(),
                processed@,
                0,
                old(result).deep_view(),
            ),
    {
        let ghost bn = b_rows.deep_view();
        let ghost used_final = processed@;
        let ghost acc0 = result.deep_view();
        let mut j: usize = 0;
        while j < b_rows.len()
            invariant
                j <= b_rows@.len(),
                pass2(bn, used_final, j as int, result.deep_view()) == pass2(
                    bn,
                    used_final,
                    0,
                    acc0,
                ),
            decreases b_rows@.len() - j,
        {
            let ghost acc_pre = result.deep_view();
            if !processed[j] {
                let brow = &b_rows[j];
                let data = clone_row(brow);
                let n = result.len();
                let rd = RowDiff::new(n, DiffType::Added, data, Vec::new(), Option::None);
                proof {
                    assert(data.deep_view() =~= bn[j as int]);
                    assert(n as int == acc_pre.len());
                    assert(rd@ =~= added_rec(acc_pre.len() as int, bn[j as int]));
                }
                result.push(rd);
                proof {
                    assert(result.deep_view() =~= acc_pre.push(added_rec(
                        acc_pre.len() as int,
                        bn[j as int],
                    )));
                }
            }
            proof {
                assert(pass2(bn, used_final, j as int, acc_pre) == pass2(
                    bn,
                    used_final,
                    j + 1,
                    result.deep_view(),
                ));
            }
            j += 1;
        }
        proof {
            assert(pass2(bn, used_final, bn.len() as int, result.deep_view())
                == result.deep_view());
        }
    }

    /// Compare two worksheets and produce the ordered diff records: every
    /// row of `sheet1` in order, classified as identical, modified, or
    /// removed, then every never-matched row of `sheet2` as an added record.
    #[verifier::loop_isolation(false)]
    pub fn compare(&self, sheet1: &Worksheet, sheet2: &Worksheet) -> (result: Vec<RowDiff>)
        ensures
            result.deep_view() == spec_compare(
                sheet1.deep_view(),
                sheet2.deep_view(),
                self.spec_ignore_whitespace(),
            ),
    {
        let ghost iw = self.spec_ignore_whitespace();
        let ghost a0 = sheet1.deep_view();
        let ghost b0 = sheet2.deep_view();
        let max_cols = sheet_width(sheet1, sheet2);
        let sheet1_normalized = self.normalize_sheet(sheet1, max_cols);
        let sheet2_normalized = self.normalize_sheet(sheet2, max_cols);
        let sheet2_keys = self.build_keys(&sheet2_normalized);
        let ghost an = sheet1_normalized.deep_view();
        let ghost bn = sheet2_normalized.deep_view();
        let mut processed_sheet2: Vec<bool> = Vec::new();
        let mut k4: usize = 0;
        while k4 < sheet2_normalized.len()
            invariant
                k4 <= sheet2_normalized@.len(),
                processed_sheet2@.len() == k4,
                forall|m: int| 0 <= m < k4 ==> !processed_sheet2@[m],
            decreases sheet2_normalized@.len() - k4,
        {
            processed_sheet2.push(false);
            k4 += 1;
        }
        proof {
            assert(bn.len() == sheet2_normalized@.len());
            assert(processed_sheet2@ =~= Seq::new(bn.len(), |k: int| false));
        }
        let mut result: Vec<RowDiff> = Vec::new();
        self.run_pass1(
            &sheet1_normalized,
            &sheet2_normalized,
            &sheet2_keys,
            &mut processed_sheet2,
            &mut result,
        );
        let ghost p = pass1(an, bn, iw, 0, Seq::new(bn.len(), |k: int| false), Seq::<
            RowDiffV,
        >::empty());
        proof {
            assert(result.deep_view() == p.0);
            assert(processed_sheet2@ == p.1);
            lemma_pass1_used_len(
                an,
                bn,
                iw,
                0,
                Seq::new(bn.len(), |k: int| false),
                Seq::<RowDiffV>::empty(),
            );
        }
        self.run_pass2(&sheet2_normalized, &processed_sheet2, &mut result);
        proof {
            assert(result.deep_view() == pass2(bn, p.1, 0, p.0));
            assert(result.deep_view() == spec_compare(a0, b0, iw));
        }
        result
    }
}
impl Default for WorksheetDiffer {
    fn default() -> (r: Self)
        ensures
            !r.spec_ignore_whitespace(),
    {
        Self::new()
    }
}

/// Find the row the key index resolves `key` to: the position of the last
/// key in `keys` equal to `key`, if any.
#[verifier::loop_isolation(false)]
fn find_exact(keys: &Vec<String>, key: &String) -> (res: Option<usize>)
    ensures
        match res {
            Option::Some(j) => j < keys@.len() && last_key_idx(keys.deep_view(), key@)
                == Option::Some(j as int),
            Option::None => last_key_idx(keys.deep_view(), key@) is None,
        },
{
    let ghost kv = keys.deep_view();
    let mut j: usize = keys.len();
    proof {
        assert(kv.take(kv.len() as int) =~= kv);
    }
    while j > 0
        invariant
            j <= keys@.len(),
            last_key_idx(kv, key@) == last_key_idx(kv.take(j as int), key@),
        decreases j,
    {
        j -= 1;
        proof {
            assert(kv.take(j as int + 1).last() == kv[j as int]);
            assert(kv.take(j as int + 1).drop_last() =~= kv.take(j as int));
            assert(kv[j as int] == keys@[j as int]@);
        }
        let kj = &keys[j];
        if *kj == *key {
            return Option::Some(j);
        }
    }
    proof {
        assert(kv.take(0) =~= Seq::<Seq<char>>::empty());
    }
    Option::None
}

impl WorksheetDiffer {
    /// Search the unconsumed rows of `sheet` for the best fuzzy match of
    /// `target_row`: a candidate qualifies when at least half of the columns
    /// of `target_row` hold equal values after normalization; more matching
    /// columns win, and the earliest candidate wins ties. Returns the winning
    /// row position with the list of differing columns.
    #[verifier::loop_isolation(false)]
    fn find_modified_row(&self, target_row: &Row, sheet: &Vec<Row>, processed: &Vec<bool>) -> (res:
        Option<(usize, Vec<usize>)>)
        requires
            processed@.len() == sheet@.len(),
        ensures
            ({
                let bm = best_match(
                    target_row.deep_view(),
                    sheet.deep_view(),
                    processed@,
                    self.spec_ignore_whitespace(),
                );
                match res {
                    Option::Some(p) => {
                        &&& p.0 < sheet@.len()
                        &&& bm == Option::Some(
                            (
                                p.0 as int,
                                match_count(
                                    target_row.deep_view(),
                                    sheet.deep_view()[p.0 as int],
                                    self.spec_ignore_whitespace(),
                                ),
                            ),
                        )
                        &&& p.1@.map_values(|u: usize| u as int) == diff_cols(
                            target_row.deep_view(),
                            sheet.deep_view()[p.0 as int],
                            self.spec_ignore_whitespace(),
                        )
                    },
                    Option::None => bm is None,
                }
            }),
    {
        let ghost t = target_row.deep_view();
        let ghost bsheet = sheet.deep_view();
        let ghost iw = self.spec_ignore_whitespace();
        let mut have_best: bool = false;
        let mut best_idx: usize = 0;
        let mut best_m: usize = 0;
        let mut best_modified: Vec<usize> = Vec::new();
        let mut j: usize = 0;
        while j < sheet.len()
            invariant
                j <= sheet@.len(),
                ({
                    let cur: Option<(int, nat)> = if have_best {
                        Option::Some((best_idx as int, best_m as nat))
                    } else {
                        Option::None
                    };
                    best_step(t, bsheet, processed@, iw, j as int, cur) == best_match(
                        t,
                        bsheet,
                        processed@,
                        iw,
                    )
                }),
                have_best ==> best_idx < j && best_m == match_count(
                    t,
                    bsheet[best_idx as int],
                    iw,
                ) && qualifies(t, bsheet[best_idx as int], iw) && best_modified@.map_values(
                    |u: usize| u as int,
                ) == diff_cols(t, bsheet[best_idx as int], iw),
            decreases sheet@.len() - j,
        {
            let ghost cur_old: Option<(int, nat)> = if have_best {
                Option::Some((best_idx as int, best_m as nat))
            } else {
                Option::None
            };
            if !processed[j] {
                let row_j = &sheet[j];
                let ghost bj = bsheet[j as int];
                proof {
                    assert(bj == row_j.deep_view());
                }
                let cols: usize = if target_row.len() <= row_j.len() {
                    target_row.len()
                } else {
                    row_j.len()
                };
                proof {
                    assert(cols as int == vstd::math::min(t.len() as int, bj.len() as int));
                }
                let mut m: usize = 0;
                let mut modified: Vec<usize> = Vec::new();
                let mut c: usize = 0;
                while c < cols
                    invariant
                        c <= cols,
                        m <= c,
                        cols <= target_row@.len(),
                        cols <= row_j@.len(),
                        m == match_count_upto(t, bj, iw, c as int),
                        modified@.map_values(|u: usize| u as int) == diff_cols_upto(
                            t,
                            bj,
                            iw,
                            c as int,
                        ),
                    decreases cols - c,
                {
                    let va = &target_row[c];
                    let vb = &row_j[c];
                    let na = va.normalize_with_options(self.ignore_whitespace);
                    let nb = vb.normalize_with_options(self.ignore_whitespace);
                    proof {
                        assert(t[c as int] == target_row@[c as int].deep_view());
                        assert(bj[c as int] == row_j@[c as int].deep_view());
                        assert(na@ == norm_cell(t[c as int], iw));
                        assert(nb@ == norm_cell(bj[c as int], iw));
                    }
                    let ghost prev_modified = modified@;
                    if na == nb {
                        m += 1;
                    } else {
                        modified.push(c);
                        proof {
                            assert(modified@.map_values(|u: usize| u as int) =~= prev_modified
                                .map_values(|u: usize| u as int).push(c as int));
                        }
                    }
                    c += 1;
                }
                let qual = target_row.len() > 0 && target_row.len() - m <= m;
                proof {
                    assert(m == match_count(t, bj, iw));
                    assert(qual == qualifies(t, bj, iw));
                }
                let better = if have_best {
                    m > best_m
                } else {
                    true
                };
                if qual && better {
                    have_best = true;
                    best_idx = j;
                    best_m = m;
                    best_modified = modified;
                    proof {
                        assert(best_step(t, bsheet, processed@, iw, j as int, cur_old) == best_step(
                            t,
                            bsheet,
                            processed@,
                            iw,
                            j as int + 1,
                            Option::Some((j as int, m as nat)),
                        ));
                    }
                } else {
                    proof {
                        assert(best_step(t, bsheet, processed@, iw, j as int, cur_old) == best_step(
                            t,
                            bsheet,
                            processed@,
                            iw,
                            j as int + 1,
                            cur_old,
                        ));
                    }
                }
            } else {
                proof {
                    assert(best_step(t, bsheet, processed@, iw, j as int, cur_old) == best_step(
                        t,
                        bsheet,
                        processed@,
                        iw,
                        j as int + 1,
                        cur_old,
                    ));
                }
            }
            j += 1;
        }
        if have_best {
            Option::Some((best_idx, best_modified))
        } else {
            Option::None
        }
    }
}

/// Copy a row cell by cell.
#[verifier::loop_isolation(false)]
fn clone_row(row: &Row) -> (r: Row)
    ensures
        r@ == row@,
{
    let mut out: Vec<CellValue> = Vec::new();
    let mut k: usize = 0;
    while k < row.len()
        invariant
            k <= row@.len(),
            out@.len() == k,
            forall|m: int| 0 <= m < k ==> out@[m] == row@[m],
        decreases row@.len() - k,
    {
        let cell = &row[k];
        out.push(cell.clone());
        k += 1;
    }
    proof {
        assert(out@ =~= row@);
    }
    out
}

} // verus!
