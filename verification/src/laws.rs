//! General laws of the diff engine, stated and proved for all inputs.

use vstd::prelude::*;

use crate::cell::CellVal;
use crate::differ::added_rec;
use crate::differ::best_match;
use crate::differ::best_step;
use crate::differ::ident_rec;
use crate::differ::last_key_idx;
use crate::differ::lemma_best_step_in_range;
use crate::differ::lemma_last_key_idx;
use crate::differ::match_count;
use crate::differ::modified_rec;
use crate::differ::norm_sheet;
use crate::differ::pad_row;
use crate::differ::pass1;
use crate::differ::pass1_fuzzy;
use crate::differ::pass2;
use crate::differ::qualifies;
use crate::differ::removed_rec;
use crate::differ::row_key;
use crate::differ::sheet_keys;
use crate::differ::spec_compare;
use crate::differ::spec_width;
use crate::differ::RowDiffV;

verus! {

proof fn lemma_pass1_width(
    a: Seq<Seq<CellVal>>,
    b: Seq<Seq<CellVal>>,
    iw: bool,
    i: int,
    used: Seq<bool>,
    acc: Seq<RowDiffV>,
    w: nat,
)
    requires
        used.len() == b.len(),
        forall|k: int| 0 <= k < a.len() ==> (#[trigger] a[k]).len() == w,
        forall|k: int| 0 <= k < b.len() ==> (#[trigger] b[k]).len() == w,
        forall|k: int| 0 <= k < acc.len() ==> (#[trigger] acc[k]).row_data.len() == w,
    ensures
        forall|k: int|
            0 <= k < pass1(a, b, iw, i, used, acc).0.len() ==> (#[trigger] pass1(
                a,
                b,
                iw,
                i,
                used,
                acc,
            ).0[k]).row_data.len() == w,
    decreases a.len() - i, 1int,
{
    if i < 0 || i >= a.len() {
    } else {
        lemma_last_key_idx(sheet_keys(b, iw), row_key(a[i], iw));
        match last_key_idx(sheet_keys(b, iw), row_key(a[i], iw)) {
            Option::Some(j) => {
                if !used[j] {
                    let acc2 = acc.push(ident_rec(i, a[i]));
                    assert(forall|k: int|
                        0 <= k < acc2.len() ==> (#[trigger] acc2[k]).row_data.len() == w);
                    lemma_pass1_width(a, b, iw, i + 1, used.update(j, true), acc2, w);
                } else {
                    lemma_pass1_fuzzy_width(a, b, iw, i, used, acc, w);
                }
            },
            Option::None => {
                lemma_pass1_fuzzy_width(a, b, iw, i, used, acc, w);
            },
        }
    }
}

proof fn lemma_pass1_fuzzy_width(
    a: Seq<Seq<CellVal>>,
    b: Seq<Seq<CellVal>>,
    iw: bool,
    i: int,
    used: Seq<bool>,
    acc: Seq<RowDiffV>,
    w: nat,
)
    requires
        0 <= i < a.len(),
        used.len() == b.len(),
        forall|k: int| 0 <= k < a.len() ==> (#[trigger] a[k]).len() == w,
        forall|k: int| 0 <= k < b.len() ==> (#[trigger] b[k]).len() == w,
        forall|k: int| 0 <= k < acc.len() ==> (#[trigger] acc[k]).row_data.len() == w,
    ensures
        forall|k: int|
            0 <= k < pass1_fuzzy(a, b, iw, i, used, acc).0.len() ==> (#[trigger] pass1_fuzzy(
                a,
                b,
                iw,
                i,
                used,
                acc,
            ).0[k]).row_data.len() == w,
    decreases a.len() - i, 0int,
{
    lemma_best_step_in_range(a[i], b, used, iw, 0, Option::None);
    match best_match(a[i], b, used, iw) {
        Option::Some(jm) => {
            let acc2 = acc.push(modified_rec(i, a[i], b[jm.0], iw));
            assert(forall|k: int|
                0 <= k < acc2.len() ==> (#[trigger] acc2[k]).row_data.len() == w);
            lemma_pass1_width(a, b, iw, i + 1, used.update(jm.0, true), acc2, w);
        },
        Option::None => {
            let acc2 = acc.push(removed_rec(i, a[i]));
            assert(forall|k: int|
                0 <= k < acc2.len() ==> (#[trigger] acc2[k]).row_data.len() == w);
            lemma_pass1_width(a, b, iw, i + 1, used, acc2, w);
        },
    }
}

proof fn lemma_pass2_width(
    b: Seq<Seq<CellVal>>,
    used: Seq<bool>,
    j: int,
    acc: Seq<RowDiffV>,
    w: nat,
)
    requires
        forall|k: int| 0 <= k < b.len() ==> (#[trigger] b[k]).len() == w,
        forall|k: int| 0 <= k < acc.len() ==> (#[trigger] acc[k]).row_data.len() == w,
    ensures
        forall|k: int|
            0 <= k < pass2(b, used, j, acc).len() ==> (#[trigger] pass2(b, used, j, acc)[k])
                .row_data.len() == w,
    decreases b.len() - j,
{
    if j < 0 || j >= b.len() {
    } else if used[j] {
        lemma_pass2_width(b, used, j + 1, acc, w);
    } else {
        let acc2 = acc.push(added_rec(acc.len() as int, b[j]));
        assert(forall|k: int| 0 <= k < acc2.len() ==> (#[trigger] acc2[k]).row_data.len() == w);
        lemma_pass2_width(b, used, j + 1, acc2, w);
    }
}

/// Column padding: every record of a comparison shows a row of exactly the
/// common width, the greatest row length found in either input sheet.
pub proof fn lemma_result_width(a0: Seq<Seq<CellVal>>, b0: Seq<Seq<CellVal>>, iw: bool)
    ensures
        forall|k: int|
            0 <= k < spec_compare(a0, b0, iw).len() ==> (#[trigger] spec_compare(a0, b0, iw)[k])
                .row_data.len() == spec_width(a0, b0),
{
    let w = spec_width(a0, b0);
    let a = norm_sheet(a0, w);
    let b = norm_sheet(b0, w);
    assert(forall|k: int| 0 <= k < a.len() ==> (#[trigger] a[k]).len() == w) by {
        assert forall|k: int| 0 <= k < a.len() implies (#[trigger] a[k]).len() == w by {
            assert(a[k] == pad_row(a0[k], w));
            assert(pad_row(a0[k], w).len() == w);
        }
    }
    assert(forall|k: int| 0 <= k < b.len() ==> (#[trigger] b[k]).len() == w) by {
        assert forall|k: int| 0 <= k < b.len() implies (#[trigger] b[k]).len() == w by {
            assert(b[k] == pad_row(b0[k], w));
            assert(pad_row(b0[k], w).len() == w);
        }
    }
    let used0 = Seq::new(b.len(), |k: int| false);
    let acc0 = Seq::<RowDiffV>::empty();
    lemma_pass1_width(a, b, iw, 0, used0, acc0, w);
    let p = pass1(a, b, iw, 0, used0, acc0);
    crate::differ::lemma_pass1_used_len(a, b, iw, 0, used0, acc0);
    lemma_pass2_width(b, p.1, 0, p.0, w);
}

/// What the fuzzy scan of the engine yields, for every target row and every
/// state of consumption: it finds a row exactly when some unconsumed row
/// qualifies (at least half of the target's columns match and the target is
/// not empty), and the row found is the earliest one with the most matching
/// columns.
pub proof fn lemma_best_match_props(
    t: Seq<CellVal>,
    b: Seq<Seq<CellVal>>,
    used: Seq<bool>,
    iw: bool,
)
    requires
        used.len() == b.len(),
    ensures
        (best_match(t, b, used, iw) is Some) <==> (exists|j: int|
            0 <= j < b.len() && !used[j] && qualifies(t, b[j], iw)),
        match best_match(t, b, used, iw) {
            Option::Some(c) => {
                &&& 0 <= c.0 < b.len()
                &&& !used[c.0]
                &&& qualifies(t, b[c.0], iw)
                &&& c.1 == match_count(t, b[c.0], iw)
                &&& forall|j: int|
                    0 <= j < b.len() && !used[j] && qualifies(t, b[j], iw) ==> match_count(
                        t,
                        #[trigger] b[j],
                        iw,
                    ) <= c.1
                &&& forall|j: int|
                    0 <= j < c.0 && !used[j] && qualifies(t, b[j], iw) ==> match_count(
                        t,
                        #[trigger] b[j],
                        iw,
                    ) < c.1
            },
            Option::None => true,
        },
{
    lemma_best_step_props(t, b, used, iw, 0, Option::None);
}

proof fn lemma_best_step_props(
    t: Seq<CellVal>,
    b: Seq<Seq<CellVal>>,
    used: Seq<bool>,
    iw: bool,
    j: int,
    cur: Option<(int, nat)>,
)
    requires
        0 <= j <= b.len(),
        used.len() == b.len(),
        match cur {
            Option::None => forall|jj: int|
                0 <= jj < j && !used[jj] ==> !qualifies(t, #[trigger] b[jj], iw),
            Option::Some(c) => {
                &&& 0 <= c.0 < j
                &&& !used[c.0]
                &&& qualifies(t, b[c.0], iw)
                &&& c.1 == match_count(t, b[c.0], iw)
                &&& forall|jj: int|
                    0 <= jj < j && !used[jj] && qualifies(t, b[jj], iw) ==> match_count(
                        t,
                        #[trigger] b[jj],
                        iw,
                    ) <= c.1
                &&& forall|jj: int|
                    0 <= jj < c.0 && !used[jj] && qualifies(t, b[jj], iw) ==> match_count(
                        t,
                        #[trigger] b[jj],
                        iw,
                    ) < c.1
            },
        },
    ensures
        (best_step(t, b, used, iw, j, cur) is Some) <==> (cur is Some || exists|jj: int|
            j <= jj < b.len() && !used[jj] && qualifies(t, b[jj], iw)),
        match best_step(t, b, used, iw, j, cur) {
            Option::Some(c) => {
                &&& 0 <= c.0 < b.len()
                &&& !used[c.0]
                &&& qualifies(t, b[c.0], iw)
                &&& c.1 == match_count(t, b[c.0], iw)
                &&& forall|jj: int|
                    0 <= jj < b.len() && !used[jj] && qualifies(t, b[jj], iw) ==> match_count(
                        t,
                        #[trigger] b[jj],
                        iw,
                    ) <= c.1
                &&& forall|jj: int|
                    0 <= jj < c.0 && !used[jj] && qualifies(t, b[jj], iw) ==> match_count(
                        t,
                        #[trigger] b[jj],
                        iw,
                    ) < c.1
            },
            Option::None => forall|jj: int|
                0 <= jj < b.len() && !used[jj] ==> !qualifies(t, #[trigger] b[jj], iw),
        },
    decreases b.len() - j,
{
    if j >= b.len() {
    } else {
        let m = match_count(t, b[j], iw);
        let better = match cur {
            Option::None => true,
            Option::Some(jm) => m > jm.1,
        };
        let next = if !used[j] && qualifies(t, b[j], iw) && better {
            Option::Some((j, m))
        } else {
            cur
        };
        lemma_best_step_props(t, b, used, iw, j + 1, next);
    }
}

proof fn lemma_pass2_all_used(b: Seq<Seq<CellVal>>, used: Seq<bool>, j: int, acc: Seq<RowDiffV>)
    requires
        forall|jj: int| 0 <= jj < b.len() ==> #[trigger] used[jj],
    ensures
        pass2(b, used, j, acc) == acc,
    decreases b.len() - j,
{
    if j < 0 || j >= b.len() {
    } else {
        lemma_pass2_all_used(b, used, j + 1, acc);
    }
}

proof fn lemma_pass1_identity(
    a: Seq<Seq<CellVal>>,
    iw: bool,
    i: int,
    used: Seq<bool>,
    acc: Seq<RowDiffV>,
)
    requires
        0 <= i <= a.len(),
        used.len() == a.len(),
        forall|p: int, q: int|
            0 <= p < q < a.len() ==> row_key(#[trigger] a[p], iw) != row_key(
                #[trigger] a[q],
                iw,
            ),
        forall|j: int| 0 <= j < a.len() ==> ((#[trigger] used[j]) <==> j < i),
        acc.len() == i,
        forall|k: int| 0 <= k < i ==> #[trigger] acc[k] == ident_rec(k, a[k]),
    ensures
        pass1(a, a, iw, i, used, acc).0.len() == a.len(),
        forall|k: int|
            0 <= k < a.len() ==> #[trigger] pass1(a, a, iw, i, used, acc).0[k] == ident_rec(
                k,
                a[k],
            ),
        pass1(a, a, iw, i, used, acc).1.len() == a.len(),
        forall|j: int| 0 <= j < a.len() ==> #[trigger] pass1(a, a, iw, i, used, acc).1[j],
    decreases a.len() - i,
{
    if i == a.len() {
    } else {
        let keys = sheet_keys(a, iw);
        let key = row_key(a[i], iw);
        lemma_last_key_idx(keys, key);
        assert(keys[i] == key);
        match last_key_idx(keys, key) {
            Option::None => {
                assert(false);
            },
            Option::Some(js) => {
                assert(keys[js] == row_key(a[js], iw));
                if js < i {
                    assert(row_key(a[js], iw) != row_key(a[i], iw));
                    assert(false);
                } else if js > i {
                    assert(row_key(a[i], iw) != row_key(a[js], iw));
                    assert(false);
                }
                assert(!used[i]);
                let used2 = used.update(i, true);
                let acc2 = acc.push(ident_rec(i, a[i]));
                assert(forall|j: int|
                    0 <= j < a.len() ==> ((#[trigger] used2[j]) <==> j < i + 1));
                lemma_pass1_identity(a, iw, i + 1, used2, acc2);
            },
        }
    }
}

/// Identity diff: comparing a sheet whose rows carry pairwise distinct keys
/// against itself yields exactly one identical record per row, in the
/// original order, and no modified, removed, or added record.
pub proof fn lemma_identity_diff(a0: Seq<Seq<CellVal>>, iw: bool)
    requires
        forall|p: int, q: int|
            0 <= p < q < a0.len() ==> row_key(pad_row(#[trigger] a0[p], spec_width(a0, a0)), iw)
                != row_key(pad_row(#[trigger] a0[q], spec_width(a0, a0)), iw),
    ensures
        spec_compare(a0, a0, iw).len() == a0.len(),
        forall|k: int|
            0 <= k < a0.len() ==> #[trigger] spec_compare(a0, a0, iw)[k] == ident_rec(
                k,
                pad_row(a0[k], spec_width(a0, a0)),
            ),
{
    let w = spec_width(a0, a0);
    let a = norm_sheet(a0, w);
    assert(a.len() == a0.len());
    assert forall|p: int, q: int| 0 <= p < q < a.len() implies row_key(#[trigger] a[p], iw)
        != row_key(#[trigger] a[q], iw) by {
        assert(a[p] == pad_row(a0[p], w));
        assert(a[q] == pad_row(a0[q], w));
    }
    let used0 = Seq::new(a.len(), |k: int| false);
    let acc0 = Seq::<RowDiffV>::empty();
    lemma_pass1_identity(a, iw, 0, used0, acc0);
    let p = pass1(a, a, iw, 0, used0, acc0);
    lemma_pass2_all_used(a, p.1, 0, p.0);
}

proof fn lemma_pass1_disjoint(
    a: Seq<Seq<CellVal>>,
    b: Seq<Seq<CellVal>>,
    iw: bool,
    i: int,
    used: Seq<bool>,
    acc: Seq<RowDiffV>,
)
    requires
        0 <= i <= a.len(),
        used.len() == b.len(),
        forall|j: int| 0 <= j < b.len() ==> !(#[trigger] used[j]),
        forall|p: int, q: int|
            0 <= p < a.len() && 0 <= q < b.len() ==> row_key(#[trigger] a[p], iw) != row_key(
                #[trigger] b[q],
                iw,
            ),
        forall|p: int, q: int|
            0 <= p < a.len() && 0 <= q < b.len() ==> !qualifies(
                #[trigger] a[p],
                #[trigger] b[q],
                iw,
            ),
        acc.len() == i,
        forall|k: int| 0 <= k < i ==> #[trigger] acc[k] == removed_rec(k, a[k]),
    ensures
        pass1(a, b, iw, i, used, acc).0.len() == a.len(),
        forall|k: int|
            0 <= k < a.len() ==> #[trigger] pass1(a, b, iw, i, used, acc).0[k] == removed_rec(
                k,
                a[k],
            ),
        pass1(a, b, iw, i, used, acc).1 == used,
    decreases a.len() - i,
{
    if i == a.len() {
    } else {
        let keys = sheet_keys(b, iw);
        let key = row_key(a[i], iw);
        lemma_last_key_idx(keys, key);
        match last_key_idx(keys, key) {
            Option::Some(js) => {
                assert(keys[js] == row_key(b[js], iw));
                assert(false);
            },
            Option::None => {},
        }
        lemma_best_match_props(a[i], b, used, iw);
        match best_match(a[i], b, used, iw) {
            Option::Some(jm) => {
                assert(qualifies(a[i], b[jm.0], iw));
                assert(false);
            },
            Option::None => {},
        }
        let acc2 = acc.push(removed_rec(i, a[i]));
        assert(pass1(a, b, iw, i, used, acc) == pass1_fuzzy(a, b, iw, i, used, acc));
        assert(pass1_fuzzy(a, b, iw, i, used, acc) == pass1(a, b, iw, i + 1, used, acc2));
        lemma_pass1_disjoint(a, b, iw, i + 1, used, acc2);
    }
}

proof fn lemma_pass2_none_used(
    b: Seq<Seq<CellVal>>,
    used: Seq<bool>,
    j: int,
    acc: Seq<RowDiffV>,
)
    requires
        0 <= j <= b.len(),
        forall|jj: int| 0 <= jj < b.len() ==> !(#[trigger] used[jj]),
    ensures
        pass2(b, used, j, acc).len() == acc.len() + b.len() - j,
        forall|k: int| 0 <= k < acc.len() ==> #[trigger] pass2(b, used, j, acc)[k] == acc[k],
        forall|k: int|
            0 <= k < b.len() - j ==> #[trigger] pass2(b, used, j, acc)[acc.len() + k]
                == added_rec(acc.len() + k, b[j + k]),
    decreases b.len() - j,
{
    if j >= b.len() {
    } else {
        let acc2 = acc.push(added_rec(acc.len() as int, b[j]));
        lemma_pass2_none_used(b, used, j + 1, acc2);
        let r = pass2(b, used, j, acc);
        assert(r == pass2(b, used, j + 1, acc2));
        assert forall|k: int| 0 <= k < b.len() - j implies #[trigger] r[acc.len() + k]
            == added_rec(acc.len() + k, b[j + k]) by {
            if k == 0 {
                assert(r[acc2.len() - 1] == acc2[acc2.len() - 1]);
            } else {
                assert(r[acc2.len() + (k - 1)] == added_rec(acc2.len() + (k - 1), b[j + 1 + (k
                    - 1)]));
            }
        }
    }
}

/// Disjoint sheets: when no row key of the first sheet occurs in the second
/// and no row of the second qualifies as a fuzzy match of any row of the
/// first, the result is exactly one removed record per row of the first
/// sheet, in order, followed by one added record per row of the second, in
/// order.
pub proof fn lemma_disjoint_diff(a0: Seq<Seq<CellVal>>, b0: Seq<Seq<CellVal>>, iw: bool)
    requires
        forall|p: int, q: int|
            0 <= p < a0.len() && 0 <= q < b0.len() ==> row_key(
                pad_row(#[trigger] a0[p], spec_width(a0, b0)),
                iw,
            ) != row_key(pad_row(#[trigger] b0[q], spec_width(a0, b0)), iw),
        forall|p: int, q: int|
            0 <= p < a0.len() && 0 <= q < b0.len() ==> !qualifies(
                pad_row(#[trigger] a0[p], spec_width(a0, b0)),
                pad_row(#[trigger] b0[q], spec_width(a0, b0)),
                iw,
            ),
    ensures
        spec_compare(a0, b0, iw).len() == a0.len() + b0.len(),
        forall|k: int|
            0 <= k < a0.len() ==> #[trigger] spec_compare(a0, b0, iw)[k] == removed_rec(
                k,
                pad_row(a0[k], spec_width(a0, b0)),
            ),
        forall|k: int|
            0 <= k < b0.len() ==> #[trigger] spec_compare(a0, b0, iw)[a0.len() + k]
                == added_rec(a0.len() + k, pad_row(b0[k], spec_width(a0, b0))),
{
    let w = spec_width(a0, b0);
    let a = norm_sheet(a0, w);
    let b = norm_sheet(b0, w);
    assert(a.len() == a0.len());
    assert(b.len() == b0.len());
    assert forall|p: int, q: int| 0 <= p < a.len() && 0 <= q < b.len() implies row_key(
        #[trigger] a[p],
        iw,
    ) != row_key(#[trigger] b[q], iw) by {
        assert(a[p] == pad_row(a0[p], w));
        assert(b[q] == pad_row(b0[q], w));
    }
    assert forall|p: int, q: int| 0 <= p < a.len() && 0 <= q < b.len() implies !qualifies(
        #[trigger] a[p],
        #[trigger] b[q],
        iw,
    ) by {
        assert(a[p] == pad_row(a0[p], w));
        assert(b[q] == pad_row(b0[q], w));
    }
    let used0 = Seq::new(b.len(), |k: int| false);
    let acc0 = Seq::<RowDiffV>::empty();
    lemma_pass1_disjoint(a, b, iw, 0, used0, acc0);
    let p = pass1(a, b, iw, 0, used0, acc0);
    lemma_pass2_none_used(b, p.1, 0, p.0);
}

} // verus!

