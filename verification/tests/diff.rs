use exceldiff::CellValue;
use exceldiff::DiffType;
use exceldiff::Row;
use exceldiff::WorksheetDiffer;

fn text(s: &str) -> CellValue {
    CellValue::Text(s.to_string())
}

fn text_row(cells: &[&str]) -> Row {
    cells.iter().map(|s| text(s)).collect()
}

#[test]
fn identity_diff_yields_only_identical() {
    let sheet = vec![
        text_row(&["id", "name"]),
        text_row(&["1", "Alice"]),
        text_row(&["2", "Bob"]),
    ];
    let differ = WorksheetDiffer::new();
    let diffs = differ.compare(&sheet, &sheet);
    assert_eq!(diffs.len(), 3);
    for (k, d) in diffs.iter().enumerate() {
        assert_eq!(d.diff_type, DiffType::Identical);
        assert_eq!(d.row_index, k);
        assert_eq!(d.row_data, sheet[k]);
        assert!(d.modified_cells.is_empty());
        assert!(d.original_row_data.is_none());
    }
}

#[test]
fn disjoint_sheets_yield_removed_then_added() {
    let a = vec![text_row(&["a", "b"]), text_row(&["c", "d"])];
    let b = vec![text_row(&["e", "f"])];
    let differ = WorksheetDiffer::new();
    let diffs = differ.compare(&a, &b);
    assert_eq!(diffs.len(), 3);
    assert_eq!(diffs[0].diff_type, DiffType::Removed);
    assert_eq!(diffs[0].row_index, 0);
    assert_eq!(diffs[0].row_data, a[0]);
    assert_eq!(diffs[1].diff_type, DiffType::Removed);
    assert_eq!(diffs[1].row_index, 1);
    assert_eq!(diffs[2].diff_type, DiffType::Added);
    assert_eq!(diffs[2].row_index, 2);
    assert_eq!(diffs[2].row_data, b[0]);
}

#[test]
fn added_row_index_is_running_result_length() {
    let a: Vec<Row> = vec![];
    let b = vec![text_row(&["x"]), text_row(&["y"])];
    let differ = WorksheetDiffer::new();
    let diffs = differ.compare(&a, &b);
    assert_eq!(diffs.len(), 2);
    assert_eq!(diffs[0].diff_type, DiffType::Added);
    assert_eq!(diffs[0].row_index, 0);
    assert_eq!(diffs[1].diff_type, DiffType::Added);
    assert_eq!(diffs[1].row_index, 1);
}

#[test]
fn short_rows_are_padded_to_widest() {
    let a = vec![vec![CellValue::Int(1), CellValue::Int(2)]];
    let b = vec![vec![
        CellValue::Int(1),
        CellValue::Int(2),
        CellValue::Empty,
        CellValue::Empty,
    ]];
    let differ = WorksheetDiffer::new();
    let diffs = differ.compare(&a, &b);
    // The padded first row equals the second sheet's row, so it is identical.
    assert_eq!(diffs.len(), 1);
    assert_eq!(diffs[0].diff_type, DiffType::Identical);
    assert_eq!(diffs[0].row_data.len(), 4);
    assert_eq!(diffs[0].row_data[2], CellValue::Empty);
    assert_eq!(diffs[0].row_data[3], CellValue::Empty);
}

#[test]
fn every_emitted_row_has_the_common_width() {
    let a = vec![text_row(&["a", "b"]), text_row(&["c", "d"])];
    let b = vec![text_row(&["p", "q", "r", "s"])];
    let differ = WorksheetDiffer::new();
    let diffs = differ.compare(&a, &b);
    for d in &diffs {
        assert_eq!(d.row_data.len(), 4);
    }
}

#[test]
fn half_matching_row_is_modified() {
    let a = vec![text_row(&["a", "b", "c", "d"])];
    let b = vec![text_row(&["a", "b", "x", "y"])];
    let differ = WorksheetDiffer::new();
    let diffs = differ.compare(&a, &b);
    assert_eq!(diffs.len(), 1);
    assert_eq!(diffs[0].diff_type, DiffType::Modified);
    assert_eq!(diffs[0].row_data, b[0]);
    assert_eq!(diffs[0].modified_cells, vec![2, 3]);
    assert_eq!(diffs[0].original_row_data.as_ref().unwrap(), &a[0]);
}

#[test]
fn quarter_matching_row_is_removed() {
    let a = vec![text_row(&["a", "b", "c", "d"])];
    let b = vec![text_row(&["a", "x", "y", "z"])];
    let differ = WorksheetDiffer::new();
    let diffs = differ.compare(&a, &b);
    assert_eq!(diffs.len(), 2);
    assert_eq!(diffs[0].diff_type, DiffType::Removed);
    assert_eq!(diffs[0].row_data, a[0]);
    assert_eq!(diffs[1].diff_type, DiffType::Added);
    assert_eq!(diffs[1].row_data, b[0]);
}

#[test]
fn whitespace_flag_off_treats_spacing_as_different() {
    let a = vec![text_row(&["a  b"])];
    let b = vec![text_row(&["a b"])];
    let differ = WorksheetDiffer::with_options(false);
    let diffs = differ.compare(&a, &b);
    assert_eq!(diffs.len(), 2);
    assert_eq!(diffs[0].diff_type, DiffType::Removed);
    assert_eq!(diffs[1].diff_type, DiffType::Added);
}

#[test]
fn whitespace_flag_on_treats_spacing_as_equal() {
    let a = vec![text_row(&["a  b"])];
    let b = vec![text_row(&["a b"])];
    let differ = WorksheetDiffer::with_options(true);
    let diffs = differ.compare(&a, &b);
    assert_eq!(diffs.len(), 1);
    assert_eq!(diffs[0].diff_type, DiffType::Identical);
}

#[test]
fn end_to_end_example() {
    let a = vec![text_row(&["id", "1", "Alice"]), text_row(&["id", "2", "Bob"])];
    let b = vec![text_row(&["id", "1", "Alicia"]), text_row(&["id", "3", "Carol"])];
    let differ = WorksheetDiffer::new();
    let diffs = differ.compare(&a, &b);
    assert_eq!(diffs.len(), 3);

    // Row 0: two of three columns match the first row of b -> modified.
    assert_eq!(diffs[0].diff_type, DiffType::Modified);
    assert_eq!(diffs[0].row_index, 0);
    assert_eq!(diffs[0].row_data, b[0]);
    assert_eq!(diffs[0].modified_cells, vec![2]);
    assert_eq!(diffs[0].original_row_data.as_ref().unwrap(), &a[0]);

    // Row 1: only one of three columns matches the remaining row -> removed.
    assert_eq!(diffs[1].diff_type, DiffType::Removed);
    assert_eq!(diffs[1].row_index, 1);
    assert_eq!(diffs[1].row_data, a[1]);

    // The remaining row of b is appended as added.
    assert_eq!(diffs[2].diff_type, DiffType::Added);
    assert_eq!(diffs[2].row_index, 2);
    assert_eq!(diffs[2].row_data, b[1]);
}

#[test]
fn duplicate_keys_compete_for_one_match() {
    // Both sheets hold the same row twice. The key index keeps only the
    // last position, so the first row takes it and the second falls back to
    // the fuzzy match against the remaining row.
    let r = text_row(&["a"]);
    let sheet = vec![r.clone(), r.clone()];
    let differ = WorksheetDiffer::new();
    let diffs = differ.compare(&sheet, &sheet);
    assert_eq!(diffs.len(), 2);
    assert_eq!(diffs[0].diff_type, DiffType::Identical);
    assert_eq!(diffs[1].diff_type, DiffType::Modified);
    assert!(diffs[1].modified_cells.is_empty());
}

#[test]
fn earliest_best_candidate_wins_ties() {
    // Both rows of b match the target in one of two columns; the first one
    // scanned wins.
    let a = vec![text_row(&["a", "b"])];
    let b = vec![text_row(&["a", "x"]), text_row(&["a", "y"])];
    let differ = WorksheetDiffer::new();
    let diffs = differ.compare(&a, &b);
    assert_eq!(diffs[0].diff_type, DiffType::Modified);
    assert_eq!(diffs[0].row_data, b[0]);
    assert_eq!(diffs[1].diff_type, DiffType::Added);
    assert_eq!(diffs[1].row_data, b[1]);
}

#[test]
fn more_matching_columns_beat_an_earlier_candidate() {
    let a = vec![text_row(&["a", "b", "c", "d"])];
    let b = vec![text_row(&["a", "b", "x", "y"]), text_row(&["a", "b", "c", "y"])];
    let differ = WorksheetDiffer::new();
    let diffs = differ.compare(&a, &b);
    assert_eq!(diffs[0].diff_type, DiffType::Modified);
    assert_eq!(diffs[0].row_data, b[1]);
    assert_eq!(diffs[0].modified_cells, vec![3]);
}

#[test]
fn empty_sheets_yield_empty_diff() {
    let a: Vec<Row> = vec![];
    let b: Vec<Row> = vec![];
    let differ = WorksheetDiffer::new();
    let diffs = differ.compare(&a, &b);
    assert!(diffs.is_empty());
}

#[test]
fn empty_rows_compare_identical() {
    let a: Vec<Row> = vec![vec![]];
    let b: Vec<Row> = vec![vec![]];
    let differ = WorksheetDiffer::new();
    let diffs = differ.compare(&a, &b);
    assert_eq!(diffs.len(), 1);
    assert_eq!(diffs[0].diff_type, DiffType::Identical);
}

#[test]
fn an_empty_row_never_fuzzy_matches() {
    let a: Vec<Row> = vec![vec![]];
    let b = vec![text_row(&["x"])];
    let differ = WorksheetDiffer::new();
    let diffs = differ.compare(&a, &b);
    assert_eq!(diffs.len(), 2);
    assert_eq!(diffs[0].diff_type, DiffType::Removed);
    assert_eq!(diffs[1].diff_type, DiffType::Added);
}

#[test]
fn typed_values_with_equal_text_share_a_key() {
    // The row key is built from display text alone, so an integer one and
    // the text "1" collide and are reported as identical.
    let a = vec![vec![CellValue::Int(1)]];
    let b = vec![vec![text("1")]];
    let differ = WorksheetDiffer::new();
    let diffs = differ.compare(&a, &b);
    assert_eq!(diffs.len(), 1);
    assert_eq!(diffs[0].diff_type, DiffType::Identical);
}

#[test]
fn diff_type_names() {
    assert_eq!(DiffType::Identical.as_str(), "identical");
    assert_eq!(DiffType::Modified.as_str(), "modified");
    assert_eq!(DiffType::Removed.as_str(), "removed");
    assert_eq!(DiffType::Added.as_str(), "added");
}

#[test]
fn row_diff_new_keeps_its_parts() {
    let rd = exceldiff::RowDiff::new(
        3,
        DiffType::Modified,
        text_row(&["a"]),
        vec![0],
        Some(text_row(&["b"])),
    );
    assert_eq!(rd.row_index, 3);
    assert_eq!(rd.diff_type, DiffType::Modified);
    assert_eq!(rd.row_data, text_row(&["a"]));
    assert_eq!(rd.modified_cells, vec![0]);
    assert_eq!(rd.original_row_data, Some(text_row(&["b"])));
}

#[test]
fn whitespace_flag_applies_inside_fuzzy_matching() {
    // First column equal once whitespace is collapsed, second one truly
    // different: one of two columns matches, so the row is modified and only
    // the second column is reported.
    let a = vec![text_row(&["a  b", "old"])];
    let b = vec![text_row(&["a b", "new"])];
    let differ = WorksheetDiffer::with_options(true);
    let diffs = differ.compare(&a, &b);
    assert_eq!(diffs.len(), 1);
    assert_eq!(diffs[0].diff_type, DiffType::Modified);
    assert_eq!(diffs[0].modified_cells, vec![1]);
}

#[test]
fn typed_values_do_not_fuzzy_match_text_of_same_display() {
    // Fuzzy matching compares typed values: an integer one and the text "1"
    // differ, even though their display texts collide in the row key.
    let a = vec![vec![CellValue::Int(1), text("x")]];
    let b = vec![vec![text("1"), text("y")]];
    let differ = WorksheetDiffer::new();
    let diffs = differ.compare(&a, &b);
    assert_eq!(diffs.len(), 2);
    assert_eq!(diffs[0].diff_type, DiffType::Removed);
    assert_eq!(diffs[1].diff_type, DiffType::Added);
}
