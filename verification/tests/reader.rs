use exceldiff::ExcelReader;

#[test]
fn supports_plain_workbook_paths() {
    let reader = ExcelReader::new();
    assert!(reader.supports("a.xlsx"));
    assert!(reader.supports("dir/file.xlsx"));
    assert!(reader.supports("deep/er/path/report.xlsx"));
}

#[test]
fn supports_ignores_ascii_case() {
    let reader = ExcelReader::new();
    assert!(reader.supports("A.XLSX"));
    assert!(reader.supports("mixed.XlSx"));
}

#[test]
fn rejects_other_extensions() {
    let reader = ExcelReader::new();
    assert!(!reader.supports("a.xls"));
    assert!(!reader.supports("a.csv"));
    assert!(!reader.supports("a.xlsx.bak"));
    assert!(!reader.supports("noext"));
    assert!(!reader.supports(""));
    assert!(!reader.supports("trailing."));
}

#[test]
fn hidden_file_has_no_extension() {
    let reader = ExcelReader::new();
    assert!(!reader.supports(".xlsx"));
    assert!(!reader.supports("dir/.xlsx"));
}

#[test]
fn trailing_slashes_are_dropped_first() {
    let reader = ExcelReader::new();
    assert!(reader.supports("a.xlsx/"));
    assert!(!reader.supports("a.xlsx/b"));
}

#[test]
fn trailing_dot_components_are_dropped_too() {
    let reader = ExcelReader::new();
    assert!(reader.supports("a.xlsx/."));
    assert!(reader.supports("a.xlsx/./"));
    assert!(!reader.supports("."));
    assert!(!reader.supports("a.xlsx/.."));
}
