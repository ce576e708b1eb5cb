use exceldiff::CellValue;

fn text(s: &str) -> CellValue {
    CellValue::Text(s.to_string())
}

#[test]
fn normalize_keeps_text_without_flag() {
    let v = text("a  b");
    let n = v.normalize();
    assert_eq!(n, text("a  b"));
}

#[test]
fn normalize_collapses_whitespace_with_flag() {
    let v = text("  a \t b\nc  ");
    let n = v.normalize_with_options(true);
    assert_eq!(n, text("a b c"));
}

#[test]
fn normalize_passes_other_variants_through() {
    assert_eq!(CellValue::Int(7).normalize_with_options(true), CellValue::Int(7));
    assert_eq!(CellValue::Bool(true).normalize_with_options(true), CellValue::Bool(true));
    assert_eq!(CellValue::Empty.normalize_with_options(true), CellValue::Empty);
    let num = CellValue::Number("1.5".to_string());
    assert_eq!(num.normalize_with_options(true), CellValue::Number("1.5".to_string()));
    let dt = CellValue::DateTime("45000.25".to_string());
    assert_eq!(dt.normalize_with_options(true), CellValue::DateTime("45000.25".to_string()));
}

#[test]
fn normalize_is_idempotent_on_samples() {
    let samples = vec![
        text(""),
        text("   "),
        text("a"),
        text(" a  b\t\tc "),
        text("already clean"),
        CellValue::Int(-5),
        CellValue::Bool(false),
        CellValue::Empty,
        CellValue::Number("2.25".to_string()),
    ];
    for v in samples {
        for flag in [false, true] {
            let once = v.normalize_with_options(flag);
            let twice = once.normalize_with_options(flag);
            assert_eq!(twice, once);
        }
    }
}

#[test]
fn to_string_renders_integers() {
    assert_eq!(CellValue::Int(0).to_string(), "0");
    assert_eq!(CellValue::Int(42).to_string(), "42");
    assert_eq!(CellValue::Int(-123).to_string(), "-123");
    assert_eq!(CellValue::Int(i64::MAX).to_string(), "9223372036854775807");
    assert_eq!(CellValue::Int(i64::MIN).to_string(), "-9223372036854775808");
}

#[test]
fn to_string_renders_other_variants() {
    assert_eq!(text("hello").to_string(), "hello");
    assert_eq!(CellValue::Number("3.25".to_string()).to_string(), "3.25");
    assert_eq!(CellValue::DateTime("45000.5".to_string()).to_string(), "45000.5");
    assert_eq!(CellValue::Bool(true).to_string(), "true");
    assert_eq!(CellValue::Bool(false).to_string(), "false");
    assert_eq!(CellValue::Empty.to_string(), "");
}

#[test]
fn to_string_does_not_collapse_whitespace() {
    assert_eq!(text("a  b").to_string(), "a  b");
}

#[test]
fn all_blank_characters_collapse() {
    let v = CellValue::Text("a\u{b}\u{c}\r\n\tb".to_string());
    assert_eq!(v.normalize_with_options(true), CellValue::Text("a b".to_string()));
}

#[test]
fn blank_only_text_collapses_to_empty_text() {
    let v = CellValue::Text(" \t\r\n ".to_string());
    assert_eq!(v.normalize_with_options(true), CellValue::Text(String::new()));
}

#[test]
fn unicode_whitespace_collapses_too() {
    let v = CellValue::Text("a\u{a0}b".to_string());
    assert_eq!(v.normalize_with_options(true), CellValue::Text("a b".to_string()));
    let w = CellValue::Text("x\u{2003}\u{2028}y\u{3000}".to_string());
    assert_eq!(w.normalize_with_options(true), CellValue::Text("x y".to_string()));
}
