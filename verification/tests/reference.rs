use atref::reference::at_quoted;

#[test]
fn formats_at_quoted_absolute_path() {
    let p = r"D:\jfuchs\dev\second-brain\note.md";
    assert_eq!(at_quoted(p), r#"@"D:\jfuchs\dev\second-brain\note.md""#);
}

#[test]
fn always_quotes_even_without_spaces() {
    let p = r"C:\a\b.md";
    assert_eq!(at_quoted(p), r#"@"C:\a\b.md""#);
}

#[test]
fn quotes_paths_with_spaces_verbatim() {
    assert_eq!(
        at_quoted(r"C:\notes\Weekly Review.md"),
        r#"@"C:\notes\Weekly Review.md""#
    );
}
