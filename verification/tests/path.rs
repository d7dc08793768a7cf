use atref::path::{file_name, normalize_path, same_path};

#[test]
fn file_name_is_the_last_component() {
    assert_eq!(file_name(r"D:\v\a\b.md"), Some("b.md"));
    assert_eq!(file_name("/home/u/x.md"), Some("x.md"));
    assert_eq!(file_name("x.md"), Some("x.md"));
}

#[test]
fn file_name_ignores_trailing_separators_and_dot_components() {
    assert_eq!(file_name(r"D:\v\sub\"), Some("sub"));
    assert_eq!(file_name(r"D:\v\sub\."), Some("sub"));
    assert_eq!(file_name("a/./."), Some("a"));
}

#[test]
fn file_name_is_absent_for_roots_and_parent_links() {
    assert_eq!(file_name(r"C:\"), None);
    assert_eq!(file_name("C:"), None);
    assert_eq!(file_name(r"D:\v\.."), None);
    assert_eq!(file_name("."), None);
    assert_eq!(file_name(""), None);
    assert_eq!(file_name("/"), None);
}

#[test]
fn paths_compare_by_components() {
    assert!(same_path(r"C:\x\", r"C:\x"));
    assert!(same_path(r"c:\x", r"C:\x"));
    assert!(same_path(r"C:/x//y/./", r"C:\x\y"));
    assert!(!same_path(r"C:\x", r"C:x"));
    assert!(!same_path(r"C:\x", r"\x"));
    assert!(!same_path(r".\a", "a"));
    assert!(!same_path(r"C:\x\..", r"C:\"));
    assert!(!same_path(r"C:\X", r"C:\x"));
    assert_eq!(normalize_path(r"c:/Users//me/./"), r"C:\Users\me");
    assert_eq!(normalize_path(r"C:\"), r"C:\");
    assert_eq!(normalize_path(r"./a/./b"), r".\a\b");
    assert_eq!(normalize_path(""), "");
}
