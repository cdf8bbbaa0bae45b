use nag_core::paths::path_looks_like_file;

#[test]
fn test_path_looks_like_file() {
    // Files with extensions
    assert!(path_looks_like_file("index.html"));
    assert!(path_looks_like_file("assets/main.js"));
    assert!(path_looks_like_file("images/logo.png"));
    assert!(path_looks_like_file("deeply/nested/path/file.css"));

    // Routes (no extension in last segment)
    assert!(!path_looks_like_file(""));
    assert!(!path_looks_like_file("chores"));
    assert!(!path_looks_like_file("chores/123"));
    assert!(!path_looks_like_file("settings/profile"));
}

#[test]
fn test_path_with_dot_only_in_earlier_segment() {
    assert!(!path_looks_like_file("v1.2/items"));
    assert!(path_looks_like_file("v1.2/items.json"));
    assert!(!path_looks_like_file("a.b/c/d"));
}
