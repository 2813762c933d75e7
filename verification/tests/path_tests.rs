use lstodo::path::{is_absolute_path, path_is_under, path_relative_to};
use std::path::Path;

#[test]
fn absolute_paths_start_at_the_root() {
    for path in ["/", "/a", "/a/b.rs", "a", "a/b", "", "./a", "../a", " /a"] {
        assert_eq!(is_absolute_path(path), Path::new(path).is_absolute(), "{:?}", path);
    }
}

#[test]
fn under_means_equal_or_below() {
    assert!(path_is_under("/repo/src/a.rs", "/repo/"));
    assert!(path_is_under("/repo/src/a.rs", "/repo"));
    assert!(path_is_under("/repo", "/repo/"));
    assert!(path_is_under("/repo/", "/repo"));
    assert!(path_is_under("/repo", "/repo"));
    assert!(path_is_under("/anything", "/"));
    assert!(!path_is_under("/repository/a.rs", "/repo/"));
    assert!(!path_is_under("/rep", "/repo/"));
    assert!(!path_is_under("/other/repo/a.rs", "/repo/"));
    assert!(!path_is_under("", "/repo/"));
}

#[test]
fn relative_form_drops_the_base_and_its_separators() {
    assert_eq!(path_relative_to("/repo/src/a.rs", "/repo/"), "src/a.rs");
    assert_eq!(path_relative_to("/repo/src/a.rs", "/repo"), "src/a.rs");
    assert_eq!(path_relative_to("/repo//src/a.rs", "/repo//"), "src/a.rs");
    assert_eq!(path_relative_to("/repo", "/repo/"), "");
    assert_eq!(path_relative_to("/repo/", "/repo"), "");
    assert_eq!(path_relative_to("/a/b", "/"), "a/b");
    assert_eq!(path_relative_to("/é/ü/x", "/é/"), "ü/x");
}

#[test]
fn relative_form_agrees_with_the_standard_library() {
    let cases = [
        ("/repo/src/a.rs", "/repo/"),
        ("/repo/src/a.rs", "/repo"),
        ("/repo", "/repo/"),
        ("/a/b/c/d.txt", "/a/b"),
        ("/a/b", "/"),
        ("/repository/a.rs", "/repo/"),
        ("/x/y", "/x/y/z"),
    ];
    for (path, base) in cases {
        let expected = Path::new(path).strip_prefix(base).ok();
        assert_eq!(path_is_under(path, base), expected.is_some(), "{:?} {:?}", path, base);
        if let Some(rest) = expected {
            assert_eq!(Path::new(&path_relative_to(path, base)), rest);
        }
    }
}
