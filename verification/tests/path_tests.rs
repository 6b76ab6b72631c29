use unfound::path::{base_name, canonicalize, join, parent_dir};

#[test]
fn test_join() {
    assert_eq!(join("/home", &["user", "docs"]), "/home/user/docs");
    assert_eq!(join("/home/", &["user", "docs"]), "/home/user/docs");
    assert_eq!(join("home", &["user", "docs"]), "home/user/docs");
    assert_eq!(join("/", &["home", "user"]), "/home/user");
    assert_eq!(join("", &["home", "user"]), "home/user");
}

#[test]
fn test_canonicalize() {
    assert_eq!(canonicalize("/home/../usr/./local", None), "/usr/local");
    assert_eq!(canonicalize("/home/user//docs///", None), "/home/user/docs");
    assert_eq!(canonicalize("/home/../../usr", None), "/usr");
    assert_eq!(canonicalize("/home/../../", None), "/");
    assert_eq!(canonicalize("/", None), "/");

    assert_eq!(canonicalize("home/../usr/./local", None), "usr/local");
    assert_eq!(canonicalize("home/../../usr", None), "usr");
    assert_eq!(canonicalize("home/../..", None), ".");

    assert_eq!(
        canonicalize("docs/../files", Some("/home/user")),
        "/home/user/files"
    );
    assert_eq!(canonicalize("../files", Some("/home/user")), "/home/files");
    assert_eq!(canonicalize("../../files", Some("/home/user")), "/files");
}

#[test]
fn test_parent_dir() {
    assert_eq!(
        parent_dir("/home/user/docs"),
        Some("/home/user".to_string())
    );
    assert_eq!(parent_dir("/home"), Some("/".to_string()));
    assert_eq!(parent_dir("/"), None);
    assert_eq!(parent_dir("home/user"), Some("home".to_string()));
    assert_eq!(parent_dir("home"), Some(".".to_string()));
}

#[test]
fn test_base_name() {
    assert_eq!(
        base_name("/home/user/docs.txt"),
        Some("docs.txt".to_string())
    );
    assert_eq!(base_name("/home/user/"), Some("user".to_string()));
    assert_eq!(base_name("/"), None);
    assert_eq!(base_name("home/user"), Some("user".to_string()));
    assert_eq!(base_name("home"), Some("home".to_string()));
}

#[test]
fn join_skips_empty_segments_and_extra_slashes() {
    assert_eq!(join("/a", &["", "b"]), "/a/b");
    assert_eq!(join("/a", &["//b"]), "/a/b");
    assert_eq!(join("a///", &["b"]), "a/b");
    assert_eq!(join("", &[]), "");
    assert_eq!(join("/", &[]), "/");
}

#[test]
fn canonicalize_empty_and_multibyte() {
    assert_eq!(canonicalize("", None), "/");
    assert_eq!(canonicalize(".", None), ".");
    assert_eq!(canonicalize("..", None), ".");
    assert_eq!(canonicalize("/\u{6587}\u{4ef6}/./x", None), "/\u{6587}\u{4ef6}/x");
    assert_eq!(canonicalize("a/b", Some("rel")), "rel/a/b");
}

#[test]
fn parent_and_base_name_edges() {
    assert_eq!(parent_dir(""), None);
    assert_eq!(parent_dir("/a/b/../c"), Some("/a".to_string()));
    assert_eq!(base_name(""), None);
    assert_eq!(base_name("///"), None);
    assert_eq!(base_name("a//"), Some("a".to_string()));
}
