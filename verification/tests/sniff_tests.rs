use dlxt::sniff::name_ext;

#[test]
fn extract_extension() {
    assert_eq!(name_ext("/footar"), None);
    assert_eq!(name_ext("/.tar"), None);
    assert_eq!(name_ext("/.tartar"), None);
    assert_eq!(name_ext("/foo.tartar"), None);
    assert_eq!(name_ext("/foo.tar.tar"), Some(("foo.tar".to_string(), "tar".to_string())));
    assert_eq!(
        name_ext("/foo.tar.tar.bz2"),
        Some(("foo.tar".to_string(), "tar.bz2".to_string()))
    );
    assert_eq!(name_ext("/foo.tar.tar.gz"), Some(("foo.tar".to_string(), "tar.gz".to_string())));
    assert_eq!(name_ext("/foo.tar.tar.xz"), Some(("foo.tar".to_string(), "tar.xz".to_string())));
    assert_eq!(name_ext("/foo.bar.bz2"), Some(("foo.bar".to_string(), "bz2".to_string())));
    assert_eq!(name_ext("/foo.bar.gz"), Some(("foo.bar".to_string(), "gz".to_string())));
    assert_eq!(name_ext("/foo.bar.xz"), Some(("foo.bar".to_string(), "xz".to_string())));
}

#[test]
fn split_compound_tag_wins_over_atomic() {
    assert_eq!(name_ext("foo.tar.tar.gz"), Some(("foo.tar".to_string(), "tar.gz".to_string())));
}

#[test]
fn split_rejects_names_without_suffix() {
    assert_eq!(name_ext("footar"), None);
    assert_eq!(name_ext(".tar"), None);
    assert_eq!(name_ext("foo.tartar"), None);
    assert_eq!(name_ext(""), None);
}

#[test]
fn split_bare_name_may_contain_dots() {
    assert_eq!(name_ext("foo.bar.xz"), Some(("foo.bar".to_string(), "xz".to_string())));
}

#[test]
fn split_handles_multibyte_characters() {
    assert_eq!(name_ext("dür.tar.gz"), Some(("dür".to_string(), "tar.gz".to_string())));
}

#[test]
fn split_ignores_directory_components() {
    assert_eq!(name_ext("dir/sub/x.tar.gz"), Some(("x".to_string(), "tar.gz".to_string())));
    assert_eq!(name_ext("a\\b.gz"), Some(("b".to_string(), "gz".to_string())));
}
