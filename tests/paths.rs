use tempfs::paths::{
    directory_prefixes, file_name, first_missing_directory_component, get_components, join,
    normalize_path, parent_path, resolve_path,
};

#[test]
fn components_skip_empty_segments() {
    assert_eq!(get_components("/a//b/"), vec!["a".to_string(), "b".to_string()]);
    assert_eq!(get_components(""), Vec::<String>::new());
    assert_eq!(get_components("/"), Vec::<String>::new());
}

#[test]
fn normalize_splices_working_directory_for_leading_dot() {
    assert_eq!(normalize_path("./a/../b", "/home/u"), "/home/u/b");
    assert_eq!(normalize_path(".", "/home/u"), "/home/u");
}

#[test]
fn normalize_drops_inner_dots_and_pops_parents() {
    assert_eq!(normalize_path("/a/./b/../c", "/w"), "/a/c");
    assert_eq!(normalize_path("a/./b", "/w"), "a/b");
    assert_eq!(normalize_path("a/../../b", "/w"), "b");
    assert_eq!(normalize_path("/..", "/w"), "/");
    assert_eq!(normalize_path("", "/w"), "");
}

#[test]
fn resolve_grounds_relative_paths_under_base() {
    assert_eq!(resolve_path("x.txt", "/tmp", "/cwd"), "/tmp/x.txt");
    assert_eq!(resolve_path("d/x.txt", "/tmp/", "/cwd"), "/tmp/d/x.txt");
    assert_eq!(resolve_path("/abs/x.txt", "/tmp", "/cwd"), "/abs/x.txt");
    assert_eq!(resolve_path("./x.txt", "/tmp", "/cwd"), "/cwd/x.txt");
}

#[test]
fn join_replaces_with_absolute() {
    assert_eq!(join("/a", "b"), "/a/b");
    assert_eq!(join("/a/", "b"), "/a/b");
    assert_eq!(join("/a", "/b"), "/b");
}

#[test]
fn parent_and_file_name() {
    assert_eq!(parent_path("/a/b"), Some("/a".to_string()));
    assert_eq!(parent_path("/a"), Some("/".to_string()));
    assert_eq!(parent_path("/"), None);
    assert_eq!(parent_path("a"), Some("".to_string()));
    assert_eq!(file_name("/a/b.txt"), Some("b.txt".to_string()));
    assert_eq!(file_name("/a/.."), None);
    assert_eq!(file_name("/"), None);
}

#[test]
fn prefixes_run_from_root_to_parent() {
    assert_eq!(
        directory_prefixes("/a/b/c"),
        vec!["/".to_string(), "/a".to_string(), "/a/b".to_string()]
    );
    assert_eq!(directory_prefixes("x/y"), vec!["x".to_string()]);
    assert_eq!(directory_prefixes("/"), Vec::<String>::new());
}

#[test]
fn first_missing_is_outermost_absent_prefix() {
    assert_eq!(
        first_missing_directory_component("/a/b/c", &[true, true, false]),
        Some("/a/b".to_string())
    );
    assert_eq!(
        first_missing_directory_component("/a/b/c", &[true, false, false]),
        Some("/a".to_string())
    );
    assert_eq!(first_missing_directory_component("/a/b/c", &[true, true, true]), None);
}
