use bintray_resource::path::{
    join_segments, normalize_path, path_segments, relative_path, remote_target_of,
    same_remote_path,
};

fn strings(items: &[&str]) -> Vec<String> {
    items.iter().map(|s| s.to_string()).collect()
}

#[test]
fn normal_form_has_no_redundant_segments() {
    assert_eq!(normalize_path("a/./b/../c//d/"), "a/c/d");
    assert_eq!(normalize_path("release/2.0.0/linux"), "release/2.0.0/linux");
}

#[test]
fn normal_form_has_no_leading_separator() {
    assert_eq!(normalize_path("/a/b"), "a/b");
    assert_eq!(normalize_path("///a"), "a");
}

#[test]
fn parent_of_the_root_is_the_root() {
    assert_eq!(normalize_path("../a"), "a");
    assert_eq!(normalize_path("a/../../b"), "b");
    assert_eq!(normalize_path("a/.."), "");
}

#[test]
fn empty_paths_have_no_segment() {
    assert_eq!(normalize_path(""), "");
    assert_eq!(normalize_path("."), "");
    assert_eq!(normalize_path("/"), "");
    assert_eq!(path_segments("./"), Vec::<String>::new());
}

#[test]
fn dots_inside_names_are_kept() {
    assert_eq!(normalize_path("a/.../b"), "a/.../b");
    assert_eq!(normalize_path(".hidden/..x/y."), ".hidden/..x/y.");
}

#[test]
fn normalizing_twice_changes_nothing() {
    let samples = ["", "/", "a//b/./c/../d", "../..", "x/y/z", "./a/", "a/b/../../.."];
    for sample in samples.iter() {
        let once = normalize_path(sample);
        assert_eq!(normalize_path(&once), once);
    }
}

#[test]
fn segments_and_join() {
    assert_eq!(path_segments("/a//b/./c"), strings(&["a", "b", "c"]));
    assert_eq!(join_segments(&strings(&["a", "b", "c"])), "a/b/c");
    assert_eq!(join_segments(&strings(&["a"])), "a");
    assert_eq!(join_segments(&Vec::new()), "");
}

#[test]
fn target_is_prefix_then_file() {
    assert_eq!(remote_target_of("release/1.0", "pkg/a.deb"), "release/1.0/pkg/a.deb");
    assert_eq!(remote_target_of("", "pkg/a.deb"), "pkg/a.deb");
    assert_eq!(remote_target_of("/x/", "./a"), "x/a");
    assert_eq!(remote_target_of("x/y", "../a"), "x/a");
}

#[test]
fn target_does_not_depend_on_the_form_of_the_prefix() {
    let prefixes = ["/release//1.0/", "release/./1.0", "release/1.0"];
    for prefix in prefixes.iter() {
        assert_eq!(remote_target_of(prefix, "a/b.txt"), "release/1.0/a/b.txt");
        assert_eq!(
            remote_target_of(&normalize_path(prefix), "a/b.txt"),
            remote_target_of(prefix, "a/b.txt")
        );
    }
}

#[test]
fn different_files_have_different_targets() {
    let files = ["a.txt", "b.txt", "dir/a.txt", "dir/sub/a.txt"];
    for x in files.iter() {
        for y in files.iter() {
            if x != y {
                assert_ne!(remote_target_of("p", x), remote_target_of("p", y));
            }
        }
    }
}

#[test]
fn same_object_under_different_spellings() {
    assert!(same_remote_path("a//b", "/a/b/"));
    assert!(same_remote_path("a/./b", "a/b"));
    assert!(same_remote_path("", "/"));
    assert!(!same_remote_path("a/b", "a/c"));
    assert!(!same_remote_path("a/b", "a"));
}

#[test]
fn relative_path_drops_the_prefix() {
    assert_eq!(
        relative_path("release/1.0/sub/a.txt", "release/1.0"),
        Some("sub/a.txt".to_string())
    );
    assert_eq!(relative_path("release/1.0/a.txt", "release/1.0/"), Some("a.txt".to_string()));
    assert_eq!(relative_path("a.txt", ""), Some("a.txt".to_string()));
    assert_eq!(relative_path("release/1.0", "release/1.0"), Some(String::new()));
}

#[test]
fn relative_path_outside_the_prefix_is_none() {
    assert_eq!(relative_path("other/a.txt", "release"), None);
    assert_eq!(relative_path("rel", "release"), None);
}

#[test]
fn relative_path_takes_the_prefix_as_plain_text() {
    assert_eq!(relative_path("release/1.01/a.txt", "release/1.0"), Some("1/a.txt".to_string()));
}
