use dhat::trim_path;

#[test]
fn test_trim_path() {
    assert_eq!(trim_path(""), "");
    assert_eq!(trim_path("/"), "/");
    assert_eq!(trim_path("aa.rs"), "aa.rs");
    assert_eq!(trim_path("/aa.rs"), "/aa.rs");
    assert_eq!(trim_path("bb/aa.rs"), "bb/aa.rs");
    assert_eq!(trim_path("/bb/aa.rs"), "/bb/aa.rs");
    assert_eq!(trim_path("cc/bb/aa.rs"), "cc/bb/aa.rs");
    assert_eq!(trim_path("/cc/bb/aa.rs"), "cc/bb/aa.rs");
    assert_eq!(trim_path("dd/cc/bb/aa.rs"), "cc/bb/aa.rs");
    assert_eq!(trim_path("/dd/cc/bb/aa.rs"), "cc/bb/aa.rs");
}

#[test]
fn trim_path_keeps_three_components_of_long_paths() {
    assert_eq!(trim_path("/aa/bb/cc/dd.rs"), "bb/cc/dd.rs");
    assert_eq!(trim_path("a/b/c/d/e/f/g.rs"), "e/f/g.rs");
    assert_eq!(trim_path("/rustc/library/alloc/src/vec/mod.rs"), "src/vec/mod.rs");
}

#[test]
fn trim_path_counts_characters_not_bytes() {
    assert_eq!(trim_path("/h\u{e9}/\u{fc}/c/d.rs"), "\u{fc}/c/d.rs");
}

#[test]
fn a_dot_between_separators_is_no_component() {
    assert_eq!(trim_path("a/./b/c"), "a/./b/c");
    assert_eq!(trim_path("/home/u/proj/./src/main.rs"), "proj/./src/main.rs");
    assert_eq!(trim_path("/./a/b/c"), "a/b/c");
    assert_eq!(trim_path("a/b/c/."), "a/b/c/.");
    assert_eq!(trim_path("a/b/c/d/."), "b/c/d");
    assert_eq!(trim_path("a/b/./././c/d"), "b/./././c/d");
}

#[test]
fn a_dot_at_the_start_is_a_component() {
    assert_eq!(trim_path("./a/b"), "./a/b");
    assert_eq!(trim_path("./a/b/c"), "a/b/c");
    assert_eq!(trim_path("."), ".");
}

#[test]
fn two_dots_and_names_with_dots_are_components() {
    assert_eq!(trim_path("a/b/../c"), "b/../c");
    assert_eq!(trim_path("a/.b/c/d"), ".b/c/d");
    assert_eq!(trim_path("a/b./c/.d"), "b./c/.d");
}

#[test]
fn separators_at_the_end_are_left_out_of_a_trimmed_path() {
    assert_eq!(trim_path("a/b/c/d/"), "b/c/d");
    assert_eq!(trim_path("a/b/c/d///"), "b/c/d");
    assert_eq!(trim_path("/a/b/c/./"), "a/b/c");
    // A path of up to three components comes back as it is.
    assert_eq!(trim_path("a/b/c/"), "a/b/c/");
    assert_eq!(trim_path("//"), "//");
}

#[test]
fn repeated_separators_separate_once() {
    assert_eq!(trim_path("a//b///c/d"), "b///c/d");
    assert_eq!(trim_path("//a//b"), "//a//b");
    assert_eq!(trim_path("//a//b//c"), "a//b//c");
}
