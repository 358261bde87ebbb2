use cirrus::path::{
    materialize_with, materialized_to_path, path_to_materialized, replace_chars, replace_separator,
    replace_with_common_separator,
};

#[test]
fn materialized_form_of_unix_path() {
    assert_eq!(materialize_with("/music/jazz", '/'), ",,music,jazz,");
    assert_eq!(materialize_with("music/jazz", '/'), ",music,jazz,");
}

#[test]
fn materialized_form_of_windows_path() {
    assert_eq!(materialize_with("C:\\music\\jazz", '\\'), ",C:,music,jazz,");
}

#[test]
fn path_to_materialized_uses_platform_separator() {
    let sep = std::path::MAIN_SEPARATOR;
    let path = format!("music{}jazz", sep);
    assert_eq!(path_to_materialized(&path), ",music,jazz,");
}

#[test]
fn replace_with_common_separator_on_platform() {
    let sep = std::path::MAIN_SEPARATOR;
    let path = format!("a{}b{}c", sep, sep);
    assert_eq!(replace_with_common_separator(&path), "a/b/c");
}

#[test]
fn replace_separator_keeps_other_characters() {
    assert_eq!(replace_separator("a\\b/c", '\\'), "a/b/c");
    assert_eq!(replace_chars("x,y,z", ',', '/'), "x/y/z");
    assert_eq!(replace_chars("", ',', '/'), "");
}

#[test]
fn materialized_to_path_reads_back() {
    assert_eq!(materialized_to_path(",music,jazz,"), "music/jazz");
    assert_eq!(materialized_to_path(",,"), "");
}

#[test]
fn materialized_round_trip_on_values() {
    let m = materialize_with("/home/user/music", '/');
    assert_eq!(materialized_to_path(&m), "/home/user/music");
    let w = materialize_with("D:\\audio\\lib", '\\');
    assert_eq!(materialized_to_path(&w), "D:/audio/lib");
}

#[test]
fn materialized_subtree_prefix_on_values() {
    let root = materialize_with("/music", '/');
    let child = materialize_with("/music/jazz/live", '/');
    assert!(child.starts_with(&root));
}

#[test]
fn common_path_idempotent_on_values() {
    let once = replace_separator("a\\b\\c", '\\');
    let twice = replace_separator(&once, '\\');
    assert_eq!(once, twice);
}

#[test]
fn sibling_extending_name_is_not_below() {
    let a = materialize_with("/music/a", '/');
    assert!(!materialize_with("/music/ab", '/').starts_with(&a));
    assert!(materialize_with("/music/a", '/').starts_with(&a));
    assert!(materialize_with("/music/a/b", '/').starts_with(&a));
    assert!(!materialize_with("/music", '/').starts_with(&a));
}
