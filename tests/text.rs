use scrumple::paths::{join_path, node_module_candidates, normalize, parent_dir};
use scrumple::text::{count_lines, text_eq, text_starts_with, to_quoted_json_string};

#[test]
fn count_lines_counts_line_feeds() {
    assert_eq!(count_lines(""), 1);
    assert_eq!(count_lines("console.log(1)"), 1);
    assert_eq!(count_lines("a\nb\n"), 3);
    assert_eq!(count_lines("a\r\nb"), 2);
}

#[test]
fn quoted_json_string_escapes() {
    assert_eq!(to_quoted_json_string("/a/b.js"), "\"/a/b.js\"");
    assert_eq!(to_quoted_json_string("a\"b\\c"), "\"a\\\"b\\\\c\"");
    assert_eq!(to_quoted_json_string(""), "\"\"");
}

#[test]
fn text_comparisons() {
    assert!(text_eq("abc", "abc"));
    assert!(!text_eq("abc", "abd"));
    assert!(!text_eq("abc", "ab"));
    assert!(text_starts_with("--map", "--"));
    assert!(!text_starts_with("-", "--"));
}

#[test]
fn parents_and_joins() {
    assert_eq!(parent_dir("/a/b"), Some("/a".to_string()));
    assert_eq!(parent_dir("/a"), Some("/".to_string()));
    assert_eq!(parent_dir("/"), None);
    assert_eq!(parent_dir(""), None);
    assert_eq!(parent_dir("a"), Some("".to_string()));
    assert_eq!(join_path("/a", "b"), "/a/b");
    assert_eq!(join_path("/", "b"), "/b");
    assert_eq!(join_path("", "b"), "b");
}

#[test]
fn node_module_candidates_walk_up() {
    assert_eq!(
        node_module_candidates("/p/src", "lodash/fp"),
        vec![
            "/p/src/node_modules/lodash/fp".to_string(),
            "/p/node_modules/lodash/fp".to_string(),
            "/node_modules/lodash/fp".to_string(),
        ]
    );
}

#[test]
fn normalize_paths() {
    let n = normalize;
    assert_eq!(n("/a/./b/../c.js"), Some("/a/c.js".to_string()));
    assert_eq!(n("/a//b/"), Some("/a/b".to_string()));
    assert_eq!(n("/"), Some("/".to_string()));
    assert_eq!(n("/a/../.."), None);
    assert_eq!(n("/.."), None);
}

#[test]
fn quoted_json_string_control_characters() {
    assert_eq!(to_quoted_json_string("a\u{1}\n\u{8}\u{c}\r\t\u{1f}é"), "\"a\\u0001\\n\\b\\f\\r\\t\\u001fé\"");
}
