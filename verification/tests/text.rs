use zerobrew::path::{file_name, join};
use zerobrew::text::{chars_of, contains, replace, same_text, split_once, starts_with, trim};
use zerobrew::text_map::{text_precedes, TextMap};

#[test]
fn texts_are_searched() {
    assert!(contains("abcabd", "abd"));
    assert!(contains("abc", ""));
    assert!(!contains("ab", "abc"));
    assert!(starts_with("homebrew-core", "homebrew-"));
    assert!(!starts_with("core", "homebrew-"));
    assert!(same_text("é", "é"));
    assert!(!same_text("a", "A"));
    assert_eq!(chars_of("añb"), vec!['a', 'ñ', 'b']);
}

#[test]
fn occurrences_are_replaced_from_the_left() {
    assert_eq!(replace("aaaaa", "aa", "b"), "bba");
    assert_eq!(replace("x#{v}y#{v}", "#{v}", "1"), "x1y1");
    assert_eq!(replace("abc", "d", "e"), "abc");
    assert_eq!(replace("aa", "a", "aa"), "aaaa");
}

#[test]
fn ends_are_trimmed() {
    assert_eq!(trim("\"a\"b\"\"", "\""), "a\"b");
    assert_eq!(trim("'\"x\"'", "'\""), "x");
    assert_eq!(trim("::", ":"), "");
    assert_eq!(trim("a", ""), "a");
}

#[test]
fn texts_are_split_at_the_first_place() {
    assert_eq!(split_once("a/b/c", '/'), Some(("a".to_string(), "b/c".to_string())));
    assert_eq!(split_once("/", '/'), Some((String::new(), String::new())));
    assert_eq!(split_once("abc", '/'), None);
}

#[test]
fn texts_are_ordered_by_their_characters() {
    assert!(text_precedes("", "a"));
    assert!(text_precedes("a", "ab"));
    assert!(text_precedes("Z", "a"));
    assert!(text_precedes("a", "é"));
    assert!(!text_precedes("a", "a"));
    assert!(!text_precedes("b", "a"));
}

#[test]
fn map_keeps_the_last_value_of_each_key() {
    let mut map: TextMap<u32> = TextMap::new();
    assert!(map.is_empty());
    map.insert("b".to_string(), 1);
    map.insert("a".to_string(), 2);
    map.insert("c".to_string(), 3);
    map.insert("b".to_string(), 4);
    assert!(!map.is_empty());
    assert_eq!(map.len(), 3);
    assert_eq!(map.keys(), vec!["a", "b", "c"]);
    assert_eq!(map.get("b"), Some(&4));
    assert_eq!(map.get("d"), None);
    assert!(map.contains_key("a"));
    assert!(!map.contains_key("ab"));
}

#[test]
fn paths_are_joined() {
    assert_eq!(join("/opt", "db"), "/opt/db");
    assert_eq!(join("/opt/", "db"), "/opt/db");
    assert_eq!(join("", "db"), "db");
    assert_eq!(join("/opt", "/etc"), "/etc");
    assert_eq!(join("/opt", ""), "/opt/");
    assert_eq!(join(&join("a", "b"), "c"), join("a", &join("b", "c")));
}

#[test]
fn paths_are_joined_as_std_joins_them() {
    let parts = ["", "a", "/", "a/", "/a/b", ".", "./x", ".."];
    for base in parts {
        for part in parts {
            let expected = std::path::Path::new(base).join(part);
            assert_eq!(join(base, part), expected.to_str().unwrap());
        }
    }
}

#[test]
fn file_names_are_those_of_std() {
    let paths = [
        "", "/", ".", "..", "a", "a/b", "a/b/", "a/b//", "a/.", "a/./", "a/..", "a/../", "./.",
        "./a", "/.", "...", "a/.b", "a/b.", "a/../b", "//a", "a/./.", "/a/b/./",
    ];
    for path in paths {
        let expected = std::path::Path::new(path).file_name();
        assert_eq!(file_name(path), expected.map(|n| n.to_str().unwrap().to_string()), "{path}");
    }
}
