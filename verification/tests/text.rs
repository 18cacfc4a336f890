use dom_tree::classes::{split_set, ClassSet};
use dom_tree::text::{indent_prefix, str_eq};

#[test]
fn indent_prefix_counts_spaces() {
    assert_eq!(indent_prefix(0), "");
    assert_eq!(indent_prefix(1), " ");
    assert_eq!(indent_prefix(2), "  ");
    assert_eq!(indent_prefix(7), "       ");
}

#[test]
fn str_eq_on_equal_strings() {
    assert!(str_eq("", ""));
    assert!(str_eq("a", "a"));
    assert!(str_eq("class", "class"));
    assert!(str_eq("héllo wörld", "héllo wörld"));
}

#[test]
fn str_eq_on_different_strings() {
    assert!(!str_eq("", "a"));
    assert!(!str_eq("a", ""));
    assert!(!str_eq("a", "b"));
    assert!(!str_eq("ab", "abc"));
    assert!(!str_eq("abc", "ab"));
    assert!(!str_eq("abc", "abd"));
    assert!(!str_eq("xbc", "abc"));
    assert!(!str_eq("é", "e"));
}

#[test]
fn empty_class_set() {
    let set = ClassSet::new();
    assert_eq!(set.len(), 0);
    assert!(!set.contains(""));
    assert!(!set.contains("a"));
    assert!(set.names().is_empty());
}

#[test]
fn class_set_insert_collapses_duplicates() {
    let mut set = ClassSet::new();
    set.insert("a");
    set.insert("b");
    set.insert("a");
    assert_eq!(set.len(), 2);
    assert!(set.contains("a"));
    assert!(set.contains("b"));
    assert!(!set.contains("c"));
    assert_eq!(set.names(), &vec!["a", "b"]);
}

#[test]
fn split_on_single_spaces() {
    let set = split_set("a b c", ' ');
    assert_eq!(set.len(), 3);
    assert_eq!(set.names(), &vec!["a", "b", "c"]);
}

#[test]
fn split_of_empty_string_gives_empty_piece() {
    let set = split_set("", ' ');
    assert_eq!(set.len(), 1);
    assert!(set.contains(""));
}

#[test]
fn split_without_separator_gives_whole_string() {
    let set = split_set("button", ' ');
    assert_eq!(set.len(), 1);
    assert!(set.contains("button"));
    assert!(!set.contains(""));
}

#[test]
fn split_keeps_empty_pieces_at_the_ends() {
    let leading = split_set(" a", ' ');
    assert_eq!(leading.names(), &vec!["", "a"]);
    let trailing = split_set("a ", ' ');
    assert_eq!(trailing.names(), &vec!["a", ""]);
    let only = split_set(" ", ' ');
    assert_eq!(only.names(), &vec![""]);
    assert_eq!(only.len(), 1);
}

#[test]
fn split_on_other_separator() {
    let set = split_set("a,b c,,d", ',');
    assert_eq!(set.names(), &vec!["a", "b c", "", "d"]);
}

#[test]
fn split_counts_characters_not_bytes() {
    let set = split_set("é ü ß", ' ');
    assert_eq!(set.names(), &vec!["é", "ü", "ß"]);
    let wide = split_set("日本 語", ' ');
    assert_eq!(wide.names(), &vec!["日本", "語"]);
}
