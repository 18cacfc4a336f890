use dom_tree::attrs::AttrMap;

fn s(text: &str) -> String {
    String::from(text)
}

#[test]
fn new_map_is_empty() {
    let attrs = AttrMap::new();
    assert_eq!(attrs.len(), 0);
    assert!(attrs.get("id").is_none());
    assert!(attrs.pairs().is_empty());
}

#[test]
fn insert_then_get() {
    let mut attrs = AttrMap::new();
    assert_eq!(attrs.insert(s("href"), s("/index")), None);
    assert_eq!(attrs.len(), 1);
    assert_eq!(attrs.get("href"), Some(&s("/index")));
    assert_eq!(attrs.get("hre"), None);
    assert_eq!(attrs.get("hreff"), None);
    assert_eq!(attrs.get(""), None);
}

#[test]
fn insert_same_name_replaces_value() {
    let mut attrs = AttrMap::new();
    assert_eq!(attrs.insert(s("id"), s("first")), None);
    assert_eq!(attrs.insert(s("id"), s("second")), Some(s("first")));
    assert_eq!(attrs.len(), 1);
    assert_eq!(attrs.get("id"), Some(&s("second")));
}

#[test]
fn entries_keep_insertion_order() {
    let mut attrs = AttrMap::new();
    attrs.insert(s("b"), s("2"));
    attrs.insert(s("a"), s("1"));
    attrs.insert(s("c"), s("3"));
    let expected = vec![(s("b"), s("2")), (s("a"), s("1")), (s("c"), s("3"))];
    assert_eq!(attrs.pairs(), &expected);
}

#[test]
fn replaced_name_keeps_its_place() {
    let mut attrs = AttrMap::new();
    attrs.insert(s("b"), s("2"));
    attrs.insert(s("a"), s("1"));
    attrs.insert(s("c"), s("3"));
    assert_eq!(attrs.insert(s("b"), s("20")), Some(s("2")));
    assert_eq!(attrs.insert(s("c"), s("30")), Some(s("3")));
    let expected = vec![(s("b"), s("20")), (s("a"), s("1")), (s("c"), s("30"))];
    assert_eq!(attrs.pairs(), &expected);
    assert_eq!(attrs.len(), 3);
}

#[test]
fn empty_name_and_empty_value_are_stored() {
    let mut attrs = AttrMap::new();
    attrs.insert(s(""), s("nameless"));
    attrs.insert(s("hidden"), s(""));
    assert_eq!(attrs.get(""), Some(&s("nameless")));
    assert_eq!(attrs.get("hidden"), Some(&s("")));
    assert_eq!(attrs.len(), 2);
}

#[test]
fn names_differing_in_case_are_distinct() {
    let mut attrs = AttrMap::new();
    attrs.insert(s("id"), s("lower"));
    attrs.insert(s("ID"), s("upper"));
    assert_eq!(attrs.len(), 2);
    assert_eq!(attrs.get("id"), Some(&s("lower")));
    assert_eq!(attrs.get("ID"), Some(&s("upper")));
}

#[test]
fn non_ascii_names_are_told_apart() {
    let mut attrs = AttrMap::new();
    attrs.insert(s("él"), s("1"));
    attrs.insert(s("el"), s("2"));
    attrs.insert(s("é"), s("3"));
    assert_eq!(attrs.len(), 3);
    assert_eq!(attrs.get("él"), Some(&s("1")));
    assert_eq!(attrs.get("el"), Some(&s("2")));
    assert_eq!(attrs.get("é"), Some(&s("3")));
    assert_eq!(attrs.get("e"), None);
}

#[test]
fn maps_with_same_pairs_in_other_order_are_equal() {
    let mut a = AttrMap::new();
    a.insert(s("id"), s("x"));
    a.insert(s("class"), s("y"));
    let mut b = AttrMap::new();
    b.insert(s("class"), s("y"));
    b.insert(s("id"), s("x"));
    assert!(a == b);
    assert!(b == a);
    assert!(!(a != b));
}

#[test]
fn maps_with_other_value_are_not_equal() {
    let mut a = AttrMap::new();
    a.insert(s("id"), s("x"));
    let mut b = AttrMap::new();
    b.insert(s("id"), s("y"));
    assert!(a != b);
    assert!(b != a);
}

#[test]
fn maps_with_other_name_are_not_equal() {
    let mut a = AttrMap::new();
    a.insert(s("id"), s("x"));
    let mut b = AttrMap::new();
    b.insert(s("name"), s("x"));
    assert!(a != b);
}

#[test]
fn map_is_not_equal_to_a_larger_one() {
    let mut a = AttrMap::new();
    a.insert(s("id"), s("x"));
    let mut b = AttrMap::new();
    b.insert(s("id"), s("x"));
    b.insert(s("class"), s("y"));
    assert!(a != b);
    assert!(b != a);
    assert!(AttrMap::new() != a);
    assert!(AttrMap::new() == AttrMap::new());
}

#[test]
fn clone_of_map_is_equal_and_keeps_order() {
    let mut a = AttrMap::new();
    a.insert(s("z"), s("26"));
    a.insert(s("y"), s("25"));
    let b = a.clone();
    assert!(a == b);
    assert_eq!(a.pairs(), b.pairs());
    a.insert(s("x"), s("24"));
    assert_eq!(b.len(), 2);
    assert!(a != b);
}
