use dom_tree::dom::{AttrMap, ElementData, Node, NodeType};

fn s(text: &str) -> String {
    String::from(text)
}

fn element(tag: &str, pairs: &[(&str, &str)]) -> ElementData {
    let mut attrs = AttrMap::new();
    for (name, value) in pairs {
        attrs.insert(s(name), s(value));
    }
    ElementData::new(s(tag), attrs)
}

#[test]
fn element_new_keeps_tag_and_attributes() {
    let mut attrs = AttrMap::new();
    attrs.insert(s("href"), s("#top"));
    let data = ElementData::new(s("a"), attrs);
    assert_eq!(data.tag_name, "a");
    assert_eq!(data.attributes.len(), 1);
    assert_eq!(data.attributes.get("href"), Some(&s("#top")));
}

#[test]
fn element_new_does_not_validate() {
    let data = ElementData::new(s("not a <tag>"), AttrMap::new());
    assert_eq!(data.tag_name, "not a <tag>");
    let empty = ElementData::new(s(""), AttrMap::new());
    assert_eq!(empty.tag_name, "");
}

#[test]
fn node_new_keeps_payload_and_children() {
    let leaf = Node::new(NodeType::Text(s("hi")), vec![]);
    assert!(leaf.children.is_empty());
    assert!(leaf.node_type == NodeType::Text(s("hi")));
    let parent = Node::new(
        NodeType::Element(element("p", &[])),
        vec![
            Node::new(NodeType::Text(s("one")), vec![]),
            Node::new(NodeType::Comment(s("two")), vec![]),
        ],
    );
    assert_eq!(parent.children.len(), 2);
    assert!(parent.children[0].node_type == NodeType::Text(s("one")));
    assert!(parent.children[1].node_type == NodeType::Comment(s("two")));
}

#[test]
fn node_new_accepts_text_with_children() {
    let odd = Node::new(
        NodeType::Text(s("parent")),
        vec![Node::new(NodeType::Text(s("child")), vec![])],
    );
    assert_eq!(odd.children.len(), 1);
}

#[test]
fn get_id_present() {
    let data = element("div", &[("id", "x")]);
    assert_eq!(data.get_id(), Some(&s("x")));
}

#[test]
fn get_id_absent() {
    let data = element("div", &[]);
    assert_eq!(data.get_id(), None);
}

#[test]
fn get_id_ignores_other_attributes() {
    let data = element("div", &[("class", "x"), ("ID", "upper"), ("idx", "y"), ("i", "z")]);
    assert_eq!(data.get_id(), None);
    let both = element("div", &[("class", "x"), ("id", "main")]);
    assert_eq!(both.get_id(), Some(&s("main")));
}

#[test]
fn get_id_may_be_empty() {
    let data = element("div", &[("id", "")]);
    assert_eq!(data.get_id(), Some(&s("")));
}

#[test]
fn get_id_sees_last_write() {
    let data = element("div", &[("id", "first"), ("id", "second")]);
    assert_eq!(data.get_id(), Some(&s("second")));
}

#[test]
fn get_classes_three_names() {
    let data = element("div", &[("class", "a b c")]);
    let classes = data.get_classes();
    assert_eq!(classes.len(), 3);
    assert!(classes.contains("a"));
    assert!(classes.contains("b"));
    assert!(classes.contains("c"));
    assert!(!classes.contains(""));
    assert!(!classes.contains("a b c"));
}

#[test]
fn get_classes_absent() {
    let data = element("div", &[("id", "x")]);
    let classes = data.get_classes();
    assert_eq!(classes.len(), 0);
    assert!(!classes.contains(""));
}

#[test]
fn get_classes_double_space_gives_empty_name() {
    let data = element("div", &[("class", "a  b")]);
    let classes = data.get_classes();
    assert_eq!(classes.len(), 3);
    assert!(classes.contains("a"));
    assert!(classes.contains("b"));
    assert!(classes.contains(""));
}

#[test]
fn get_classes_of_empty_value() {
    let data = element("div", &[("class", "")]);
    let classes = data.get_classes();
    assert_eq!(classes.len(), 1);
    assert!(classes.contains(""));
}

#[test]
fn get_classes_leading_and_trailing_space() {
    let data = element("div", &[("class", " a ")]);
    let classes = data.get_classes();
    assert_eq!(classes.len(), 2);
    assert!(classes.contains("a"));
    assert!(classes.contains(""));
}

#[test]
fn get_classes_collapses_duplicates() {
    let data = element("div", &[("class", "a b a b a")]);
    let classes = data.get_classes();
    assert_eq!(classes.len(), 2);
    assert!(classes.contains("a"));
    assert!(classes.contains("b"));
}

#[test]
fn get_classes_splits_on_space_only() {
    let data = element("div", &[("class", "a\tb\nc d")]);
    let classes = data.get_classes();
    assert_eq!(classes.len(), 2);
    assert!(classes.contains("a\tb\nc"));
    assert!(classes.contains("d"));
    assert!(!classes.contains("a"));
}

#[test]
fn get_classes_matches_std_split() {
    let values = ["", " ", "  ", "a", "a b", " a  b ", "x y x", "é  ü é", "one two  three   "];
    for value in values {
        let data = element("div", &[("class", value)]);
        let classes = data.get_classes();
        let expected: std::collections::HashSet<&str> = value.split(' ').collect();
        assert_eq!(classes.len(), expected.len());
        for name in &expected {
            assert!(classes.contains(name));
        }
        for name in classes.names() {
            assert!(expected.contains(name));
        }
    }
}
