use crate::attrs::lemma_map_of_ignores_order;
pub use crate::attrs::AttrMap;
use crate::classes::{pieces, split_set, ClassSet};
use vstd::prelude::*;
use vstd::std_specs::cmp::PartialEqSpec;

verus! {

/// The name of the attribute that carries an element's identifier: `id`.
pub open spec fn id_name() -> Seq<char> {
    seq!['i', 'd']
}

/// The name of the attribute that carries an element's classes: `class`.
pub open spec fn class_name() -> Seq<char> {
    seq!['c', 'l', 'a', 's', 's']
}

/// What an element is, as equality sees it: its tag name and the mapping of
/// its attributes.
pub struct ElementView {
    pub tag_name: Seq<char>,
    pub attributes: Map<Seq<char>, Seq<char>>,
}

/// What a node's payload is, as equality sees it.
pub enum NodeTypeView {
    Text(Seq<char>),
    Element(ElementView),
    Comment(Seq<char>),
}

/// What a tree is, as equality sees it.
pub struct NodeView {
    pub node_type: NodeTypeView,
    pub children: Seq<NodeView>,
}

/// The payload of an element node.
pub struct ElementData {
    pub tag_name: String,
    pub attributes: AttrMap,
}

/// The payload of a node.
pub enum NodeType {
    Text(String),
    Element(ElementData),
    Comment(String),
}

/// A node of the document tree together with the subtrees below it, in
/// document order.
pub struct Node {
    pub children: Vec<Node>,
    pub node_type: NodeType,
}

impl View for ElementData {
    type V = ElementView;

    open spec fn view(&self) -> ElementView {
        ElementView { tag_name: self.tag_name@, attributes: self.attributes@ }
    }
}

impl View for NodeType {
    type V = NodeTypeView;

    open spec fn view(&self) -> NodeTypeView {
        match self {
            NodeType::Text(content) => NodeTypeView::Text(content@),
            NodeType::Element(data) => NodeTypeView::Element(data@),
            NodeType::Comment(content) => NodeTypeView::Comment(content@),
        }
    }
}

impl Node {
    /// The payload's view and, in document order, the views of the children.
    pub open spec fn tree_view(&self) -> NodeView
        decreases self,
    {
        NodeView {
            node_type: self.node_type@,
            children: Seq::new(
                self.children@.len(),
                |i: int|
                    if 0 <= i < self.children@.len() {
                        self.children@[i].tree_view()
                    } else {
                        arbitrary()
                    },
            ),
        }
    }
}

impl View for Node {
    type V = NodeView;

    open spec fn view(&self) -> NodeView {
        self.tree_view()
    }
}

impl Node {
    /// A tree's view holds the view of its payload and, in order, the views
    /// of its children.
    pub proof fn lemma_view(self)
        ensures
            self@.node_type == self.node_type@,
            self@.children.len() == self.children@.len(),
            forall|i: int|
                0 <= i < self.children@.len() ==> #[trigger] self@.children[i]
                    == self.children@[i]@,
    {
    }
}

impl ElementData {
    /// An element payload that owns the given tag name and attributes.
    pub fn new(tag_name: String, attributes: AttrMap) -> (data: ElementData)
        ensures
            data.tag_name == tag_name,
            data.attributes == attributes,
    {
        ElementData { tag_name, attributes }
    }

    /// The value of the `id` attribute, where the element has one.
    pub fn get_id(&self) -> (id: Option<&String>)
        ensures
            id is Some <==> self@.attributes.contains_key(id_name()),
            id matches Some(value) ==> value@ == self@.attributes[id_name()],
    {
        proof {
            reveal_strlit("id");
            assert("id"@ =~= id_name());
        }
        self.attributes.get("id")
    }

    /// The pieces into which single spaces cut the `class` attribute, as a
    /// set; the empty set where the element has no such attribute.
    pub fn get_classes(&self) -> (classes: ClassSet<'_>)
        ensures
            classes@ == if self@.attributes.contains_key(class_name()) {
                pieces(self@.attributes[class_name()], ' ')
            } else {
                Set::<Seq<char>>::empty()
            },
    {
        proof {
            reveal_strlit("class");
            assert("class"@ =~= class_name());
        }
        match self.attributes.get("class") {
            Some(value) => split_set(value.as_str(), ' '),
            None => ClassSet::new(),
        }
    }
}

impl Node {
    /// A node that owns the given payload and children.
    pub fn new(node_type: NodeType, children: Vec<Node>) -> (node: Node)
        ensures
            node.node_type == node_type,
            node.children == children,
    {
        Node { node_type, children }
    }

    /// Whether the two trees have equal payloads and, position by position,
    /// equal children.
    fn same_tree(&self, other: &Node) -> (same: bool)
        ensures
            same == (self@ == other@),
        decreases self,
    {
        proof {
            self.lemma_view();
            other.lemma_view();
        }
        if !(self.node_type == other.node_type) {
            return false;
        }
        if self.children.len() != other.children.len() {
            return false;
        }
        let mut i: usize = 0;
        while i < self.children.len()
            invariant
                i <= self.children.len(),
                self.children.len() == other.children.len(),
                self@.node_type == other@.node_type,
                forall|j: int| 0 <= j < i ==> self.children@[j]@ == other.children@[j]@,
            decreases self.children.len() - i,
        {
            if !self.children[i].same_tree(&other.children[i]) {
                proof {
                    self.lemma_view();
                    other.lemma_view();
                    assert(self@.children[i as int] != other@.children[i as int]);
                }
                return false;
            }
            i = i + 1;
        }
        proof {
            assert(self@.children =~= other@.children);
        }
        true
    }
}

impl Clone for ElementData {
    fn clone(&self) -> (copy: ElementData)
        ensures
            copy.tag_name@ == self.tag_name@,
            copy.attributes.entries() == self.attributes.entries(),
            copy@ == self@,
    {
        ElementData { tag_name: self.tag_name.clone(), attributes: self.attributes.clone() }
    }
}

impl Clone for NodeType {
    fn clone(&self) -> (copy: NodeType)
        ensures
            copy@ == self@,
    {
        match self {
            NodeType::Text(content) => NodeType::Text(content.clone()),
            NodeType::Element(data) => NodeType::Element(data.clone()),
            NodeType::Comment(content) => NodeType::Comment(content.clone()),
        }
    }
}

impl PartialEq for ElementData {
    /// Two elements are equal when their tag names are equal and their
    /// attributes map the same names to the same values.
    fn eq(&self, other: &ElementData) -> (same: bool) {
        self.tag_name == other.tag_name && self.attributes == other.attributes
    }
}

impl Eq for ElementData {}

impl vstd::std_specs::cmp::PartialEqSpecImpl for ElementData {
    open spec fn obeys_eq_spec() -> bool {
        true
    }

    open spec fn eq_spec(&self, other: &ElementData) -> bool {
        self@ == other@
    }
}

impl PartialEq for NodeType {
    /// Two payloads are equal when they are of the same variant and hold
    /// equal content.
    fn eq(&self, other: &NodeType) -> (same: bool) {
        match (self, other) {
            (NodeType::Text(a), NodeType::Text(b)) => *a == *b,
            (NodeType::Element(a), NodeType::Element(b)) => *a == *b,
            (NodeType::Comment(a), NodeType::Comment(b)) => *a == *b,
            _ => false,
        }
    }
}

impl Eq for NodeType {}

impl vstd::std_specs::cmp::PartialEqSpecImpl for NodeType {
    open spec fn obeys_eq_spec() -> bool {
        true
    }

    open spec fn eq_spec(&self, other: &NodeType) -> bool {
        self@ == other@
    }
}

impl PartialEq for Node {
    /// Two trees are equal when their payloads are equal and their children
    /// are equal position by position.
    fn eq(&self, other: &Node) -> (same: bool) {
        self.same_tree(other)
    }
}

impl Eq for Node {}

impl vstd::std_specs::cmp::PartialEqSpecImpl for Node {
    open spec fn obeys_eq_spec() -> bool {
        true
    }

    open spec fn eq_spec(&self, other: &Node) -> bool {
        self@ == other@
    }
}

/// Every tree is equal to itself.
pub proof fn lemma_eq_reflexive(a: Node)
    ensures
        a.eq_spec(&a),
{
}

/// Whether two trees are equal does not depend on which of them is asked.
pub proof fn lemma_eq_symmetric(a: Node, b: Node)
    ensures
        a.eq_spec(&b) == b.eq_spec(&a),
{
}

/// Two trees that are equal to a third are equal to each other.
pub proof fn lemma_eq_transitive(a: Node, b: Node, c: Node)
    requires
        a.eq_spec(&b),
        b.eq_spec(&c),
    ensures
        a.eq_spec(&c),
{
}

/// Two trees are equal exactly when their payloads are equal, they have the
/// same number of children, and their children are equal position by
/// position.
pub proof fn lemma_eq_structure(a: Node, b: Node)
    ensures
        a.eq_spec(&b) <==> {
            &&& a.node_type.eq_spec(&b.node_type)
            &&& a.children@.len() == b.children@.len()
            &&& forall|i: int|
                0 <= i < a.children@.len() ==> (#[trigger] a.children@[i]).eq_spec(&b.children@[i])
        },
{
    a.lemma_view();
    b.lemma_view();
    if a.node_type.eq_spec(&b.node_type) && a.children@.len() == b.children@.len() && (forall|
        i: int,
    |
        0 <= i < a.children@.len() ==> (#[trigger] a.children@[i]).eq_spec(&b.children@[i])) {
        assert forall|i: int| 0 <= i < a@.children.len() implies a@.children[i]
            == b@.children[i] by {
            assert(a.children@[i].eq_spec(&b.children@[i]));
        }
        assert(a@.children =~= b@.children);
    }
    if a.eq_spec(&b) {
        assert forall|i: int| 0 <= i < a.children@.len() implies (#[trigger] a.children@[i]).eq_spec(
            &b.children@[i],
        ) by {
            assert(a@.children[i] == b@.children[i]);
        }
    }
}

/// The order of the children counts: a tree with the children `first`,
/// `second` is not equal to one with the children `second`, `first`, unless
/// the two children are equal.
pub proof fn lemma_eq_child_order(a: Node, b: Node, first: Node, second: Node)
    requires
        a.children@ == seq![first, second],
        b.children@ == seq![second, first],
        !first.eq_spec(&second),
    ensures
        !a.eq_spec(&b),
{
    lemma_eq_structure(a, b);
    assert(a.children@[0] == first);
    assert(b.children@[0] == second);
}

/// The order in which two elements list their attributes does not count:
/// with equal tag names and the same name/value entries they are equal.
pub proof fn lemma_eq_ignores_attribute_order(a: ElementData, b: ElementData)
    requires
        a.attributes.wf(),
        b.attributes.wf(),
        a.tag_name@ == b.tag_name@,
        a.attributes.entries().to_set() == b.attributes.entries().to_set(),
    ensures
        a.attributes.eq_spec(&b.attributes),
        a.eq_spec(&b),
{
    lemma_map_of_ignores_order(a.attributes.entries(), b.attributes.entries());
}

} // verus!
