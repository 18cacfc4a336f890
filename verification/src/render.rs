use crate::attrs::listing;
use crate::dom::{ElementData, Node, NodeType};
use crate::text::{indent_prefix, spaces};
use vstd::prelude::*;
use vstd::string::*;

verus! {

/// One attribute as it stands in an opening tag: a space, the name, `="`,
/// the value, `"`.
pub open spec fn attr_text(entry: (Seq<char>, Seq<char>)) -> Seq<char> {
    seq![' '] + entry.0 + seq!['=', '"'] + entry.1 + seq!['"']
}

/// The attributes of a listing, one after the other in the listing's order.
pub open spec fn attrs_text(entries: Seq<(Seq<char>, Seq<char>)>) -> Seq<char>
    decreases entries.len(),
{
    if entries.len() == 0 {
        Seq::empty()
    } else {
        attrs_text(entries.drop_last()) + attr_text(entries.last())
    }
}

/// The opening text of an element: `<`, the tag name, the attributes, `>`.
pub open spec fn open_tag(tag_name: Seq<char>, entries: Seq<(Seq<char>, Seq<char>)>) -> Seq<char> {
    seq!['<'] + tag_name + attrs_text(entries) + seq!['>']
}

/// The marker that closes an element's lines in a dump: `<`, the tag name,
/// `/>`.
pub open spec fn close_marker(tag_name: Seq<char>) -> Seq<char> {
    seq!['<'] + tag_name + seq!['/', '>']
}

/// A comment as a dump shows it: the content between `<!--` and `-->`.
pub open spec fn comment_text(content: Seq<char>) -> Seq<char> {
    seq!['<', '!', '-', '-'] + content + seq!['-', '-', '>']
}

/// The character contents of a sequence of strings.
pub open spec fn texts(lines: Seq<String>) -> Seq<Seq<char>> {
    lines.map_values(|line: String| line@)
}

impl ElementData {
    /// The canonical text of an element: its opening tag, with the
    /// attributes in the order in which the element lists them.
    pub open spec fn text(&self) -> Seq<char> {
        open_tag(self.tag_name@, self.attributes.entries())
    }

    /// Writes the canonical text of the element.
    pub fn to_text(&self) -> (text: String)
        ensures
            text@ == self.text(),
    {
        let pairs = self.attributes.pairs();
        let ghost entries = self.attributes.entries();
        let mut text = String::from_str("<");
        text.append(self.tag_name.as_str());
        proof {
            reveal_strlit("<");
        }
        let mut i: usize = 0;
        while i < pairs.len()
            invariant
                i <= pairs.len(),
                entries == listing(pairs@),
                text@ == seq!['<'] + self.tag_name@ + attrs_text(entries.take(i as int)),
            decreases pairs.len() - i,
        {
            text.append(" ");
            text.append(pairs[i].0.as_str());
            text.append("=\"");
            text.append(pairs[i].1.as_str());
            text.append("\"");
            proof {
                reveal_strlit(" ");
                reveal_strlit("=\"");
                reveal_strlit("\"");
                assert(entries.take(i + 1).drop_last() =~= entries.take(i as int));
            }
            i = i + 1;
        }
        text.append(">");
        proof {
            reveal_strlit(">");
            assert(entries.take(i as int) =~= entries);
        }
        text
    }
}

impl NodeType {
    /// The canonical text of a payload: the raw content of a text or a
    /// comment, the opening tag of an element.
    pub open spec fn text(&self) -> Seq<char> {
        match self {
            NodeType::Text(content) => content@,
            NodeType::Element(data) => data.text(),
            NodeType::Comment(content) => content@,
        }
    }

    /// Writes the canonical text of the payload.
    pub fn to_text(&self) -> (text: String)
        ensures
            text@ == self.text(),
    {
        match self {
            NodeType::Text(content) => content.clone(),
            NodeType::Element(data) => data.to_text(),
            NodeType::Comment(content) => content.clone(),
        }
    }

    /// The first line that a node with this payload gives in a dump, behind
    /// `indent` spaces: the canonical text, with a comment between `<!--` and
    /// `-->`.
    pub open spec fn head_line(&self, indent: nat) -> Seq<char> {
        spaces(indent) + match self {
            NodeType::Text(content) => content@,
            NodeType::Element(data) => data.text(),
            NodeType::Comment(content) => comment_text(content@),
        }
    }

    /// The lines that close a node with this payload in a dump: the closing
    /// marker behind `indent` spaces for an element, none for the others.
    pub open spec fn closing_lines(&self, indent: nat) -> Seq<Seq<char>> {
        match self {
            NodeType::Element(data) => seq![spaces(indent) + close_marker(data.tag_name@)],
            _ => Seq::empty(),
        }
    }
}

impl Node {
    /// The canonical text of a node: that of its payload.
    pub open spec fn text(&self) -> Seq<char> {
        self.node_type.text()
    }

    /// Writes the canonical text of the node.
    pub fn to_text(&self) -> (text: String)
        ensures
            text@ == self.text(),
    {
        self.node_type.to_text()
    }

    /// The lines of the tree's dump at `indent` spaces: the node's first
    /// line, the lines of its children two spaces further in, and for an
    /// element its closing marker.
    pub open spec fn lines(&self, indent: nat) -> Seq<Seq<char>>
        decreases self, self.children@.len() + 1,
    {
        seq![self.node_type.head_line(indent)] + self.child_lines(
            self.children@.len(),
            indent + 2,
        ) + self.node_type.closing_lines(indent)
    }

    /// The lines that the first `count` children give at `indent` spaces, in
    /// document order.
    pub open spec fn child_lines(&self, count: nat, indent: nat) -> Seq<Seq<char>>
        decreases self, count,
    {
        if 0 < count <= self.children@.len() {
            self.child_lines((count - 1) as nat, indent) + self.children@[count - 1].lines(indent)
        } else {
            Seq::empty()
        }
    }

    /// The number of nodes in the tree whose payload satisfies `wanted`.
    pub open spec fn count(&self, wanted: spec_fn(NodeType) -> bool) -> nat
        decreases self, self.children@.len() + 1,
    {
        (if wanted(self.node_type) {
            1nat
        } else {
            0nat
        }) + self.child_count(self.children@.len(), wanted)
    }

    /// The number of such nodes below the first `count` children.
    pub open spec fn child_count(&self, count: nat, wanted: spec_fn(NodeType) -> bool) -> nat
        decreases self, count,
    {
        if 0 < count <= self.children@.len() {
            self.child_count((count - 1) as nat, wanted) + self.children@[count - 1].count(wanted)
        } else {
            0
        }
    }

    /// The number of text nodes in the tree.
    pub open spec fn text_nodes(&self) -> nat {
        self.count(|node_type: NodeType| node_type is Text)
    }

    /// The number of element nodes in the tree.
    pub open spec fn element_nodes(&self) -> nat {
        self.count(|node_type: NodeType| node_type is Element)
    }

    /// The number of comment nodes in the tree.
    pub open spec fn comment_nodes(&self) -> nat {
        self.count(|node_type: NodeType| node_type is Comment)
    }

    /// A dump has one line for each text node, one for each comment node and
    /// two for each element node of the tree, whatever the indentation.
    pub proof fn lemma_line_count(self, indent: nat)
        ensures
            self.lines(indent).len() == self.text_nodes() + self.comment_nodes() + 2
                * self.element_nodes(),
        decreases self, self.children@.len() + 1,
    {
        self.lemma_child_line_count(self.children@.len(), indent + 2);
    }

    /// The line count of a dump, for the first `count` children.
    proof fn lemma_child_line_count(self, count: nat, indent: nat)
        ensures
            self.child_lines(count, indent).len() == self.child_count(
                count,
                |node_type: NodeType| node_type is Text,
            ) + self.child_count(count, |node_type: NodeType| node_type is Comment) + 2
                * self.child_count(count, |node_type: NodeType| node_type is Element),
        decreases self, count,
    {
        if 0 < count <= self.children@.len() {
            self.lemma_child_line_count((count - 1) as nat, indent);
            self.children@[count - 1].lemma_line_count(indent);
        }
    }

    /// Appends the lines of the tree's dump to `out`; `prefix` is the
    /// indentation of the node's own lines.
    fn write_lines(&self, prefix: &str, out: &mut Vec<String>, Ghost(indent): Ghost<nat>)
        requires
            prefix@ == spaces(indent),
        ensures
            texts(final(out)@) == texts(old(out)@) + self.lines(indent),
        decreases self,
    {
        let ghost before = texts(out@);
        let mut head = String::from_str(prefix);
        match &self.node_type {
            NodeType::Text(content) => {
                head.append(content.as_str());
            },
            NodeType::Element(data) => {
                let text = data.to_text();
                head.append(text.as_str());
            },
            NodeType::Comment(content) => {
                head.append("<!--");
                head.append(content.as_str());
                head.append("-->");
                proof {
                    reveal_strlit("<!--");
                    reveal_strlit("-->");
                }
            },
        }
        assert(head@ == self.node_type.head_line(indent));
        out.push(head);
        let mut deeper = String::from_str(prefix);
        deeper.append("  ");
        proof {
            reveal_strlit("  ");
            assert(texts(out@) =~= before + seq![self.node_type.head_line(indent)]
                + self.child_lines(0, indent + 2));
        }
        let mut i: usize = 0;
        while i < self.children.len()
            invariant
                i <= self.children.len(),
                deeper@ == spaces(indent + 2),
                texts(out@) == before + seq![self.node_type.head_line(indent)] + self.child_lines(
                    i as nat,
                    indent + 2,
                ),
            decreases self.children.len() - i,
        {
            self.children[i].write_lines(deeper.as_str(), out, Ghost(indent + 2));
            proof {
                assert(self.child_lines((i + 1) as nat, indent + 2) == self.child_lines(
                    i as nat,
                    indent + 2,
                ) + self.children@[i as int].lines(indent + 2));
                assert(texts(out@) =~= before + seq![self.node_type.head_line(indent)]
                    + self.child_lines((i + 1) as nat, indent + 2));
            }
            i = i + 1;
        }
        if let NodeType::Element(data) = &self.node_type {
            let ghost so_far = texts(out@);
            let mut tail = String::from_str(prefix);
            tail.append("<");
            tail.append(data.tag_name.as_str());
            tail.append("/>");
            proof {
                reveal_strlit("<");
                reveal_strlit("/>");
                assert(tail@ =~= spaces(indent) + close_marker(data.tag_name@));
            }
            out.push(tail);
            proof {
                assert(texts(out@) =~= so_far + self.node_type.closing_lines(indent));
            }
        }
    }
}

/// Writes the dump of the tree below `n` to `out`, line by line: depth first,
/// parents before children, the root behind `indent_size` spaces and each
/// level two spaces further in than the one above it. What `out` held before
/// stays in front.
pub fn pretty_print(n: &Node, indent_size: usize, out: &mut Vec<String>)
    ensures
        texts(final(out)@) == texts(old(out)@) + n.lines(indent_size as nat),
        final(out)@.len() == old(out)@.len() + n.text_nodes() + n.comment_nodes() + 2
            * n.element_nodes(),
{
    let prefix = indent_prefix(indent_size);
    n.write_lines(prefix.as_str(), out, Ghost(indent_size as nat));
    proof {
        n.lemma_line_count(indent_size as nat);
        assert(texts(out@).len() == out@.len());
    }
}

} // verus!
