//! The generic DOM tree that the document builder walks.
use vstd::prelude::*;

verus! {

/// A `name="value"` pair on an element.
#[derive(Debug, Clone, PartialEq, Eq)]
pub struct Attribute {
    pub name: String,
    pub value: String,
}

/// A node of the parsed HTML tree.
#[derive(Debug, PartialEq, Eq)]
pub enum DomNode {
    Document { children: Vec<DomNode> },
    Doctype,
    Text { contents: String },
    Comment,
    Element { name: String, attrs: Vec<Attribute>, children: Vec<DomNode> },
    ProcessingInstruction,
}

/// The children of a node; only documents and elements have any.
pub open spec fn children_of(n: DomNode) -> Seq<DomNode> {
    match n {
        DomNode::Document { children } => children@,
        DomNode::Element { children, .. } => children@,
        _ => Seq::empty(),
    }
}

/// The number of levels below a node: zero for a node without children.
pub open spec fn depth(n: DomNode) -> nat
    decreases n, 1nat,
{
    match n {
        DomNode::Document { children } => depths(children@),
        DomNode::Element { children, .. } => depths(children@),
        _ => 0,
    }
}

/// Zero for no nodes, else one more than the deepest of them.
pub open spec fn depths(s: Seq<DomNode>) -> nat
    decreases s, 0nat,
{
    if s.len() == 0 {
        0
    } else {
        let a = depths(s.drop_last());
        let b = depth(s.last()) + 1;
        if a >= b {
            a
        } else {
            b
        }
    }
}

pub proof fn lemma_depths_prefix(s: Seq<DomNode>, k: int)
    requires
        0 <= k <= s.len(),
    ensures
        depths(s.subrange(0, k)) <= depths(s),
    decreases s.len(),
{
    if k < s.len() {
        lemma_depths_prefix(s.drop_last(), k);
        assert(s.drop_last().subrange(0, k) =~= s.subrange(0, k));
    } else {
        assert(s.subrange(0, k) =~= s);
    }
}

/// Two nodes of the same kind with the same text, tag name and attributes,
/// whose children match in the same way: they differ at most in how their
/// values are stored.
pub open spec fn same_tree(a: DomNode, b: DomNode) -> bool
    decreases a, 1nat,
{
    match (a, b) {
        (DomNode::Document { children: x }, DomNode::Document { children: y }) => same_trees(x@, y@),
        (DomNode::Text { contents: x }, DomNode::Text { contents: y }) => x@ == y@,
        (
            DomNode::Element { name: n1, attrs: a1, children: c1 },
            DomNode::Element { name: n2, attrs: a2, children: c2 },
        ) => n1@ == n2@ && a1@ == a2@ && same_trees(c1@, c2@),
        (DomNode::Doctype, DomNode::Doctype) => true,
        (DomNode::Comment, DomNode::Comment) => true,
        (DomNode::ProcessingInstruction, DomNode::ProcessingInstruction) => true,
        _ => false,
    }
}

/// `same_tree` holds pairwise.
pub open spec fn same_trees(x: Seq<DomNode>, y: Seq<DomNode>) -> bool
    decreases x, 0nat,
{
    x.len() == y.len() && (x.len() == 0 || (same_trees(x.drop_last(), y.drop_last()) && same_tree(
        x.last(),
        y.last(),
    )))
}

/// The same kind of node, with the same text, tag name and attributes;
/// children aside.
pub open spec fn same_shell(a: DomNode, b: DomNode) -> bool {
    match (a, b) {
        (DomNode::Document { .. }, DomNode::Document { .. }) => true,
        (DomNode::Text { contents: x }, DomNode::Text { contents: y }) => x@ == y@,
        (DomNode::Element { name: n1, attrs: a1, .. }, DomNode::Element { name: n2, attrs: a2, .. }) => n1@
            == n2@ && a1@ == a2@,
        (DomNode::Doctype, DomNode::Doctype) => true,
        (DomNode::Comment, DomNode::Comment) => true,
        (DomNode::ProcessingInstruction, DomNode::ProcessingInstruction) => true,
        _ => false,
    }
}

/// All descendant text of a node, in document order.
pub open spec fn text_content(n: DomNode) -> Seq<char>
    decreases n, 1nat,
{
    match n {
        DomNode::Text { contents } => contents@,
        DomNode::Document { children } => texts_content(children@),
        DomNode::Element { children, .. } => texts_content(children@),
        _ => Seq::empty(),
    }
}

/// The concatenated text content of a sequence of sibling nodes.
pub open spec fn texts_content(s: Seq<DomNode>) -> Seq<char>
    decreases s, 0nat,
{
    if s.len() == 0 {
        Seq::empty()
    } else {
        texts_content(s.drop_last()) + text_content(s.last())
    }
}

/// Appends all descendant text of a node to `text`.
#[verifier::loop_isolation(false)]
pub fn collect_text_recursive(node: &DomNode, text: &mut String)
    ensures
        final(text)@ == old(text)@ + text_content(*node),
    decreases node,
{
    match node {
        DomNode::Text { contents } => {
            text.append(contents.as_str());
        },
        DomNode::Document { children } | DomNode::Element { children, .. } => {
            let mut i: usize = 0;
            let ghost start = text@;
            while i < children.len()
                invariant
                    i <= children.len(),
                    text@ == start + texts_content(children@.subrange(0, i as int)),
                decreases children.len() - i,
            {
                proof {
                    vstd::std_specs::vec::axiom_vec_index_decreases(*children, i as int);
                }
                collect_text_recursive(&children[i], text);
                assert(children@.subrange(0, i as int + 1).drop_last() =~= children@.subrange(0, i as int));
                i = i + 1;
            }
            assert(children@.subrange(0, i as int) =~= children@);
        },
        _ => {},
    }
}

} // verus!
