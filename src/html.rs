//! Parsing HTML text: tokenizing it into a DOM tree with html5ever, and
//! building the document model of that tree. No whitespace minifier runs
//! here: `parse` tokenizes the source as it is, and `parse_markup` tokenizes
//! markup that a caller has already minified.
use vstd::prelude::*;
use html5ever::tendril::TendrilSink;
use markup5ever_rcdom::{Node, NodeData, RcDom};
use crate::document::{document_of, parse_dom};
use std::rc::Rc;
use crate::dom::{
    Attribute, DomNode, children_of, depth as dom_depth, depths, lemma_depths_prefix, same_shell,
    same_tree, same_trees,
};
use crate::node::Document;
use crate::same::lemma_document_same;
use vstd::utf8::encode_utf8;

verus! {

/// The node of `markup5ever_rcdom`'s tree, which the conversion below reads;
/// opaque here.
#[verifier::external_type_specification]
#[verifier::external_body]
pub struct ExNode(Node);

/// The tree that html5ever builds from markup read as UTF-8.
pub uninterp spec fn html_tree(markup: Seq<u8>) -> DomNode;

/// What an rcdom node and its descendants hold, as a `DomNode`.
pub uninterp spec fn node_tree(n: Node) -> DomNode;

/// What the node behind a handle holds.
pub open spec fn tree_at(n: &Rc<Node>) -> DomNode {
    node_tree(**n)
}

/// Relies on `html5ever::parse_document` into an `RcDom`, reading the bytes
/// as UTF-8: the document node of the tree, which depends on the bytes
/// alone. Reading a byte slice cannot fail, so the error arm is never taken.
#[verifier::external_body]
fn tokenize(bytes: &[u8]) -> (r: Rc<Node>)
    ensures
        node_tree(*r) == html_tree(bytes@),
{
    let mut input = bytes;
    match html5ever::parse_document(RcDom::default(), html5ever::ParseOpts::default())
        .from_utf8()
        .read_from(&mut input) {
        Ok(dom) => dom.document,
        Err(_) => Node::new(NodeData::Document),
    }
}

/// Relies on `markup5ever_rcdom::Node::data`: the kind of a node, with the
/// text of a text node and the local name and attributes of an element, in
/// order; the children are left out.
#[verifier::external_body]
fn node_shell(n: &Rc<Node>) -> (r: DomNode)
    ensures
        same_shell(r, node_tree(**n)),
{
    match &n.data {
        NodeData::Document => DomNode::Document { children: Vec::new() },
        NodeData::Doctype { .. } => DomNode::Doctype,
        NodeData::Text { contents } => DomNode::Text { contents: contents.borrow().to_string() },
        NodeData::Comment { .. } => DomNode::Comment,
        NodeData::Element { name, attrs, .. } => {
            let attrs = attrs.borrow().iter().map(|a| Attribute { name: a.name.local.to_string(), value: a.value.to_string() }).collect();
            DomNode::Element { name: name.local.to_string(), attrs, children: Vec::new() }
        },
        NodeData::ProcessingInstruction { .. } => DomNode::ProcessingInstruction,
    }
}

/// Relies on `markup5ever_rcdom::Node::children`: the children of a node in
/// document order.
#[verifier::external_body]
fn node_children(n: &Rc<Node>) -> (r: Vec<Rc<Node>>)
    ensures
        r@.len() == children_of(node_tree(**n)).len(),
        forall|i: int| 0 <= i < r@.len() ==> #[trigger] node_tree(*r@[i]) == children_of(node_tree(**n))[i],
{
    n.children.borrow().clone()
}

/// Copies an rcdom node and its descendants into a `DomNode`, allowing `d`
/// more levels below the node; none when the tree is deeper. The walk never
/// goes more than `d` levels down.
fn convert_node(n: &Rc<Node>, d: usize) -> (r: Option<DomNode>)
    ensures
        r is Some <==> dom_depth(node_tree(**n)) <= d,
        r matches Some(x) ==> same_tree(x, node_tree(**n)),
    decreases d, 1nat,
{
    match node_shell(n) {
        DomNode::Document { .. } => match convert_children(n, d) {
            Some(children) => Some(DomNode::Document { children }),
            None => None,
        },
        DomNode::Element { name, attrs, .. } => match convert_children(n, d) {
            Some(children) => Some(DomNode::Element { name, attrs, children }),
            None => None,
        },
        other => Some(other),
    }
}

/// Copies the children of an rcdom node, allowing `d` levels below the node.
fn convert_children(n: &Rc<Node>, d: usize) -> (r: Option<Vec<DomNode>>)
    ensures
        r is Some <==> depths(children_of(node_tree(**n))) <= d,
        r matches Some(v) ==> same_trees(v@, children_of(node_tree(**n))),
    decreases d, 0nat,
{
    let ghost cs = children_of(tree_at(n));
    let kids = node_children(n);
    let mut out: Vec<DomNode> = Vec::new();
    if kids.len() == 0 {
        return Some(out);
    }
    if d == 0 {
        proof {
            lemma_depths_prefix(cs, 1);
            assert(cs.subrange(0, 1).drop_last() =~= Seq::<DomNode>::empty());
        }
        return None;
    }
    let mut i: usize = 0;
    while i < kids.len()
        invariant
            i <= kids.len(),
            d > 0,
            cs == children_of(tree_at(n)),
            kids@.len() == cs.len(),
            forall|j: int| 0 <= j < kids@.len() ==> #[trigger] node_tree(*kids@[j]) == cs[j],
            out@.len() == i,
            same_trees(out@, cs.subrange(0, i as int)),
            depths(cs.subrange(0, i as int)) <= d,
        decreases kids.len() - i,
    {
        assert(cs.subrange(0, i + 1).drop_last() =~= cs.subrange(0, i as int));
        assert(node_tree(*kids@[i as int]) == cs[i as int]);
        match convert_node(&kids[i], d - 1) {
            Some(c) => {
                let ghost o0 = out@;
                out.push(c);
                assert(out@.drop_last() =~= o0);
            },
            None => {
                proof {
                    lemma_depths_prefix(cs, i + 1);
                    assert(cs.subrange(0, i + 1).last() == cs[i as int]);
                    assert(depths(cs.subrange(0, i + 1)) > d);
                }
                return None;
            },
        }
        i = i + 1;
    }
    assert(cs.subrange(0, cs.len() as int) =~= cs);
    Some(out)
}

/// The deepest nesting of elements that a document may have.
pub const MAX_DEPTH: usize = 256;

/// Parses HTML into the document model, tokenizing `markup`: the source
/// itself, or a form of it that a minifier made beforehand. Fails exactly
/// when elements nest deeper than `MAX_DEPTH`.
pub fn parse_markup(source: &str, markup: &[u8]) -> (r: Result<Document, String>)
    ensures
        r is Ok <==> dom_depth(html_tree(markup@)) <= MAX_DEPTH,
        r matches Ok(doc) ==> doc@ == document_of(source@, html_tree(markup@)),
{
    let root = tokenize(markup);
    let dom = match convert_node(&root, MAX_DEPTH) {
        Some(d) => d,
        None => {
            return Err(String::from_str("the document nests elements too deeply"));
        },
    };
    let doc = parse_dom(source, &dom);
    proof {
        lemma_document_same(source@, dom, html_tree(markup@));
    }
    Ok(doc)
}

/// Parses HTML into the document model, tokenizing the source as it is.
/// Fails exactly when elements nest deeper than `MAX_DEPTH`.
pub fn parse(source: &str) -> (r: Result<Document, String>)
    ensures
        r is Ok <==> dom_depth(html_tree(encode_utf8(source@))) <= MAX_DEPTH,
        r matches Ok(doc) ==> doc@ == document_of(source@, html_tree(encode_utf8(source@))),
{
    parse_markup(source, source.as_bytes())
}

} // verus!
