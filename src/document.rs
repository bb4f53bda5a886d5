//! Document assembly: the block tree of a DOM root, compacted, beside the
//! source text.
use vstd::prelude::*;
use crate::block::{all_paras_nonempty, lemma_node_block_paras, node_block, parse_node, paras_nonempty};
use crate::dom::DomNode;
use crate::node::{BlockNode, BlockV, Document, DocumentV, Paragraph, block_v, blocks_v, lemma_blocks_v_index, lemma_blocks_v_push};

verus! {

/// Replaces every `Root` that has exactly one child by that child, depth
/// first.
pub open spec fn compact(b: BlockV) -> BlockV
    decreases b, 1nat,
{
    match b {
        BlockV::Root(cs) => {
            let cs2 = compact_all(cs);
            if cs2.len() == 1 {
                cs2[0]
            } else {
                BlockV::Root(cs2)
            }
        },
        BlockV::List { children, ordered } => BlockV::List { children: compact_all(children), ordered },
        BlockV::ListItem { children, spread, checked } => BlockV::ListItem {
            children: compact_all(children),
            spread,
            checked,
        },
        BlockV::Blockquote(cs) => BlockV::Blockquote(compact_all(cs)),
        _ => b,
    }
}

/// Compacts each block of a sequence.
pub open spec fn compact_all(s: Seq<BlockV>) -> Seq<BlockV>
    decreases s, 0nat,
{
    if s.len() == 0 {
        Seq::empty()
    } else {
        compact_all(s.drop_last()).push(compact(s.last()))
    }
}

proof fn lemma_compact_all_len(s: Seq<BlockV>)
    ensures
        compact_all(s).len() == s.len(),
        forall|i: int| 0 <= i < s.len() ==> #[trigger] compact_all(s)[i] == compact(s[i]),
    decreases s.len(),
{
    if s.len() > 0 {
        lemma_compact_all_len(s.drop_last());
    }
}

/// Compacting is idempotent: a compacted block is left as it is.
pub proof fn lemma_compact_idempotent(b: BlockV)
    ensures
        compact(compact(b)) == compact(b),
    decreases b, 1nat,
{
    match b {
        BlockV::Root(cs) => {
            lemma_compact_all_idempotent(cs);
            lemma_compact_all_len(cs);
            if compact_all(cs).len() == 1 {
                assert(cs.len() == 1);
                lemma_compact_idempotent(cs[0]);
            } else {
                lemma_compact_all_len(compact_all(cs));
            }
        },
        BlockV::List { children, .. } => lemma_compact_all_idempotent(children),
        BlockV::ListItem { children, .. } => lemma_compact_all_idempotent(children),
        BlockV::Blockquote(cs) => lemma_compact_all_idempotent(cs),
        _ => {},
    }
}

/// Compacting each block of a sequence twice is compacting it once.
pub proof fn lemma_compact_all_idempotent(s: Seq<BlockV>)
    ensures
        compact_all(compact_all(s)) == compact_all(s),
    decreases s, 0nat,
{
    if s.len() > 0 {
        lemma_compact_all_idempotent(s.drop_last());
        lemma_compact_idempotent(s.last());
        let c = compact_all(s);
        assert(c.drop_last() =~= compact_all(s.drop_last()));
    }
}

/// Compacts a block tree.
pub fn compact_block(b: BlockNode) -> (r: BlockNode)
    ensures
        block_v(r) == compact(block_v(b)),
    decreases b, 1nat,
{
    match b {
        BlockNode::Root { children } => {
            let mut cs = compact_vec(children);
            proof {
                lemma_blocks_v_index(cs@);
                lemma_compact_all_len(blocks_v(children@));
            }
            if cs.len() == 1 {
                let only = cs.pop();
                match only {
                    Some(x) => x,
                    None => BlockNode::Unknown,
                }
            } else {
                BlockNode::Root { children: cs }
            }
        },
        BlockNode::List { children, ordered } => BlockNode::List { children: compact_vec(children), ordered },
        BlockNode::ListItem { children, spread, checked } => BlockNode::ListItem {
            children: compact_vec(children),
            spread,
            checked,
        },
        BlockNode::Blockquote { children } => BlockNode::Blockquote { children: compact_vec(children) },
        other => other,
    }
}

/// Compacts each block of a vector.
fn compact_vec(children: Vec<BlockNode>) -> (r: Vec<BlockNode>)
    ensures
        blocks_v(r@) == compact_all(blocks_v(children@)),
    decreases children, 0nat,
{
    let mut rest = children;
    let mut reversed: Vec<BlockNode> = Vec::new();
    let n = rest.len();
    while rest.len() > 0
        invariant
            rest.len() <= n,
            n == children@.len(),
            rest@ == children@.subrange(0, rest.len() as int),
            reversed@.len() == n - rest.len(),
            forall|j: int|
                0 <= j < reversed@.len() ==> block_v(#[trigger] reversed@[j]) == compact(
                    block_v(children@[n - 1 - j]),
                ),
        decreases rest.len(),
    {
        let k = rest.len() - 1;
        let x = rest.pop();
        proof {
            vstd::std_specs::vec::axiom_vec_index_decreases(children, k as int);
        }
        match x {
            Some(x) => {
                let c = compact_block(x);
                reversed.push(c);
            },
            None => {},
        }
    }
    let mut out: Vec<BlockNode> = Vec::new();
    while reversed.len() > 0
        invariant
            n == children@.len(),
            reversed@.len() + out@.len() == n,
            forall|j: int|
                0 <= j < reversed@.len() ==> block_v(#[trigger] reversed@[j]) == compact(
                    block_v(children@[n - 1 - j]),
                ),
            blocks_v(out@) == compact_all(blocks_v(children@.subrange(0, out@.len() as int))),
        decreases reversed.len(),
    {
        let ghost o0 = out@;
        let ghost i = out@.len() as int;
        let y = reversed.pop();
        match y {
            Some(y) => {
                out.push(y);
                proof {
                    lemma_blocks_v_push(o0, y);
                    lemma_blocks_v_index(children@.subrange(0, i + 1));
                    lemma_blocks_v_index(children@.subrange(0, i));
                    assert(blocks_v(children@.subrange(0, i + 1)).drop_last() =~= blocks_v(
                        children@.subrange(0, i),
                    ));
                }
            },
            None => {},
        }
    }
    assert(children@.subrange(0, n as int) =~= children@);
    out
}

/// The block of a DOM root, or `Unknown` when it gives none.
pub open spec fn root_block(dom: DomNode) -> BlockV {
    match node_block(dom, Seq::empty()).0 {
        Some(b) => b,
        None => BlockV::Unknown,
    }
}

/// The document of a DOM tree: the source and the compacted root block.
pub open spec fn document_of(source: Seq<char>, dom: DomNode) -> DocumentV {
    DocumentV { source, blocks: seq![compact(root_block(dom))] }
}

/// Builds the document model of a DOM tree.
pub fn parse_dom(source: &str, dom: &DomNode) -> (r: Document)
    ensures
        r@ == document_of(source@, *dom),
{
    let mut paragraph = Paragraph::new();
    let node = match parse_node(dom, &mut paragraph) {
        Some(b) => b,
        None => BlockNode::Unknown,
    };
    let node = compact_block(node);
    let mut blocks: Vec<BlockNode> = Vec::new();
    blocks.push(node);
    proof {
        lemma_blocks_v_push(Seq::empty(), node);
        assert(Seq::<BlockNode>::empty().push(node) =~= blocks@);
    }
    Document { source: String::from_str(source), blocks }
}

} // verus!

verus! {

proof fn lemma_compact_paras(b: BlockV)
    requires
        paras_nonempty(b),
    ensures
        paras_nonempty(compact(b)),
    decreases b, 1nat,
{
    match b {
        BlockV::Root(cs) => {
            lemma_compact_all_paras(cs);
            let cs2 = compact_all(cs);
            if cs2.len() == 1 {
                assert(cs2.last() == cs2[0]);
            }
        },
        BlockV::List { children, .. } => lemma_compact_all_paras(children),
        BlockV::ListItem { children, .. } => lemma_compact_all_paras(children),
        BlockV::Blockquote(cs) => lemma_compact_all_paras(cs),
        _ => {},
    }
}

proof fn lemma_compact_all_paras(s: Seq<BlockV>)
    requires
        all_paras_nonempty(s),
    ensures
        all_paras_nonempty(compact_all(s)),
    decreases s, 0nat,
{
    if s.len() > 0 {
        lemma_compact_all_paras(s.drop_last());
        lemma_compact_paras(s.last());
        assert(compact_all(s).drop_last() =~= compact_all(s.drop_last()));
    }
}

/// No block of a document is an empty paragraph, at any depth: each
/// paragraph block holds an image or some text.
pub proof fn lemma_document_paras_nonempty(source: Seq<char>, dom: DomNode)
    ensures
        forall|i: int|
            0 <= i < document_of(source, dom).blocks.len() ==> #[trigger] paras_nonempty(
                document_of(source, dom).blocks[i],
            ),
{
    lemma_node_block_paras(dom, Seq::empty());
    lemma_compact_paras(root_block(dom));
}

} // verus!
