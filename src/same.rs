//! The document built from a DOM tree depends only on what the tree holds:
//! trees related by `same_tree` give the same document.
use vstd::prelude::*;
use crate::block::{
    container, flush, flushing_blocks, is_block_tag, is_heading_tag, item_blocks, node_block,
    plain_blocks,
};
use crate::text::trim;
use crate::code::{code_child, pre_code};
use crate::document::{document_of, root_block};
use crate::dom::{DomNode, children_of, same_tree, same_trees, text_content, texts_content};
use crate::inline::{inline_item, inline_of, inline_para, inlines_of};
use crate::node::{BlockV, InlineV};
use crate::table::{cell_of, is_cell, is_section, row_cells, row_of, rows_of, table_rows};

verus! {

/// `same_trees` relates sequences of one length, element by element.
pub proof fn lemma_same_trees_at(x: Seq<DomNode>, y: Seq<DomNode>)
    requires
        same_trees(x, y),
    ensures
        x.len() == y.len(),
        forall|i: int| 0 <= i < x.len() ==> #[trigger] same_tree(x[i], y[i]),
    decreases x.len(),
{
    if x.len() > 0 {
        lemma_same_trees_at(x.drop_last(), y.drop_last());
        assert forall|i: int| 0 <= i < x.len() implies #[trigger] same_tree(x[i], y[i]) by {
            if i < x.len() - 1 {
                assert(x.drop_last()[i] == x[i]);
                assert(y.drop_last()[i] == y[i]);
            }
        }
    }
}

/// Sequences of one length related element by element are `same_trees`.
pub proof fn lemma_same_trees_from(x: Seq<DomNode>, y: Seq<DomNode>)
    requires
        x.len() == y.len(),
        forall|i: int| 0 <= i < x.len() ==> #[trigger] same_tree(x[i], y[i]),
    ensures
        same_trees(x, y),
    decreases x.len(),
{
    if x.len() > 0 {
        assert forall|i: int| 0 <= i < x.len() - 1 implies #[trigger] same_tree(x.drop_last()[i], y.drop_last()[i]) by {
            assert(same_tree(x[i], y[i]));
        }
        lemma_same_trees_from(x.drop_last(), y.drop_last());
        assert(same_tree(x[x.len() - 1], y[y.len() - 1]));
    }
}

proof fn lemma_same_children(a: DomNode, b: DomNode)
    requires
        same_tree(a, b),
    ensures
        same_trees(children_of(a), children_of(b)),
{
}

proof fn lemma_text_same(a: DomNode, b: DomNode)
    requires
        same_tree(a, b),
    ensures
        text_content(a) == text_content(b),
    decreases a, 1nat,
{
    match (a, b) {
        (DomNode::Document { children: x }, DomNode::Document { children: y }) => lemma_texts_same(x@, y@),
        (DomNode::Element { children: x, .. }, DomNode::Element { children: y, .. }) => lemma_texts_same(
            x@,
            y@,
        ),
        _ => {},
    }
}

proof fn lemma_texts_same(x: Seq<DomNode>, y: Seq<DomNode>)
    requires
        same_trees(x, y),
    ensures
        texts_content(x) == texts_content(y),
    decreases x, 0nat,
{
    if x.len() > 0 {
        lemma_texts_same(x.drop_last(), y.drop_last());
        lemma_text_same(x.last(), y.last());
    }
}

proof fn lemma_inline_same(a: DomNode, b: DomNode)
    requires
        same_tree(a, b),
    ensures
        inline_of(a) == inline_of(b),
        inline_item(a) == inline_item(b),
    decreases a, 1nat,
{
    match (a, b) {
        (DomNode::Document { children: x }, DomNode::Document { children: y }) => lemma_inlines_same(x@, y@),
        (DomNode::Element { children: x, .. }, DomNode::Element { children: y, .. }) => lemma_inlines_same(
            x@,
            y@,
        ),
        _ => {},
    }
}

proof fn lemma_inlines_same(x: Seq<DomNode>, y: Seq<DomNode>)
    requires
        same_trees(x, y),
    ensures
        inlines_of(x) == inlines_of(y),
        inline_para(x) == inline_para(y),
    decreases x, 0nat,
{
    if x.len() > 0 {
        lemma_inlines_same(x.drop_last(), y.drop_last());
        lemma_inline_same(x.last(), y.last());
    }
}

proof fn lemma_cells_same(x: Seq<DomNode>, y: Seq<DomNode>)
    requires
        same_trees(x, y),
    ensures
        row_cells(x) == row_cells(y),
    decreases x.len(),
{
    if x.len() > 0 {
        lemma_cells_same(x.drop_last(), y.drop_last());
        let (a, b) = (x.last(), y.last());
        assert(same_tree(a, b));
        match (a, b) {
            (DomNode::Element { children: ca, .. }, DomNode::Element { children: cb, .. }) => {
                lemma_inlines_same(ca@, cb@);
                assert(is_cell(a) == is_cell(b));
                assert(cell_of(a) == cell_of(b));
            },
            _ => {},
        }
    }
}

proof fn lemma_row_same(a: DomNode, b: DomNode)
    requires
        same_tree(a, b),
    ensures
        row_of(a) == row_of(b),
{
    lemma_cells_same(children_of(a), children_of(b));
}

proof fn lemma_rows_same(x: Seq<DomNode>, y: Seq<DomNode>)
    requires
        same_trees(x, y),
    ensures
        rows_of(x) == rows_of(y),
    decreases x.len(),
{
    if x.len() > 0 {
        lemma_rows_same(x.drop_last(), y.drop_last());
        lemma_row_same(x.last(), y.last());
    }
}

proof fn lemma_table_same(x: Seq<DomNode>, y: Seq<DomNode>)
    requires
        same_trees(x, y),
    ensures
        table_rows(x) == table_rows(y),
    decreases x.len(),
{
    if x.len() > 0 {
        lemma_table_same(x.drop_last(), y.drop_last());
        let (a, b) = (x.last(), y.last());
        assert(same_tree(a, b));
        assert(is_section(a) == is_section(b));
        lemma_row_same(a, b);
        lemma_rows_same(children_of(a), children_of(b));
    }
}

proof fn lemma_code_child_same(x: Seq<DomNode>, y: Seq<DomNode>)
    requires
        x.len() == y.len(),
        forall|i: int| 0 <= i < x.len() ==> #[trigger] same_tree(x[i], y[i]),
    ensures
        code_child(x) == code_child(y),
    decreases x.len(),
{
    if x.len() > 0 {
        assert(same_tree(x[0], y[0]));
        lemma_text_same(x[0], y[0]);
        assert forall|i: int| 0 <= i < x.len() - 1 implies #[trigger] same_tree(x.drop_first()[i], y.drop_first()[i]) by {
            assert(same_tree(x[i + 1], y[i + 1]));
        }
        lemma_code_child_same(x.drop_first(), y.drop_first());
    }
}

proof fn lemma_pre_same(a: DomNode, b: DomNode)
    requires
        same_tree(a, b),
    ensures
        pre_code(a) == pre_code(b),
{
    lemma_same_trees_at(children_of(a), children_of(b));
    lemma_code_child_same(children_of(a), children_of(b));
    lemma_text_same(a, b);
}


proof fn lemma_block_same(a: DomNode, b: DomNode, p: Seq<InlineV>)
    requires
        same_tree(a, b),
    ensures
        node_block(a, p) == node_block(b, p),
    decreases a, 2nat,
{
    let (pre, pa) = flush(Seq::empty(), p);
    match (a, b) {
        (DomNode::Element { name, children: ca, .. }, DomNode::Element { children: cb, .. }) => {
            let tag = name@;
            let (x, y) = (ca@, cb@);
            if tag == "br"@ {
            } else if is_heading_tag(tag) {
                lemma_inlines_same(x, y);
            } else if tag == "img"@ {
            } else if tag == "ul"@ || tag == "ol"@ {
                lemma_flushing_same(x, y, pre, pa);
            } else if tag == "li"@ {
                lemma_item_same(x, y, pre);
            } else if tag == "table"@ {
                lemma_table_same(x, y);
            } else if tag == "blockquote"@ {
                lemma_flushing_same(x, y, pre, pa);
            } else if tag == "pre"@ {
                lemma_pre_same(a, b);
                lemma_container_same(pre, x, y, pa);
            } else if tag == "style"@ || tag == "script"@ {
            } else if is_block_tag(trim(tag)) {
                lemma_container_same(pre, x, y, pa);
            } else {
                lemma_inline_same(a, b);
            }
        },
        (DomNode::Document { children: ca }, DomNode::Document { children: cb }) => {
            lemma_flushing_same(ca@, cb@, pre, pa);
        },
        _ => {},
    }
}

proof fn lemma_container_same(pre: Seq<BlockV>, x: Seq<DomNode>, y: Seq<DomNode>, p: Seq<InlineV>)
    requires
        same_trees(x, y),
    ensures
        container(pre, x, p) == container(pre, y, p),
    decreases x, 1nat,
{
    lemma_plain_same(x, y, pre, p);
}

proof fn lemma_flushing_same(x: Seq<DomNode>, y: Seq<DomNode>, bs: Seq<BlockV>, p: Seq<InlineV>)
    requires
        same_trees(x, y),
    ensures
        flushing_blocks(x, bs, p) == flushing_blocks(y, bs, p),
    decreases x, 0nat,
{
    if x.len() > 0 {
        lemma_flushing_same(x.drop_last(), y.drop_last(), bs, p);
        let (bs1, pa) = flushing_blocks(x.drop_last(), bs, p);
        lemma_block_same(x.last(), y.last(), pa);
    }
}

proof fn lemma_plain_same(x: Seq<DomNode>, y: Seq<DomNode>, bs: Seq<BlockV>, p: Seq<InlineV>)
    requires
        same_trees(x, y),
    ensures
        plain_blocks(x, bs, p) == plain_blocks(y, bs, p),
    decreases x, 0nat,
{
    if x.len() > 0 {
        lemma_plain_same(x.drop_last(), y.drop_last(), bs, p);
        let (bs1, pa) = plain_blocks(x.drop_last(), bs, p);
        lemma_block_same(x.last(), y.last(), pa);
    }
}

proof fn lemma_item_same(x: Seq<DomNode>, y: Seq<DomNode>, bs: Seq<BlockV>)
    requires
        same_trees(x, y),
    ensures
        item_blocks(x, bs) == item_blocks(y, bs),
    decreases x, 0nat,
{
    if x.len() > 0 {
        lemma_item_same(x.drop_last(), y.drop_last(), bs);
        lemma_block_same(x.last(), y.last(), Seq::empty());
    }
}

/// Trees that hold the same text, tags, attributes and children give the
/// same document.
pub proof fn lemma_document_same(source: Seq<char>, a: DomNode, b: DomNode)
    requires
        same_tree(a, b),
    ensures
        document_of(source, a) == document_of(source, b),
{
    lemma_block_same(a, b, Seq::empty());
    assert(root_block(a) == root_block(b));
}

} // verus!
