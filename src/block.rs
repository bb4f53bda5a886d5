//! The block tree builder: classifies each DOM node into a block node,
//! flushing the paragraph being accumulated at block boundaries.
use vstd::prelude::*;
use crate::code::{extract_pre_code, pre_code};
use crate::dom::DomNode;
use crate::inline::{image_node, image_of, inline_item, inline_para, inline_paragraph, parse_paragraph, push_opt};
use crate::node::{
    BlockNode, BlockV, CodeBlock, InlineV, Paragraph, block_v, blocks_v, lemma_blocks_v_push,
    para_has_text, para_is_empty, para_is_image,
};
use crate::number::is_digit;
use crate::table::{parse_table, table_rows};
use crate::text::{str_eq, str_trim, trim};

verus! {

/// Turns a non-empty paragraph into a block after `bs` and resets it; an
/// empty paragraph is left as it is.
pub open spec fn flush(bs: Seq<BlockV>, p: Seq<InlineV>) -> (Seq<BlockV>, Seq<InlineV>) {
    if para_is_empty(p) {
        (bs, p)
    } else {
        (bs.push(BlockV::Paragraph(p)), Seq::empty())
    }
}

pub open spec fn push_block(bs: Seq<BlockV>, b: Option<BlockV>) -> Seq<BlockV> {
    match b {
        Some(x) => bs.push(x),
        None => bs,
    }
}

/// A block, after the blocks flushed before it if there are any.
pub open spec fn wrap(pre: Seq<BlockV>, b: BlockV) -> BlockV {
    if pre.len() > 0 {
        BlockV::Root(pre.push(b))
    } else {
        b
    }
}

pub open spec fn opt_block_v(b: Option<BlockNode>) -> Option<BlockV> {
    match b {
        Some(x) => Some(block_v(x)),
        None => None,
    }
}

/// The level of a heading tag: its last character as a digit, else six.
pub open spec fn heading_level(tag: Seq<char>) -> nat {
    if tag.len() > 0 && is_digit(tag.last()) {
        (tag.last() as nat - '0' as nat) as nat
    } else {
        6
    }
}

pub open spec fn is_heading_tag(t: Seq<char>) -> bool {
    t == "h1"@ || t == "h2"@ || t == "h3"@ || t == "h4"@ || t == "h5"@ || t == "h6"@
}

/// A heading tag gives a level from one to six.
pub proof fn lemma_heading_level(t: Seq<char>)
    requires
        is_heading_tag(t),
    ensures
        1 <= heading_level(t) <= 6,
{
    reveal_strlit("h1");
    reveal_strlit("h2");
    reveal_strlit("h3");
    reveal_strlit("h4");
    reveal_strlit("h5");
    reveal_strlit("h6");
}

/// The tags that delimit blocks; any other unknown tag holds inline content.
pub open spec fn is_block_tag(t: Seq<char>) -> bool {
    ||| t == "html"@ || t == "body"@ || t == "head"@ || t == "address"@ || t == "article"@
    ||| t == "aside"@ || t == "blockquote"@ || t == "details"@ || t == "summary"@ || t == "dialog"@
    ||| t == "div"@ || t == "dl"@ || t == "fieldset"@ || t == "figcaption"@ || t == "figure"@
    ||| t == "footer"@ || t == "form"@ || t == "h1"@ || t == "h2"@ || t == "h3"@ || t == "h4"@
    ||| t == "h5"@ || t == "h6"@ || t == "header"@ || t == "hr"@ || t == "main"@ || t == "nav"@
    ||| t == "ol"@ || t == "p"@ || t == "pre"@ || t == "section"@ || t == "table"@ || t == "ul"@
    ||| t == "style"@ || t == "script"@
}

/// The block a node gives and the paragraph after it, from the paragraph
/// before it.
pub open spec fn node_block(n: DomNode, p: Seq<InlineV>) -> (Option<BlockV>, Seq<InlineV>)
    decreases n, 2nat,
{
    match n {
        DomNode::Text { contents } => (
            None,
            if contents@.len() > 0 {
                p.push(InlineV::Text { text: contents@, marks: Seq::empty() })
            } else {
                p
            },
        ),
        DomNode::Element { name, attrs, children } => {
            let tag = name@;
            if tag == "br"@ {
                (Some(BlockV::Break { html: true }), p)
            } else if is_heading_tag(tag) {
                let (pre, pa) = flush(Seq::empty(), p);
                let h = BlockV::Heading { level: heading_level(tag), content: inline_para(children@) };
                (Some(wrap(pre, h)), pa)
            } else if tag == "img"@ {
                match image_of(attrs@) {
                    None => (None, p),
                    Some(img) => if img.is_inline {
                        (None, p.push(InlineV::Image(img)))
                    } else {
                        let (pre, pa) = flush(Seq::empty(), p);
                        (Some(wrap(pre, BlockV::Paragraph(seq![InlineV::Image(img)]))), pa)
                    },
                }
            } else if tag == "ul"@ || tag == "ol"@ {
                let (bs, pb) = children_blocks(children@, p);
                (Some(BlockV::List { children: bs, ordered: tag == "ol"@ }), pb)
            } else if tag == "li"@ {
                let (pre, pa) = flush(Seq::empty(), p);
                let (bs, pb) = flush(item_blocks(children@, pre), pa);
                (Some(BlockV::ListItem { children: bs, spread: false, checked: None }), pb)
            } else if tag == "table"@ {
                let (pre, pa) = flush(Seq::empty(), p);
                let (pre2, pb) = flush(pre, pa);
                (Some(wrap(pre2, BlockV::Table(table_rows(children@)))), pb)
            } else if tag == "blockquote"@ {
                let (bs, pb) = children_blocks(children@, p);
                (Some(BlockV::Blockquote(bs)), pb)
            } else if tag == "pre"@ {
                let (pre, pa) = flush(Seq::empty(), p);
                match pre_code(n) {
                    Some((code, lang)) => (Some(wrap(pre, BlockV::CodeBlock { code, lang })), pa),
                    None => container(pre, children@, pa),
                }
            } else if tag == "style"@ || tag == "script"@ {
                (None, p)
            } else if is_block_tag(trim(tag)) {
                let (pre, pa) = flush(Seq::empty(), p);
                container(pre, children@, pa)
            } else {
                let pa = push_opt(p, inline_item(n));
                if para_is_image(pa) {
                    (Some(BlockV::Paragraph(pa)), Seq::empty())
                } else {
                    (None, pa)
                }
            }
        },
        DomNode::Document { children } => {
            let (bs, pb) = children_blocks(children@, p);
            (Some(BlockV::Root(bs)), pb)
        },
        _ => (None, p),
    }
}

/// The blocks of sibling nodes, the paragraph flushed before the first and
/// after each of them.
pub open spec fn children_blocks(cs: Seq<DomNode>, p: Seq<InlineV>) -> (Seq<BlockV>, Seq<InlineV>)
    decreases cs, 1nat,
{
    let (bs, pa) = flush(Seq::empty(), p);
    flushing_blocks(cs, bs, pa)
}

pub open spec fn flushing_blocks(cs: Seq<DomNode>, bs: Seq<BlockV>, p: Seq<InlineV>) -> (Seq<BlockV>, Seq<InlineV>)
    decreases cs, 0nat,
{
    if cs.len() == 0 {
        (bs, p)
    } else {
        let (bs1, pa) = flushing_blocks(cs.drop_last(), bs, p);
        let (b, pb) = node_block(cs.last(), pa);
        flush(push_block(bs1, b), pb)
    }
}

/// The blocks of sibling nodes sharing one paragraph, after `bs`.
pub open spec fn plain_blocks(cs: Seq<DomNode>, bs: Seq<BlockV>, p: Seq<InlineV>) -> (Seq<BlockV>, Seq<InlineV>)
    decreases cs, 0nat,
{
    if cs.len() == 0 {
        (bs, p)
    } else {
        let (bs1, pa) = plain_blocks(cs.drop_last(), bs, p);
        let (b, pb) = node_block(cs.last(), pa);
        (push_block(bs1, b), pb)
    }
}

/// A generic block container: its children's blocks after `pre`, the
/// paragraph flushed at the end; none if that leaves no block.
pub open spec fn container(pre: Seq<BlockV>, cs: Seq<DomNode>, p: Seq<InlineV>) -> (Option<BlockV>, Seq<InlineV>)
    decreases cs, 1nat,
{
    let (bs, pb) = plain_blocks(cs, pre, p);
    let (bs2, pc) = flush(bs, pb);
    (if bs2.len() == 0 { None } else { Some(BlockV::Root(bs2)) }, pc)
}

/// The blocks of a list item's children after `bs`: each child starts a
/// fresh paragraph, and text it leaves behind joins a paragraph just before
/// it or becomes one.
pub open spec fn item_blocks(cs: Seq<DomNode>, bs: Seq<BlockV>) -> Seq<BlockV>
    decreases cs, 0nat,
{
    if cs.len() == 0 {
        bs
    } else {
        let bs0 = item_blocks(cs.drop_last(), bs);
        let (b, cp) = node_block(cs.last(), Seq::empty());
        let bs1 = push_block(bs0, b);
        if para_has_text(cp) {
            if bs1.len() > 0 && bs1.last() is Paragraph {
                bs1.update(bs1.len() - 1, BlockV::Paragraph(bs1.last()->Paragraph_0 + cp))
            } else {
                bs1.push(BlockV::Paragraph(cp))
            }
        } else {
            bs1
        }
    }
}

/// Flushes a non-empty paragraph into `children` as a paragraph block.
pub fn consume_paragraph(children: &mut Vec<BlockNode>, paragraph: &mut Paragraph)
    ensures
        (blocks_v(final(children)@), final(paragraph)@) == flush(blocks_v(old(children)@), old(paragraph)@),
{
    if paragraph.is_empty() {
        return;
    }
    let ghost c0 = children@;
    let p = paragraph.take();
    let b = BlockNode::Paragraph(p);
    children.push(b);
    proof {
        lemma_blocks_v_push(c0, b);
    }
}

proof fn lemma_empty_blocks()
    ensures
        blocks_v(Seq::<BlockNode>::empty()) == Seq::<BlockV>::empty(),
{
}

fn push_some(children: &mut Vec<BlockNode>, b: Option<BlockNode>)
    ensures
        blocks_v(final(children)@) == push_block(blocks_v(old(children)@), opt_block_v(b)),
{
    if let Some(x) = b {
        let ghost c0 = children@;
        children.push(x);
        proof {
            lemma_blocks_v_push(c0, x);
        }
    }
}

/// Wraps a block after the blocks flushed before it.
fn wrap_block(mut pre: Vec<BlockNode>, b: BlockNode) -> (r: BlockNode)
    ensures
        block_v(r) == wrap(blocks_v(pre@), block_v(b)),
{
    if pre.len() > 0 {
        let ghost c0 = pre@;
        pre.push(b);
        proof {
            lemma_blocks_v_push(c0, b);
            crate::node::lemma_blocks_v_index(c0);
        }
        BlockNode::Root { children: pre }
    } else {
        proof {
            crate::node::lemma_blocks_v_index(pre@);
        }
        b
    }
}

fn heading_level_of(name: &str) -> (r: u8)
    ensures
        r as nat == heading_level(name@),
{
    let n = name.unicode_len();
    if n > 0 {
        let c = name.get_char(n - 1);
        if '0' <= c && c <= '9' {
            return ((c as u32) - ('0' as u32)) as u8;
        }
    }
    6
}

fn is_heading_name(t: &str) -> (r: bool)
    ensures
        r == is_heading_tag(t@),
{
    str_eq(t, "h1") || str_eq(t, "h2") || str_eq(t, "h3") || str_eq(t, "h4") || str_eq(t, "h5")
        || str_eq(t, "h6")
}

/// Whether a tag is one of the block-level tags.
pub fn is_block_element(t: &str) -> (r: bool)
    ensures
        r == is_block_tag(t@),
{
    let names = [
        "html", "body", "head", "address", "article", "aside", "blockquote", "details", "summary",
        "dialog", "div", "dl", "fieldset", "figcaption", "figure", "footer", "form", "h1", "h2", "h3",
        "h4", "h5", "h6", "header", "hr", "main", "nav", "ol", "p", "pre", "section", "table", "ul",
        "style", "script",
    ];
    let mut i: usize = 0;
    while i < 35
        invariant
            names@ == seq![
                "html", "body", "head", "address", "article", "aside", "blockquote", "details", "summary",
                "dialog", "div", "dl", "fieldset", "figcaption", "figure", "footer", "form", "h1", "h2", "h3",
                "h4", "h5", "h6", "header", "hr", "main", "nav", "ol", "p", "pre", "section", "table", "ul",
                "style", "script",
            ],
            i <= 35,
            forall|j: int| 0 <= j < i ==> t@ != (#[trigger] names@[j])@,
        decreases 35 - i,
    {
        if str_eq(t, names[i]) {
            return true;
        }
        i = i + 1;
    }
    false
}

} // verus!

verus! {

/// The blocks of sibling nodes, flushing the paragraph before the first and
/// after each one.
pub fn consume_children_nodes(children: &Vec<DomNode>, paragraph: &mut Paragraph) -> (r: Vec<BlockNode>)
    ensures
        (blocks_v(r@), final(paragraph)@) == children_blocks(children@, old(paragraph)@),
    decreases children, 1nat,
{
    let mut out: Vec<BlockNode> = Vec::new();
    proof {
        lemma_empty_blocks();
    }
    consume_paragraph(&mut out, paragraph);
    let ghost bs0 = blocks_v(out@);
    let ghost p0 = paragraph@;
    let mut i: usize = 0;
    while i < children.len()
        invariant
            i <= children.len(),
            (bs0, p0) == flush(Seq::empty(), old(paragraph)@),
            (blocks_v(out@), paragraph@) == flushing_blocks(children@.subrange(0, i as int), bs0, p0),
        decreases children.len() - i,
    {
        proof {
            vstd::std_specs::vec::axiom_vec_index_decreases(*children, i as int);
        }
        assert(children@.subrange(0, i + 1).drop_last() =~= children@.subrange(0, i as int));
        let b = parse_node(&children[i], paragraph);
        push_some(&mut out, b);
        consume_paragraph(&mut out, paragraph);
        i = i + 1;
    }
    assert(children@.subrange(0, children.len() as int) =~= children@);
    out
}

/// The blocks of sibling nodes sharing one paragraph, after `pre`.
fn plain_children(pre: Vec<BlockNode>, children: &Vec<DomNode>, paragraph: &mut Paragraph) -> (r: Vec<BlockNode>)
    ensures
        (blocks_v(r@), final(paragraph)@) == plain_blocks(children@, blocks_v(pre@), old(paragraph)@),
    decreases children, 0nat,
{
    let mut out = pre;
    let mut i: usize = 0;
    while i < children.len()
        invariant
            i <= children.len(),
            (blocks_v(out@), paragraph@) == plain_blocks(
                children@.subrange(0, i as int),
                blocks_v(pre@),
                old(paragraph)@,
            ),
        decreases children.len() - i,
    {
        proof {
            vstd::std_specs::vec::axiom_vec_index_decreases(*children, i as int);
        }
        assert(children@.subrange(0, i + 1).drop_last() =~= children@.subrange(0, i as int));
        let b = parse_node(&children[i], paragraph);
        push_some(&mut out, b);
        i = i + 1;
    }
    assert(children@.subrange(0, children.len() as int) =~= children@);
    out
}

/// A generic container: the children's blocks after `pre`, then a final
/// flush; none when no block results.
fn container_block(pre: Vec<BlockNode>, children: &Vec<DomNode>, paragraph: &mut Paragraph) -> (r: Option<BlockNode>)
    ensures
        (opt_block_v(r), final(paragraph)@) == container(blocks_v(pre@), children@, old(paragraph)@),
    decreases children, 1nat,
{
    let mut out = plain_children(pre, children, paragraph);
    consume_paragraph(&mut out, paragraph);
    proof {
        crate::node::lemma_blocks_v_index(out@);
    }
    if out.len() == 0 {
        None
    } else {
        Some(BlockNode::Root { children: out })
    }
}

/// A list item: the paragraph before it is flushed, each child is built
/// with a fresh paragraph, and text left by a child joins a paragraph block
/// just before it or becomes one.
fn list_item(children: &Vec<DomNode>, paragraph: &mut Paragraph) -> (r: BlockNode)
    ensures
        ({
            let (pre, pa) = flush(Seq::empty(), old(paragraph)@);
            let (bs, pb) = flush(item_blocks(children@, pre), pa);
            (block_v(r), final(paragraph)@) == (BlockV::ListItem { children: bs, spread: false, checked: None }, pb)
        }),
    decreases children, 1nat,
{
    let mut out: Vec<BlockNode> = Vec::new();
    proof {
        lemma_empty_blocks();
    }
    consume_paragraph(&mut out, paragraph);
    let ghost pre = blocks_v(out@);
    let ghost pa = paragraph@;
    let mut i: usize = 0;
    while i < children.len()
        invariant
            i <= children.len(),
            (pre, pa) == flush(Seq::empty(), old(paragraph)@),
            paragraph@ == pa,
            blocks_v(out@) == item_blocks(children@.subrange(0, i as int), pre),
        decreases children.len() - i,
    {
        proof {
            vstd::std_specs::vec::axiom_vec_index_decreases(*children, i as int);
        }
        assert(children@.subrange(0, i + 1).drop_last() =~= children@.subrange(0, i as int));
        let mut cp = Paragraph::new();
        let b = parse_node(&children[i], &mut cp);
        push_some(&mut out, b);
        if cp.has_text() {
            let ghost s0 = out@;
            let last = out.pop();
            proof {
                if s0.len() > 0 {
                    assert(s0.drop_last().push(s0.last()) =~= s0);
                    lemma_blocks_v_push(s0.drop_last(), s0.last());
                }
            }
            match last {
                Some(BlockNode::Paragraph(mut lp)) => {
                    lp.merge(cp);
                    let nb = BlockNode::Paragraph(lp);
                    out.push(nb);
                    proof {
                        lemma_blocks_v_push(s0.drop_last(), nb);
                        assert(blocks_v(out@) =~= blocks_v(s0).update(
                            blocks_v(s0).len() - 1,
                            BlockV::Paragraph(blocks_v(s0).last()->Paragraph_0 + cp@),
                        ));
                    }
                },
                Some(other) => {
                    out.push(other);
                    let nb = BlockNode::Paragraph(cp);
                    let ghost s1 = out@;
                    out.push(nb);
                    proof {
                        lemma_blocks_v_push(s0.drop_last(), other);
                        assert(s1 =~= s0);
                        lemma_blocks_v_push(s1, nb);
                    }
                },
                None => {
                    let nb = BlockNode::Paragraph(cp);
                    out.push(nb);
                    proof {
                        lemma_blocks_v_push(s0, nb);
                    }
                },
            }
        }
        i = i + 1;
    }
    assert(children@.subrange(0, children.len() as int) =~= children@);
    consume_paragraph(&mut out, paragraph);
    BlockNode::ListItem { children: out, spread: false, checked: None }
}

/// Builds the block for a node. Text and inline elements feed `paragraph`;
/// block elements flush it first.
pub fn parse_node(node: &DomNode, paragraph: &mut Paragraph) -> (r: Option<BlockNode>)
    ensures
        (opt_block_v(r), final(paragraph)@) == node_block(*node, old(paragraph)@),
    decreases node, 2nat,
{
    match node {
        DomNode::Text { contents } => {
            if contents.unicode_len() > 0 {
                paragraph.push_str(contents.as_str());
            }
            None
        },
        DomNode::Element { name, attrs, children } => {
            let tag = name.as_str();
            if str_eq(tag, "br") {
                Some(BlockNode::Break { html: true })
            } else if is_heading_name(tag) {
                let mut out: Vec<BlockNode> = Vec::new();
                proof {
                    lemma_empty_blocks();
                }
                consume_paragraph(&mut out, paragraph);
                let level = heading_level_of(tag);
                let content = inline_paragraph(children);
                Some(wrap_block(out, BlockNode::Heading { level, children: content }))
            } else if str_eq(tag, "img") {
                match image_node(attrs) {
                    None => None,
                    Some(img) => {
                        if img.is_inline {
                            paragraph.push_image(img);
                            None
                        } else {
                            let mut out: Vec<BlockNode> = Vec::new();
                            proof {
                                lemma_empty_blocks();
                            }
                            consume_paragraph(&mut out, paragraph);
                            let mut np = Paragraph::new();
                            np.push_image(img);
                            Some(wrap_block(out, BlockNode::Paragraph(np)))
                        }
                    },
                }
            } else if str_eq(tag, "ul") || str_eq(tag, "ol") {
                let ordered = str_eq(tag, "ol");
                let blocks = consume_children_nodes(children, paragraph);
                Some(BlockNode::List { children: blocks, ordered })
            } else if str_eq(tag, "li") {
                Some(list_item(children, paragraph))
            } else if str_eq(tag, "table") {
                let mut out: Vec<BlockNode> = Vec::new();
                proof {
                    lemma_empty_blocks();
                }
                consume_paragraph(&mut out, paragraph);
                let table = parse_table(children);
                consume_paragraph(&mut out, paragraph);
                Some(wrap_block(out, BlockNode::Table(table)))
            } else if str_eq(tag, "blockquote") {
                let blocks = consume_children_nodes(children, paragraph);
                Some(BlockNode::Blockquote { children: blocks })
            } else if str_eq(tag, "pre") {
                let mut out: Vec<BlockNode> = Vec::new();
                proof {
                    lemma_empty_blocks();
                }
                consume_paragraph(&mut out, paragraph);
                match extract_pre_code(node) {
                    Some((code, lang)) => Some(wrap_block(out, BlockNode::CodeBlock(CodeBlock { code, lang }))),
                    None => container_block(out, children, paragraph),
                }
            } else if str_eq(tag, "style") || str_eq(tag, "script") {
                None
            } else if is_block_element(str_trim(tag)) {
                let mut out: Vec<BlockNode> = Vec::new();
                proof {
                    lemma_empty_blocks();
                }
                consume_paragraph(&mut out, paragraph);
                container_block(out, children, paragraph)
            } else {
                let _ = parse_paragraph(paragraph, node);
                if paragraph.is_image() {
                    Some(BlockNode::Paragraph(paragraph.take()))
                } else {
                    None
                }
            }
        },
        DomNode::Document { children } => {
            let blocks = consume_children_nodes(children, paragraph);
            Some(BlockNode::Root { children: blocks })
        },
        _ => None,
    }
}

} // verus!

verus! {

/// Every paragraph block within a block holds an image or some text.
pub open spec fn paras_nonempty(b: BlockV) -> bool
    decreases b, 1nat,
{
    match b {
        BlockV::Paragraph(p) => !para_is_empty(p),
        BlockV::Root(cs) => all_paras_nonempty(cs),
        BlockV::List { children, .. } => all_paras_nonempty(children),
        BlockV::ListItem { children, .. } => all_paras_nonempty(children),
        BlockV::Blockquote(cs) => all_paras_nonempty(cs),
        _ => true,
    }
}

/// `paras_nonempty` holds of each block of a sequence.
pub open spec fn all_paras_nonempty(s: Seq<BlockV>) -> bool
    decreases s, 0nat,
{
    s.len() == 0 || (all_paras_nonempty(s.drop_last()) && paras_nonempty(s.last()))
}

proof fn lemma_all_push(s: Seq<BlockV>, b: BlockV)
    ensures
        all_paras_nonempty(s.push(b)) == (all_paras_nonempty(s) && paras_nonempty(b)),
{
    assert(s.push(b).drop_last() =~= s);
}

proof fn lemma_flush_paras(bs: Seq<BlockV>, p: Seq<InlineV>)
    requires
        all_paras_nonempty(bs),
    ensures
        all_paras_nonempty(flush(bs, p).0),
{
    if !para_is_empty(p) {
        lemma_all_push(bs, BlockV::Paragraph(p));
    }
}

proof fn lemma_push_block_paras(bs: Seq<BlockV>, b: Option<BlockV>)
    requires
        all_paras_nonempty(bs),
        b matches Some(x) ==> paras_nonempty(x),
    ensures
        all_paras_nonempty(push_block(bs, b)),
{
    if let Some(x) = b {
        lemma_all_push(bs, x);
    }
}

proof fn lemma_wrap_paras(pre: Seq<BlockV>, b: BlockV)
    requires
        all_paras_nonempty(pre),
        paras_nonempty(b),
    ensures
        paras_nonempty(wrap(pre, b)),
{
    lemma_all_push(pre, b);
}

/// The builder emits no empty paragraph block: a paragraph becomes a block
/// only when it holds an image or some text.
pub proof fn lemma_node_block_paras(n: DomNode, p: Seq<InlineV>)
    ensures
        node_block(n, p).0 matches Some(b) ==> paras_nonempty(b),
    decreases n, 2nat,
{
    let e = Seq::<BlockV>::empty();
    lemma_flush_paras(e, p);
    match n {
        DomNode::Element { name, attrs, children } => {
            let tag = name@;
            let (pre, pa) = flush(e, p);
            if tag == "br"@ {
            } else if is_heading_tag(tag) {
                lemma_wrap_paras(pre, BlockV::Heading { level: heading_level(tag), content: inline_para(children@) });
            } else if tag == "img"@ {
                if let Some(img) = image_of(attrs@) {
                    let ip = seq![InlineV::Image(img)];
                    assert(!para_is_empty(ip)) by {
                        assert(!(ip[0] matches InlineV::Text { text, .. } && text.len() == 0));
                    }
                    lemma_wrap_paras(pre, BlockV::Paragraph(ip));
                }
            } else if tag == "ul"@ || tag == "ol"@ {
                lemma_flushing_paras(children@, pre, pa);
            } else if tag == "li"@ {
                lemma_item_paras(children@, pre);
                lemma_flush_paras(item_blocks(children@, pre), pa);
            } else if tag == "table"@ {
                lemma_flush_paras(pre, pa);
                let (pre2, pb) = flush(pre, pa);
                lemma_wrap_paras(pre2, BlockV::Table(table_rows(children@)));
            } else if tag == "blockquote"@ {
                lemma_flushing_paras(children@, pre, pa);
            } else if tag == "pre"@ {
                match pre_code(n) {
                    Some((code, lang)) => lemma_wrap_paras(pre, BlockV::CodeBlock { code, lang }),
                    None => lemma_container_paras(pre, children@, pa),
                }
            } else if tag == "style"@ || tag == "script"@ {
            } else if is_block_tag(trim(tag)) {
                lemma_container_paras(pre, children@, pa);
            } else {
                let q = push_opt(p, inline_item(n));
                if para_is_image(q) {
                    assert(!(q[0] matches InlineV::Text { text, .. } && text.len() == 0));
                }
            }
        },
        DomNode::Document { children } => {
            let (pre, pa) = flush(e, p);
            lemma_flushing_paras(children@, pre, pa);
        },
        _ => {},
    }
}

proof fn lemma_container_paras(pre: Seq<BlockV>, cs: Seq<DomNode>, p: Seq<InlineV>)
    requires
        all_paras_nonempty(pre),
    ensures
        container(pre, cs, p).0 matches Some(b) ==> paras_nonempty(b),
    decreases cs, 1nat,
{
    lemma_plain_paras(cs, pre, p);
    let (bs, pb) = plain_blocks(cs, pre, p);
    lemma_flush_paras(bs, pb);
}

proof fn lemma_flushing_paras(cs: Seq<DomNode>, bs: Seq<BlockV>, p: Seq<InlineV>)
    requires
        all_paras_nonempty(bs),
    ensures
        all_paras_nonempty(flushing_blocks(cs, bs, p).0),
    decreases cs, 0nat,
{
    if cs.len() > 0 {
        lemma_flushing_paras(cs.drop_last(), bs, p);
        let (bs1, pa) = flushing_blocks(cs.drop_last(), bs, p);
        lemma_node_block_paras(cs.last(), pa);
        let (b, pb) = node_block(cs.last(), pa);
        lemma_push_block_paras(bs1, b);
        lemma_flush_paras(push_block(bs1, b), pb);
    }
}

proof fn lemma_plain_paras(cs: Seq<DomNode>, bs: Seq<BlockV>, p: Seq<InlineV>)
    requires
        all_paras_nonempty(bs),
    ensures
        all_paras_nonempty(plain_blocks(cs, bs, p).0),
    decreases cs, 0nat,
{
    if cs.len() > 0 {
        lemma_plain_paras(cs.drop_last(), bs, p);
        let (bs1, pa) = plain_blocks(cs.drop_last(), bs, p);
        lemma_node_block_paras(cs.last(), pa);
        let (b, pb) = node_block(cs.last(), pa);
        lemma_push_block_paras(bs1, b);
    }
}

proof fn lemma_item_paras(cs: Seq<DomNode>, bs: Seq<BlockV>)
    requires
        all_paras_nonempty(bs),
    ensures
        all_paras_nonempty(item_blocks(cs, bs)),
    decreases cs, 0nat,
{
    if cs.len() > 0 {
        lemma_item_paras(cs.drop_last(), bs);
        let bs0 = item_blocks(cs.drop_last(), bs);
        lemma_node_block_paras(cs.last(), Seq::empty());
        let (b, cp) = node_block(cs.last(), Seq::empty());
        lemma_push_block_paras(bs0, b);
        let bs1 = push_block(bs0, b);
        if para_has_text(cp) {
            let i = choose|i: int| 0 <= i < cp.len() && (#[trigger] cp[i] matches InlineV::Text { text, .. } && text.len() > 0);
            if bs1.len() > 0 && bs1.last() is Paragraph {
                let merged = bs1.last()->Paragraph_0 + cp;
                assert(merged[bs1.last()->Paragraph_0.len() + i] == cp[i]);
                assert(!para_is_empty(merged));
                assert(bs1.update(bs1.len() - 1, BlockV::Paragraph(merged)) =~= bs1.drop_last().push(
                    BlockV::Paragraph(merged),
                ));
                assert(all_paras_nonempty(bs1.drop_last()));
                lemma_all_push(bs1.drop_last(), BlockV::Paragraph(merged));
            } else {
                assert(!para_is_empty(cp));
                lemma_all_push(bs1, BlockV::Paragraph(cp));
            }
        }
    }
}

} // verus!
