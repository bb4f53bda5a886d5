//! The inline builder: text, style marks and images of an element subtree.
use vstd::prelude::*;
use crate::attrs::{attr_of, attr_value, attr_width_height, dimension, has_emoji_class, is_emoji_class};
use crate::dom::{Attribute, DomNode};
use crate::node::{ImageNode, ImageV, InlineNode, InlineV, LinkMark, LinkV, Mark, MarkV, Paragraph, TextMark, TextMarkV, marks_v, opt_str};
use crate::text::{byte_len, lemma_byte_len_concat, str_eq, text_byte_len};

verus! {

pub open spec fn no_style() -> TextMarkV {
    TextMarkV { bold: false, italic: false, strikethrough: false, code: false, link: None }
}

/// The style that an element applies to all of its text, if any.
pub open spec fn own_style(tag: Seq<char>, attrs: Seq<Attribute>) -> Option<TextMarkV> {
    if tag == "em"@ || tag == "i"@ {
        Some(TextMarkV { italic: true, ..no_style() })
    } else if tag == "strong"@ || tag == "b"@ {
        Some(TextMarkV { bold: true, ..no_style() })
    } else if tag == "del"@ || tag == "s"@ {
        Some(TextMarkV { strikethrough: true, ..no_style() })
    } else if tag == "code"@ {
        Some(TextMarkV { code: true, ..no_style() })
    } else if tag == "a"@ {
        Some(
            TextMarkV {
                link: Some(
                    LinkV {
                        url: match attr_of(attrs, "href"@) {
                            Some(u) => u,
                            None => Seq::empty(),
                        },
                        title: attr_of(attrs, "title"@),
                    },
                ),
                ..no_style()
            },
        )
    } else {
        None
    }
}

/// Marks moved `off` bytes to the right.
pub open spec fn shift(ms: Seq<MarkV>, off: nat) -> Seq<MarkV> {
    ms.map_values(|m: MarkV| MarkV { start: m.start + off, end: m.end + off, style: m.style })
}

/// Every mark lies within the first `len` bytes.
pub open spec fn marks_within(ms: Seq<MarkV>, len: nat) -> bool {
    forall|i: int| 0 <= i < ms.len() ==> #[trigger] ms[i].start <= ms[i].end && ms[i].end <= len
}

/// The text and marks that the inline builder returns for a node.
pub open spec fn inline_of(n: DomNode) -> (Seq<char>, Seq<MarkV>)
    decreases n, 1nat,
{
    match n {
        DomNode::Text { contents } => (contents@, Seq::empty()),
        DomNode::Element { name, attrs, children } => {
            if name@ == "img"@ {
                (Seq::empty(), Seq::empty())
            } else {
                let (t, ms) = inlines_of(children@);
                match own_style(name@, attrs@) {
                    Some(st) => (t, ms.push(MarkV { start: 0, end: byte_len(t), style: st })),
                    None => (t, ms),
                }
            }
        },
        DomNode::Document { children } => inlines_of(children@),
        _ => (Seq::empty(), Seq::empty()),
    }
}

/// The concatenated text of sibling nodes, with their marks moved to index
/// into it.
pub open spec fn inlines_of(s: Seq<DomNode>) -> (Seq<char>, Seq<MarkV>)
    decreases s, 0nat,
{
    if s.len() == 0 {
        (Seq::empty(), Seq::empty())
    } else {
        let (t, ms) = inlines_of(s.drop_last());
        let (ct, cms) = inline_of(s.last());
        (t + ct, ms + shift(cms, byte_len(t)))
    }
}

/// The image that an `img` element describes; none without a `src`.
pub open spec fn image_of(attrs: Seq<Attribute>) -> Option<ImageV> {
    match attr_of(attrs, "src"@) {
        None => None,
        Some(src) => Some(
            ImageV {
                url: src,
                alt: attr_of(attrs, "alt"@),
                title: attr_of(attrs, "title"@),
                width: dimension(attrs, "width"@),
                height: dimension(attrs, "height"@),
                link: None,
                is_inline: has_emoji_class(attrs),
            },
        ),
    }
}

/// The node that the inline builder adds to the paragraph for a node.
pub open spec fn inline_item(n: DomNode) -> Option<InlineV> {
    match n {
        DomNode::Text { contents } => Some(InlineV::Text { text: contents@, marks: Seq::empty() }),
        DomNode::Element { name, attrs, .. } => {
            if name@ == "img"@ {
                match image_of(attrs@) {
                    Some(img) => Some(InlineV::Image(img)),
                    None => None,
                }
            } else {
                Some(InlineV::Text { text: inline_of(n).0, marks: inline_of(n).1 })
            }
        },
        _ => Some(InlineV::Text { text: inline_of(n).0, marks: inline_of(n).1 }),
    }
}

pub open spec fn push_opt(p: Seq<InlineV>, o: Option<InlineV>) -> Seq<InlineV> {
    match o {
        Some(x) => p.push(x),
        None => p,
    }
}

/// The paragraph built from sibling nodes by the inline builder.
pub open spec fn inline_para(s: Seq<DomNode>) -> Seq<InlineV>
    decreases s.len(),
{
    if s.len() == 0 {
        Seq::empty()
    } else {
        push_opt(inline_para(s.drop_last()), inline_item(s.last()))
    }
}

fn copy_opt_string(s: &Option<String>) -> (r: Option<String>)
    ensures
        opt_str(r) == opt_str(*s),
{
    match s {
        Some(t) => Some(t.clone()),
        None => None,
    }
}

fn copy_style(s: &TextMark) -> (r: TextMark)
    ensures
        r@ == s@,
{
    TextMark {
        bold: s.bold,
        italic: s.italic,
        strikethrough: s.strikethrough,
        code: s.code,
        link: match &s.link {
            Some(l) => Some(LinkMark { url: l.url.clone(), title: copy_opt_string(&l.title) }),
            None => None,
        },
    }
}

fn copy_marks(ms: &Vec<Mark>) -> (r: Vec<Mark>)
    ensures
        marks_v(r@) == marks_v(ms@),
{
    let mut out: Vec<Mark> = Vec::new();
    let mut i: usize = 0;
    while i < ms.len()
        invariant
            i <= ms.len(),
            marks_v(out@) == marks_v(ms@.subrange(0, i as int)),
        decreases ms.len() - i,
    {
        let m = &ms[i];
        let ghost o0 = out@;
        out.push(Mark { start: m.start, end: m.end, style: copy_style(&m.style) });
        assert(marks_v(out@) =~= marks_v(o0).push(ms@[i as int]@));
        assert(marks_v(ms@.subrange(0, i + 1)) =~= marks_v(ms@.subrange(0, i as int)).push(ms@[i as int]@));
        i = i + 1;
    }
    assert(ms@.subrange(0, ms.len() as int) =~= ms@);
    out
}

/// The style that an element applies to its text.
fn element_style(name: &str, attrs: &Vec<Attribute>) -> (r: Option<TextMark>)
    ensures
        match r {
            Some(m) => own_style(name@, attrs@) == Some(m@),
            None => own_style(name@, attrs@) is None,
        },
{
    let plain = TextMark { bold: false, italic: false, strikethrough: false, code: false, link: None };
    if str_eq(name, "em") || str_eq(name, "i") {
        Some(TextMark { italic: true, ..plain })
    } else if str_eq(name, "strong") || str_eq(name, "b") {
        Some(TextMark { bold: true, ..plain })
    } else if str_eq(name, "del") || str_eq(name, "s") {
        Some(TextMark { strikethrough: true, ..plain })
    } else if str_eq(name, "code") {
        Some(TextMark { code: true, ..plain })
    } else if str_eq(name, "a") {
        let url = match attr_value(attrs, "href") {
            Some(u) => u,
            None => String::new(),
        };
        let title = attr_value(attrs, "title");
        Some(TextMark { link: Some(LinkMark { url, title }), ..plain })
    } else {
        None
    }
}

/// Builds the image that an `img` element describes.
pub fn image_node(attrs: &Vec<Attribute>) -> (r: Option<ImageNode>)
    ensures
        match r {
            Some(img) => image_of(attrs@) == Some(img@),
            None => image_of(attrs@) is None,
        },
{
    let src = match attr_value(attrs, "src") {
        Some(s) => s,
        None => {
            return None;
        },
    };
    let alt = attr_value(attrs, "alt");
    let title = attr_value(attrs, "title");
    let (width, height) = attr_width_height(attrs);
    let is_inline = is_emoji_class(attrs);
    Some(ImageNode { url: src, alt, title, width, height, link: None, is_inline })
}

/// Appends a child's text to `text` and its marks, moved past the text that
/// was there, to `marks`.
fn merge_child_text(text: &mut String, marks: &mut Vec<Mark>, new_text: &str, new_marks: &Vec<Mark>)
    requires
        marks_within(marks_v(new_marks@), byte_len(new_text@)),
        marks_within(marks_v(old(marks)@), byte_len(old(text)@)),
    ensures
        final(text)@ == old(text)@ + new_text@,
        marks_v(final(marks)@) == marks_v(old(marks)@) + shift(marks_v(new_marks@), byte_len(old(text)@)),
        marks_within(marks_v(final(marks)@), byte_len(final(text)@)),
{
    let offset = text_byte_len(text.as_str());
    let ghost t0 = text@;
    text.append(new_text);
    let total = text_byte_len(text.as_str());
    proof {
        lemma_byte_len_concat(t0, new_text@);
    }
    let ghost m0 = marks_v(marks@);
    let mut i: usize = 0;
    while i < new_marks.len()
        invariant
            i <= new_marks.len(),
            offset as nat == byte_len(t0),
            total as nat == byte_len(text@),
            byte_len(text@) == byte_len(t0) + byte_len(new_text@),
            marks_within(marks_v(new_marks@), byte_len(new_text@)),
            marks_within(m0, byte_len(t0)),
            marks_v(marks@) == m0 + shift(marks_v(new_marks@), byte_len(t0)).subrange(0, i as int),
        decreases new_marks.len() - i,
    {
        let m = &new_marks[i];
        assert(marks_v(new_marks@)[i as int] == m@);
        assert(marks_v(new_marks@)[i as int].start <= marks_v(new_marks@)[i as int].end);
        assert(m.end as nat + offset as nat <= total as nat);
        let ghost before = marks@;
        marks.push(Mark { start: m.start + offset, end: m.end + offset, style: copy_style(&m.style) });
        assert(marks_v(marks@) =~= marks_v(before).push(marks@.last()@));
        assert(shift(marks_v(new_marks@), byte_len(t0)).subrange(0, i + 1) =~= shift(
            marks_v(new_marks@),
            byte_len(t0),
        ).subrange(0, i as int).push(shift(marks_v(new_marks@), byte_len(t0))[i as int]));
        i = i + 1;
    }
    assert(shift(marks_v(new_marks@), byte_len(t0)).subrange(0, new_marks.len() as int) =~= shift(
        marks_v(new_marks@),
        byte_len(t0),
    ));
    assert(marks_within(marks_v(marks@), byte_len(text@))) by {
        assert forall|j: int| 0 <= j < marks_v(marks@).len() implies #[trigger] marks_v(marks@)[j].start
            <= marks_v(marks@)[j].end && marks_v(marks@)[j].end <= byte_len(text@) by {
            if j >= m0.len() {
                assert(marks_v(new_marks@)[j - m0.len()].end <= byte_len(new_text@));
            }
        }
    }
}

/// Walks an element subtree for inline content. The node's own inline node
/// is added to `paragraph`; its text and marks are returned so that the
/// caller can place them within its own text.
pub fn parse_paragraph(paragraph: &mut Paragraph, node: &DomNode) -> (r: (String, Vec<Mark>))
    ensures
        (r.0@, marks_v(r.1@)) == inline_of(*node),
        marks_within(marks_v(r.1@), byte_len(r.0@)),
        final(paragraph)@ == push_opt(old(paragraph)@, inline_item(*node)),
    decreases node,
{
    let empty_marks: Vec<Mark> = Vec::new();
    assert(marks_v(empty_marks@) =~= Seq::empty());
    match node {
        DomNode::Text { contents } => {
            paragraph.push_str(contents.as_str());
            (contents.clone(), empty_marks)
        },
        DomNode::Element { name, attrs, children } => {
            if str_eq(name.as_str(), "img") {
                if let Some(img) = image_node(attrs) {
                    paragraph.push_image(img);
                }
                (String::new(), empty_marks)
            } else {
                let (text, mut marks) = inline_children(children);
                let style = element_style(name.as_str(), attrs);
                if let Some(st) = style {
                    let len = text_byte_len(text.as_str());
                    let ghost m0 = marks_v(marks@);
                    marks.push(Mark { start: 0, end: len, style: st });
                    assert(marks_v(marks@) =~= m0.push(MarkV { start: 0, end: byte_len(text@), style: st@ }));
                }
                paragraph.push(InlineNode::Text { text: text.clone(), marks: copy_marks(&marks) });
                (text, marks)
            }
        },
        DomNode::Document { children } => {
            let (text, marks) = inline_children(children);
            paragraph.push(InlineNode::Text { text: text.clone(), marks: copy_marks(&marks) });
            (text, marks)
        },
        _ => {
            paragraph.push(InlineNode::Text { text: String::new(), marks: Vec::new() });
            (String::new(), empty_marks)
        },
    }
}

/// The text and marks of sibling nodes, concatenated.
fn inline_children(children: &Vec<DomNode>) -> (r: (String, Vec<Mark>))
    ensures
        (r.0@, marks_v(r.1@)) == inlines_of(children@),
        marks_within(marks_v(r.1@), byte_len(r.0@)),
    decreases children,
{
    let mut text = String::new();
    let mut marks: Vec<Mark> = Vec::new();
    let mut scratch = Paragraph::new();
    let mut i: usize = 0;
    assert(marks_v(marks@) =~= Seq::empty());
    while i < children.len()
        invariant
            i <= children.len(),
            (text@, marks_v(marks@)) == inlines_of(children@.subrange(0, i as int)),
            marks_within(marks_v(marks@), byte_len(text@)),
        decreases children.len() - i,
    {
        proof {
            vstd::std_specs::vec::axiom_vec_index_decreases(*children, i as int);
        }
        let (ct, cms) = parse_paragraph(&mut scratch, &children[i]);
        assert(children@.subrange(0, i + 1).drop_last() =~= children@.subrange(0, i as int));
        merge_child_text(&mut text, &mut marks, ct.as_str(), &cms);
        i = i + 1;
    }
    assert(children@.subrange(0, children.len() as int) =~= children@);
    (text, marks)
}


/// Builds a paragraph by running the inline builder over sibling nodes.
pub fn inline_paragraph(children: &Vec<DomNode>) -> (r: Paragraph)
    ensures
        r@ == inline_para(children@),
{
    let mut paragraph = Paragraph::new();
    let mut i: usize = 0;
    while i < children.len()
        invariant
            i <= children.len(),
            paragraph@ == inline_para(children@.subrange(0, i as int)),
        decreases children.len() - i,
    {
        let _ = parse_paragraph(&mut paragraph, &children[i]);
        assert(children@.subrange(0, i + 1).drop_last() =~= children@.subrange(0, i as int));
        i = i + 1;
    }
    assert(children@.subrange(0, children.len() as int) =~= children@);
    paragraph
}

} // verus!
