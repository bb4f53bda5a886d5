//! The code block extractor for `pre` elements.
use vstd::prelude::*;
use crate::attrs::{attr_of, attr_value};
use crate::dom::{Attribute, DomNode, children_of, collect_text_recursive, text_content};
use crate::text::{split_whitespace, starts_with, str_eq, str_starts_with, strings_v, words};

verus! {

/// The language named by the first class word with a `language-` or `lang-`
/// prefix.
pub open spec fn lang_in(ws: Seq<Seq<char>>) -> Option<Seq<char>>
    decreases ws.len(),
{
    if ws.len() == 0 {
        None
    } else if starts_with(ws[0], "language-"@) {
        Some(ws[0].subrange("language-"@.len() as int, ws[0].len() as int))
    } else if starts_with(ws[0], "lang-"@) {
        Some(ws[0].subrange("lang-"@.len() as int, ws[0].len() as int))
    } else {
        lang_in(ws.drop_first())
    }
}

/// The language that a `code` element's class names give.
pub open spec fn code_lang(attrs: Seq<Attribute>) -> Option<Seq<char>> {
    match attr_of(attrs, "class"@) {
        None => None,
        Some(c) => lang_in(words(c)),
    }
}

/// The text and language of the first `code` child whose text is not empty.
pub open spec fn code_child(cs: Seq<DomNode>) -> Option<(Seq<char>, Option<Seq<char>>)>
    decreases cs.len(),
{
    if cs.len() == 0 {
        None
    } else {
        match cs[0] {
            DomNode::Element { name, attrs, .. } => {
                if name@ == "code"@ && text_content(cs[0]).len() > 0 {
                    Some((text_content(cs[0]), code_lang(attrs@)))
                } else {
                    code_child(cs.drop_first())
                }
            },
            _ => code_child(cs.drop_first()),
        }
    }
}

/// The code and language of a `pre` element: from a `code` child with text,
/// else from all of the element's text, else none.
pub open spec fn pre_code(n: DomNode) -> Option<(Seq<char>, Option<Seq<char>>)> {
    match code_child(children_of(n)) {
        Some(found) => Some(found),
        None => {
            let t = text_content(n);
            if t.len() > 0 {
                Some((t, None))
            } else {
                None
            }
        },
    }
}

pub open spec fn opt_code(o: Option<(String, Option<String>)>) -> Option<(Seq<char>, Option<Seq<char>>)> {
    match o {
        Some((c, l)) => Some((c@, crate::node::opt_str(l))),
        None => None,
    }
}

/// All descendant text of a node.
pub fn collect_text_content(node: &DomNode) -> (r: String)
    ensures
        r@ == text_content(*node),
{
    let mut text = String::new();
    collect_text_recursive(node, &mut text);
    assert(text@ =~= Seq::<char>::empty() + text_content(*node));
    text
}

/// Extracts the language of a `code` element from its class names.
pub fn extract_code_language(attrs: &Vec<Attribute>) -> (r: Option<String>)
    ensures
        crate::node::opt_str(r) == code_lang(attrs@),
{
    let class = match attr_value(attrs, "class") {
        Some(c) => c,
        None => {
            return None;
        },
    };
    let ws = split_whitespace(class.as_str());
    let ghost w = words(class@);
    let mut i: usize = 0;
    assert(w.subrange(0, w.len() as int) =~= w);
    while i < ws.len()
        invariant
            i <= ws.len(),
            w == words(class@),
            attr_of(attrs@, "class"@) == Some(class@),
            w == strings_v(ws@),
            lang_in(w.subrange(i as int, w.len() as int)) == lang_in(w),
        decreases ws.len() - i,
    {
        let t = ws[i].as_str();
        let n = t.unicode_len();
        assert(w.subrange(i as int, w.len() as int)[0] == t@);
        assert(w.subrange(i as int, w.len() as int).drop_first() =~= w.subrange(i + 1, w.len() as int));
        if str_starts_with(t, "language-") {
            let m = "language-".unicode_len();
            return Some(String::from_str(t.substring_char(m, n)));
        }
        if str_starts_with(t, "lang-") {
            let m = "lang-".unicode_len();
            return Some(String::from_str(t.substring_char(m, n)));
        }
        i = i + 1;
    }
    assert(w.subrange(w.len() as int, w.len() as int) =~= Seq::<Seq<char>>::empty());
    None
}

/// Extracts the code text and language from a `pre` element.
pub fn extract_pre_code(node: &DomNode) -> (r: Option<(String, Option<String>)>)
    ensures
        opt_code(r) == pre_code(*node),
{
    if let DomNode::Document { children } | DomNode::Element { children, .. } = node {
        let n = children.len();
        let mut i: usize = 0;
        assert(children@.subrange(0, n as int) =~= children@);
        while i < n
            invariant
                n == children@.len(),
                i <= n,
                children@ == children_of(*node),
                code_child(children@.subrange(i as int, n as int)) == code_child(children@),
            decreases n - i,
        {
            let child = &children[i];
            assert(children@.subrange(i as int, n as int)[0] == *child);
            assert(children@.subrange(i as int, n as int).drop_first() =~= children@.subrange(i + 1, n as int));
            if let DomNode::Element { name, attrs, .. } = child {
                if str_eq(name.as_str(), "code") {
                    let lang = extract_code_language(attrs);
                    let text = collect_text_content(child);
                    if text.unicode_len() > 0 {
                        return Some((text, lang));
                    }
                }
            }
            i = i + 1;
        }
        assert(children@.subrange(n as int, n as int) =~= Seq::<DomNode>::empty());
        assert(code_child(children_of(*node)) is None);
    } else {
        assert(code_child(children_of(*node)) is None);
    }
    let text = collect_text_content(node);
    if text.unicode_len() > 0 {
        Some((text, None))
    } else {
        None
    }
}

} // verus!
