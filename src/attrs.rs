//! Reading attributes of an element: plain values, inline style
//! declarations, lengths and class names.
use vstd::prelude::*;
use crate::dom::Attribute;
use crate::node::{Length, LengthV, opt_len, opt_str};
use crate::number::{float_literal, is_float_literal};
use crate::text::{
    ends_with, find_char, first_index, lower_of, pieces, split_at_char, split_whitespace, str_eq,
    str_ends_with, str_trim, strings_v, strip_suffixes, to_lowercase, trim, trim_end_matches,
    words,
};

verus! {

/// The value of the first attribute with the given name.
pub open spec fn attr_of(attrs: Seq<Attribute>, name: Seq<char>) -> Option<Seq<char>>
    decreases attrs.len(),
{
    if attrs.len() == 0 {
        None
    } else if attrs[0].name@ == name {
        Some(attrs[0].value@)
    } else {
        attr_of(attrs.drop_first(), name)
    }
}

/// Returns the value of the first attribute named `name`.
pub fn attr_value(attrs: &Vec<Attribute>, name: &str) -> (r: Option<String>)
    ensures
        opt_str(r) == attr_of(attrs@, name@),
{
    let n = attrs.len();
    let mut i: usize = 0;
    assert(attrs@.subrange(0, n as int) =~= attrs@);
    while i < n
        invariant
            n == attrs@.len(),
            i <= n,
            attr_of(attrs@.subrange(i as int, n as int), name@) == attr_of(attrs@, name@),
        decreases n - i,
    {
        let a = &attrs[i];
        assert(attrs@.subrange(i as int, n as int).drop_first() =~= attrs@.subrange(i + 1, n as int));
        if str_eq(a.name.as_str(), name) {
            return Some(a.value.clone());
        }
        i = i + 1;
    }
    None
}

/// The key and value of one style declaration `key: value`, if it has a colon.
pub open spec fn declaration(d: Seq<char>) -> Option<(Seq<char>, Seq<char>)> {
    match first_index(d, ':') {
        None => None,
        Some(k) => Some(
            (lower_of(trim(d.subrange(0, k as int))), trim(d.subrange((k + 1) as int, d.len() as int))),
        ),
    }
}

/// The mapping built from style declarations, later ones overriding earlier.
pub open spec fn declarations_map(ds: Seq<Seq<char>>) -> Map<Seq<char>, Seq<char>>
    decreases ds.len(),
{
    if ds.len() == 0 {
        Map::empty()
    } else {
        let m = declarations_map(ds.drop_last());
        match declaration(ds.last()) {
            Some((k, v)) => m.insert(k, v),
            None => m,
        }
    }
}

/// The inline style of an element, as a mapping from property to value.
pub open spec fn style_map(attrs: Seq<Attribute>) -> Map<Seq<char>, Seq<char>> {
    match attr_of(attrs, "style"@) {
        None => Map::empty(),
        Some(css) => declarations_map(pieces(css, ';')),
    }
}

/// The mapping held by a list of entries, later ones overriding earlier.
pub open spec fn entries_map(v: Seq<(String, String)>) -> Map<Seq<char>, Seq<char>>
    decreases v.len(),
{
    if v.len() == 0 {
        Map::empty()
    } else {
        entries_map(v.drop_last()).insert(v.last().0@, v.last().1@)
    }
}

pub open spec fn map_get(m: Map<Seq<char>, Seq<char>>, k: Seq<char>) -> Option<Seq<char>> {
    if m.contains_key(k) {
        Some(m[k])
    } else {
        None
    }
}

/// Parses the `style` attribute into its declarations; a declaration without
/// a colon is skipped.
pub fn style_attrs(attrs: &Vec<Attribute>) -> (r: Vec<(String, String)>)
    ensures
        entries_map(r@) == style_map(attrs@),
{
    let mut styles: Vec<(String, String)> = Vec::new();
    let css = match attr_value(attrs, "style") {
        Some(css) => css,
        None => {
            return styles;
        },
    };
    let decls = split_at_char(css.as_str(), ';');
    let ghost ds = strings_v(decls@);
    let mut i: usize = 0;
    while i < decls.len()
        invariant
            i <= decls.len(),
            ds == strings_v(decls@),
            entries_map(styles@) == declarations_map(ds.subrange(0, i as int)),
        decreases decls.len() - i,
    {
        let d = decls[i].as_str();
        assert(ds.subrange(0, i + 1).drop_last() =~= ds.subrange(0, i as int));
        assert(ds.subrange(0, i + 1).last() == d@);
        if let Some(k) = find_char(d, ':') {
            let n = d.unicode_len();
            let key = to_lowercase(str_trim(d.substring_char(0, k)));
            let value = String::from_str(str_trim(d.substring_char(k + 1, n)));
            let ghost s0 = styles@;
            styles.push((key, value));
            assert(styles@.drop_last() =~= s0);
        }
        i = i + 1;
    }
    assert(ds.subrange(0, decls@.len() as int) =~= ds);
    styles
}

proof fn lemma_entries_map_prefix(v: Seq<(String, String)>, i: int, k: Seq<char>)
    requires
        0 <= i <= v.len(),
        forall|j: int| i <= j < v.len() ==> (#[trigger] v[j]).0@ != k,
    ensures
        map_get(entries_map(v.subrange(0, i)), k) == map_get(entries_map(v), k),
    decreases v.len() - i,
{
    if i < v.len() {
        lemma_entries_map_prefix(v, i + 1, k);
        assert(v.subrange(0, i + 1).drop_last() =~= v.subrange(0, i));
    } else {
        assert(v.subrange(0, i) =~= v);
    }
}

/// Looks a property up in parsed style declarations.
pub fn style_get(styles: &Vec<(String, String)>, key: &str) -> (r: Option<String>)
    ensures
        opt_str(r) == map_get(entries_map(styles@), key@),
{
    let mut i: usize = styles.len();
    while i > 0
        invariant
            i <= styles@.len(),
            forall|j: int| i <= j < styles@.len() ==> (#[trigger] styles@[j]).0@ != key@,
        decreases i,
    {
        let (k, v) = &styles[i - 1];
        if str_eq(k.as_str(), key) {
            proof {
                lemma_entries_map_prefix(styles@, i as int, key@);
                assert(styles@.subrange(0, i as int).drop_last() =~= styles@.subrange(0, i - 1));
            }
            return Some(v.clone());
        }
        i = i - 1;
    }
    proof {
        lemma_entries_map_prefix(styles@, 0, key@);
    }
    None
}

/// The length that a value gives: a percentage is relative, anything else is
/// pixels with an optional `px` suffix; text that is no number gives none.
pub open spec fn length_of(v: Seq<char>) -> Option<LengthV> {
    if ends_with(v, "%"@) {
        let num = strip_suffixes(v, "%"@);
        if is_float_literal(num) {
            Some(LengthV::Relative(num))
        } else {
            None
        }
    } else {
        let num = strip_suffixes(v, "px"@);
        if is_float_literal(num) {
            Some(LengthV::Pixels(num))
        } else {
            None
        }
    }
}

/// Parses a length value.
pub fn value_to_length(value: &str) -> (r: Option<Length>)
    ensures
        opt_len(r) == length_of(value@),
{
    if str_ends_with(value, "%") {
        let num = trim_end_matches(value, "%");
        if float_literal(num) {
            Some(Length::Relative(String::from_str(num)))
        } else {
            None
        }
    } else {
        let num = trim_end_matches(value, "px");
        if float_literal(num) {
            Some(Length::Pixels(String::from_str(num)))
        } else {
            None
        }
    }
}

/// One dimension of an element: from its attribute when that is present,
/// else from its inline style.
pub open spec fn dimension(attrs: Seq<Attribute>, name: Seq<char>) -> Option<LengthV> {
    match attr_of(attrs, name) {
        Some(v) => length_of(v),
        None => match map_get(style_map(attrs), name) {
            Some(v) => length_of(v),
            None => None,
        },
    }
}

/// The width and height of an element.
pub fn attr_width_height(attrs: &Vec<Attribute>) -> (r: (Option<Length>, Option<Length>))
    ensures
        opt_len(r.0) == dimension(attrs@, "width"@),
        opt_len(r.1) == dimension(attrs@, "height"@),
        attr_of(attrs@, "width"@) matches Some(w) ==> opt_len(r.0) == length_of(w),
        attr_of(attrs@, "height"@) matches Some(h) ==> opt_len(r.1) == length_of(h),
{
    let aw = attr_value(attrs, "width");
    let ah = attr_value(attrs, "height");
    let mut width = match &aw {
        Some(v) => value_to_length(v.as_str()),
        None => None,
    };
    let mut height = match &ah {
        Some(v) => value_to_length(v.as_str()),
        None => None,
    };
    if aw.is_none() || ah.is_none() {
        let styles = style_attrs(attrs);
        if aw.is_none() {
            width = match style_get(&styles, "width") {
                Some(v) => value_to_length(v.as_str()),
                None => None,
            };
        }
        if ah.is_none() {
            height = match style_get(&styles, "height") {
                Some(v) => value_to_length(v.as_str()),
                None => None,
            };
        }
    }
    (width, height)
}

/// Whether an element's class names include `emoji` or `emoji-only`.
pub open spec fn has_emoji_class(attrs: Seq<Attribute>) -> bool {
    match attr_of(attrs, "class"@) {
        None => false,
        Some(c) => words_have_emoji(words(c)),
    }
}

/// Some word is an emoji class name.
pub open spec fn words_have_emoji(w: Seq<Seq<char>>) -> bool {
    exists|i: int| 0 <= i < w.len() && #[trigger] is_emoji_word(w[i])
}

pub open spec fn is_emoji_word(w: Seq<char>) -> bool {
    w == "emoji"@ || w == "emoji-only"@
}

/// Whether the element is marked as an emoji by its class names.
pub fn is_emoji_class(attrs: &Vec<Attribute>) -> (r: bool)
    ensures
        r == has_emoji_class(attrs@),
{
    let class = match attr_value(attrs, "class") {
        Some(c) => c,
        None => {
            return false;
        },
    };
    let ws = split_whitespace(class.as_str());
    let ghost w = words(class@);
    let mut i: usize = 0;
    while i < ws.len()
        invariant
            i <= ws.len(),
            w == strings_v(ws@),
            w == words(class@),
            attr_of(attrs@, "class"@) == Some(class@),
            forall|j: int| 0 <= j < i ==> !#[trigger] is_emoji_word(w[j]),
        decreases ws.len() - i,
    {
        let t = ws[i].as_str();
        assert(w[i as int] == t@);
        if str_eq(t, "emoji") || str_eq(t, "emoji-only") {
            assert(is_emoji_word(w[i as int]));
            return true;
        }
        i = i + 1;
    }
    false
}

} // verus!
