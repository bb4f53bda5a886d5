use html_document::block::{consume_paragraph, is_block_element};
use html_document::code::extract_code_language;
use html_document::document::{compact_block, parse_dom};
use html_document::dom::{Attribute, DomNode};
use html_document::html::{parse, parse_markup};
use html_document::attrs::{attr_width_height, style_attrs, style_get, value_to_length};
use html_document::node::{
    BlockNode, CodeBlock, Document, ImageNode, InlineNode, Length, LinkMark, Mark, Paragraph,
    TextMark,
};
use html_document::number::float_literal;
use html_document::text::{split_whitespace, str_trim, trim_text};

fn px(s: &str) -> Option<Length> {
    Some(Length::Pixels(s.to_string()))
}

fn relative(s: &str) -> Option<Length> {
    Some(Length::Relative(s.to_string()))
}

fn fraction(l: &Option<Length>) -> f32 {
    match l {
        Some(Length::Relative(p)) => p.parse::<f32>().unwrap() / 100.,
        Some(Length::Pixels(p)) => p.parse::<f32>().unwrap(),
        None => panic!("no length"),
    }
}

fn plain(text: &str) -> InlineNode {
    InlineNode::Text { text: text.to_string(), marks: vec![] }
}

fn style() -> TextMark {
    TextMark { bold: false, italic: false, strikethrough: false, code: false, link: None }
}

fn attr(name: &str, value: &str) -> Attribute {
    Attribute { name: name.to_string(), value: value.to_string() }
}

fn only_block(doc: &Document) -> &BlockNode {
    assert_eq!(doc.blocks.len(), 1);
    &doc.blocks[0]
}

#[test]
fn test_trim_text() {
    assert_eq!(trim_text("  \n\tHello world \t\r "), " Hello world ",);
}

#[test]
fn test_value_to_length() {
    assert_eq!(value_to_length("100px"), px("100"));
    assert_eq!(fraction(&value_to_length("100px")), 100.);
    assert_eq!(value_to_length("100%"), relative("100"));
    assert_eq!(fraction(&value_to_length("100%")), 1.);
    assert_eq!(value_to_length("56%"), relative("56"));
    assert_eq!(fraction(&value_to_length("56%")), 0.56);
    assert_eq!(value_to_length("240"), px("240"));
    assert_eq!(fraction(&value_to_length("240")), 240.);
}

#[test]
fn test_image() {
    let html = r#"<img src="https://example.com/image.png" alt="Example" width="100" height="200" title="Example Image" />"#;
    let node = parse(html).unwrap();
    assert_eq!(
        node,
        Document {
            source: html.to_string(),
            blocks: vec![BlockNode::Paragraph(Paragraph {
                children: vec![InlineNode::Image(ImageNode {
                    url: "https://example.com/image.png".to_string(),
                    alt: Some("Example".to_string()),
                    width: px("100"),
                    height: px("200"),
                    title: Some("Example Image".to_string()),
                    link: None,
                    is_inline: false,
                })],
            })]
        }
    );

    let html = r#"<img src="https://example.com/image.png" alt="Example" style="width: 80%" title="Example Image" />"#;
    let node = parse(html).unwrap();
    assert_eq!(
        node,
        Document {
            source: html.to_string(),
            blocks: vec![BlockNode::Paragraph(Paragraph {
                children: vec![InlineNode::Image(ImageNode {
                    url: "https://example.com/image.png".to_string(),
                    alt: Some("Example".to_string()),
                    width: relative("80"),
                    height: None,
                    title: Some("Example Image".to_string()),
                    link: None,
                    is_inline: false,
                })],
            })]
        }
    );
}

fn code_block(html: &str) -> CodeBlock {
    let doc = parse(html).unwrap();
    match only_block(&doc) {
        BlockNode::CodeBlock(cb) => cb.clone(),
        other => panic!("Expected CodeBlock, got: {:?}", other),
    }
}

#[test]
fn test_pre_code_block_with_language() {
    let cb = code_block(
        r#"<pre><code class="lang-rust">fn main() {
    println!("Hello");
}</code></pre>"#,
    );
    assert_eq!(cb.lang, Some("rust".to_string()));
    assert_eq!(cb.code, "fn main() {\n    println!(\"Hello\");\n}");
}

#[test]
fn test_pre_code_block_language_prefix() {
    let cb = code_block(r#"<pre><code class="language-javascript">const x = 42;</code></pre>"#);
    assert_eq!(cb.lang, Some("javascript".to_string()));
    assert_eq!(cb.code, "const x = 42;");
}

#[test]
fn test_pre_code_block_no_language() {
    let cb = code_block(r#"<pre><code>plain code here</code></pre>"#);
    assert_eq!(cb.lang, None);
    assert_eq!(cb.code, "plain code here");
}

#[test]
fn test_pre_without_code() {
    let cb = code_block(r#"<pre>raw preformatted text</pre>"#);
    assert_eq!(cb.lang, None);
    assert_eq!(cb.code, "raw preformatted text");
}

#[test]
fn inline_code_keeps_its_span() {
    let doc = parse(r#"<p>and <code>code</code> text</p>"#).unwrap();
    let code = TextMark { code: true, ..style() };
    assert_eq!(
        only_block(&doc),
        &BlockNode::Paragraph(Paragraph {
            children: vec![
                plain("and "),
                InlineNode::Text {
                    text: "code".to_string(),
                    marks: vec![Mark { start: 0, end: 4, style: code }],
                },
                plain(" text"),
            ],
        })
    );
}

#[test]
fn nested_marks_index_into_the_outer_text() {
    let doc = parse(r#"<p><a href="u" title="T">x<b>yz</b>é<i>w</i></a></p>"#).unwrap();
    let link = TextMark {
        link: Some(LinkMark { url: "u".to_string(), title: Some("T".to_string()) }),
        ..style()
    };
    let bold = TextMark { bold: true, ..style() };
    let italic = TextMark { italic: true, ..style() };
    assert_eq!(
        only_block(&doc),
        &BlockNode::Paragraph(Paragraph {
            children: vec![InlineNode::Text {
                text: "xyzéw".to_string(),
                marks: vec![
                    Mark { start: 1, end: 3, style: bold },
                    Mark { start: 5, end: 6, style: italic },
                    Mark { start: 0, end: 6, style: link },
                ],
            }],
        })
    );
}

#[test]
fn link_without_href_has_empty_url() {
    let doc = parse(r#"<p><a>go</a></p>"#).unwrap();
    let link = TextMark { link: Some(LinkMark { url: String::new(), title: None }), ..style() };
    assert_eq!(
        only_block(&doc),
        &BlockNode::Paragraph(Paragraph {
            children: vec![InlineNode::Text {
                text: "go".to_string(),
                marks: vec![Mark { start: 0, end: 2, style: link }],
            }],
        })
    );
}

#[test]
fn list_items_hold_their_text() {
    let doc = parse(r#"<ul><li>Item 1</li><li>Item 2</li></ul>"#).unwrap();
    let item = |t: &str| BlockNode::ListItem {
        children: vec![BlockNode::Paragraph(Paragraph { children: vec![plain(t)] })],
        spread: false,
        checked: None,
    };
    assert_eq!(
        only_block(&doc),
        &BlockNode::List { children: vec![item("Item 1"), item("Item 2")], ordered: false }
    );
}

#[test]
fn ordered_list_is_ordered() {
    let doc = parse(r#"<ol><li>One</li></ol>"#).unwrap();
    match only_block(&doc) {
        BlockNode::List { ordered, children } => {
            assert!(*ordered);
            assert_eq!(children.len(), 1);
        },
        other => panic!("Expected List, got: {:?}", other),
    }
}

#[test]
fn table_rows_without_cells_are_dropped() {
    let doc = parse(
        r#"<table><thead><tr><th>H</th></tr></thead><tbody><tr><td></td></tr><tr><td width="30%">A</td><td></td></tr></tbody></table>"#,
    )
    .unwrap();
    match only_block(&doc) {
        BlockNode::Table(t) => {
            assert_eq!(t.rows.len(), 2);
            assert_eq!(t.rows[0].cells.len(), 1);
            assert_eq!(t.rows[0].cells[0].content, Paragraph { children: vec![plain("H")] });
            assert_eq!(t.rows[1].cells.len(), 1);
            assert_eq!(t.rows[1].cells[0].content, Paragraph { children: vec![plain("A")] });
            assert_eq!(t.rows[1].cells[0].width, relative("30"));
        },
        other => panic!("Expected Table, got: {:?}", other),
    }
}

#[test]
fn heading_after_text_is_wrapped_with_it() {
    let doc = parse(r#"<div>Intro<h2>Title</h2></div>"#).unwrap();
    assert_eq!(
        only_block(&doc),
        &BlockNode::Root {
            children: vec![
                BlockNode::Paragraph(Paragraph { children: vec![plain("Intro")] }),
                BlockNode::Heading { level: 2, children: Paragraph { children: vec![plain("Title")] } },
            ],
        }
    );
}

#[test]
fn blockquote_and_break() {
    let doc = parse(r#"<blockquote>a<br>b</blockquote>"#).unwrap();
    assert_eq!(
        only_block(&doc),
        &BlockNode::Blockquote {
            children: vec![
                BlockNode::Paragraph(Paragraph { children: vec![plain("a")] }),
                BlockNode::Break { html: true },
                BlockNode::Paragraph(Paragraph { children: vec![plain("b")] }),
            ],
        }
    );
}

#[test]
fn emoji_image_flows_with_text() {
    let doc = parse(r#"<p>hi <img src="e.png" class="emoji" alt=":)"> there</p>"#).unwrap();
    match only_block(&doc) {
        BlockNode::Paragraph(p) => {
            assert_eq!(p.children.len(), 3);
            match &p.children[1] {
                InlineNode::Image(img) => {
                    assert!(img.is_inline);
                    assert_eq!(img.url, "e.png");
                },
                other => panic!("Expected image, got: {:?}", other),
            }
        },
        other => panic!("Expected Paragraph, got: {:?}", other),
    }
}

#[test]
fn image_without_src_is_skipped() {
    let doc = parse(r#"<p>x<img alt="none">y</p>"#).unwrap();
    assert_eq!(
        only_block(&doc),
        &BlockNode::Paragraph(Paragraph { children: vec![plain("x"), plain("y")] })
    );
}

#[test]
fn style_and_script_are_ignored() {
    let doc = parse(r#"<div><style>p { color: red }</style><script>var a;</script>ok</div>"#).unwrap();
    assert_eq!(only_block(&doc), &BlockNode::Paragraph(Paragraph { children: vec![plain("ok")] }));
}

#[test]
fn empty_pre_is_a_container() {
    let doc = parse(r#"<pre></pre>"#).unwrap();
    assert_eq!(only_block(&doc), &BlockNode::Root { children: vec![] });
}

#[test]
fn attributes_win_over_style() {
    let attrs = vec![attr("width", "10"), attr("style", "WIDTH : 50% ; height:20px")];
    assert_eq!(attr_width_height(&attrs), (px("10"), px("20")));
    let attrs = vec![attr("width", "wide"), attr("style", "width: 50%")];
    assert_eq!(attr_width_height(&attrs).0, None);
    let attrs = vec![attr("style", "width: 50%; width: 70%")];
    assert_eq!(attr_width_height(&attrs).0, relative("70"));
}

#[test]
fn style_declarations_are_parsed() {
    let styles = style_attrs(&vec![attr("style", " Color : Red ;broken; x:a:b")]);
    assert_eq!(style_get(&styles, "color"), Some("Red".to_string()));
    assert_eq!(style_get(&styles, "x"), Some("a:b".to_string()));
    assert_eq!(style_get(&styles, "broken"), None);
}

#[test]
fn lengths_that_are_not_numbers() {
    assert_eq!(value_to_length("auto"), None);
    assert_eq!(value_to_length("%"), None);
    assert_eq!(value_to_length("1.5e2px"), px("1.5e2"));
    assert_eq!(value_to_length("12pxpx"), px("12"));
    assert_eq!(value_to_length("5%%"), relative("5"));
}

#[test]
fn float_literals_follow_the_standard_grammar() {
    for s in ["1", "-1.", ".5", "+2e-3", "INF", "infinity", "NaN", "1E5"] {
        assert!(float_literal(s), "{}", s);
        assert!(s.parse::<f32>().is_ok());
    }
    for s in ["", ".", "e5", "1e", "1.2.3", " 1", "1px", "+-1", "infinit"] {
        assert!(!float_literal(s), "{}", s);
        assert!(s.parse::<f32>().is_err());
    }
}

#[test]
fn code_language_from_class() {
    assert_eq!(extract_code_language(&vec![attr("class", "x lang-go language-c")]), Some("go".to_string()));
    assert_eq!(extract_code_language(&vec![attr("class", "plain")]), None);
    assert_eq!(extract_code_language(&vec![]), None);
}

#[test]
fn block_element_catalog() {
    assert!(is_block_element("section"));
    assert!(is_block_element("script"));
    assert!(!is_block_element("span"));
    assert!(!is_block_element("li"));
}

#[test]
fn flushing_an_empty_paragraph_does_nothing() {
    let mut children = vec![];
    let mut p = Paragraph { children: vec![plain("")] };
    consume_paragraph(&mut children, &mut p);
    assert!(children.is_empty());
    assert_eq!(p.children.len(), 1);
    let mut p = Paragraph { children: vec![plain("a")] };
    consume_paragraph(&mut children, &mut p);
    assert_eq!(children, vec![BlockNode::Paragraph(Paragraph { children: vec![plain("a")] })]);
    assert!(p.children.is_empty());
}

#[test]
fn compacting_twice_changes_nothing() {
    let leaf = || BlockNode::Break { html: true };
    let tree = BlockNode::Root {
        children: vec![BlockNode::Root {
            children: vec![
                BlockNode::Root { children: vec![leaf()] },
                BlockNode::List {
                    children: vec![BlockNode::Root { children: vec![leaf()] }],
                    ordered: true,
                },
            ],
        }],
    };
    let once = compact_block(tree);
    assert_eq!(
        once,
        BlockNode::Root {
            children: vec![leaf(), BlockNode::List { children: vec![leaf()], ordered: true }],
        }
    );
    let again = BlockNode::Root {
        children: vec![leaf(), BlockNode::List { children: vec![leaf()], ordered: true }],
    };
    assert_eq!(compact_block(again), once);
}

#[test]
fn dom_without_blocks_gives_unknown() {
    let doc = parse_dom("", &DomNode::Comment);
    assert_eq!(doc.blocks, vec![BlockNode::Unknown]);
}

#[test]
fn deep_nesting_is_an_error() {
    let html = "<div>".repeat(400);
    assert!(parse(&html).is_err());
}

#[test]
fn trim_text_keeps_first_whitespace_of_a_run() {
    assert_eq!(trim_text("a\t\tb  c"), "a\t\tb c");
    assert_eq!(trim_text(""), "");
}

#[test]
fn markup_is_tokenized_in_place_of_the_source() {
    let doc = parse_markup("<p> a </p>", b"<p>a</p>").unwrap();
    assert_eq!(doc.source, "<p> a </p>");
    assert_eq!(only_block(&doc), &BlockNode::Paragraph(Paragraph { children: vec![plain("a")] }));
    let doc = parse("<p> a </p>").unwrap();
    assert_eq!(only_block(&doc), &BlockNode::Paragraph(Paragraph { children: vec![plain(" a ")] }));
}

#[test]
fn nesting_within_the_limit_is_parsed() {
    let html = "<div>".repeat(200);
    let doc = parse(&html).unwrap();
    assert_eq!(only_block(&doc), &BlockNode::Root { children: vec![] });
}

#[test]
fn unicode_white_space_is_trimmed_and_splits_words() {
    assert_eq!(str_trim("\u{3000}\u{85} x\u{a0}\u{2029}"), "x");
    assert_eq!(split_whitespace("a\u{2003}b\u{1680}c"), vec!["a", "b", "c"]);
    assert_eq!(split_whitespace("a\u{200b}b"), vec!["a\u{200b}b"]);
}

#[test]
fn very_deep_nesting_is_an_error_not_an_abort() {
    let html = "<div>".repeat(10_000);
    assert!(parse(&html).is_err());
}

#[test]
fn minified_markup_keeps_spaces() {
    let html = r#"
            <div>
            <p>
                and
                <em>   <code>code</code>   <i>italic</i>   </em>
                text
            </p>
            <p>
                <img src="https://example.com/image.png" alt="Example" width="100" height="200" title="Example Image" />
            </p>
            <ul>
                <li>Item 1</li>
                <li>Item 2
                </li>
            </ul>
            </div>
        "#;
    let markup = r#"<div><p>and <em><code>code</code> <i>italic</i></em> text<p><img alt=Example height=200 src=https://example.com/image.png title="Example Image" width=100><ul><li>Item 1<li>Item 2</ul></div>"#;
    let doc = parse_markup(html, markup.as_bytes()).unwrap();
    assert_eq!(doc.source, html);
    let code = TextMark { code: true, ..style() };
    let italic = TextMark { italic: true, ..style() };
    let item = |t: &str| BlockNode::ListItem {
        children: vec![BlockNode::Paragraph(Paragraph { children: vec![plain(t)] })],
        spread: false,
        checked: None,
    };
    assert_eq!(
        only_block(&doc),
        &BlockNode::Root {
            children: vec![
                BlockNode::Paragraph(Paragraph {
                    children: vec![
                        plain("and "),
                        InlineNode::Text {
                            text: "code italic".to_string(),
                            marks: vec![
                                Mark { start: 0, end: 4, style: code },
                                Mark { start: 5, end: 11, style: italic.clone() },
                                Mark { start: 0, end: 11, style: italic },
                            ],
                        },
                        plain(" text"),
                    ],
                }),
                BlockNode::Paragraph(Paragraph {
                    children: vec![InlineNode::Image(ImageNode {
                        url: "https://example.com/image.png".to_string(),
                        alt: Some("Example".to_string()),
                        width: px("100"),
                        height: px("200"),
                        title: Some("Example Image".to_string()),
                        link: None,
                        is_inline: false,
                    })],
                }),
                BlockNode::List { children: vec![item("Item 1"), item("Item 2")], ordered: false },
            ],
        }
    );
}
