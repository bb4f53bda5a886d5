//! The document model: block nodes, paragraphs and inline nodes, with their
//! mathematical views.
use vstd::prelude::*;

verus! {

/// A length resolved from an attribute or a style declaration, holding the
/// numeric text that was read.
#[derive(Debug, Clone, PartialEq, Eq)]
pub enum Length {
    /// An absolute length in pixels.
    Pixels(String),
    /// A length relative to the container: the percentage, a fraction of
    /// one hundred.
    Relative(String),
}

pub enum LengthV {
    Pixels(Seq<char>),
    Relative(Seq<char>),
}

/// The target of a link mark.
#[derive(Debug, Clone, PartialEq, Eq)]
pub struct LinkMark {
    pub url: String,
    pub title: Option<String>,
}

pub struct LinkV {
    pub url: Seq<char>,
    pub title: Option<Seq<char>>,
}

/// The set of styles that a mark applies.
#[derive(Debug, Clone, PartialEq, Eq)]
pub struct TextMark {
    pub bold: bool,
    pub italic: bool,
    pub strikethrough: bool,
    pub code: bool,
    pub link: Option<LinkMark>,
}

pub struct TextMarkV {
    pub bold: bool,
    pub italic: bool,
    pub strikethrough: bool,
    pub code: bool,
    pub link: Option<LinkV>,
}

/// A style applied to the bytes `start..end` of an inline text.
#[derive(Debug, Clone, PartialEq, Eq)]
pub struct Mark {
    pub start: usize,
    pub end: usize,
    pub style: TextMark,
}

pub struct MarkV {
    pub start: nat,
    pub end: nat,
    pub style: TextMarkV,
}

/// An image, either flowing with the text or standing as a block.
#[derive(Debug, Clone, PartialEq, Eq)]
pub struct ImageNode {
    pub url: String,
    pub alt: Option<String>,
    pub title: Option<String>,
    pub width: Option<Length>,
    pub height: Option<Length>,
    pub link: Option<String>,
    pub is_inline: bool,
}

pub struct ImageV {
    pub url: Seq<char>,
    pub alt: Option<Seq<char>>,
    pub title: Option<Seq<char>>,
    pub width: Option<LengthV>,
    pub height: Option<LengthV>,
    pub link: Option<Seq<char>>,
    pub is_inline: bool,
}

/// A piece of a paragraph: styled text or an image.
#[derive(Debug, Clone, PartialEq, Eq)]
pub enum InlineNode {
    Text { text: String, marks: Vec<Mark> },
    Image(ImageNode),
}

pub enum InlineV {
    Text { text: Seq<char>, marks: Seq<MarkV> },
    Image(ImageV),
}

/// A sequence of inline nodes.
#[derive(Debug, Clone, PartialEq, Eq)]
pub struct Paragraph {
    pub children: Vec<InlineNode>,
}

#[derive(Debug, Clone, PartialEq, Eq)]
pub struct TableCell {
    pub content: Paragraph,
    pub width: Option<Length>,
}

pub struct CellV {
    pub content: Seq<InlineV>,
    pub width: Option<LengthV>,
}

#[derive(Debug, Clone, PartialEq, Eq)]
pub struct TableRow {
    pub cells: Vec<TableCell>,
}

#[derive(Debug, Clone, PartialEq, Eq)]
pub struct Table {
    pub rows: Vec<TableRow>,
}

#[derive(Debug, Clone, PartialEq, Eq)]
pub struct CodeBlock {
    pub code: String,
    pub lang: Option<String>,
}

/// A block of the document tree.
#[derive(Debug, PartialEq, Eq)]
pub enum BlockNode {
    Root { children: Vec<BlockNode> },
    Heading { level: u8, children: Paragraph },
    Paragraph(Paragraph),
    List { children: Vec<BlockNode>, ordered: bool },
    ListItem { children: Vec<BlockNode>, spread: bool, checked: Option<bool> },
    Table(Table),
    Blockquote { children: Vec<BlockNode> },
    CodeBlock(CodeBlock),
    Break { html: bool },
    Unknown,
}

pub enum BlockV {
    Root(Seq<BlockV>),
    Heading { level: nat, content: Seq<InlineV> },
    Paragraph(Seq<InlineV>),
    List { children: Seq<BlockV>, ordered: bool },
    ListItem { children: Seq<BlockV>, spread: bool, checked: Option<bool> },
    Table(Seq<Seq<CellV>>),
    Blockquote(Seq<BlockV>),
    CodeBlock { code: Seq<char>, lang: Option<Seq<char>> },
    Break { html: bool },
    Unknown,
}

/// A parsed document: its source text and its top-level blocks.
#[derive(Debug, PartialEq, Eq)]
pub struct Document {
    pub source: String,
    pub blocks: Vec<BlockNode>,
}

pub struct DocumentV {
    pub source: Seq<char>,
    pub blocks: Seq<BlockV>,
}

pub open spec fn opt_str(o: Option<String>) -> Option<Seq<char>> {
    match o {
        Some(s) => Some(s@),
        None => None,
    }
}

impl View for Length {
    type V = LengthV;

    open spec fn view(&self) -> LengthV {
        match self {
            Length::Pixels(s) => LengthV::Pixels(s@),
            Length::Relative(s) => LengthV::Relative(s@),
        }
    }
}

pub open spec fn opt_len(o: Option<Length>) -> Option<LengthV> {
    match o {
        Some(l) => Some(l@),
        None => None,
    }
}

impl View for LinkMark {
    type V = LinkV;

    open spec fn view(&self) -> LinkV {
        LinkV { url: self.url@, title: opt_str(self.title) }
    }
}

impl View for TextMark {
    type V = TextMarkV;

    open spec fn view(&self) -> TextMarkV {
        TextMarkV {
            bold: self.bold,
            italic: self.italic,
            strikethrough: self.strikethrough,
            code: self.code,
            link: match self.link {
                Some(l) => Some(l@),
                None => None,
            },
        }
    }
}

impl View for Mark {
    type V = MarkV;

    open spec fn view(&self) -> MarkV {
        MarkV { start: self.start as nat, end: self.end as nat, style: self.style@ }
    }
}

pub open spec fn marks_v(s: Seq<Mark>) -> Seq<MarkV> {
    s.map_values(|m: Mark| m@)
}

impl View for ImageNode {
    type V = ImageV;

    open spec fn view(&self) -> ImageV {
        ImageV {
            url: self.url@,
            alt: opt_str(self.alt),
            title: opt_str(self.title),
            width: opt_len(self.width),
            height: opt_len(self.height),
            link: opt_str(self.link),
            is_inline: self.is_inline,
        }
    }
}

impl View for InlineNode {
    type V = InlineV;

    open spec fn view(&self) -> InlineV {
        match self {
            InlineNode::Text { text, marks } => InlineV::Text { text: text@, marks: marks_v(marks@) },
            InlineNode::Image(img) => InlineV::Image(img@),
        }
    }
}

pub open spec fn inlines_v(s: Seq<InlineNode>) -> Seq<InlineV> {
    s.map_values(|n: InlineNode| n@)
}

impl View for Paragraph {
    type V = Seq<InlineV>;

    open spec fn view(&self) -> Seq<InlineV> {
        inlines_v(self.children@)
    }
}

impl View for TableCell {
    type V = CellV;

    open spec fn view(&self) -> CellV {
        CellV { content: self.content@, width: opt_len(self.width) }
    }
}

impl View for TableRow {
    type V = Seq<CellV>;

    open spec fn view(&self) -> Seq<CellV> {
        self.cells@.map_values(|c: TableCell| c@)
    }
}

impl View for Table {
    type V = Seq<Seq<CellV>>;

    open spec fn view(&self) -> Seq<Seq<CellV>> {
        self.rows@.map_values(|r: TableRow| r@)
    }
}

/// The view of a block node.
pub open spec fn block_v(b: BlockNode) -> BlockV
    decreases b, 1nat,
{
    match b {
        BlockNode::Root { children } => BlockV::Root(blocks_v(children@)),
        BlockNode::Heading { level, children } => BlockV::Heading {
            level: level as nat,
            content: children@,
        },
        BlockNode::Paragraph(p) => BlockV::Paragraph(p@),
        BlockNode::List { children, ordered } => BlockV::List {
            children: blocks_v(children@),
            ordered,
        },
        BlockNode::ListItem { children, spread, checked } => BlockV::ListItem {
            children: blocks_v(children@),
            spread,
            checked,
        },
        BlockNode::Table(t) => BlockV::Table(t@),
        BlockNode::Blockquote { children } => BlockV::Blockquote(blocks_v(children@)),
        BlockNode::CodeBlock(c) => BlockV::CodeBlock { code: c.code@, lang: opt_str(c.lang) },
        BlockNode::Break { html } => BlockV::Break { html },
        BlockNode::Unknown => BlockV::Unknown,
    }
}

/// The views of a sequence of block nodes.
pub open spec fn blocks_v(s: Seq<BlockNode>) -> Seq<BlockV>
    decreases s, 0nat,
{
    if s.len() == 0 {
        Seq::empty()
    } else {
        blocks_v(s.drop_last()).push(block_v(s.last()))
    }
}

impl View for BlockNode {
    type V = BlockV;

    open spec fn view(&self) -> BlockV {
        block_v(*self)
    }
}

impl View for Document {
    type V = DocumentV;

    open spec fn view(&self) -> DocumentV {
        DocumentV { source: self.source@, blocks: blocks_v(self.blocks@) }
    }
}

/// The views of blocks, taken one element at a time, agree with `blocks_v`.
pub proof fn lemma_blocks_v_push(s: Seq<BlockNode>, b: BlockNode)
    ensures
        blocks_v(s.push(b)) == blocks_v(s).push(block_v(b)),
{
    assert(s.push(b).drop_last() =~= s);
}

/// `blocks_v` keeps the length and maps each element.
pub proof fn lemma_blocks_v_index(s: Seq<BlockNode>)
    ensures
        blocks_v(s).len() == s.len(),
        forall|i: int| 0 <= i < s.len() ==> #[trigger] blocks_v(s)[i] == block_v(s[i]),
    decreases s.len(),
{
    if s.len() > 0 {
        lemma_blocks_v_index(s.drop_last());
    }
}

/// A paragraph holds no image and no text.
pub open spec fn para_is_empty(p: Seq<InlineV>) -> bool {
    forall|i: int| 0 <= i < p.len() ==> (#[trigger] p[i] matches InlineV::Text { text, .. } && text.len() == 0)
}

/// A paragraph holds some text.
pub open spec fn para_has_text(p: Seq<InlineV>) -> bool {
    exists|i: int| 0 <= i < p.len() && (#[trigger] p[i] matches InlineV::Text { text, .. } && text.len() > 0)
}

/// A paragraph is a single image.
pub open spec fn para_is_image(p: Seq<InlineV>) -> bool {
    p.len() == 1 && p[0] is Image
}

impl Paragraph {
    pub fn new() -> (r: Paragraph)
        ensures
            r@ == Seq::<InlineV>::empty(),
    {
        Paragraph { children: Vec::new() }
    }

    /// Appends an unstyled text.
    pub fn push_str(&mut self, text: &str)
        ensures
            final(self)@ == old(self)@.push(InlineV::Text { text: text@, marks: Seq::empty() }),
    {
        let marks: Vec<Mark> = Vec::new();
        assert(marks_v(marks@) =~= Seq::empty());
        let node = InlineNode::Text { text: String::from_str(text), marks };
        self.push(node);
    }

    /// Appends an inline node.
    pub fn push(&mut self, node: InlineNode)
        ensures
            final(self)@ == old(self)@.push(node@),
    {
        self.children.push(node);
        assert(self@ =~= old(self)@.push(node@));
    }

    /// Appends an image.
    pub fn push_image(&mut self, image: ImageNode)
        ensures
            final(self)@ == old(self)@.push(InlineV::Image(image@)),
    {
        self.push(InlineNode::Image(image));
    }

    /// Hands out the paragraph and leaves an empty one in its place.
    pub fn take(&mut self) -> (r: Paragraph)
        ensures
            r@ == old(self)@,
            final(self)@ == Seq::<InlineV>::empty(),
    {
        let mut out = Paragraph::new();
        std::mem::swap(self, &mut out);
        out
    }

    /// Appends the nodes of another paragraph.
    pub fn merge(&mut self, other: Paragraph)
        ensures
            final(self)@ == old(self)@ + other@,
    {
        let mut rest = other.children;
        let ghost r0 = rest@;
        self.children.append(&mut rest);
        assert(self@ =~= old(self)@ + inlines_v(r0));
    }

    /// Whether the paragraph holds neither an image nor any text.
    pub fn is_empty(&self) -> (r: bool)
        ensures
            r == para_is_empty(self@),
    {
        let mut i: usize = 0;
        while i < self.children.len()
            invariant
                i <= self.children.len(),
                forall|j: int| 0 <= j < i ==> (#[trigger] self@[j] matches InlineV::Text { text, .. } && text.len() == 0),
            decreases self.children.len() - i,
        {
            match &self.children[i] {
                InlineNode::Text { text, .. } => {
                    if text.as_str().unicode_len() > 0 {
                        assert(!(self@[i as int] matches InlineV::Text { text, .. } && text.len() == 0));
                        return false;
                    }
                },
                InlineNode::Image(_) => {
                    assert(!(self@[i as int] matches InlineV::Text { text, .. } && text.len() == 0));
                    return false;
                },
            }
            i = i + 1;
        }
        true
    }

    /// Whether the paragraph holds some text.
    pub fn has_text(&self) -> (r: bool)
        ensures
            r == para_has_text(self@),
    {
        let mut i: usize = 0;
        while i < self.children.len()
            invariant
                i <= self.children.len(),
                forall|j: int| 0 <= j < i ==> !(#[trigger] self@[j] matches InlineV::Text { text, .. } && text.len() > 0),
            decreases self.children.len() - i,
        {
            if let InlineNode::Text { text, .. } = &self.children[i] {
                if text.as_str().unicode_len() > 0 {
                    assert(self@[i as int] matches InlineV::Text { text, .. } && text.len() > 0);
                    return true;
                }
            }
            i = i + 1;
        }
        false
    }

    /// Whether the paragraph is a single image.
    pub fn is_image(&self) -> (r: bool)
        ensures
            r == para_is_image(self@),
    {
        self.children.len() == 1 && matches!(self.children[0], InlineNode::Image(_))
    }
}

} // verus!
