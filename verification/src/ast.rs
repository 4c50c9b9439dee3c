use vstd::prelude::*;

verus! {

/// The id and classes attached to a block by an attribute line.
#[derive(Debug)]
pub struct Attributes {
    pub id: Option<String>,
    pub classes: Vec<String>,
}

#[derive(Debug)]
pub struct ListItem {
    pub attrs: Attributes,
    pub children: Vec<Inline>,
}

#[derive(Debug)]
pub struct Document {
    pub children: Vec<Block>,
}

#[derive(Debug)]
#[allow(inconsistent_fields)]
pub enum Block {
    Paragraph { attrs: Attributes, children: Vec<Inline> },
    Header { attrs: Attributes, level: u8, children: Vec<Inline> },
    OrderedList { attrs: Attributes, start: usize, children: Vec<ListItem> },
    UnorderedList { attrs: Attributes, children: Vec<ListItem> },
    CodeBlock { language: Option<String>, code: String },
    Note { children: Vec<Block> },
}

#[derive(Debug)]
pub enum Inline {
    Image { alt: String, src: String, attrs: Attributes },
    Link { url: String, children: Vec<Inline>, attrs: Attributes },
    Bold { children: Vec<Inline> },
    Italic { children: Vec<Inline> },
    InlineCode { code: String },
    Text { value: String },
}

/// The mathematical value of an [`Attributes`].
#[verifier::ext_equal]
pub struct SpecAttributes {
    pub id: Option<Seq<char>>,
    pub classes: Seq<Seq<char>>,
}

#[verifier::ext_equal]
pub struct SpecListItem {
    pub attrs: SpecAttributes,
    pub children: Seq<SpecInline>,
}

#[verifier::ext_equal]
pub struct SpecDocument {
    pub children: Seq<SpecBlock>,
}

#[verifier::ext_equal]
#[allow(inconsistent_fields)]
pub enum SpecBlock {
    Paragraph { attrs: SpecAttributes, children: Seq<SpecInline> },
    Header { attrs: SpecAttributes, level: u8, children: Seq<SpecInline> },
    OrderedList { attrs: SpecAttributes, start: usize, children: Seq<SpecListItem> },
    UnorderedList { attrs: SpecAttributes, children: Seq<SpecListItem> },
    CodeBlock { language: Option<Seq<char>>, code: Seq<char> },
    Note { children: Seq<SpecBlock> },
}

#[verifier::ext_equal]
pub enum SpecInline {
    Image { alt: Seq<char>, src: Seq<char>, attrs: SpecAttributes },
    Link { url: Seq<char>, children: Seq<SpecInline>, attrs: SpecAttributes },
    Bold { children: Seq<SpecInline> },
    Italic { children: Seq<SpecInline> },
    InlineCode { code: Seq<char> },
    Text { value: Seq<char> },
}

pub open spec fn opt_string_view(o: Option<String>) -> Option<Seq<char>> {
    match o {
        Some(s) => Some(s@),
        None => None,
    }
}

pub open spec fn strings_view(v: Seq<String>) -> Seq<Seq<char>> {
    Seq::new(v.len(), |i: int| v[i]@)
}

impl View for Attributes {
    type V = SpecAttributes;

    open spec fn view(&self) -> SpecAttributes {
        SpecAttributes { id: opt_string_view(self.id), classes: strings_view(self.classes@) }
    }
}

pub open spec fn inline_view(i: Inline) -> SpecInline
    decreases i,
{
    match i {
        Inline::Image { alt, src, attrs } => SpecInline::Image { alt: alt@, src: src@, attrs: attrs@ },
        Inline::Link { url, children, attrs } => SpecInline::Link {
            url: url@,
            children: inlines_view(children@),
            attrs: attrs@,
        },
        Inline::Bold { children } => SpecInline::Bold { children: inlines_view(children@) },
        Inline::Italic { children } => SpecInline::Italic { children: inlines_view(children@) },
        Inline::InlineCode { code } => SpecInline::InlineCode { code: code@ },
        Inline::Text { value } => SpecInline::Text { value: value@ },
    }
}

pub open spec fn inlines_view(s: Seq<Inline>) -> Seq<SpecInline>
    decreases s,
{
    if s.len() == 0 {
        Seq::empty()
    } else {
        inlines_view(s.drop_last()).push(inline_view(s.last()))
    }
}

pub open spec fn item_view(it: ListItem) -> SpecListItem
    decreases it,
{
    SpecListItem { attrs: it.attrs@, children: inlines_view(it.children@) }
}

pub open spec fn items_view(s: Seq<ListItem>) -> Seq<SpecListItem>
    decreases s,
{
    if s.len() == 0 {
        Seq::empty()
    } else {
        items_view(s.drop_last()).push(item_view(s.last()))
    }
}

pub open spec fn block_view(b: Block) -> SpecBlock
    decreases b,
{
    match b {
        Block::Paragraph { attrs, children } => SpecBlock::Paragraph {
            attrs: attrs@,
            children: inlines_view(children@),
        },
        Block::Header { attrs, level, children } => SpecBlock::Header {
            attrs: attrs@,
            level,
            children: inlines_view(children@),
        },
        Block::OrderedList { attrs, start, children } => SpecBlock::OrderedList {
            attrs: attrs@,
            start,
            children: items_view(children@),
        },
        Block::UnorderedList { attrs, children } => SpecBlock::UnorderedList {
            attrs: attrs@,
            children: items_view(children@),
        },
        Block::CodeBlock { language, code } => SpecBlock::CodeBlock {
            language: opt_string_view(language),
            code: code@,
        },
        Block::Note { children } => SpecBlock::Note { children: blocks_view(children@) },
    }
}

pub open spec fn blocks_view(s: Seq<Block>) -> Seq<SpecBlock>
    decreases s,
{
    if s.len() == 0 {
        Seq::empty()
    } else {
        blocks_view(s.drop_last()).push(block_view(s.last()))
    }
}

impl View for Inline {
    type V = SpecInline;

    open spec fn view(&self) -> SpecInline {
        inline_view(*self)
    }
}

impl View for ListItem {
    type V = SpecListItem;

    open spec fn view(&self) -> SpecListItem {
        item_view(*self)
    }
}

impl View for Block {
    type V = SpecBlock;

    open spec fn view(&self) -> SpecBlock {
        block_view(*self)
    }
}

impl View for Document {
    type V = SpecDocument;

    open spec fn view(&self) -> SpecDocument {
        SpecDocument { children: blocks_view(self.children@) }
    }
}

pub open spec fn empty_attrs() -> SpecAttributes {
    SpecAttributes { id: None, classes: Seq::empty() }
}

impl Attributes {
    /// Attributes with no id and no classes.
    pub fn empty() -> (a: Attributes)
        ensures
            a@ == empty_attrs(),
    {
        Attributes { id: None, classes: Vec::new() }
    }
}

impl Default for Attributes {
    fn default() -> (a: Attributes)
        ensures
            a@ == empty_attrs(),
    {
        Attributes::empty()
    }
}

pub proof fn lemma_inlines_view_push(s: Seq<Inline>, x: Inline)
    ensures
        inlines_view(s.push(x)) == inlines_view(s).push(inline_view(x)),
{
    assert(s.push(x).drop_last() == s);
}

pub proof fn lemma_inlines_view_len(s: Seq<Inline>)
    ensures
        inlines_view(s).len() == s.len(),
    decreases s.len(),
{
    if s.len() > 0 {
        lemma_inlines_view_len(s.drop_last());
    }
}

pub proof fn lemma_items_view_push(s: Seq<ListItem>, x: ListItem)
    ensures
        items_view(s.push(x)) == items_view(s).push(item_view(x)),
{
    assert(s.push(x).drop_last() == s);
}

pub proof fn lemma_blocks_view_push(s: Seq<Block>, x: Block)
    ensures
        blocks_view(s.push(x)) == blocks_view(s).push(block_view(x)),
{
    assert(s.push(x).drop_last() == s);
}

} // verus!
