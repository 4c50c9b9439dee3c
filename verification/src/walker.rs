use vstd::prelude::*;
use crate::ast::{
    Attributes, Block, Document, Inline, ListItem, SpecAttributes, SpecBlock, SpecDocument,
    SpecInline, SpecListItem, block_view, blocks_view, inline_view, inlines_view, item_view,
    items_view, strings_view,
};
use crate::text::{decimal, push_decimal};

verus! {

/// The strings of `ss` with `sep` between each two.
pub open spec fn join(ss: Seq<Seq<char>>, sep: Seq<char>) -> Seq<char>
    decreases ss.len(),
{
    if ss.len() == 0 {
        Seq::empty()
    } else if ss.len() == 1 {
        ss[0]
    } else {
        join(ss.drop_last(), sep) + sep + ss.last()
    }
}

/// The HTML attributes for an id and classes: ` id="..."` when there is an
/// id, then ` class="..."` with the classes separated by spaces when there
/// is at least one class.
pub open spec fn attrs_html(a: SpecAttributes) -> Seq<char> {
    let id_part = match a.id {
        Some(id) => " id=\""@ + id + "\""@,
        None => Seq::empty(),
    };
    let class_part = if a.classes.len() > 0 {
        " class=\""@ + join(a.classes, " "@) + "\""@
    } else {
        Seq::empty()
    };
    id_part + class_part
}

/// The HTML of an inline element.
pub open spec fn inline_html(x: SpecInline) -> Seq<char>
    decreases x,
{
    match x {
        SpecInline::Text { value } => value,
        SpecInline::Bold { children } => "<strong>"@ + inlines_html(children) + "</strong>"@,
        SpecInline::Italic { children } => "<em>"@ + inlines_html(children) + "</em>"@,
        SpecInline::InlineCode { code } => "<code>"@ + code + "</code>"@,
        SpecInline::Link { url, children, attrs } => "<a href=\""@ + url + "\""@ + attrs_html(attrs)
            + ">"@ + inlines_html(children) + "</a>"@,
        SpecInline::Image { alt, src, attrs } => "<img src=\""@ + src + "\" alt=\""@ + alt + "\" "@
            + attrs_html(attrs) + ">"@,
    }
}

/// The HTML of a sequence of inline elements, one after another.
pub open spec fn inlines_html(s: Seq<SpecInline>) -> Seq<char>
    decreases s,
{
    if s.len() == 0 {
        Seq::empty()
    } else {
        inlines_html(s.drop_last()) + inline_html(s.last())
    }
}

/// The HTML of a list item.
pub open spec fn item_html(it: SpecListItem) -> Seq<char> {
    "<li>"@ + inlines_html(it.children) + "</li>"@
}

/// The HTML of list items, each followed by a newline.
pub open spec fn items_lines(s: Seq<SpecListItem>) -> Seq<char>
    decreases s.len(),
{
    if s.len() == 0 {
        Seq::empty()
    } else {
        items_lines(s.drop_last()) + item_html(s.last()) + "\n"@
    }
}

/// The HTML of a block.
pub open spec fn block_html(b: SpecBlock) -> Seq<char>
    decreases b,
{
    match b {
        SpecBlock::Paragraph { attrs, children } => "<p"@ + attrs_html(attrs) + ">"@ + inlines_html(
            children,
        ) + "</p>"@,
        SpecBlock::Header { attrs, level, children } => "<h"@ + decimal(level as nat) + attrs_html(
            attrs,
        ) + ">"@ + inlines_html(children) + "</h"@ + decimal(level as nat) + ">"@,
        SpecBlock::CodeBlock { language, code } => {
            let class_attr = match language {
                Some(l) => " class=\"language-"@ + l + "\""@,
                None => Seq::empty(),
            };
            "<pre><code"@ + class_attr + ">"@ + code + "</code></pre>"@
        },
        SpecBlock::Note { children } => "<div class=\"tim-note\">\n"@ + blocks_lines(children)
            + "</div>"@,
        SpecBlock::UnorderedList { attrs, children } => "<ul"@ + attrs_html(attrs) + ">\n"@
            + items_lines(children) + "</ul>"@,
        SpecBlock::OrderedList { attrs, start, children } => {
            let start_attr = if start != 1 {
                " start=\""@ + decimal(start as nat) + "\""@
            } else {
                Seq::empty()
            };
            "<ol"@ + attrs_html(attrs) + start_attr + ">\n"@ + items_lines(children) + "</ol>"@
        },
    }
}

/// The HTML of blocks, each followed by a newline.
pub open spec fn blocks_lines(s: Seq<SpecBlock>) -> Seq<char>
    decreases s,
{
    if s.len() == 0 {
        Seq::empty()
    } else {
        blocks_lines(s.drop_last()) + block_html(s.last()) + "\n"@
    }
}

/// The HTML of a document.
pub open spec fn document_html(d: SpecDocument) -> Seq<char> {
    blocks_lines(d.children)
}

/// `s` begins with `p`.
pub open spec fn opens_with(s: Seq<char>, p: Seq<char>) -> bool {
    p.len() <= s.len() && s.subrange(0, p.len() as int) == p
}

/// The attributes of a block are rendered right after its tag name: a
/// paragraph, header, ordered list or unordered list opens with `<`, its
/// tag name and the HTML of its id and classes.
pub proof fn law_block_opens_with_attributes(b: SpecBlock)
    ensures
        b matches SpecBlock::Paragraph { attrs, .. } ==> opens_with(
            block_html(b),
            "<p"@ + attrs_html(attrs),
        ),
        b matches SpecBlock::Header { attrs, level, .. } ==> opens_with(
            block_html(b),
            "<h"@ + decimal(level as nat) + attrs_html(attrs),
        ),
        b matches SpecBlock::OrderedList { attrs, .. } ==> opens_with(
            block_html(b),
            "<ol"@ + attrs_html(attrs),
        ),
        b matches SpecBlock::UnorderedList { attrs, .. } ==> opens_with(
            block_html(b),
            "<ul"@ + attrs_html(attrs),
        ),
{
    let h = block_html(b);
    match b {
        SpecBlock::Paragraph { attrs, .. } => {
            let p = "<p"@ + attrs_html(attrs);
            assert(h.subrange(0, p.len() as int) =~= p);
        },
        SpecBlock::Header { attrs, level, .. } => {
            let p = "<h"@ + decimal(level as nat) + attrs_html(attrs);
            assert(h.subrange(0, p.len() as int) =~= p);
        },
        SpecBlock::OrderedList { attrs, .. } => {
            let p = "<ol"@ + attrs_html(attrs);
            assert(h.subrange(0, p.len() as int) =~= p);
        },
        SpecBlock::UnorderedList { attrs, .. } => {
            let p = "<ul"@ + attrs_html(attrs);
            assert(h.subrange(0, p.len() as int) =~= p);
        },
        _ => {},
    }
}

/// The HTML of attributes holds the id as `id="..."` first, then the
/// classes, separated by spaces, as `class="..."`; nothing where there are
/// neither.
pub proof fn law_attributes_html(a: SpecAttributes)
    ensures
        a.id matches Some(x) ==> opens_with(attrs_html(a), " id=\""@ + x + "\""@),
        a.classes.len() > 0 ==> attrs_html(a).subrange(
            attrs_html(a).len() - (" class=\""@ + join(a.classes, " "@) + "\""@).len(),
            attrs_html(a).len() as int,
        ) == " class=\""@ + join(a.classes, " "@) + "\""@,
        a.id is None && a.classes.len() == 0 ==> attrs_html(a).len() == 0,
{
    let h = attrs_html(a);
    if let Some(x) = a.id {
        let p = " id=\""@ + x + "\""@;
        assert(h.subrange(0, p.len() as int) =~= p);
    }
    if a.classes.len() > 0 {
        let c = " class=\""@ + join(a.classes, " "@) + "\""@;
        assert(h.subrange(h.len() - c.len(), h.len() as int) =~= c);
    }
}

/// Renders a document as HTML.
pub struct Compiler {}

impl Compiler {
    pub fn new() -> Compiler {
        Compiler {  }
    }

    /// The HTML of a document: each block followed by a newline.
    pub fn compile(&self, doc: Document) -> (r: String)
        ensures
            r@ == document_html(doc@),
    {
        let mut result = String::new();
        let n = doc.children.len();
        for i in 0..n
            invariant
                n == doc.children@.len(),
                result@ == blocks_lines(blocks_view(doc.children@.take(i as int))),
        {
            let ghost before = result@;
            let html = self.walk_block(&doc.children[i]);
            result.append(html.as_str());
            result.append("\n");
            proof {
                let s = doc.children@.take(i + 1);
                assert(s.drop_last() == doc.children@.take(i as int));
                assert(blocks_view(s).drop_last() == blocks_view(s.drop_last()));
            }
        }
        assert(doc.children@.take(n as int) == doc.children@);
        result
    }

    fn format_attrs(&self, attrs: &Attributes) -> (r: String)
        ensures
            r@ == attrs_html(attrs@),
    {
        let mut html_attrs = String::new();
        match &attrs.id {
            Some(id) => {
                html_attrs.append(" id=\"");
                html_attrs.append(id.as_str());
                html_attrs.append("\"");
            },
            None => {},
        }
        let n = attrs.classes.len();
        if n > 0 {
            html_attrs.append(" class=\"");
            let ghost before = html_attrs@;
            let ghost cv = strings_view(attrs.classes@);
            for i in 0..n
                invariant
                    n == attrs.classes@.len(),
                    n > 0,
                    cv == strings_view(attrs.classes@),
                    html_attrs@ == before + join(cv.take(i as int), " "@),
            {
                if i > 0 {
                    html_attrs.append(" ");
                }
                html_attrs.append(attrs.classes[i].as_str());
                proof {
                    let s = cv.take(i + 1);
                    assert(s.drop_last() == cv.take(i as int));
                    assert(s.last() == attrs.classes@[i as int]@);
                    if i == 0 {
                        assert(cv.take(0).len() == 0);
                    }
                }
            }
            assert(cv.take(n as int) == cv);
            html_attrs.append("\"");
        }
        html_attrs
    }

    fn walk_inlines(&self, children: &Vec<Inline>) -> (r: String)
        ensures
            r@ == inlines_html(inlines_view(children@)),
        decreases children,
    {
        let mut result = String::new();
        let n = children.len();
        for i in 0..n
            invariant
                n == children@.len(),
                result@ == inlines_html(inlines_view(children@.take(i as int))),
        {
            let html = self.walk_inline(&children[i]);
            result.append(html.as_str());
            proof {
                let s = children@.take(i + 1);
                assert(s.drop_last() == children@.take(i as int));
                assert(inlines_view(s).drop_last() == inlines_view(s.drop_last()));
            }
        }
        assert(children@.take(n as int) == children@);
        result
    }

    fn walk_inline(&self, inline: &Inline) -> (r: String)
        ensures
            r@ == inline_html(inline_view(*inline)),
        decreases inline,
    {
        match inline {
            Inline::Text { value } => value.clone(),
            Inline::Bold { children } => {
                let mut s = String::new();
                s.append("<strong>");
                s.append(self.walk_inlines(children).as_str());
                s.append("</strong>");
                s
            },
            Inline::Italic { children } => {
                let mut s = String::new();
                s.append("<em>");
                s.append(self.walk_inlines(children).as_str());
                s.append("</em>");
                s
            },
            Inline::InlineCode { code } => {
                let mut s = String::new();
                s.append("<code>");
                s.append(code.as_str());
                s.append("</code>");
                s
            },
            Inline::Link { url, children, attrs } => {
                let attr_str = self.format_attrs(attrs);
                let mut s = String::new();
                s.append("<a href=\"");
                s.append(url.as_str());
                s.append("\"");
                s.append(attr_str.as_str());
                s.append(">");
                s.append(self.walk_inlines(children).as_str());
                s.append("</a>");
                s
            },
            Inline::Image { alt, src, attrs } => {
                let attr_str = self.format_attrs(attrs);
                let mut s = String::new();
                s.append("<img src=\"");
                s.append(src.as_str());
                s.append("\" alt=\"");
                s.append(alt.as_str());
                s.append("\" ");
                s.append(attr_str.as_str());
                s.append(">");
                s
            },
        }
    }

    fn walk_list_item(&self, item: &ListItem) -> (r: String)
        ensures
            r@ == item_html(item_view(*item)),
    {
        let mut s = String::new();
        s.append("<li>");
        s.append(self.walk_inlines(&item.children).as_str());
        s.append("</li>");
        s
    }

    /// The HTML of list items, each followed by a newline.
    fn walk_list_items(&self, items: &Vec<ListItem>) -> (r: String)
        ensures
            r@ == items_lines(items_view(items@)),
    {
        let mut result = String::new();
        let n = items.len();
        for i in 0..n
            invariant
                n == items@.len(),
                result@ == items_lines(items_view(items@.take(i as int))),
        {
            let html = self.walk_list_item(&items[i]);
            result.append(html.as_str());
            result.append("\n");
            proof {
                let s = items@.take(i + 1);
                assert(s.drop_last() == items@.take(i as int));
                assert(items_view(s).drop_last() == items_view(s.drop_last()));
            }
        }
        assert(items@.take(n as int) == items@);
        result
    }

    /// The HTML of blocks, each followed by a newline.
    fn walk_blocks(&self, blocks: &Vec<Block>) -> (r: String)
        ensures
            r@ == blocks_lines(blocks_view(blocks@)),
        decreases blocks,
    {
        let mut result = String::new();
        let n = blocks.len();
        for i in 0..n
            invariant
                n == blocks@.len(),
                result@ == blocks_lines(blocks_view(blocks@.take(i as int))),
        {
            let html = self.walk_block(&blocks[i]);
            result.append(html.as_str());
            result.append("\n");
            proof {
                let s = blocks@.take(i + 1);
                assert(s.drop_last() == blocks@.take(i as int));
                assert(blocks_view(s).drop_last() == blocks_view(s.drop_last()));
            }
        }
        assert(blocks@.take(n as int) == blocks@);
        result
    }

    fn walk_block(&self, block: &Block) -> (r: String)
        ensures
            r@ == block_html(block_view(*block)),
        decreases block,
    {
        match block {
            Block::Paragraph { attrs, children } => {
                let attr_string = self.format_attrs(attrs);
                let content = self.walk_inlines(children);
                let mut s = String::new();
                s.append("<p");
                s.append(attr_string.as_str());
                s.append(">");
                s.append(content.as_str());
                s.append("</p>");
                s
            },
            Block::Header { attrs, level, children } => {
                let attr_string = self.format_attrs(attrs);
                let content = self.walk_inlines(children);
                let mut s = String::new();
                s.append("<h");
                push_decimal(&mut s, *level as usize);
                s.append(attr_string.as_str());
                s.append(">");
                s.append(content.as_str());
                s.append("</h");
                push_decimal(&mut s, *level as usize);
                s.append(">");
                s
            },
            Block::CodeBlock { language, code } => {
                let mut s = String::new();
                s.append("<pre><code");
                match language {
                    Some(lang) => {
                        s.append(" class=\"language-");
                        s.append(lang.as_str());
                        s.append("\"");
                    },
                    None => {},
                }
                s.append(">");
                s.append(code.as_str());
                s.append("</code></pre>");
                s
            },
            Block::Note { children } => {
                let note_content = self.walk_blocks(children);
                let mut s = String::new();
                s.append("<div class=\"tim-note\">\n");
                s.append(note_content.as_str());
                s.append("</div>");
                s
            },
            Block::UnorderedList { attrs, children } => {
                let attr_str = self.format_attrs(attrs);
                let list_items_html = self.walk_list_items(children);
                let mut s = String::new();
                s.append("<ul");
                s.append(attr_str.as_str());
                s.append(">\n");
                s.append(list_items_html.as_str());
                s.append("</ul>");
                s
            },
            Block::OrderedList { attrs, start, children } => {
                let mut attr_string = self.format_attrs(attrs);
                if *start != 1 {
                    attr_string.append(" start=\"");
                    push_decimal(&mut attr_string, *start);
                    attr_string.append("\"");
                }
                let list_items_html = self.walk_list_items(children);
                let mut s = String::new();
                s.append("<ol");
                s.append(attr_string.as_str());
                s.append(">\n");
                s.append(list_items_html.as_str());
                s.append("</ol>");
                s
            },
        }
    }
}

} // verus!
