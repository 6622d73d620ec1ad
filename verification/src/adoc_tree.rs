//! AsciiDoc documents as plain trees, read with the asciidork crates.

use asciidork_ast::{
    Anchor, AttrData, AttrValue, BlockContent, CellContent, DocContent, EmptyMetadata, IndexTermType,
    Inline, ListItemTypeMeta, MacroNode, ReadAttr, SpanKind,
};
use asciidork_core::JobSettings;
use asciidork_parser::prelude::{Parser, SourceFile};
use bumpalo::Bump;
use rayon::ThreadPoolBuilder;
use std::collections::BTreeMap;
use std::sync::mpsc::channel;
use vstd::prelude::*;

use crate::adoc_renderable::document_renders;
use crate::text::{opt_text, str_eq, texts};

verus! {

/// What an inline node is, as far as extraction tells nodes apart.
#[derive(Debug, Clone, Copy, PartialEq, Eq, Structural)]
pub enum InlineKind {
    /// Plain text.
    Text,
    /// A monospace span.
    Mono,
    /// A literal monospace span.
    LitMono,
    Bold,
    Italic,
    Highlight,
    Superscript,
    Subscript,
    /// A span with attributes and no style of its own.
    TextSpan,
    Quote,
    Passthrough,
    /// A cross reference.
    Xref,
    Link,
    Mailto,
    Footnote,
    /// An index term that is shown.
    IndexTerm,
    /// Anything else.
    Other,
}

/// An inline node with its byte range in the source.
pub struct AdocInline {
    pub kind: InlineKind,
    /// The text of a text node, the plain text inside a span, the target of a
    /// cross reference, else empty.
    pub text: String,
    pub start: usize,
    pub end: usize,
    /// The nodes that are shown inside this one.
    pub children: Vec<AdocInline>,
}

/// The value of a document attribute.
pub enum AdocValue {
    Text(String),
    /// Set without a value, or unset.
    Flag(bool),
}

/// One `[...]` attribute-list line.
pub struct AdocAttrList {
    pub id: Option<String>,
    pub roles: Vec<String>,
    /// The attributes that were asked for, in the order asked, each with its
    /// value where the list has it as text.
    pub named: Vec<(String, Option<String>)>,
    /// Byte range in the source, brackets included.
    pub start: usize,
    pub end: usize,
}

/// A block.
pub struct AdocBlock {
    /// The name of the block's context, such as `Open` or `Paragraph`.
    pub context: String,
    /// The attribute lists above the block, in document order.
    pub attrs: Vec<AdocAttrList>,
    pub content: AdocContent,
    /// Where the block starts, attribute lists excluded.
    pub start: usize,
    /// Where the last node of the content ends.
    pub last_end: Option<usize>,
}

/// What a block holds.
pub enum AdocContent {
    Simple(Vec<AdocInline>),
    Compound(Vec<AdocBlock>),
    Section(AdocSection),
    /// A document attribute and its value.
    Attribute(String, AdocValue),
    /// A paragraph in quotation marks with its attribution.
    Quoted,
    List(Vec<AdocItem>),
    /// The cells of a table, row by row.
    Table(Vec<AdocCell>),
    Empty(AdocEmpty),
}

/// A block without text of its own.
#[derive(Debug, Clone, Copy, PartialEq, Eq, Structural)]
pub enum AdocEmpty {
    Image,
    AudioVideo,
    /// A heading that opens no section, with its level.
    DiscreteHeading(u8),
    Comment,
    Nothing,
}

/// An item of a list.
pub struct AdocItem {
    /// Whether the item is one of a description list, and the block that
    /// describes it, where there is one.
    pub described: Option<Vec<AdocBlock>>,
    /// The blocks attached to the item.
    pub blocks: Vec<AdocBlock>,
}

/// A cell of a table.
pub enum AdocCell {
    /// The body of a document of its own.
    Document(AdocBody),
    Text,
}

/// A section.
pub struct AdocSection {
    /// The heading as plain text.
    pub title: String,
    pub heading: Vec<AdocInline>,
    pub level: u8,
    /// The id that the parser gave the section.
    pub id: Option<String>,
    pub start: usize,
    pub blocks: Vec<AdocBlock>,
}

/// A part of a book.
pub struct AdocPart {
    pub intro: Option<Vec<AdocBlock>>,
    pub sections: Vec<AdocSection>,
}

/// A book of several parts.
pub struct AdocBook {
    pub preamble: Option<Vec<AdocBlock>>,
    pub opening: Vec<AdocSection>,
    pub parts: Vec<AdocPart>,
    pub closing: Vec<AdocSection>,
}

/// The body of a document.
pub enum AdocBody {
    Blocks(Vec<AdocBlock>),
    /// The blocks before the first section, then the sections.
    Sections(Option<Vec<AdocBlock>>, Vec<AdocSection>),
    Parts(AdocBook),
}

/// What cross references lead to.
pub struct AdocAnchor {
    pub id: String,
    /// The text that is shown in the place of a cross reference without a text
    /// of its own, and the one that is shown in any case.
    pub title: Vec<AdocInline>,
    pub reftext: Option<Vec<AdocInline>>,
}

/// A document.
pub struct AdocDocument {
    /// The document attributes that were asked for, in the order asked.
    pub attributes: Vec<(String, Option<AdocValue>)>,
    /// The anchors of the document and of those in its tables, by id.
    pub anchors: Vec<AdocAnchor>,
    pub body: AdocBody,
}

/// The text that the first entry with a name gives it.
pub open spec fn named_text(v: Seq<(String, Option<String>)>, name: Seq<char>) -> Option<Seq<char>>
    decreases v.len(),
{
    if v.len() == 0 {
        None
    } else if v[0].0@ == name {
        opt_text(v[0].1)
    } else {
        named_text(v.drop_first(), name)
    }
}

/// Look up a named attribute.
pub fn find_named(v: &Vec<(String, Option<String>)>, name: &str) -> (r: Option<String>)
    ensures
        opt_text(r) == named_text(v@, name@),
{
    let mut i: usize = 0;
    assert(v@.skip(0) =~= v@);
    while i < v.len()
        invariant
            i <= v@.len(),
            named_text(v@, name@) == named_text(v@.skip(i as int), name@),
        decreases v@.len() - i,
    {
        assert(v@.skip(i as int).drop_first() =~= v@.skip(i + 1));
        if str_eq(v[i].0.as_str(), name) {
            return crate::requirement::copy_opt(&v[i].1);
        }
        i = i + 1;
    }
    None
}

/// The text that the first entry with a name gives a document attribute.
pub open spec fn attribute_text(v: Seq<(String, Option<AdocValue>)>, name: Seq<char>) -> Option<
    Seq<char>,
>
    decreases v.len(),
{
    if v.len() == 0 {
        None
    } else if v[0].0@ == name {
        match v[0].1 {
            Some(AdocValue::Text(t)) => Some(t@),
            _ => None,
        }
    } else {
        attribute_text(v.drop_first(), name)
    }
}

/// Look up a document attribute.
pub fn find_attribute<'a>(v: &'a Vec<(String, Option<AdocValue>)>, name: &str) -> (r: Option<&'a str>)
    ensures
        match r {
            Some(t) => attribute_text(v@, name@) == Some(t@),
            None => attribute_text(v@, name@) is None,
        },
{
    let mut i: usize = 0;
    assert(v@.skip(0) =~= v@);
    while i < v.len()
        invariant
            i <= v@.len(),
            attribute_text(v@, name@) == attribute_text(v@.skip(i as int), name@),
        decreases v@.len() - i,
    {
        assert(v@.skip(i as int).drop_first() =~= v@.skip(i + 1));
        if str_eq(v[i].0.as_str(), name) {
            return match &v[i].1 {
                Some(AdocValue::Text(t)) => Some(t.as_str()),
                _ => None,
            };
        }
        i = i + 1;
    }
    None
}

/// An inline node of asciidork.
#[verifier::external_type_specification]
#[verifier::external_body]
pub struct ExInlineNode<'arena>(asciidork_ast::InlineNode<'arena>);

/// What an inline node of asciidork is.
#[verifier::external_type_specification]
#[verifier::external_body]
pub struct ExInline<'arena>(asciidork_ast::Inline<'arena>);

/// A macro of asciidork.
#[verifier::external_type_specification]
#[verifier::external_body]
pub struct ExMacroNode<'arena>(asciidork_ast::MacroNode<'arena>);

/// An index term of asciidork.
#[verifier::external_type_specification]
#[verifier::external_body]
pub struct ExIndexTerm<'arena>(asciidork_ast::IndexTerm<'arena>);

/// What a span of asciidork is.
#[verifier::external_type_specification]
#[verifier::external_body]
pub struct ExSpanKind(asciidork_ast::SpanKind);

/// The value of an attribute of asciidork.
#[verifier::external_type_specification]
#[verifier::external_body]
pub struct ExAttrValue(asciidork_ast::AttrValue);

/// An attribute list of asciidork.
#[verifier::external_type_specification]
#[verifier::external_body]
pub struct ExAttrList<'arena>(asciidork_ast::AttrList<'arena>);

/// A block of asciidork.
#[verifier::external_type_specification]
#[verifier::external_body]
pub struct ExBlock<'arena>(asciidork_ast::Block<'arena>);

/// A document of asciidork.
#[verifier::external_type_specification]
#[verifier::external_body]
pub struct ExDocument<'arena>(asciidork_ast::Document<'arena>);

/// The content of an asciidork block.
#[verifier::external_type_specification]
#[verifier::external_body]
pub struct ExBlockContent<'arena>(asciidork_ast::BlockContent<'arena>);

/// The content of an asciidork block without text.
#[verifier::external_type_specification]
#[verifier::external_body]
pub struct ExEmptyMetadata<'arena>(asciidork_ast::EmptyMetadata<'arena>);

/// An item of an asciidork list.
#[verifier::external_type_specification]
#[verifier::external_body]
pub struct ExListItem<'arena>(asciidork_ast::ListItem<'arena>);

/// A table of asciidork.
#[verifier::external_type_specification]
#[verifier::external_body]
pub struct ExTable<'arena>(asciidork_ast::Table<'arena>);

/// A cell of an asciidork table.
#[verifier::external_type_specification]
#[verifier::external_body]
pub struct ExCell<'arena>(asciidork_ast::Cell<'arena>);

/// A section of asciidork.
#[verifier::external_type_specification]
#[verifier::external_body]
pub struct ExSection<'arena>(asciidork_ast::Section<'arena>);

/// A part of an asciidork book.
#[verifier::external_type_specification]
#[verifier::external_body]
pub struct ExPart<'arena>(asciidork_ast::Part<'arena>);

/// The nodes, in order.
#[verifier::external_body]
fn inlines_tree(v: &[asciidork_ast::InlineNode<'_>]) -> Vec<AdocInline> {
    v.iter().map(inline_tree).collect()
}

/// The fields of a node, moved as they are.
#[verifier::external_body]
fn inline_tree(n: &asciidork_ast::InlineNode<'_>) -> AdocInline {
    let (kind, text, children) = inline_parts(&n.content);
    AdocInline { kind, text, start: n.loc.start as usize, end: n.loc.end as usize, children }
}

/// `InlineNodes::plain_text` gives the text of a span; the variants of `Inline`
/// that hold nodes are moved as they are.
#[verifier::external_body]
fn inline_parts(c: &asciidork_ast::Inline<'_>) -> (InlineKind, String, Vec<AdocInline>) {
    match c {
        Inline::Text(s) => (InlineKind::Text, s.to_string(), Vec::new()),
        Inline::Span(k, _, i) => (span_kind(k), i.plain_text().join(""), inlines_tree(i)),
        Inline::Quote(_, i) => (InlineKind::Quote, String::new(), inlines_tree(i)),
        Inline::InlinePassthru(i) => (InlineKind::Passthrough, String::new(), inlines_tree(i)),
        Inline::Macro(m) => macro_tree(m),
        Inline::IndexTerm(t) => index_term_tree(t),
        _ => (InlineKind::Other, String::new(), Vec::new()),
    }
}

/// The variants of `MacroNode` that show nodes, moved as they are.
#[verifier::external_body]
fn macro_tree(m: &asciidork_ast::MacroNode<'_>) -> (InlineKind, String, Vec<AdocInline>) {
    let (kind, text, shown) = match m {
        MacroNode::Xref { target, linktext, .. } => (InlineKind::Xref, target.src.to_string(), linktext.as_ref()),
        MacroNode::Footnote { text, .. } => (InlineKind::Footnote, String::new(), text.as_ref()),
        MacroNode::Mailto { linktext, .. } => (InlineKind::Mailto, String::new(), linktext.as_ref()),
        MacroNode::Link { attrs, .. } => (InlineKind::Link, String::new(), attrs.as_ref().and_then(|a| a.positional_at(0))),
        _ => (InlineKind::Other, String::new(), None),
    };
    (kind, text, shown.map_or(Vec::new(), |i| inlines_tree(i)))
}

/// The variant of `IndexTermType` that shows nodes, moved as it is.
#[verifier::external_body]
fn index_term_tree(t: &asciidork_ast::IndexTerm<'_>) -> (InlineKind, String, Vec<AdocInline>) {
    match &t.term_type {
        IndexTermType::Visible { term } => (InlineKind::IndexTerm, String::new(), inlines_tree(term)),
        IndexTermType::Concealed { .. } => (InlineKind::Other, String::new(), Vec::new()),
    }
}

/// The variants of `SpanKind`, one by one.
#[verifier::external_body]
fn span_kind(k: &asciidork_ast::SpanKind) -> InlineKind {
    match k {
        SpanKind::Bold => InlineKind::Bold,
        SpanKind::Italic => InlineKind::Italic,
        SpanKind::LitMono => InlineKind::LitMono,
        SpanKind::Mono => InlineKind::Mono,
        SpanKind::Highlight => InlineKind::Highlight,
        SpanKind::Superscript => InlineKind::Superscript,
        SpanKind::Subscript => InlineKind::Subscript,
        SpanKind::Text => InlineKind::TextSpan,
    }
}

/// The variants of `AttrValue`, one by one.
#[verifier::external_body]
fn value_tree(v: &asciidork_ast::AttrValue) -> AdocValue {
    match v {
        AttrValue::String(s) => AdocValue::Text(s.clone()),
        AttrValue::Bool(b) => AdocValue::Flag(*b),
    }
}

/// `AttrData::named` gives the text of each attribute that is asked for; the
/// id, the roles and the byte range are moved as they are.
#[verifier::external_body]
fn attr_list_tree(a: &asciidork_ast::AttrList<'_>, names: &Vec<String>) -> AdocAttrList {
    AdocAttrList {
        id: a.id.as_ref().map(|s| s.src.to_string()),
        roles: a.roles.iter().map(|s| s.src.to_string()).collect(),
        named: names.iter().map(|n| (n.clone(), a.named(n).map(str::to_string))).collect(),
        start: a.loc.start as usize,
        end: a.loc.end as usize,
    }
}

/// `BlockContent::last_loc` gives the end of a block's content, and `Debug` the
/// name of its context; the other fields are moved as they are.
#[verifier::external_body]
fn block_tree(b: &asciidork_ast::Block<'_>, names: &Vec<String>) -> AdocBlock {
    AdocBlock {
        context: format!("{:?}", b.context),
        attrs: b.meta.attrs.iter().map(|a| attr_list_tree(a, names)).collect(),
        content: content_tree(&b.content, names),
        start: b.loc.start_pos as usize,
        last_end: b.content.last_loc().map(|l| l.end as usize),
    }
}

/// The variants of `BlockContent`, one by one.
#[verifier::external_body]
fn content_tree(c: &asciidork_ast::BlockContent<'_>, names: &Vec<String>) -> AdocContent {
    match c {
        BlockContent::Simple(i) => AdocContent::Simple(inlines_tree(i)),
        BlockContent::Compound(b) => AdocContent::Compound(blocks_tree(b, names)),
        BlockContent::Section(s) => AdocContent::Section(section_tree(s, names)),
        BlockContent::DocumentAttribute(k, v) => AdocContent::Attribute(k.clone(), value_tree(v)),
        BlockContent::QuotedParagraph { .. } => AdocContent::Quoted,
        BlockContent::List { items, .. } => AdocContent::List(items.iter().map(|i| item_tree(i, names)).collect()),
        BlockContent::Table(t) => AdocContent::Table(cells_tree(t, names)),
        BlockContent::Empty(e) => AdocContent::Empty(empty_tree(e)),
    }
}

/// The blocks, in order.
#[verifier::external_body]
fn blocks_tree(v: &[asciidork_ast::Block<'_>], names: &Vec<String>) -> Vec<AdocBlock> {
    v.iter().map(|b| block_tree(b, names)).collect()
}

/// The variants of `EmptyMetadata`, one by one.
#[verifier::external_body]
fn empty_tree(e: &asciidork_ast::EmptyMetadata<'_>) -> AdocEmpty {
    match e {
        EmptyMetadata::Image { .. } => AdocEmpty::Image,
        EmptyMetadata::AudioVideo { .. } => AdocEmpty::AudioVideo,
        EmptyMetadata::DiscreteHeading { level, .. } => AdocEmpty::DiscreteHeading(*level),
        EmptyMetadata::Comment(_) => AdocEmpty::Comment,
        EmptyMetadata::None => AdocEmpty::Nothing,
    }
}

/// The blocks of a `ListItem`, moved as they are.
#[verifier::external_body]
fn item_tree(i: &asciidork_ast::ListItem<'_>, names: &Vec<String>) -> AdocItem {
    AdocItem {
        described: match &i.type_meta {
            ListItemTypeMeta::DescList { description, .. } => Some(blocks_tree(description.as_slice(), names)),
            _ => None,
        },
        blocks: blocks_tree(&i.blocks, names),
    }
}

/// The cells of the header row, of the rows and of the footer row, in order.
#[verifier::external_body]
fn cells_tree(t: &asciidork_ast::Table<'_>, names: &Vec<String>) -> Vec<AdocCell> {
    let rows = t.header_row.iter().chain(&t.rows).chain(&t.footer_row);
    rows.flat_map(|r| &r.cells).map(|c| cell_tree(c, names)).collect()
}

/// The body of the document inside a `Cell`, where its content is one.
#[verifier::external_body]
fn cell_tree(c: &asciidork_ast::Cell<'_>, names: &Vec<String>) -> AdocCell {
    match &c.content {
        CellContent::AsciiDoc(d) => AdocCell::Document(body_tree(d, names)),
        _ => AdocCell::Text,
    }
}

/// `InlineNodes::plain_text` gives the text of a heading; the other fields of
/// a `Section` are moved as they are.
#[verifier::external_body]
fn section_tree(s: &asciidork_ast::Section<'_>, names: &Vec<String>) -> AdocSection {
    AdocSection {
        title: s.heading.plain_text().join(""),
        heading: inlines_tree(&s.heading),
        level: s.level,
        id: s.id.as_ref().map(|i| i.to_string()),
        start: s.loc.start_pos as usize,
        blocks: blocks_tree(&s.blocks, names),
    }
}

/// The sections, in order.
#[verifier::external_body]
fn sections_tree(v: &[asciidork_ast::Section<'_>], names: &Vec<String>) -> Vec<AdocSection> {
    v.iter().map(|s| section_tree(s, names)).collect()
}

/// The fields of a `Part`, moved as they are.
#[verifier::external_body]
fn part_tree(p: &asciidork_ast::Part<'_>, names: &Vec<String>) -> AdocPart {
    AdocPart {
        intro: p.intro.as_ref().map(|v| blocks_tree(v, names)),
        sections: sections_tree(&p.sections, names),
    }
}

/// The variants of `DocContent`, one by one.
#[verifier::external_body]
fn body_tree(d: &asciidork_ast::Document<'_>, names: &Vec<String>) -> AdocBody {
    match &d.content {
        DocContent::Blocks(v) => AdocBody::Blocks(blocks_tree(v, names)),
        DocContent::Sections(s) => AdocBody::Sections(
            s.preamble.as_ref().map(|v| blocks_tree(v, names)),
            sections_tree(&s.sections, names),
        ),
        DocContent::Parts(b) => AdocBody::Parts(AdocBook {
            preamble: b.preamble.as_ref().map(|v| blocks_tree(v, names)),
            opening: sections_tree(&b.opening_special_sects, names),
            parts: b.parts.iter().map(|p| part_tree(p, names)).collect(),
            closing: sections_tree(&b.closing_special_sects, names),
        }),
    }
}

/// The anchors of a document, in the order of their ids.
#[verifier::external_body]
fn anchors_tree(d: &asciidork_ast::Document<'_>) -> Vec<AdocAnchor> {
    let anchors = d.anchors.borrow();
    let by_id: BTreeMap<&str, _> = anchors.iter().map(|(id, a)| (id.as_str(), a)).collect();
    let anchor = |(id, a): (&str, &Anchor<'_>)| AdocAnchor {
        id: id.to_string(),
        title: inlines_tree(&a.title),
        reftext: a.reftext.as_ref().map(|i| inlines_tree(i)),
    };
    by_id.into_iter().map(anchor).collect()
}

/// `ReadAttr::get` gives the value of each document attribute that is asked for.
#[verifier::external_body]
fn document_tree(d: &asciidork_ast::Document<'_>, names: &Vec<String>) -> AdocDocument {
    AdocDocument {
        attributes: names.iter().map(|n| (n.clone(), d.meta.get(n).map(value_tree))).collect(),
        anchors: anchors_tree(d),
        body: body_tree(d, names),
    }
}

/// `rayon::ThreadPool::spawn` runs `work` on a thread of its own and hands back
/// what it returns, or an error where it stops with a panic. Of the result
/// nothing is stated here.
#[verifier::external_body]
fn on_own_thread<T: Send + 'static, F: FnOnce() -> Result<T, String> + Send + 'static>(work: F) -> Result<T, String> {
    let (sender, receiver) = channel();
    let pool = ThreadPoolBuilder::new().num_threads(1).stack_size(1 << 26).panic_handler(|_| ());
    pool.build().expect("a thread").spawn(move || {
        let _ = sender.send(work());
    });
    receiver.recv().unwrap_or_else(|e| Err(e.to_string()))
}

/// The tree that asciidork's parser makes of a document, with the values of the
/// attributes that are asked for, in an arena of at most `limit` bytes; or the
/// text of the error where it makes none.
pub uninterp spec fn adoc_tree(content: Seq<char>, names: Seq<Seq<char>>, limit: usize) -> Result<
    AdocDocument,
    Seq<char>,
>;

/// `asciidork_parser::Parser::parse`, not strict: references to other files
/// cannot be resolved in one file but are valid once all files share a page.
/// The tree, or the text of the error, depends on the content, on the names of
/// the attributes that are asked for and on the size of the arena, and is named
/// `adoc_tree`.
///
/// The parser keeps all that it reads in the arena. On some texts, such as a
/// table without cells or an attribute whose value refers to itself, it would
/// read on without end; it stops with a panic where the arena is full
/// (`bumpalo::Bump::set_allocation_limit`). It runs on a thread of its own, where
/// a panic, this one or one of its assertions, is an error; which assertions it
/// makes is settled when it is built. Blocks that nest deeper than the stack
/// reaches end the process, as running out of memory does.
#[verifier::external_body]
pub(crate) fn parse_adoc(content: &str, names: &Vec<String>, limit: usize) -> (r: Result<AdocDocument, String>)
    ensures
        match r {
            Ok(d) => adoc_tree(content@, texts(names@), limit) == Ok::<AdocDocument, Seq<char>>(d),
            Err(e) => adoc_tree(content@, texts(names@), limit) == Err::<AdocDocument, Seq<char>>(
                e@,
            ),
        },
{
    let (text, names) = (content.to_string(), names.clone());
    on_own_thread(move || {
        let arena = Bump::new();
        arena.set_allocation_limit(Some(limit));
        let mut parser = Parser::from_str(&text, SourceFile::Tmp, &arena);
        parser.apply_job_settings(JobSettings { strict: false, ..JobSettings::default() });
        let parsed = parser.parse().map_err(|e| format!("{:?}", e))?;
        Ok(document_tree(&parsed.document, &names))
    })
}

/// The HTML page that asciidork makes of a document that it has parsed in an
/// arena of at most `limit` bytes, or the text of the error where it makes none.
pub uninterp spec fn adoc_page(content: Seq<char>, limit: usize) -> Result<Seq<char>, Seq<char>>;

/// `asciidork_dr_html_backend::convert` renders a parsed document as a page of
/// HTML. The page, or the text of the error, depends on the content and on the
/// size of the arena, and is named `adoc_page`. The renderer knows six levels of
/// sections, stops on a block whose content does not go with its context, and
/// follows cross references without end where they lead back to where they stand,
/// so that a tree with any of these is left out. It runs on a thread of its own,
/// and what is said of the arena, of panics and of the stack in `parse_adoc` holds
/// here too.
#[verifier::external_body]
pub(crate) fn render_adoc(content: &str, names: &Vec<String>, limit: usize) -> (r: Result<String, String>)
    requires
        adoc_tree(content@, texts(names@), limit) matches Ok(d) ==> document_renders(d),
    ensures
        match r {
            Ok(page) => adoc_page(content@, limit) == Ok::<Seq<char>, Seq<char>>(page@),
            Err(e) => adoc_page(content@, limit) == Err::<Seq<char>, Seq<char>>(e@),
        },
{
    let text = content.to_string();
    on_own_thread(move || {
        let arena = Bump::new();
        arena.set_allocation_limit(Some(limit));
        let mut parser = Parser::from_str(&text, SourceFile::Tmp, &arena);
        parser.apply_job_settings(JobSettings { strict: false, ..JobSettings::default() });
        let parsed = parser.parse().map_err(|e| format!("{:?}", e))?;
        asciidork_dr_html_backend::convert(parsed.document).map_err(|e| e.to_string())
    })
}

} // verus!
