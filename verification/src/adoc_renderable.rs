//! Which AsciiDoc trees the HTML renderer takes: every section at a level that it
//! knows, every block with a content that goes with its context, and cross
//! references that come to an end.

use vstd::prelude::*;

use crate::adoc_references::{check_references, references_end};
use crate::adoc_tree::{
    AdocBlock, AdocBody, AdocBook, AdocCell, AdocContent, AdocDocument, AdocEmpty, AdocItem, AdocPart,
    AdocSection,
};
use crate::text::str_eq;

verus! {

/// The deepest level of a section.
pub const MAX_SECTION_LEVEL: u8 = 6;

/// The context is an admonition.
pub open spec fn is_admonition(c: Seq<char>) -> bool {
    c == "AdmonitionCaution"@ || c == "AdmonitionImportant"@ || c == "AdmonitionNote"@ || c
        == "AdmonitionTip"@ || c == "AdmonitionWarning"@
}

fn admonition(c: &str) -> (r: bool)
    ensures
        r == is_admonition(c@),
{
    str_eq(c, "AdmonitionCaution") || str_eq(c, "AdmonitionImportant") || str_eq(c, "AdmonitionNote")
        || str_eq(c, "AdmonitionTip") || str_eq(c, "AdmonitionWarning")
}

/// A block in this context is rendered without a look at its content.
pub open spec fn content_is_unread(c: Seq<char>) -> bool {
    c == "ThematicBreak"@ || c == "PageBreak"@ || c == "TableOfContents"@ || c == "Comment"@
}

fn leaves_content_unread(c: &str) -> (r: bool)
    ensures
        r == content_is_unread(c@),
{
    str_eq(c, "ThematicBreak") || str_eq(c, "PageBreak") || str_eq(c, "TableOfContents") || str_eq(
        c,
        "Comment",
    )
}

/// A block in this context can hold text alone.
pub open spec fn holds_text(c: Seq<char>) -> bool {
    c == "Paragraph"@ || c == "Sidebar"@ || c == "Listing"@ || c == "Verse"@ || c == "BlockQuote"@ || c
        == "Example"@ || c == "Literal"@ || c == "Passthrough"@ || is_admonition(c)
}

fn can_hold_text(c: &str) -> (r: bool)
    ensures
        r == holds_text(c@),
{
    str_eq(c, "Paragraph") || str_eq(c, "Sidebar") || str_eq(c, "Listing") || str_eq(c, "Verse")
        || str_eq(c, "BlockQuote") || str_eq(c, "Example") || str_eq(c, "Literal") || str_eq(
        c,
        "Passthrough",
    ) || admonition(c)
}

/// A block in this context can hold blocks.
pub open spec fn holds_blocks(c: Seq<char>) -> bool {
    c == "Open"@ || c == "Sidebar"@ || c == "BlockQuote"@ || c == "Example"@ || is_admonition(c)
}

fn can_hold_blocks(c: &str) -> (r: bool)
    ensures
        r == holds_blocks(c@),
{
    str_eq(c, "Open") || str_eq(c, "Sidebar") || str_eq(c, "BlockQuote") || str_eq(c, "Example")
        || admonition(c)
}

/// A block in this context can hold these list items: an ordered list starts
/// with its first item, and the items of a description list are described.
pub open spec fn holds_items(c: Seq<char>, items: Seq<AdocItem>) -> bool {
    c == "UnorderedList"@ || c == "CalloutList"@ || (c == "OrderedList"@ && items.len() > 0) || (c
        == "DescriptionList"@ && forall|i: int|
        0 <= i < items.len() ==> (#[trigger] items[i]).described is Some)
}

fn can_hold_items(c: &str, items: &Vec<AdocItem>) -> (r: bool)
    ensures
        r == holds_items(c@, items@),
{
    if str_eq(c, "UnorderedList") || str_eq(c, "CalloutList") {
        return true;
    }
    if str_eq(c, "OrderedList") && items.len() > 0 {
        return true;
    }
    if !str_eq(c, "DescriptionList") {
        return false;
    }
    let mut i: usize = 0;
    while i < items.len()
        invariant
            i <= items@.len(),
            c@ == "DescriptionList"@,
            forall|k: int| 0 <= k < i ==> (#[trigger] items@[k]).described is Some,
        decreases items@.len() - i,
    {
        if items[i].described.is_none() {
            proof {
                assert(items@[i as int].described is None);
                reveal_strlit("DescriptionList");
                reveal_strlit("UnorderedList");
                reveal_strlit("CalloutList");
                reveal_strlit("OrderedList");
                assert("DescriptionList"@.len() != "UnorderedList"@.len());
                assert("DescriptionList"@.len() != "CalloutList"@.len());
                assert("DescriptionList"@.len() != "OrderedList"@.len());
            }
            return false;
        }
        i = i + 1;
    }
    true
}

/// A block in this context can be this, where it has no text of its own. The
/// level of a heading is followed by another.
pub open spec fn holds_empty(c: Seq<char>, e: AdocEmpty) -> bool {
    match e {
        AdocEmpty::Image => c == "Image"@,
        AdocEmpty::AudioVideo => c == "Audio"@ || c == "Video"@,
        AdocEmpty::DiscreteHeading(level) => c == "DiscreteHeading"@ && level < u8::MAX,
        AdocEmpty::Comment => false,
        AdocEmpty::Nothing => false,
    }
}

fn can_be_empty(c: &str, e: AdocEmpty) -> (r: bool)
    ensures
        r == holds_empty(c@, e),
{
    match e {
        AdocEmpty::Image => str_eq(c, "Image"),
        AdocEmpty::AudioVideo => str_eq(c, "Audio") || str_eq(c, "Video"),
        AdocEmpty::DiscreteHeading(level) => str_eq(c, "DiscreteHeading") && level < u8::MAX,
        AdocEmpty::Comment => false,
        AdocEmpty::Nothing => false,
    }
}

/// The renderer takes a block and all that stands in it.
pub open spec fn block_renders(b: AdocBlock) -> bool
    decreases b, 0int,
{
    let c = b.context@;
    content_is_unread(c) || match b.content {
        AdocContent::Simple(_) => holds_text(c),
        AdocContent::Compound(bs) => holds_blocks(c) && blocks_render(bs@, bs@.len() as int),
        AdocContent::Section(s) => c == "Section"@ && section_renders(s),
        AdocContent::Attribute(_, _) => c == "DocumentAttributeDecl"@,
        AdocContent::Quoted => c == "QuotedParagraph"@,
        AdocContent::List(items) => holds_items(c, items@) && items_render(
            items@,
            items@.len() as int,
        ),
        AdocContent::Table(cells) => c == "Table"@ && cells_render(cells@, cells@.len() as int),
        AdocContent::Empty(e) => holds_empty(c, e),
    }
}

/// The renderer takes the first `k` blocks.
pub open spec fn blocks_render(bs: Seq<AdocBlock>, k: int) -> bool
    decreases bs, k,
{
    k <= 0 || k > bs.len() || (blocks_render(bs, k - 1) && block_renders(bs[k - 1]))
}

/// The renderer takes blocks that need not be there.
pub open spec fn opt_blocks_render(o: Option<Vec<AdocBlock>>) -> bool
    decreases o, 0int,
{
    match o {
        Some(bs) => blocks_render(bs@, bs@.len() as int),
        None => true,
    }
}

/// The renderer takes a section.
pub open spec fn section_renders(s: AdocSection) -> bool
    decreases s, 0int,
{
    s.level <= MAX_SECTION_LEVEL && blocks_render(s.blocks@, s.blocks@.len() as int)
}

/// The renderer takes the first `k` sections.
pub open spec fn sections_render(ss: Seq<AdocSection>, k: int) -> bool
    decreases ss, k,
{
    k <= 0 || k > ss.len() || (sections_render(ss, k - 1) && section_renders(ss[k - 1]))
}

/// The renderer takes a list item.
pub open spec fn item_renders(i: AdocItem) -> bool
    decreases i, 0int,
{
    opt_blocks_render(i.described) && blocks_render(i.blocks@, i.blocks@.len() as int)
}

/// The renderer takes the first `k` list items.
pub open spec fn items_render(v: Seq<AdocItem>, k: int) -> bool
    decreases v, k,
{
    k <= 0 || k > v.len() || (items_render(v, k - 1) && item_renders(v[k - 1]))
}

/// The renderer takes a table cell.
pub open spec fn cell_renders(c: AdocCell) -> bool
    decreases c, 0int,
{
    match c {
        AdocCell::Document(d) => body_renders(d),
        AdocCell::Text => true,
    }
}

/// The renderer takes the first `k` cells.
pub open spec fn cells_render(v: Seq<AdocCell>, k: int) -> bool
    decreases v, k,
{
    k <= 0 || k > v.len() || (cells_render(v, k - 1) && cell_renders(v[k - 1]))
}

/// The renderer takes a part of a book.
pub open spec fn part_renders(p: AdocPart) -> bool
    decreases p, 0int,
{
    opt_blocks_render(p.intro) && sections_render(p.sections@, p.sections@.len() as int)
}

/// The renderer takes the first `k` parts.
pub open spec fn parts_render(v: Seq<AdocPart>, k: int) -> bool
    decreases v, k,
{
    k <= 0 || k > v.len() || (parts_render(v, k - 1) && part_renders(v[k - 1]))
}

/// The renderer takes a book of several parts.
pub open spec fn book_renders(b: AdocBook) -> bool
    decreases b, 0int,
{
    opt_blocks_render(b.preamble) && sections_render(b.opening@, b.opening@.len() as int)
        && parts_render(b.parts@, b.parts@.len() as int) && sections_render(
        b.closing@,
        b.closing@.len() as int,
    )
}

/// The renderer takes the body of a document: no section is too deep, and the
/// content of every block goes with its context, in the cells of tables too.
pub open spec fn body_renders(d: AdocBody) -> bool
    decreases d, 0int,
{
    match d {
        AdocBody::Blocks(bs) => blocks_render(bs@, bs@.len() as int),
        AdocBody::Sections(p, ss) => opt_blocks_render(p) && sections_render(ss@, ss@.len() as int),
        AdocBody::Parts(b) => book_renders(b),
    }
}

/// The renderer takes a document: it takes its body, and its cross references
/// come to an end.
pub open spec fn document_renders(d: AdocDocument) -> bool {
    body_renders(d.body) && references_end(d.anchors@)
}

fn check_block(b: &AdocBlock) -> (r: bool)
    ensures
        r == block_renders(*b),
    decreases b, 0int,
{
    let c = b.context.as_str();
    if leaves_content_unread(c) {
        return true;
    }
    match &b.content {
        AdocContent::Simple(_) => can_hold_text(c),
        AdocContent::Compound(bs) => {
            proof {
                assert(decreases_to!(b => b.content->Compound_0@));
            }
            can_hold_blocks(c) && check_blocks(bs)
        },
        AdocContent::Section(s) => {
            proof {
                assert(decreases_to!(b => b.content->Section_0));
            }
            str_eq(c, "Section") && check_section(s)
        },
        AdocContent::Attribute(_, _) => str_eq(c, "DocumentAttributeDecl"),
        AdocContent::Quoted => str_eq(c, "QuotedParagraph"),
        AdocContent::List(items) => {
            proof {
                assert(decreases_to!(b => b.content->List_0@));
            }
            can_hold_items(c, items) && check_items(items)
        },
        AdocContent::Table(cells) => {
            proof {
                assert(decreases_to!(b => b.content->Table_0@));
            }
            str_eq(c, "Table") && check_cells(cells)
        },
        AdocContent::Empty(e) => can_be_empty(c, *e),
    }
}

fn check_blocks(v: &Vec<AdocBlock>) -> (r: bool)
    ensures
        r == blocks_render(v@, v@.len() as int),
    decreases v@, 1int,
{
    let mut i: usize = 0;
    let mut ok = true;
    while i < v.len()
        invariant
            i <= v@.len(),
            ok == blocks_render(v@, i as int),
        decreases v@.len() - i,
    {
        proof {
            assert(decreases_to!(v@ => v@[i as int]));
        }
        ok = check_block(&v[i]) && ok;
        i = i + 1;
    }
    ok
}

fn check_opt_blocks(o: &Option<Vec<AdocBlock>>) -> (r: bool)
    ensures
        r == opt_blocks_render(*o),
    decreases o, 2int,
{
    match o {
        Some(bs) => {
            proof {
                assert(decreases_to!(o => o->0@));
            }
            check_blocks(bs)
        },
        None => true,
    }
}

fn check_section(s: &AdocSection) -> (r: bool)
    ensures
        r == section_renders(*s),
    decreases s, 0int,
{
    proof {
        assert(decreases_to!(s => s.blocks@));
    }
    s.level <= MAX_SECTION_LEVEL && check_blocks(&s.blocks)
}

fn check_sections(v: &Vec<AdocSection>) -> (r: bool)
    ensures
        r == sections_render(v@, v@.len() as int),
    decreases v@, 1int,
{
    let mut i: usize = 0;
    let mut ok = true;
    while i < v.len()
        invariant
            i <= v@.len(),
            ok == sections_render(v@, i as int),
        decreases v@.len() - i,
    {
        proof {
            assert(decreases_to!(v@ => v@[i as int]));
        }
        ok = check_section(&v[i]) && ok;
        i = i + 1;
    }
    ok
}

fn check_item(i: &AdocItem) -> (r: bool)
    ensures
        r == item_renders(*i),
    decreases i, 0int,
{
    proof {
        assert(decreases_to!(i => i.described));
        assert(decreases_to!(i => i.blocks@));
    }
    check_opt_blocks(&i.described) && check_blocks(&i.blocks)
}

fn check_items(v: &Vec<AdocItem>) -> (r: bool)
    ensures
        r == items_render(v@, v@.len() as int),
    decreases v@, 1int,
{
    let mut i: usize = 0;
    let mut ok = true;
    while i < v.len()
        invariant
            i <= v@.len(),
            ok == items_render(v@, i as int),
        decreases v@.len() - i,
    {
        proof {
            assert(decreases_to!(v@ => v@[i as int]));
        }
        ok = check_item(&v[i]) && ok;
        i = i + 1;
    }
    ok
}

fn check_cell(c: &AdocCell) -> (r: bool)
    ensures
        r == cell_renders(*c),
    decreases c, 0int,
{
    match c {
        AdocCell::Document(d) => {
            proof {
                assert(decreases_to!(c => c->Document_0));
            }
            check_body(d)
        },
        AdocCell::Text => true,
    }
}

fn check_cells(v: &Vec<AdocCell>) -> (r: bool)
    ensures
        r == cells_render(v@, v@.len() as int),
    decreases v@, 1int,
{
    let mut i: usize = 0;
    let mut ok = true;
    while i < v.len()
        invariant
            i <= v@.len(),
            ok == cells_render(v@, i as int),
        decreases v@.len() - i,
    {
        proof {
            assert(decreases_to!(v@ => v@[i as int]));
        }
        ok = check_cell(&v[i]) && ok;
        i = i + 1;
    }
    ok
}

fn check_part(p: &AdocPart) -> (r: bool)
    ensures
        r == part_renders(*p),
    decreases p, 0int,
{
    proof {
        assert(decreases_to!(p => p.intro));
        assert(decreases_to!(p => p.sections@));
    }
    check_opt_blocks(&p.intro) && check_sections(&p.sections)
}

fn check_parts(v: &Vec<AdocPart>) -> (r: bool)
    ensures
        r == parts_render(v@, v@.len() as int),
    decreases v@, 1int,
{
    let mut i: usize = 0;
    let mut ok = true;
    while i < v.len()
        invariant
            i <= v@.len(),
            ok == parts_render(v@, i as int),
        decreases v@.len() - i,
    {
        proof {
            assert(decreases_to!(v@ => v@[i as int]));
        }
        ok = check_part(&v[i]) && ok;
        i = i + 1;
    }
    ok
}

fn check_book(b: &AdocBook) -> (r: bool)
    ensures
        r == book_renders(*b),
    decreases b, 0int,
{
    proof {
        assert(decreases_to!(b => b.preamble));
        assert(decreases_to!(b => b.opening@));
        assert(decreases_to!(b => b.parts@));
        assert(decreases_to!(b => b.closing@));
    }
    check_opt_blocks(&b.preamble) && check_sections(&b.opening) && check_parts(&b.parts)
        && check_sections(&b.closing)
}

fn check_body(d: &AdocBody) -> (r: bool)
    ensures
        r == body_renders(*d),
    decreases d, 0int,
{
    match d {
        AdocBody::Blocks(bs) => {
            proof {
                assert(decreases_to!(d => d->Blocks_0@));
            }
            check_blocks(bs)
        },
        AdocBody::Sections(p, ss) => {
            proof {
                assert(decreases_to!(d => d->Sections_0));
                assert(decreases_to!(d => d->Sections_1@));
            }
            check_opt_blocks(p) && check_sections(ss)
        },
        AdocBody::Parts(b) => {
            proof {
                assert(decreases_to!(d => d->Parts_0));
            }
            check_book(b)
        },
    }
}

/// Check whether the renderer takes a document.
pub fn check_document(d: &AdocDocument) -> (r: bool)
    ensures
        r == document_renders(*d),
{
    check_body(&d.body) && check_references(&d.anchors)
}

} // verus!
