//! Headings across documents that share an allocator.

use vstd::prelude::*;

use crate::adoc_backend::{rendered_sections, rendered_source, RenderInput};
use crate::adoc_tree::{attribute_text, AdocBlock, AdocContent, AdocDocument, AdocInline, AdocSection};
use crate::adoc_walk::{
    doc_sections, leading_blocks, nothing_walked, walked, walked_block, walked_blocks,
    walked_paragraph, walked_section, walked_sections, weight_text, with_heading, WalkModel,
};
use crate::bindings::slug_of;
use crate::document::{ElementModel, HeadingModel};
use crate::reslug::allocation;
use crate::slugs::{
    after_allocation, allocated_slug, is_req_anchor, law_allocation_keeps_state, slugs_ok, SlugState,
};
use crate::spec_content::section_elements;

verus! {

/// The ids of the headings among elements, in order.
pub open spec fn heading_ids(v: Seq<ElementModel>) -> Seq<Seq<char>>
    decreases v.len(),
{
    if v.len() == 0 {
        Seq::empty()
    } else {
        let before = heading_ids(v.drop_last());
        match v.last() {
            ElementModel::Heading(h) => before.push(h.id),
            _ => before,
        }
    }
}

/// Ids that are distinct, that were not handed out at the start, and that are
/// handed out in the end.
pub open spec fn ids_fresh(ids: Seq<Seq<char>>, start: SlugState, end: SlugState) -> bool {
    &&& slugs_ok(end)
    &&& forall|x: Seq<char>| #[trigger] start.emitted.contains(x) ==> end.emitted.contains(x)
    &&& ids.no_duplicates()
    &&& forall|i: int|
        0 <= i < ids.len() ==> !start.emitted.contains(#[trigger] ids[i]) && end.emitted.contains(
            ids[i],
        )
}

/// The headings extracted so far have fresh ids.
pub open spec fn headings_fresh(w: WalkModel, start: SlugState) -> bool {
    ids_fresh(heading_ids(w.elements), start, w.slugs)
}

/// The next slug of an allocator is fresh after fresh ids.
proof fn lemma_next_fresh(ids: Seq<Seq<char>>, input: Seq<char>, start: SlugState, now: SlugState)
    requires
        ids_fresh(ids, start, now),
    ensures
        ids_fresh(ids.push(allocated_slug(now, input)), start, after_allocation(now, input)),
{
    let slug = allocated_slug(now, input);
    law_allocation_keeps_state(now, input);
    assert(!start.emitted.contains(slug));
    assert forall|i: int, j: int|
        0 <= i < ids.push(slug).len() && 0 <= j < ids.push(slug).len() && i
            != j implies ids.push(slug)[i] != ids.push(slug)[j] by {
        if i < ids.len() {
            assert(now.emitted.contains(ids[i]));
        }
        if j < ids.len() {
            assert(now.emitted.contains(ids[j]));
        }
    }
    assert forall|i: int| 0 <= i < ids.push(slug).len() implies !start.emitted.contains(
        #[trigger] ids.push(slug)[i],
    ) && after_allocation(now, input).emitted.contains(ids.push(slug)[i]) by {
        if i < ids.len() {
            assert(now.emitted.contains(ids[i]));
        }
    }
}

proof fn lemma_heading_fresh(source: Seq<char>, s: AdocSection, w: WalkModel, start: SlugState)
    requires
        headings_fresh(w, start),
    ensures
        headings_fresh(with_heading(source, s, w), start),
{
    lemma_next_fresh(heading_ids(w.elements), slug_of(s.title@), start, w.slugs);
    assert(with_heading(source, s, w).elements.drop_last() =~= w.elements);
}

/// Headings that get their slugs from an allocator get fresh ids, and only ids
/// change.
pub proof fn law_allocated_headings_are_fresh(elements: Seq<ElementModel>, slugs: SlugState)
    requires
        slugs_ok(slugs),
    ensures
        ({
            let a = allocation(elements, slugs);
            &&& ids_fresh(heading_ids(a.elements), slugs, a.slugs)
            &&& a.elements.len() == elements.len()
            &&& forall|i: int|
                0 <= i < elements.len() ==> same_but_for_id(elements[i], #[trigger] a.elements[i])
        }),
    decreases elements.len(),
{
    if elements.len() > 0 {
        let a = allocation(elements.drop_last(), slugs);
        let b = allocation(elements, slugs);
        law_allocated_headings_are_fresh(elements.drop_last(), slugs);
        assert(b.elements.drop_last() =~= a.elements);
        if let ElementModel::Heading(h) = elements.last() {
            lemma_next_fresh(heading_ids(a.elements), h.id, slugs, a.slugs);
        }
        assert forall|i: int| 0 <= i < elements.len() implies same_but_for_id(
            elements[i],
            #[trigger] b.elements[i],
        ) by {
            if i < elements.len() - 1 {
                assert(elements[i] == elements.drop_last()[i]);
                assert(b.elements[i] == a.elements[i]);
            }
        }
    }
}

/// Two elements differ at most in the id of a heading.
pub open spec fn same_but_for_id(a: ElementModel, b: ElementModel) -> bool {
    match (a, b) {
        (ElementModel::Heading(g), ElementModel::Heading(h)) => h == HeadingModel { id: h.id, ..g },
        _ => a == b,
    }
}

proof fn lemma_paragraph_fresh(
    source: Seq<char>,
    i: Seq<AdocInline>,
    markers: bool,
    w: WalkModel,
    start: SlugState,
)
    requires
        headings_fresh(w, start),
    ensures
        walked_paragraph(source, i, markers, w) matches Ok(x) ==> headings_fresh(x, start),
{
    if let Ok(x) = walked_paragraph(source, i, markers, w) {
        assert(x.elements.drop_last() =~= w.elements);
    }
}

proof fn lemma_block_fresh(
    source: Seq<char>,
    b: AdocBlock,
    markers: bool,
    w: WalkModel,
    start: SlugState,
)
    requires
        headings_fresh(w, start),
    ensures
        walked_block(source, b, markers, w) matches Ok(x) ==> headings_fresh(x, start),
    decreases b, 0int,
{
    match crate::adoc_walk::block_req_id(b) {
        Some(_) => {
            if let Ok(x) = walked_block(source, b, markers, w) {
                assert(x.elements.drop_last() =~= w.elements);
            }
        },
        None => match b.content {
            AdocContent::Simple(i) => {
                lemma_paragraph_fresh(source, i@, markers, w, start);
            },
            AdocContent::Section(s) => {
                lemma_section_fresh(source, s, markers, w, start);
            },
            AdocContent::Compound(bs) => {
                lemma_blocks_fresh(source, bs@, bs@.len() as int, markers, w, start);
            },
            _ => {},
        },
    }
}

proof fn lemma_blocks_fresh(
    source: Seq<char>,
    bs: Seq<AdocBlock>,
    k: int,
    markers: bool,
    w: WalkModel,
    start: SlugState,
)
    requires
        headings_fresh(w, start),
    ensures
        walked_blocks(source, bs, k, markers, w) matches Ok(x) ==> headings_fresh(x, start),
    decreases bs, k,
{
    if 0 < k <= bs.len() {
        lemma_blocks_fresh(source, bs, k - 1, markers, w, start);
        if let Ok(x) = walked_blocks(source, bs, k - 1, markers, w) {
            lemma_block_fresh(source, bs[k - 1], markers, x, start);
        }
    }
}

proof fn lemma_section_fresh(
    source: Seq<char>,
    s: AdocSection,
    markers: bool,
    w: WalkModel,
    start: SlugState,
)
    requires
        headings_fresh(w, start),
    ensures
        walked_section(source, s, markers, w) matches Ok(x) ==> headings_fresh(x, start),
    decreases s, 0int,
{
    lemma_heading_fresh(source, s, w, start);
    lemma_blocks_fresh(
        source,
        s.blocks@,
        s.blocks@.len() as int,
        markers,
        with_heading(source, s, w),
        start,
    );
}

proof fn lemma_sections_fresh(
    source: Seq<char>,
    ss: Seq<AdocSection>,
    k: int,
    markers: bool,
    w: WalkModel,
    start: SlugState,
)
    requires
        headings_fresh(w, start),
    ensures
        walked_sections(source, ss, k, markers, w) matches Ok(x) ==> headings_fresh(x, start),
    decreases k,
{
    if 0 < k <= ss.len() {
        lemma_sections_fresh(source, ss, k - 1, markers, w, start);
        if let Ok(x) = walked_sections(source, ss, k - 1, markers, w) {
            lemma_section_fresh(source, ss[k - 1], markers, x, start);
        }
    }
}

/// Every heading of a document gets an id that no heading before it has, in the
/// document or in those that shared the allocator before.
pub proof fn law_headings_are_fresh(
    doc: AdocDocument,
    source: Seq<char>,
    markers: bool,
    slugs: SlugState,
)
    requires
        slugs_ok(slugs),
    ensures
        walked(doc, source, markers, slugs) matches Ok(w) ==> headings_fresh(w, slugs),
{
    let weight = match attribute_text(doc.attributes@, "weight"@) {
        Some(t) => weight_text(t),
        None => 0,
    };
    let w0 = nothing_walked(weight, slugs);
    let bs = leading_blocks(doc);
    let ss = doc_sections(doc);
    let n = bs.len() as int;
    lemma_blocks_fresh(source, bs, n, markers, w0, slugs);
    if let Ok(w) = walked_blocks(source, bs, n, markers, w0) {
        lemma_sections_fresh(source, ss, ss.len() as int, markers, w, slugs);
    }
}

proof fn lemma_ids_of_both(a: Seq<ElementModel>, b: Seq<ElementModel>)
    ensures
        heading_ids(a + b) == heading_ids(a) + heading_ids(b),
    decreases b.len(),
{
    if b.len() == 0 {
        assert(a + b =~= a);
        assert(heading_ids(a) + heading_ids(b) =~= heading_ids(a));
    } else {
        lemma_ids_of_both(a, b.drop_last());
        assert((a + b).drop_last() =~= a + b.drop_last());
        assert((a + b).last() == b.last());
        assert(heading_ids(a + b) =~= heading_ids(a) + heading_ids(b));
    }
}

proof fn lemma_fresh_after_fresh(
    a: Seq<Seq<char>>,
    b: Seq<Seq<char>>,
    start: SlugState,
    mid: SlugState,
    end: SlugState,
)
    requires
        ids_fresh(a, start, mid),
        ids_fresh(b, mid, end),
    ensures
        ids_fresh(a + b, start, end),
{
    let c = a + b;
    assert forall|i: int, j: int| 0 <= i < c.len() && 0 <= j < c.len() && i != j implies c[i]
        != c[j] by {
        if i < a.len() {
            assert(mid.emitted.contains(a[i]));
        } else {
            assert(!mid.emitted.contains(b[i - a.len()]));
        }
        if j < a.len() {
            assert(mid.emitted.contains(a[j]));
        } else {
            assert(!mid.emitted.contains(b[j - a.len()]));
        }
    }
    assert forall|i: int| 0 <= i < c.len() implies !start.emitted.contains(#[trigger] c[i])
        && end.emitted.contains(c[i]) by {
        if i < a.len() {
            assert(mid.emitted.contains(a[i]));
        } else {
            assert(!mid.emitted.contains(b[i - a.len()]));
        }
    }
}

/// However many documents are rendered with one allocator, no two of their
/// headings share an id, none has an id that was handed out before, and none
/// has the anchor of a requirement.
pub proof fn law_rendered_headings_are_unique(
    input: RenderInput,
    n: int,
    roles: bool,
    slugs: SlugState,
)
    requires
        0 <= n <= input.sources@.len(),
        slugs_ok(slugs),
    ensures
        rendered_sections(input, n, roles, slugs) matches Ok(m) ==> ids_fresh(
            heading_ids(section_elements(m.0)),
            slugs,
            m.1,
        ) && forall|i: int|
            0 <= i < heading_ids(section_elements(m.0)).len() ==> !is_req_anchor(
                #[trigger] heading_ids(section_elements(m.0))[i],
            ),
    decreases n,
{
    if let Ok(m) = rendered_sections(input, n, roles, slugs) {
        if n > 0 {
            law_rendered_headings_are_unique(input, n - 1, roles, slugs);
            let (before, mid) = rendered_sections(input, n - 1, roles, slugs)->Ok_0;
            reveal(rendered_source);
            let src = input.sources@[n - 1];
            let (doc, end) = rendered_source(input, src, roles, mid)->Ok_0;
            let tree = crate::adoc_backend::tree_in(src.content@)->Ok_0;
            law_headings_are_fresh(tree, src.content@, !roles, mid);
            assert(m.0.drop_last() =~= before);
            assert(section_elements(m.0) == section_elements(before) + doc.elements);
            lemma_ids_of_both(section_elements(before), doc.elements);
            lemma_fresh_after_fresh(
                heading_ids(section_elements(before)),
                heading_ids(doc.elements),
                slugs,
                mid,
                end,
            );
        } else {
            assert(heading_ids(section_elements(m.0)) =~= Seq::<Seq<char>>::empty());
        }
        let ids = heading_ids(section_elements(m.0));
        assert forall|i: int| 0 <= i < ids.len() implies !is_req_anchor(#[trigger] ids[i]) by {
            assert(m.1.emitted.contains(ids[i]));
        }
    }
}

} // verus!
