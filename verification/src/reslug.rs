//! Giving the headings of a rendered page new ids.

use vstd::prelude::*;

use crate::document::{element_models, DocElement, ElementModel, Heading, HeadingModel};
use crate::numbers::{decimal, decimal_of};
use crate::slugs::{after_allocation, allocated_slug, SlugAllocator, SlugState};
use crate::text::{chars_of, concat2, concat3, copy_str, find_from, find_str, sub_string};

verus! {

/// What a heading tag with an id begins with, from the id on.
pub open spec fn heading_id(level: Seq<char>, id: Seq<char>) -> Seq<char> {
    "<h"@ + level + " id=\""@ + id + "\""@
}

/// A heading of a page: its level, its id in the page, and the id it is to have.
pub struct HeadingSlug {
    pub level: String,
    pub id: String,
    pub slug: String,
}

/// A heading of a page: its level, its id in the page, and the id it is to have.
pub struct SlugModel {
    pub level: Seq<char>,
    pub id: Seq<char>,
    pub slug: Seq<char>,
}

impl View for HeadingSlug {
    type V = SlugModel;

    open spec fn view(&self) -> SlugModel {
        SlugModel { level: self.level@, id: self.id@, slug: self.slug@ }
    }
}

pub open spec fn slug_models(v: Seq<HeadingSlug>) -> Seq<SlugModel> {
    v.map_values(|h: HeadingSlug| h@)
}

/// The elements of a page once its headings have slugs from an allocator, the
/// headings with the ids they had and those they get, and the allocator after
/// that.
pub struct Allocation {
    pub elements: Seq<ElementModel>,
    pub headings: Seq<SlugModel>,
    pub slugs: SlugState,
}

/// What comes of giving every heading, in order, the next slug for its id;
/// other elements stay as they are.
pub open spec fn allocation(elements: Seq<ElementModel>, slugs: SlugState) -> Allocation
    decreases elements.len(),
{
    if elements.len() == 0 {
        Allocation { elements: Seq::empty(), headings: Seq::empty(), slugs }
    } else {
        let a = allocation(elements.drop_last(), slugs);
        match elements.last() {
            ElementModel::Heading(h) => {
                let slug = allocated_slug(a.slugs, h.id);
                Allocation {
                    elements: a.elements.push(ElementModel::Heading(HeadingModel { id: slug, ..h })),
                    headings: a.headings.push(
                        SlugModel { level: decimal(h.level as nat), id: h.id, slug },
                    ),
                    slugs: after_allocation(a.slugs, h.id),
                }
            },
            e => Allocation { elements: a.elements.push(e), ..a },
        }
    }
}

/// Give the headings among the elements of a page slugs from an allocator.
/// Returns the elements with those slugs, and what [`reslug_headings`] needs to
/// put them into the page.
pub fn allocate_headings(elements: &Vec<DocElement>, slugs: &mut SlugAllocator) -> (r: (
    Vec<DocElement>,
    Vec<HeadingSlug>,
))
    requires
        old(slugs).wf(),
    ensures
        final(slugs).wf(),
        element_models(r.0@) == allocation(element_models(elements@), old(slugs)@).elements,
        slug_models(r.1@) == allocation(element_models(elements@), old(slugs)@).headings,
        final(slugs)@ == allocation(element_models(elements@), old(slugs)@).slugs,
{
    let ghost es = element_models(elements@);
    let ghost s0 = slugs@;
    let mut out: Vec<DocElement> = Vec::new();
    let mut headings: Vec<HeadingSlug> = Vec::new();
    let mut i: usize = 0;
    assert(es.take(0) =~= Seq::<ElementModel>::empty());
    assert(element_models(out@) =~= Seq::<ElementModel>::empty());
    assert(slug_models(headings@) =~= Seq::<SlugModel>::empty());
    while i < elements.len()
        invariant
            i <= elements@.len(),
            es == element_models(elements@),
            s0 == old(slugs)@,
            slugs.wf(),
            element_models(out@) == allocation(es.take(i as int), s0).elements,
            slug_models(headings@) == allocation(es.take(i as int), s0).headings,
            slugs@ == allocation(es.take(i as int), s0).slugs,
        decreases elements@.len() - i,
    {
        proof {
            assert(es.take(i + 1).drop_last() =~= es.take(i as int));
            assert(es.take(i + 1).last() == elements@[i as int]@);
        }
        let ghost before = out@;
        let ghost headings_before = headings@;
        match &elements[i] {
            DocElement::Heading(h) => {
                let slug = slugs.allocate(h.id.as_str());
                let one = HeadingSlug {
                    level: decimal_of(h.level as u128),
                    id: copy_str(h.id.as_str()),
                    slug: copy_str(slug.as_str()),
                };
                headings.push(one);
                assert(slug_models(headings@) =~= slug_models(headings_before).push(one@));
                let e = DocElement::Heading(
                    Heading {
                        title: copy_str(h.title.as_str()),
                        id: slug,
                        level: h.level,
                        line: h.line,
                    },
                );
                out.push(e);
                assert(element_models(out@) =~= element_models(before).push(e@));
            },
            other => {
                let e = other.copy();
                out.push(e);
                assert(element_models(out@) =~= element_models(before).push(e@));
            },
        }
        i = i + 1;
    }
    assert(es.take(i as int) =~= es);
    (out, headings)
}

/// A page after its headings have got new ids, and the position behind the last
/// of them. Each heading is looked for behind the one before it, so that an id
/// that was just given is never taken for one still to be replaced; a heading
/// that is not found is left out.
pub open spec fn reslugged(html: Seq<char>, headings: Seq<SlugModel>) -> (Seq<char>, int)
    decreases headings.len(),
{
    if headings.len() == 0 {
        (html, 0)
    } else {
        let (page, cursor) = reslugged(html, headings.drop_last());
        let h = headings.last();
        let from = heading_id(h.level, h.id);
        let to = heading_id(h.level, h.slug);
        match find_from(page, from, cursor) {
            Some(k) => (page.take(k) + to + page.skip(k + from.len()), k + to.len()),
            None => (page, cursor),
        }
    }
}

fn heading_id_of(level: &str, id: &str) -> (r: String)
    ensures
        r@ == heading_id(level@, id@),
{
    let open = concat3("<h", level, " id=\"");
    concat3(open.as_str(), id, "\"")
}

/// Give the headings of a page new ids, in document order.
pub fn reslug_headings(html: &str, headings: &Vec<HeadingSlug>) -> (r: String)
    ensures
        r@ == reslugged(html@, slug_models(headings@)).0,
{
    let ghost hs = slug_models(headings@);
    let mut page = copy_str(html);
    let mut cursor: usize = 0;
    let mut i: usize = 0;
    assert(hs.take(0) =~= Seq::<SlugModel>::empty());
    while i < headings.len()
        invariant
            i <= headings@.len(),
            hs == slug_models(headings@),
            (page@, cursor as int) == reslugged(html@, hs.take(i as int)),
            cursor <= page@.len(),
        decreases headings@.len() - i,
    {
        let h = &headings[i];
        proof {
            assert(hs[i as int] == h@);
            assert(hs.take(i + 1).drop_last() =~= hs.take(i as int));
            assert(hs.take(i + 1).last() == h@);
        }
        let from = heading_id_of(h.level.as_str(), h.id.as_str());
        let to = heading_id_of(h.level.as_str(), h.slug.as_str());
        let chars = chars_of(page.as_str());
        match find_str(&chars, from.as_str(), cursor) {
            Some(k) => {
                let n: usize = from.as_str().unicode_len();
                let head = sub_string(&chars, 0, k);
                let tail = sub_string(&chars, k + n, chars.len());
                let before = concat2(head.as_str(), to.as_str());
                let ghost old_page = page@;
                page = concat2(before.as_str(), tail.as_str());
                proof {
                    assert(old_page.subrange(0, k as int) =~= old_page.take(k as int));
                    assert(old_page.subrange(k + n, old_page.len() as int) =~= old_page.skip(
                        k + n,
                    ));
                }
                cursor = page.as_str().unicode_len() - tail.as_str().unicode_len();
            },
            None => {},
        }
        i = i + 1;
    }
    assert(hs.take(i as int) =~= hs);
    page
}

/// Headings that keep their ids leave the page as it is.
pub proof fn law_same_ids_change_nothing(html: Seq<char>, headings: Seq<SlugModel>)
    requires
        forall|i: int| 0 <= i < headings.len() ==> (#[trigger] headings[i]).id == headings[i].slug,
    ensures
        reslugged(html, headings).0 == html,
        0 <= reslugged(html, headings).1 <= html.len(),
    decreases headings.len(),
{
    if headings.len() > 0 {
        let rest = headings.drop_last();
        assert forall|i: int| 0 <= i < rest.len() implies (#[trigger] rest[i]).id == rest[i].slug by {
            assert(rest[i] == headings[i]);
        }
        law_same_ids_change_nothing(html, rest);
        let h = headings[headings.len() - 1];
        assert(h.id == h.slug);
        let from = heading_id(h.level, h.id);
        let cursor = reslugged(html, rest).1;
        crate::text::lemma_find_from(html, from, cursor);
        match find_from(html, from, cursor) {
            Some(k) => {
                assert(html.subrange(k, k + from.len()) =~= from);
                assert(html.take(k) + from + html.skip(k + from.len()) =~= html);
            },
            None => {},
        }
    }
}

} // verus!
