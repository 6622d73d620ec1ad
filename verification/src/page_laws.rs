//! What a document becomes.

use vstd::prelude::*;

use crate::adoc_backend::{
    assembled, badge_opens, doc_from, opens_for, rendered_sections, rendered_source, BadgeSource, RenderInput,
};
use crate::adoc_marker::{is_prefix_char, leading_marker, paragraphs_html, prefix_end};
use crate::adoc_tree::AdocDocument;
use crate::adoc_walk::{walked, WalkModel};
use crate::api::RuleModel;
use crate::badge::{container_open, coverage_of};
use crate::build_laws::lemma_flat;
use crate::document::ElementModel;
use crate::html::escaped;
use crate::html_laws::law_every_requirement_gets_html;
use crate::numbers::decimal;
use crate::requirement::ReqModel;
use crate::reslug::{allocation, heading_id, reslugged, SlugModel};
use crate::rule_id::rule_text;
use crate::slugs::{
    allocated_slug, candidate, chosen_suffix, is_first_free, is_req_anchor, next_suffix, normalised,
    SlugState,
};
use crate::text::{find_char, find_from, lemma_find_char, lemma_find_from, occurs_at, trim};

verus! {

/// Each source that is rendered becomes one section, in order, which says where it
/// comes from.
pub proof fn law_every_source_is_rendered(input: RenderInput, n: int, roles: bool, slugs: SlugState)
    requires
        0 <= n <= input.sources@.len() <= usize::MAX,
    ensures
        rendered_sections(input, n, roles, slugs) is Ok ==> {
            let v = (rendered_sections(input, n, roles, slugs)->Ok_0).0;
            &&& v.len() == n
            &&& forall|i: int| 0 <= i < n ==> (#[trigger] v[i]).source_idx == i
        },
        rendered_sections(input, n, roles, slugs) is Err ==> exists|i: int, s: SlugState|
            0 <= i < n && (#[trigger] rendered_source(input, input.sources@[i], roles, s)) is Err
                && rendered_source(input, input.sources@[i], roles, s)->Err_0 == rendered_sections(
                input,
                n,
                roles,
                slugs,
            )->Err_0,
    decreases n,
{
    if n > 0 {
        law_every_source_is_rendered(input, n - 1, roles, slugs);
        let before = rendered_sections(input, n - 1, roles, slugs);
        if before is Ok {
            let s = (before->Ok_0).1;
            let one = rendered_source(input, input.sources@[n - 1], roles, s);
            if one is Err {
                assert(rendered_source(input, input.sources@[n - 1], roles, s) is Err);
            }
        }
    }
}

/// The container of a requirement is opened with the coverage of the rule that has
/// its id.
pub proof fn law_container_by_own_rule(
    reqs: Seq<ReqModel>,
    rules: Seq<RuleModel>,
    source_file: Seq<char>,
    spec_name: Seq<char>,
    impl_name: Seq<char>,
    i: int,
)
    requires
        0 <= i < reqs.len(),
    ensures
        badge_opens(reqs, rules, source_file, spec_name, impl_name).len() == reqs.len(),
        badge_opens(reqs, rules, source_file, spec_name, impl_name)[i] == container_open(
            reqs[i],
            coverage_of(rules, rule_text(reqs[i].id)),
            source_file,
            spec_name,
            impl_name,
        ),
{
}

/// A document keeps all requirements, headings, elements and spans that were
/// extracted; only the HTML of requirements is filled in.
pub proof fn law_document_keeps_all(
    w: WalkModel,
    page: Seq<char>,
    source: Seq<char>,
    opens: Seq<Seq<char>>,
    roles: bool,
    i: int,
)
    requires
        doc_from(w, page, source, opens, roles) is Ok,
        0 <= i < w.reqs.len(),
    ensures
        ({
            let d = doc_from(w, page, source, opens, roles)->Ok_0;
            &&& d.headings == w.headings
            &&& d.elements == w.elements
            &&& d.inline_code_spans == w.spans
            &&& d.reqs.len() == w.reqs.len()
            &&& d.reqs[i].id == w.reqs[i].id
            &&& d.reqs[i].anchor_id == w.reqs[i].anchor_id
            &&& d.reqs[i].raw == w.reqs[i].raw
            &&& d.reqs[i].line == w.reqs[i].line
            &&& d.reqs[i].span == w.reqs[i].span
            &&& d.reqs[i].marker_span == w.reqs[i].marker_span
            &&& d.reqs[i].metadata == w.reqs[i].metadata
        }),
{
}

/// Only role-marked blocks of a page can be missed; and not where roles are used.
pub proof fn law_roles_never_miss(
    w: WalkModel,
    page: Seq<char>,
    source: Seq<char>,
    opens: Seq<Seq<char>>,
)
    ensures
        doc_from(w, page, source, opens, true) is Ok,
        w.reqs.len() == 0 ==> doc_from(w, page, source, opens, false) is Ok,
{
    law_every_requirement_gets_html(
        crate::adoc_html::content_html(page),
        source,
        w.reqs,
        opens,
    );
}

/// A document fails where it cannot be parsed, where two requirements have one
/// base, where it cannot be rendered, and where a block is missed; the first of
/// these is what is said.
pub proof fn law_document_fails(
    tree: Result<AdocDocument, Seq<char>>,
    page: Result<Seq<char>, Seq<char>>,
    content: Seq<char>,
    roles: bool,
    badges: Option<BadgeSource>,
    slugs: SlugState,
)
    ensures
        ({
            let r = assembled(tree, page, content, roles, badges, slugs);
            &&& tree is Err <==> r is Err && r->Err_0 is Parse
            &&& tree is Err ==> r->Err_0->Parse_0 == tree->Err_0
            &&& tree is Ok && walked(tree->Ok_0, content, !roles, slugs) is Err <==> r is Err
                && r->Err_0 is Duplicate
            &&& tree is Ok && walked(tree->Ok_0, content, !roles, slugs) is Ok && page is Err
                <==> r is Err && r->Err_0 is Render
            &&& r is Ok ==> tree is Ok && page is Ok && walked(
                tree->Ok_0,
                content,
                !roles,
                slugs,
            ) is Ok
        }),
{
}

/// The body of a requirement becomes one paragraph of HTML for each paragraph that
/// is not blank, in order, escaped.
pub proof fn law_body_paragraphs(paras: Seq<Seq<char>>)
    ensures
        paragraphs_html(paras) == paras.filter(|p: Seq<char>| trim(p).len() > 0).map_values(
            |p: Seq<char>| "<p>"@ + escaped(trim(p)) + "</p>\n"@,
        ).flatten(),
    decreases paras.len(),
{
    reveal(Seq::filter);
    let keep = |p: Seq<char>| trim(p).len() > 0;
    let says = |p: Seq<char>| "<p>"@ + escaped(trim(p)) + "</p>\n"@;
    let parts = paras.filter(keep).map_values(says);
    if paras.len() > 0 {
        let d = paras.drop_last();
        law_body_paragraphs(d);
        let before = d.filter(keep).map_values(says);
        if keep(paras.last()) {
            assert(parts.drop_last() =~= before);
            assert(parts.last() == says(paras.last()));
            lemma_flat(parts);
            assert(paragraphs_html(paras) =~= paragraphs_html(d) + says(paras.last()));
        } else {
            assert(parts =~= before);
        }
    } else {
        assert(parts =~= Seq::<Seq<char>>::empty());
        assert(parts.flatten() =~= Seq::<char>::empty());
    }
}

/// A line begins with a marker exactly where lowercase letters or digits are
/// followed by brackets with something in them.
pub proof fn law_leading_marker(prefix: Seq<char>, inner: Seq<char>, rest: Seq<char>)
    requires
        forall|i: int| 0 <= i < prefix.len() ==> is_prefix_char(#[trigger] prefix[i]),
        !inner.contains(']'),
    ensures
        leading_marker(prefix + seq!['['] + inner + seq![']'] + rest) == if prefix.len() > 0
            && inner.len() > 0 {
            Some((prefix.len() as int, (prefix.len() + 1 + inner.len()) as int))
        } else {
            None
        },
        leading_marker(prefix + seq!['['] + inner) is None,
{
    let line = prefix + seq!['['] + inner + seq![']'] + rest;
    let short = prefix + seq!['['] + inner;
    let n = prefix.len() as int;
    lemma_prefix_end(line, 0, n);
    lemma_find_char(line, ']', 0);
    lemma_find_char(short, ']', 0);
    let close = n + 1 + inner.len();
    assert(line[close] == ']');
    let i = find_char(line, ']', 0)->0;
    if i < close {
        if i < n {
            assert(line[i] == prefix[i]);
            assert(is_prefix_char(prefix[i]));
        } else if i > n {
            assert(inner[i - n - 1] == ']');
        }
    }
    assert(i == close);
    if find_char(short, ']', 0) is Some {
        let j = find_char(short, ']', 0)->0;
        if j < n {
            assert(short[j] == prefix[j]);
            assert(is_prefix_char(prefix[j]));
        } else if j > n {
            assert(inner[j - n - 1] == ']');
        }
    }
}

proof fn lemma_prefix_end(line: Seq<char>, from: int, n: int)
    requires
        0 <= from <= n < line.len(),
        forall|i: int| from <= i < n ==> is_prefix_char(#[trigger] line[i]),
        !is_prefix_char(line[n]),
    ensures
        prefix_end(line, from) == n,
    decreases n - from,
{
    if from < n {
        assert(is_prefix_char(line[from]));
        lemma_prefix_end(line, from + 1, n);
    }
}

/// Giving slugs changes the ids of headings alone, and tells for each heading, in
/// order, the id that it had and the one that it got.
pub proof fn law_headings_get_slugs(elements: Seq<ElementModel>, slugs: SlugState)
    ensures
        ({
            let a = allocation(elements, slugs);
            &&& a.elements.len() == elements.len()
            &&& forall|i: int|
                0 <= i < elements.len() && !((#[trigger] elements[i]) is Heading) ==> a.elements[i]
                    == elements[i]
            &&& forall|i: int|
                0 <= i < elements.len() && (#[trigger] elements[i]) is Heading ==> {
                    let at = elements.take(i).filter(|e: ElementModel| e is Heading).len() as int;
                    let h = elements[i]->Heading_0;
                    &&& a.elements[i] is Heading
                    &&& a.elements[i]->Heading_0.title == h.title
                    &&& a.elements[i]->Heading_0.level == h.level
                    &&& a.elements[i]->Heading_0.line == h.line
                    &&& at < a.headings.len()
                    &&& a.headings[at].id == h.id
                    &&& a.headings[at].slug == a.elements[i]->Heading_0.id
                }
            &&& a.headings.len() == elements.filter(|e: ElementModel| e is Heading).len()
        }),
    decreases elements.len(),
{
    reveal(Seq::filter);
    let p = |e: ElementModel| e is Heading;
    if elements.len() > 0 {
        let d = elements.drop_last();
        let n = d.len() as int;
        law_headings_get_slugs(d, slugs);
        let a = allocation(elements, slugs);
        let b = allocation(d, slugs);
        assert(elements.take(n) =~= d);
        assert(elements.last() == elements[n]);
        assert forall|i: int|
            0 <= i < elements.len() && !((#[trigger] elements[i]) is Heading) implies a.elements[i]
            == elements[i] by {
            if i < n {
                assert(d[i] == elements[i]);
                assert(b.elements[i] == d[i]);
            }
        }
        assert forall|i: int| 0 <= i < elements.len() && (#[trigger] elements[i]) is Heading implies {
            let at = elements.take(i).filter(|e: ElementModel| e is Heading).len() as int;
            let h = elements[i]->Heading_0;
            &&& a.elements[i] is Heading
            &&& a.elements[i]->Heading_0.title == h.title
            &&& a.elements[i]->Heading_0.level == h.level
            &&& a.elements[i]->Heading_0.line == h.line
            &&& at < a.headings.len()
            &&& a.headings[at].id == h.id
            &&& a.headings[at].slug == a.elements[i]->Heading_0.id
        } by {
            if i < n {
                assert(d[i] == elements[i]);
                assert(d[i] is Heading);
                assert(elements.take(i) =~= d.take(i));
                assert(a.elements[i] == b.elements[i]);
            }
        }
    }
}

/// A heading that is found behind those before it gets its new id; all else in the
/// page stays.
pub proof fn law_heading_gets_its_id(
    html: Seq<char>,
    headings: Seq<SlugModel>,
    h: SlugModel,
    a: Seq<char>,
    b: Seq<char>,
)
    requires
        ({
            let from = heading_id(h.level, h.id);
            let (page, cursor) = reslugged(html, headings);
            &&& page == a + from + b
            &&& cursor <= a.len()
            &&& forall|i: int| cursor <= i < a.len() ==> !#[trigger] occurs_at(page, from, i)
        }),
    ensures
        reslugged(html, headings.push(h)).0 == a + heading_id(h.level, h.slug) + b,
        reslugged(html, headings.push(h)).1 == a.len() + heading_id(h.level, h.slug).len(),
{
    let (page, cursor) = reslugged(html, headings);
    let from = heading_id(h.level, h.id);
    assert(headings.push(h).drop_last() =~= headings);
    lemma_cursor(html, headings);
    lemma_find_from(page, from, cursor);
    assert(page.subrange(a.len() as int, (a.len() + from.len()) as int) =~= from);
    assert(occurs_at(page, from, a.len() as int));
    assert(find_from(page, from, cursor) == Some(a.len() as int));
    assert(page.take(a.len() as int) =~= a);
    assert(page.skip((a.len() + from.len()) as int) =~= b);
}

proof fn lemma_cursor(html: Seq<char>, headings: Seq<SlugModel>)
    ensures
        reslugged(html, headings).1 >= 0,
    decreases headings.len(),
{
    if headings.len() > 0 {
        lemma_cursor(html, headings.drop_last());
        let (page, cursor) = reslugged(html, headings.drop_last());
        let h = headings.last();
        lemma_find_from(page, heading_id(h.level, h.id), cursor);
    }
}

/// A text that is no requirement anchor, and was not asked for or handed out before,
/// is its own slug.
pub proof fn law_new_text_is_its_slug(s: SlugState, input: Seq<char>)
    requires
        !is_req_anchor(input),
        !s.next.dom().contains(input),
        !s.emitted.contains(input),
    ensures
        allocated_slug(s, input) == input,
{
    assert(normalised(input) == input);
    assert(is_first_free(s.emitted, input, 1, 1));
    let m = chosen_suffix(s, input);
    assert(is_first_free(s.emitted, input, next_suffix(s, input), m));
    if m > 1 {
        assert(s.emitted.contains(candidate(input, 1)));
    }
}

/// Without coverage every requirement still gets a container of its own, with its
/// anchor and the bytes that it covers.
pub proof fn law_plain_containers(reqs: Seq<ReqModel>, i: int)
    requires
        0 <= i < reqs.len(),
    ensures
        opens_for(reqs, None).len() == reqs.len(),
        opens_for(reqs, None)[i] == "<div class=\"req-container req-uncovered\" id=\""@ + escaped(
            reqs[i].anchor_id,
        ) + "\" data-br=\""@ + decimal(reqs[i].span.offset as nat) + "-"@ + decimal(
            (reqs[i].span.offset + reqs[i].span.length) as nat,
        ) + "\"><div class=\"req-content\">"@,
{
}

} // verus!
