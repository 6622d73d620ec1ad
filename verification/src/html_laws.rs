//! What becomes of a rendered page.

use vstd::prelude::*;

use crate::adoc_html::{
    closing_div, div_by_id, content_html, paragraph_start, splice_all, splice_one, splice_roles, tag_with_attribute,
    Splice, with_contained_element,
    with_contained_paragraph, with_section_ids,
};
use crate::markers::marker_at;
use crate::requirement::ReqModel;
use crate::rule_id::rule_text;
use crate::source_view::range_replaced;
use crate::text::{
    byte_len, find_char, find_from, lemma_find_char, lemma_rfind_upto, rfind_upto, lemma_char_position, lemma_find_from, occurs_at, without_suffix,
};

verus! {

proof fn lemma_stands(a: Seq<char>, p: Seq<char>, b: Seq<char>)
    ensures
        occurs_at(a + p + b, p, a.len() as int),
{
    let s = a + p + b;
    assert(s.subrange(a.len() as int, (a.len() + p.len()) as int) =~= p);
}

/// A full page gives what stands in its content, up to the footer and without the
/// closing tag of the content.
pub proof fn law_page_gives_its_content(before: Seq<char>, body: Seq<char>, after: Seq<char>)
    requires
        ({
            let open = "<div id=\"content\">"@;
            let footer = "<div id=\"footer\">"@;
            let page = before + open + body + "</div>"@ + footer + after;
            let end = before.len() + open.len() + body.len() + 6;
            &&& forall|i: int| 0 <= i < before.len() ==> !#[trigger] occurs_at(page, open, i)
            &&& forall|i: int|
                before.len() + open.len() <= i < end ==> !#[trigger] occurs_at(page, footer, i)
        }),
    ensures
        content_html(
            before + "<div id=\"content\">"@ + body + "</div>"@ + "<div id=\"footer\">"@ + after,
        ) == body,
{
    let open = "<div id=\"content\">"@;
    let footer = "<div id=\"footer\">"@;
    let close = "</div>"@;
    reveal_strlit("</div>");
    let page = before + open + body + close + footer + after;
    assert(page =~= before + open + (body + close + footer + after));
    lemma_stands(before, open, body + close + footer + after);
    lemma_find_from(page, open, 0);
    assert(find_from(page, open, 0) == Some(before.len() as int));
    let head = before + open + body + close;
    let inner = (before.len() + open.len()) as int;
    lemma_stands(head, footer, after);
    lemma_find_from(page, footer, inner);
    assert(find_from(page, footer, inner) == Some(head.len() as int));
    let part = page.subrange(inner, head.len() as int);
    assert(part =~= body + close);
    assert(part.subrange(part.len() - close.len(), part.len() as int) =~= close);
    assert(without_suffix(part, close) =~= body);
}

/// A page without a content div is taken whole.
pub proof fn law_other_page_is_taken_whole(page: Seq<char>)
    requires
        forall|i: int| !#[trigger] occurs_at(page, "<div id=\"content\">"@, i),
    ensures
        content_html(page) == page,
{
    lemma_find_from(page, "<div id=\"content\">"@, 0);
}

/// The first paragraph that begins with a marker gives way to a container with the
/// rest of its text; what stands around it stays.
pub proof fn law_paragraph_is_contained(
    before: Seq<char>,
    marker: Seq<char>,
    text: Seq<char>,
    after: Seq<char>,
    open: Seq<char>,
)
    requires
        text.len() > 0,
        ({
            let start = "<div class=\"paragraph\"><p>"@ + marker;
            let html = before + start + " "@ + text + "</p></div>"@ + after;
            let body = before.len() + start.len();
            &&& forall|i: int| 0 <= i < before.len() ==> !#[trigger] occurs_at(html, start, i)
            &&& forall|i: int|
                body <= i < body + 1 + text.len() ==> !#[trigger] occurs_at(html, "</p></div>"@, i)
        }),
    ensures
        with_contained_paragraph(
            before + ("<div class=\"paragraph\"><p>"@ + marker) + " "@ + text + "</p></div>"@
                + after,
            marker,
            open,
        ) == before + (open + "<p>"@ + text + "</p>\n"@ + "</div>\n</div>"@) + after,
{
    reveal_strlit(" ");
    reveal_strlit("</p></div>");
    let start = "<div class=\"paragraph\"><p>"@ + marker;
    let close = "</p></div>"@;
    let html = before + start + " "@ + text + close + after;
    assert(start == paragraph_start(marker));
    assert(html =~= before + start + (" "@ + text + close + after));
    lemma_stands(before, start, " "@ + text + close + after);
    lemma_find_from(html, start, 0);
    assert(find_from(html, start, 0) == Some(before.len() as int));
    let body = (before.len() + start.len()) as int;
    let head = before + start + " "@ + text;
    lemma_stands(head, close, after);
    lemma_find_from(html, close, body);
    let end = head.len() as int;
    assert(find_from(html, close, body) == Some(end));
    assert(html[body] == ' ');
    assert(html.subrange(body + 1, end) =~= text);
    assert(html.take(before.len() as int) =~= before);
    assert(html.skip(end + close.len()) =~= after);
}

/// A page without such a paragraph stays as it is.
pub proof fn law_other_paragraphs_stay(html: Seq<char>, marker: Seq<char>, open: Seq<char>)
    requires
        forall|i: int|
            !#[trigger] occurs_at(html, "<div class=\"paragraph\"><p>"@ + marker, i),
    ensures
        with_contained_paragraph(html, marker, open) == html,
{
    lemma_find_from(html, paragraph_start(marker), 0);
}

/// An element gives way to a container around its content; what stands around it
/// stays.
pub proof fn law_element_is_contained(
    before: Seq<char>,
    tag: Seq<char>,
    inner: Seq<char>,
    after: Seq<char>,
    open: Seq<char>,
)
    ensures
        ({
            let a = before.len() as int;
            let b = a + tag.len();
            with_contained_element(
                before + tag + inner + "</div>"@ + after,
                (a, b, b + inner.len()),
                open,
            ) == before + open + inner + "</div>\n</div>"@ + after
        }),
{
    reveal_strlit("</div>");
    let html = before + tag + inner + "</div>"@ + after;
    let a = before.len() as int;
    let b = a + tag.len();
    let c = b + inner.len();
    assert(html.take(a) =~= before);
    assert(html.subrange(b, c) =~= inner);
    assert(html.skip(c + 6) =~= after);
}

/// How often a text begins between two positions.
pub open spec fn count_at(s: Seq<char>, p: Seq<char>, a: int, b: int) -> nat
    decreases b - a,
{
    if a >= b {
        0
    } else {
        count_at(s, p, a, b - 1) + if occurs_at(s, p, b - 1) {
            1nat
        } else {
            0nat
        }
    }
}

proof fn lemma_count_none(s: Seq<char>, p: Seq<char>, a: int, b: int)
    requires
        forall|i: int| a <= i < b ==> !#[trigger] occurs_at(s, p, i),
    ensures
        count_at(s, p, a, b) == 0,
    decreases b - a,
{
    if a < b {
        lemma_count_none(s, p, a, b - 1);
    }
}

proof fn lemma_count_add(s: Seq<char>, p: Seq<char>, a: int, b: int, c: int)
    requires
        a <= b <= c,
    ensures
        count_at(s, p, a, c) == count_at(s, p, a, b) + count_at(s, p, b, c),
    decreases c - b,
{
    if b < c {
        lemma_count_add(s, p, a, b, c - 1);
    }
}

/// The tag that closes a div is the first before which, counted from where the div
/// was opened, as many divs are closed as opened.
pub proof fn law_divs_are_balanced(html: Seq<char>, pos: int, depth: nat)
    requires
        0 <= pos,
        depth >= 1,
        closing_div(html, pos, depth) is Some,
    ensures
        ({
            let c = closing_div(html, pos, depth)->0;
            &&& pos <= c
            &&& occurs_at(html, "</div>"@, c)
            &&& count_at(html, "<div"@, pos, c) + depth == count_at(html, "</div>"@, pos, c) + 1
            &&& forall|x: int|
                pos <= x < c && #[trigger] occurs_at(html, "</div>"@, x) ==> count_at(
                    html,
                    "<div"@,
                    pos,
                    x,
                ) + depth > count_at(html, "</div>"@, pos, x) + 1
        }),
    decreases html.len() - pos,
{
    reveal_strlit("</div>");
    reveal_strlit("<div");
    let open = "<div"@;
    let close = "</div>"@;
    lemma_find_from(html, open, pos);
    lemma_find_from(html, close, pos);
    let found = closing_div(html, pos, depth)->0;
    let c = find_from(html, close, pos)->0;
    let nested = find_from(html, open, pos) is Some && find_from(html, open, pos)->0 < c;
    if nested {
        let o = find_from(html, open, pos)->0;
        law_divs_are_balanced(html, o + 4, depth + 1);
        lemma_tag_steps(html, open, o, 4);
        lemma_count_none(html, open, pos, o);
        lemma_count_none(html, close, pos, o + 1);
        lemma_count_add(html, open, pos, o + 1, found);
        lemma_count_add(html, close, pos, o + 1, found);
        lemma_count_add(html, open, o + 1, o + 4, found);
        lemma_count_add(html, close, o + 1, o + 4, found);
        lemma_count_none(html, open, o + 1, o + 4);
        lemma_count_none(html, close, o + 1, o + 4);
        assert(count_at(html, open, pos, o + 1) == 1);
        assert forall|x: int| pos <= x < found && #[trigger] occurs_at(html, close, x) implies count_at(
            html,
            open,
            pos,
            x,
        ) + depth > count_at(html, close, pos, x) + 1 by {
            assert(x >= o + 4);
            lemma_count_add(html, open, pos, o + 1, x);
            lemma_count_add(html, close, pos, o + 1, x);
            lemma_count_add(html, open, o + 1, o + 4, x);
            lemma_count_add(html, close, o + 1, o + 4, x);
        }
    } else {
        lemma_count_none(html, close, pos, c);
        lemma_count_none(html, open, pos, c);
        if depth > 1 {
            law_divs_are_balanced(html, c + 6, (depth - 1) as nat);
            lemma_tag_steps(html, close, c, 6);
            assert(!occurs_at(html, open, c)) by {
                if occurs_at(html, open, c) {
                    assert(html.subrange(c, c + 4)[1] == 'd');
                    assert(html.subrange(c, c + 6)[1] == '/');
                }
            }
            lemma_count_none(html, open, pos, c + 1);
            lemma_count_add(html, open, pos, c + 1, found);
            lemma_count_add(html, close, pos, c + 1, found);
            lemma_count_add(html, open, c + 1, c + 6, found);
            lemma_count_add(html, close, c + 1, c + 6, found);
            lemma_count_none(html, open, c + 1, c + 6);
            lemma_count_none(html, close, c + 1, c + 6);
            assert(count_at(html, close, pos, c + 1) == 1);
            assert forall|x: int|
                pos <= x < found && #[trigger] occurs_at(html, close, x) implies count_at(
                html,
                open,
                pos,
                x,
            ) + depth > count_at(html, close, pos, x) + 1 by {
                if x > c {
                    assert(x >= c + 6);
                    lemma_count_add(html, open, pos, c + 1, x);
                    lemma_count_add(html, close, pos, c + 1, x);
                    lemma_count_add(html, open, c + 1, c + 6, x);
                    lemma_count_add(html, close, c + 1, c + 6, x);
                } else {
                    lemma_count_none(html, close, pos, x);
                }
            }
        }
    }
}

proof fn lemma_tag_steps(html: Seq<char>, tag: Seq<char>, at: int, n: int)
    requires
        occurs_at(html, tag, at),
        tag.len() == n,
        forall|i: int| 1 <= i < n ==> #[trigger] tag[i] != '<',
    ensures
        forall|i: int| at < i < at + n ==> !#[trigger] occurs_at(html, "<div"@, i),
        forall|i: int| at < i < at + n ==> !#[trigger] occurs_at(html, "</div>"@, i),
{
    reveal_strlit("</div>");
    reveal_strlit("<div");
    assert forall|i: int| at < i < at + n implies html[i] != '<' by {
        assert(html.subrange(at, at + n)[i - at] == tag[i - at]);
    }
    assert forall|i: int| at < i < at + n implies !#[trigger] occurs_at(html, "<div"@, i) by {
        if occurs_at(html, "<div"@, i) {
            assert(html.subrange(i, i + 4)[0] == '<');
        }
    }
    assert forall|i: int| at < i < at + n implies !#[trigger] occurs_at(html, "</div>"@, i) by {
        if occurs_at(html, "</div>"@, i) {
            assert(html.subrange(i, i + 6)[0] == '<');
        }
    }
}

/// Every requirement gets HTML of its own from the page, in order; without
/// requirements the page stays as it is.
pub proof fn law_every_requirement_gets_html(
    html: Seq<char>,
    source: Seq<char>,
    reqs: Seq<ReqModel>,
    opens: Seq<Seq<char>>,
)
    ensures
        splice_all(html, source, reqs, opens) is Ok ==> splice_all(
            html,
            source,
            reqs,
            opens,
        )->Ok_0.bodies.len() == reqs.len(),
        splice_roles(html, reqs, opens).bodies.len() == reqs.len(),
        reqs.len() == 0 ==> splice_all(html, source, reqs, opens) is Ok && splice_all(
            html,
            source,
            reqs,
            opens,
        )->Ok_0.html == html && splice_roles(html, reqs, opens).html == html,
    decreases reqs.len(),
{
    if reqs.len() > 0 {
        law_every_requirement_gets_html(html, source, reqs.drop_last(), opens);
    }
}

/// Without ids to rename a page stays as it is.
pub proof fn law_nothing_to_rename(html: Seq<char>, map: Seq<(Seq<char>, Seq<char>)>)
    requires
        forall|i: int, k: int|
            0 <= i < map.len() ==> !#[trigger] occurs_at(
                html,
                " id=\""@ + map[i].0 + "\""@,
                k,
            ),
        forall|i: int, k: int|
            0 <= i < map.len() ==> !#[trigger] occurs_at(
                html,
                " href=\"#"@ + map[i].0 + "\""@,
                k,
            ),
    ensures
        with_section_ids(html, map) == html,
    decreases map.len(),
{
    if map.len() > 0 {
        let d = map.drop_last();
        let last = map.len() - 1;
        assert forall|i: int, k: int| 0 <= i < d.len() implies !#[trigger] occurs_at(
            html,
            " id=\""@ + d[i].0 + "\""@,
            k,
        ) by {
            assert(!occurs_at(html, " id=\""@ + map[i].0 + "\""@, k));
        }
        assert forall|i: int, k: int| 0 <= i < d.len() implies !#[trigger] occurs_at(
            html,
            " href=\"#"@ + d[i].0 + "\""@,
            k,
        ) by {
            assert(!occurs_at(html, " href=\"#"@ + map[i].0 + "\""@, k));
        }
        law_nothing_to_rename(html, d);
        let (a, b) = map.last();
        let id = " id=\""@ + a + "\""@;
        let href = " href=\"#"@ + a + "\""@;
        reveal_strlit("\"");
        assert forall|k: int| !#[trigger] occurs_at(html, id, k) by {
            assert(!occurs_at(html, " id=\""@ + map[last].0 + "\""@, k));
        }
        assert forall|k: int| !#[trigger] occurs_at(html, href, k) by {
            assert(!occurs_at(html, " href=\"#"@ + map[last].0 + "\""@, k));
        }
        crate::text_laws::law_replace(
            html,
            id,
            crate::adoc_html::id_attribute(b),
            Seq::empty(),
        );
        crate::text_laws::law_replace(
            html,
            href,
            crate::adoc_html::href_attribute(b),
            Seq::empty(),
        );
    }
}

/// Replacing a range of bytes keeps what stands before and behind it.
pub proof fn law_range_is_replaced(
    a: Seq<char>,
    b: Seq<char>,
    c: Seq<char>,
    start: usize,
    end: usize,
    new: Seq<char>,
)
    requires
        byte_len(a) == start,
        byte_len(a + b) == end,
    ensures
        range_replaced(a + b + c, start, end, new) == a + new + c,
{
    let s = a + b + c;
    assert(s.take(a.len() as int) =~= a);
    assert(s.take((a.len() + b.len()) as int) =~= a + b);
    lemma_char_position(s, a.len() as int);
    lemma_char_position(s, (a.len() + b.len()) as int);
    assert(s.skip((a.len() + b.len()) as int) =~= c);
}

/// An element is found by its id where the attribute stands in the opening tag of
/// the nearest div before it.
pub proof fn law_tag_is_found(
    html: Seq<char>,
    attr: Seq<char>,
    from: int,
    start: int,
    at: int,
    end: int,
)
    requires
        attr.len() > 0,
        0 <= from <= at,
        occurs_at(html, attr, at),
        forall|i: int| from <= i < at ==> !#[trigger] occurs_at(html, attr, i),
        0 <= start <= at - 4,
        occurs_at(html, "<div"@, start),
        forall|i: int| start < i <= at - 4 ==> !#[trigger] occurs_at(html, "<div"@, i),
        at < end < html.len(),
        html[end] == '>',
        forall|i: int| start <= i < end ==> #[trigger] html[i] != '>',
    ensures
        tag_with_attribute(html, attr, from) == Some((start, end + 1)),
{
    lemma_find_from(html, attr, from);
    lemma_rfind_upto(html, "<div"@, at - 4);
    lemma_find_char(html, '>', start);
    assert(find_from(html, attr, from) == Some(at));
    assert(rfind_upto(html, "<div"@, at - 4) == Some(start));
    assert(find_char(html, '>', start) == Some(end));
}

/// Text that looks like the attribute, but stands behind the tag of the nearest div
/// before it, is passed over.
pub proof fn law_text_is_no_tag(
    html: Seq<char>,
    attr: Seq<char>,
    from: int,
    start: int,
    end: int,
    at: int,
)
    requires
        attr.len() > 0,
        0 <= from <= at,
        occurs_at(html, attr, at),
        forall|i: int| from <= i < at ==> !#[trigger] occurs_at(html, attr, i),
        0 <= start < end < at,
        start <= at - 4,
        occurs_at(html, "<div"@, start),
        forall|i: int| start < i <= at - 4 ==> !#[trigger] occurs_at(html, "<div"@, i),
        html[end] == '>',
        forall|i: int| start <= i < end ==> #[trigger] html[i] != '>',
    ensures
        tag_with_attribute(html, attr, from) == tag_with_attribute(html, attr, at + attr.len()),
{
    lemma_find_from(html, attr, from);
    lemma_rfind_upto(html, "<div"@, at - 4);
    lemma_find_char(html, '>', start);
    assert(find_from(html, attr, from) == Some(at));
    assert(rfind_upto(html, "<div"@, at - 4) == Some(start));
    assert(find_char(html, '>', start) == Some(end));
}

/// An element reaches from the tag with its id to the tag that closes it.
pub proof fn law_element_by_id(html: Seq<char>, id: Seq<char>, from: int)
    requires
        0 <= from,
    ensures
        ({
            let tag = tag_with_attribute(html, " id=\""@ + id + "\""@, from);
            let e = div_by_id(html, id, from);
            &&& e is Some <==> tag is Some && closing_div(html, (tag->0).1, 1) is Some
            &&& e is Some ==> (e->0).0 == (tag->0).0 && (e->0).1 == (tag->0).1 && Some((e->0).2)
                == closing_div(html, (tag->0).1, 1)
        }),
{
}

/// A block that an attribute list marks is found by its id, gets its container, and
/// its content becomes the HTML of the requirement; where the page does not hold
/// it, the id is what is told.
pub proof fn law_marked_block_is_spliced(
    s: Splice,
    source: Seq<char>,
    req: ReqModel,
    open: Seq<char>,
    marker: Seq<char>,
)
    requires
        marker_at(source, req.marker_span) == Some(marker),
        marker.len() > 0,
        marker[0] == '[',
    ensures
        ({
            let r = splice_one(s, source, req, open);
            let e = div_by_id(s.html, rule_text(req.id), s.cursor);
            &&& e is None ==> r == Err::<Splice, Seq<char>>(rule_text(req.id))
            &&& e is Some ==> {
                let inner = s.html.subrange((e->0).1, (e->0).2);
                let t = r->Ok_0;
                &&& r is Ok
                &&& t.bodies == s.bodies.push(inner)
                &&& t.html == s.html.take((e->0).0) + open + inner + "</div>\n</div>"@
                    + s.html.skip((e->0).2 + 6)
                &&& t.cursor == (e->0).0 + open.len() + inner.len() + "</div>\n</div>"@.len()
            }
        }),
{
    reveal_strlit("[");
    assert(marker.subrange(0, 1) =~= "["@);
}

/// A requirement with its marker in the text keeps its own HTML, and its paragraph
/// gets the container.
pub proof fn law_marked_paragraph_is_spliced(
    s: Splice,
    source: Seq<char>,
    req: ReqModel,
    open: Seq<char>,
    marker: Seq<char>,
)
    requires
        marker_at(source, req.marker_span) == Some(marker),
        marker.len() > 0,
        marker[0] != '[',
    ensures
        ({
            let r = splice_one(s, source, req, open);
            &&& r is Ok
            &&& r->Ok_0.bodies == s.bodies.push(req.html)
            &&& r->Ok_0.html == with_contained_paragraph(s.html, marker, open)
            &&& r->Ok_0.cursor == s.cursor
        }),
{
    reveal_strlit("[");
    if crate::text::has_prefix(marker, "["@) {
        assert(marker.subrange(0, 1)[0] == "["@[0]);
    }
}

} // verus!
