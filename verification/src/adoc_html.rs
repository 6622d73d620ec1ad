//! Splicing requirement containers into rendered AsciiDoc.

use vstd::prelude::*;

use crate::html::{escaped, html_escape};
use crate::markers::marker_at;
use crate::numbers::{decimal, decimal_of_usize};
use crate::requirement::{req_models, ReqDefinition, ReqModel, SourceSpan};
use crate::rule_id::rule_text;
use crate::split::{replace_all, replaced_from};
use crate::text::{
    byte_slice_of, chars_of, concat2, concat3, copy_str, ends_with_str, find_char, find_char_from,
    find_from, find_str, has_prefix, lemma_find_from, rfind_str, rfind_upto, starts_with_str,
    sub_chars, sub_string, without_suffix,
};

verus! {

/// Closing HTML for a requirement container.
pub const REQ_CONTAINER_CLOSE: &'static str = "</div>\n</div>";

/// The inner HTML of `<div id="content">` in a full page: up to the footer,
/// else up to the end of the body, without the closing tag of the content
/// itself; the whole page where there is no such div.
pub open spec fn content_html(page: Seq<char>) -> Seq<char> {
    match find_from(page, "<div id=\"content\">"@, 0) {
        None => page,
        Some(at) => {
            let inner = at + "<div id=\"content\">"@.len();
            match find_from(page, "<div id=\"footer\">"@, inner) {
                Some(footer) => without_suffix(page.subrange(inner, footer), "</div>"@),
                None => match find_from(page, "</body>"@, inner) {
                    Some(end) => without_suffix(page.subrange(inner, end), "</div>"@),
                    None => page.skip(inner),
                },
            }
        },
    }
}

fn strip_closing_div(v: &[char], a: usize, b: usize) -> (r: String)
    requires
        a <= b <= v@.len(),
    ensures
        r@ == without_suffix(v@.subrange(a as int, b as int), "</div>"@),
{
    let part = sub_chars(v, a, b);
    proof {
        reveal_strlit("</div>");
    }
    if ends_with_str(&part, "</div>") {
        sub_string(&part, 0, part.len() - 6)
    } else {
        let r = sub_string(&part, 0, part.len());
        assert(part@.subrange(0, part@.len() as int) =~= part@);
        r
    }
}

/// Extract the inner HTML of `<div id="content">` from a full page.
pub fn extract_content_html(full_html: &str) -> (r: String)
    ensures
        r@ == content_html(full_html@),
{
    let v = chars_of(full_html);
    let n: usize = v.len();
    let marker = "<div id=\"content\">";
    let mlen: usize = chars_of(marker).len();
    let at = match find_str(&v, marker, 0) {
        Some(i) => i,
        None => {
            return copy_str(full_html);
        },
    };
    let inner = at + mlen;
    match find_str(&v, "<div id=\"footer\">", inner) {
        Some(footer) => strip_closing_div(&v, inner, footer),
        None => match find_str(&v, "</body>", inner) {
            Some(end) => strip_closing_div(&v, inner, end),
            None => {
                let r = sub_string(&v, inner, n);
                assert(v@.subrange(inner as int, n as int) =~= v@.skip(inner as int));
                r
            },
        },
    }
}

/// The attribute that gives an element its id.
pub open spec fn id_attribute(id: Seq<char>) -> Seq<char> {
    " id=\""@ + id + "\""@
}

/// Start of the opening tag of the nearest `<div` before `attr`, and the end
/// of that tag.
pub open spec fn enclosing_tag(html: Seq<char>, attr: int) -> Option<(int, int)> {
    match rfind_upto(html, "<div"@, attr - 4) {
        None => None,
        Some(start) => match find_char(html, '>', start) {
            None => None,
            Some(g) => Some((start, g + 1)),
        },
    }
}

/// The opening `<div` tag, at or after `from`, that carries the attribute
/// `attr`: an occurrence of the text outside the tag of the nearest `<div` is
/// passed over.
pub open spec fn tag_with_attribute(html: Seq<char>, attr: Seq<char>, from: int) -> Option<(int, int)>
    decreases html.len() - from,
{
    proof {
        if 0 <= from {
            lemma_find_from(html, attr, from);
        }
    }
    if from < 0 || attr.len() == 0 {
        None
    } else {
        match find_from(html, attr, from) {
            None => None,
            Some(p) => match enclosing_tag(html, p) {
                None => None,
                Some(tag) => if p < tag.1 {
                    Some(tag)
                } else {
                    tag_with_attribute(html, attr, p + attr.len())
                },
            },
        }
    }
}

/// Position of the `</div>` that closes the outermost of `depth` open divs,
/// reading from `pos`.
pub open spec fn closing_div(html: Seq<char>, pos: int, depth: nat) -> Option<int>
    decreases html.len() - pos,
{
    proof {
        reveal_strlit("</div>");
        reveal_strlit("<div");
        if 0 <= pos {
            lemma_find_from(html, "<div"@, pos);
            lemma_find_from(html, "</div>"@, pos);
        }
    }
    if pos < 0 {
        None
    } else {
        match (find_from(html, "<div"@, pos), find_from(html, "</div>"@, pos)) {
            (Some(o), Some(c)) => if o < c {
                closing_div(html, o + 4, depth + 1)
            } else if depth <= 1 {
                Some(c)
            } else {
                closing_div(html, c + 6, (depth - 1) as nat)
            },
            (None, Some(c)) => if depth <= 1 {
                Some(c)
            } else {
                closing_div(html, c + 6, (depth - 1) as nat)
            },
            _ => None,
        }
    }
}

/// A div element: where it starts, where its content starts, where its content
/// ends (its closing tag is the six characters from there on).
pub open spec fn element_of(html: Seq<char>, tag: (int, int)) -> Option<(int, int, int)> {
    match closing_div(html, tag.1, 1) {
        Some(c) => Some((tag.0, tag.1, c)),
        None => None,
    }
}

/// The div element with the given id, at or after `from`.
pub open spec fn div_by_id(html: Seq<char>, id: Seq<char>, from: int) -> Option<(int, int, int)> {
    match tag_with_attribute(html, id_attribute(id), from) {
        Some(tag) => element_of(html, tag),
        None => None,
    }
}

/// The div element around the first occurrence of the id attribute.
pub open spec fn first_div_by_id(html: Seq<char>, id: Seq<char>) -> Option<(int, int, int)> {
    match find_from(html, id_attribute(id), 0) {
        Some(p) => match enclosing_tag(html, p) {
            Some(tag) => element_of(html, tag),
            None => None,
        },
        None => None,
    }
}

/// An element found by executable code is the one that the model names.
pub open spec fn same_element(
    found: Option<(usize, usize, usize)>,
    model: Option<(int, int, int)>,
    n: int,
) -> bool {
    match (found, model) {
        (Some(x), Some(m)) => x.0 as int == m.0 && x.1 as int == m.1 && x.2 as int == m.2 && x.0
            <= x.1 <= x.2 && x.2 + 6 <= n,
        (None, None) => true,
        _ => false,
    }
}

fn find_enclosing_tag(html: &[char], attr: usize) -> (r: Option<(usize, usize)>)
    requires
        attr <= html@.len(),
    ensures
        crate::attributes::same_range(r, enclosing_tag(html@, attr as int)),
        r matches Some(t) ==> t.0 < t.1 <= html@.len(),
{
    let n: usize = html.len();
    if attr < 4 {
        assert(rfind_upto(html@, "<div"@, attr - 4) is None);
        return None;
    }
    match rfind_str(html, "<div", attr - 4) {
        None => None,
        Some(start) => match find_char_from(html, '>', start) {
            None => None,
            Some(g) => Some((start, g + 1)),
        },
    }
}

fn find_closing_div(html: &[char], from: usize) -> (r: Option<usize>)
    requires
        from <= html@.len(),
    ensures
        crate::text::same_index(r, closing_div(html@, from as int, 1)),
        r matches Some(c) ==> from <= c && c + 6 <= html@.len(),
{
    proof {
        reveal_strlit("</div>");
        reveal_strlit("<div");
    }
    let n: usize = html.len();
    let mut pos: usize = from;
    let mut depth: usize = 1;
    loop
        invariant
            n == html@.len(),
            from <= pos <= n,
            1 <= depth <= pos + 1 - from,
            "</div>"@.len() == 6,
            "<div"@.len() == 4,
            closing_div(html@, from as int, 1) == closing_div(html@, pos as int, depth as nat),
        decreases n - pos,
    {
        let next_open = find_str(html, "<div", pos);
        match find_str(html, "</div>", pos) {
            Some(c) => {
                let inside = match next_open {
                    Some(o) => o < c,
                    None => false,
                };
                if inside {
                    if let Some(o) = next_open {
                        depth = depth + 1;
                        pos = o + 4;
                    }
                } else {
                    if depth == 1 {
                        return Some(c);
                    }
                    depth = depth - 1;
                    pos = c + 6;
                }
            },
            None => {
                return None;
            },
        }
    }
}

fn find_element(html: &[char], tag: (usize, usize)) -> (r: Option<(usize, usize, usize)>)
    requires
        tag.0 <= tag.1 <= html@.len(),
    ensures
        same_element(r, element_of(html@, (tag.0 as int, tag.1 as int)), html@.len() as int),
{
    match find_closing_div(html, tag.1) {
        Some(c) => Some((tag.0, tag.1, c)),
        None => None,
    }
}

/// The text of an id attribute.
fn id_attribute_of(id: &str) -> (r: String)
    ensures
        r@ == id_attribute(id@),
{
    concat3(" id=\"", id, "\"")
}

/// Locate a `<div id="{id}" ...>...</div>` element in rendered HTML by its
/// exact `id=` attribute, tracking nested `<div>`/`</div>` depth so the match
/// spans the whole element even when its content contains further divs
/// (admonitions, nested blocks, etc).
///
/// Searches starting at `from` (callers pass a forward-only cursor, since
/// requirements are visited in document order). A textual match for
/// ` id="..."` is only accepted when it falls inside the *opening tag* of the
/// nearest preceding `<div`, not merely somewhere in that div's body: an
/// example block whose escaped text happens to spell out the same attribute
/// is body content, not a real id, so the search keeps going past it.
///
/// Returns where the element starts, and where its inner HTML starts and ends.
pub fn extract_div_by_id(html: &[char], id: &str, from: usize) -> (r: Option<(usize, usize, usize)>)
    ensures
        same_element(r, div_by_id(html@, id@, from as int), html@.len() as int),
{
    let marker = id_attribute_of(id);
    let n: usize = html.len();
    proof {
        reveal_strlit("\"");
    }
    let mlen: usize = chars_of(marker.as_str()).len();
    if from > n {
        proof {
            lemma_find_from(html@, marker@, from as int);
        }
        return None;
    }
    let mut at: usize = from;
    loop
        invariant
            n == html@.len(),
            at <= n,
            marker@ == id_attribute(id@),
            mlen == marker@.len(),
            mlen > 0,
            tag_with_attribute(html@, marker@, from as int) == tag_with_attribute(
                html@,
                marker@,
                at as int,
            ),
        decreases n - at,
    {
        let p = match find_str(html, marker.as_str(), at) {
            Some(p) => p,
            None => {
                return None;
            },
        };
        let tag = match find_enclosing_tag(html, p) {
            Some(t) => t,
            None => {
                return None;
            },
        };
        if p < tag.1 {
            return find_element(html, tag);
        }
        at = p + mlen;
    }
}

/// Locate the div around the first occurrence of ` id="{id}"`.
pub fn extract_first_div_by_id(html: &[char], id: &str) -> (r: Option<(usize, usize, usize)>)
    ensures
        same_element(r, first_div_by_id(html@, id@), html@.len() as int),
{
    let marker = id_attribute_of(id);
    match find_str(html, marker.as_str(), 0) {
        Some(p) => match find_enclosing_tag(html, p) {
            Some(tag) => find_element(html, tag),
            None => None,
        },
        None => None,
    }
}

/// The start of a rendered paragraph that begins with the marker.
pub open spec fn paragraph_start(marker: Seq<char>) -> Seq<char> {
    "<div class=\"paragraph\"><p>"@ + marker
}

/// A requirement paragraph's body inside its container.
pub open spec fn contained_paragraph(open: Seq<char>, body: Seq<char>) -> Seq<char> {
    if body.len() == 0 {
        open + "</div>\n</div>"@
    } else {
        open + "<p>"@ + body + "</p>\n"@ + "</div>\n</div>"@
    }
}

/// `html` with the first paragraph that begins with the marker replaced by its
/// container; the one space after the marker is dropped.
pub open spec fn with_contained_paragraph(html: Seq<char>, marker: Seq<char>, open: Seq<char>) -> Seq<char> {
    match find_from(html, paragraph_start(marker), 0) {
        None => html,
        Some(start) => {
            let body = start + paragraph_start(marker).len();
            match find_from(html, "</p></div>"@, body) {
                None => html,
                Some(end) => {
                    let from = if body < end && html[body] == ' ' {
                        body + 1
                    } else {
                        body
                    };
                    html.take(start) + contained_paragraph(open, html.subrange(from, end))
                        + html.skip(end + "</p></div>"@.len())
                },
            }
        },
    }
}

/// Replace the paragraph that a leading marker opens by its container.
pub fn replace_req_paragraph(html: &str, marker_text: &str, open_html: &str) -> (r: String)
    ensures
        r@ == with_contained_paragraph(html@, marker_text@, open_html@),
{
    let v = chars_of(html);
    let n: usize = v.len();
    let search = concat2("<div class=\"paragraph\"><p>", marker_text);
    let slen: usize = chars_of(search.as_str()).len();
    let start = match find_str(&v, search.as_str(), 0) {
        Some(i) => i,
        None => {
            return copy_str(html);
        },
    };
    let body: usize = start + slen;
    let end = match find_str(&v, "</p></div>", body) {
        Some(i) => i,
        None => {
            return copy_str(html);
        },
    };
    let from: usize = if body < end && v[body] == ' ' {
        body + 1
    } else {
        body
    };
    let close_len: usize = chars_of("</p></div>").len();
    let mut out = sub_string(&v, 0, start);
    let ghost head = out@;
    out.append(open_html);
    if from < end {
        let inner = sub_string(&v, from, end);
        out.append("<p>");
        out.append(inner.as_str());
        out.append("</p>\n");
    }
    out.append("</div>\n</div>");
    let ghost contained = contained_paragraph(open_html@, v@.subrange(from as int, end as int));
    assert(out@ =~= head + contained);
    let tail = sub_string(&v, end + close_len, n);
    out.append(tail.as_str());
    proof {
        assert(head =~= html@.take(start as int));
        assert(tail@ =~= html@.skip(end + close_len));
    }
    out
}

/// `html` with an element replaced by its container around its content.
pub open spec fn with_contained_element(html: Seq<char>, e: (int, int, int), open: Seq<char>) -> Seq<char> {
    html.take(e.0) + open + html.subrange(e.1, e.2) + "</div>\n</div>"@ + html.skip(e.2 + 6)
}

fn contain_element(v: &[char], e: (usize, usize, usize), open_html: &str) -> (r: String)
    requires
        e.0 <= e.1 <= e.2,
        e.2 + 6 <= v@.len(),
    ensures
        r@ == with_contained_element(v@, (e.0 as int, e.1 as int, e.2 as int), open_html@),
{
    let n: usize = v.len();
    let mut out = sub_string(v, 0, e.0);
    out.append(open_html);
    let inner = sub_string(v, e.1, e.2);
    out.append(inner.as_str());
    out.append("</div>\n</div>");
    let tail = sub_string(v, e.2 + 6, n);
    out.append(tail.as_str());
    proof {
        assert(v@.subrange(0, e.0 as int) =~= v@.take(e.0 as int));
        assert(tail@ =~= v@.skip(e.2 + 6));
    }
    out
}

/// A page being post-processed: its HTML, the position that the search for
/// role-marked blocks has reached, and the HTML of the requirements so far.
#[verifier::ext_equal]
pub struct Splice {
    pub html: Seq<char>,
    pub cursor: int,
    pub bodies: Seq<Seq<char>>,
}

/// The page after one more requirement has been given its container. A block
/// marked by an attribute list is located by its id, and missing it is an
/// error, which names the id; a marker in the text is located by its paragraph.
pub open spec fn splice_one(s: Splice, source: Seq<char>, req: ReqModel, open: Seq<char>) -> Result<
    Splice,
    Seq<char>,
> {
    let marker = match marker_at(source, req.marker_span) {
        Some(m) => m,
        None => Seq::empty(),
    };
    if has_prefix(marker, "["@) {
        match div_by_id(s.html, rule_text(req.id), s.cursor) {
            None => Err(rule_text(req.id)),
            Some(e) => {
                let inner = s.html.subrange(e.1, e.2);
                Ok(
                    Splice {
                        html: with_contained_element(s.html, e, open),
                        cursor: e.0 + (open + inner + "</div>\n</div>"@).len(),
                        bodies: s.bodies.push(inner),
                    },
                )
            },
        }
    } else if marker.len() > 0 {
        Ok(
            Splice {
                html: with_contained_paragraph(s.html, marker, open),
                cursor: s.cursor,
                bodies: s.bodies.push(req.html),
            },
        )
    } else {
        Ok(Splice { bodies: s.bodies.push(req.html), ..s })
    }
}

/// The page after all requirements have been given their containers.
pub open spec fn splice_all(
    html: Seq<char>,
    source: Seq<char>,
    reqs: Seq<ReqModel>,
    opens: Seq<Seq<char>>,
) -> Result<Splice, Seq<char>>
    decreases reqs.len(),
{
    if reqs.len() == 0 {
        Ok(Splice { html, cursor: 0, bodies: Seq::empty() })
    } else {
        match splice_all(html, source, reqs.drop_last(), opens) {
            Err(id) => Err(id),
            Ok(s) => splice_one(s, source, reqs.last(), opens[reqs.len() - 1]),
        }
    }
}

/// The page after all role-marked blocks have been given their containers; a
/// block that is not found is left alone.
pub open spec fn splice_roles(html: Seq<char>, reqs: Seq<ReqModel>, opens: Seq<Seq<char>>) -> Splice
    decreases reqs.len(),
{
    if reqs.len() == 0 {
        Splice { html, cursor: 0, bodies: Seq::empty() }
    } else {
        let s = splice_roles(html, reqs.drop_last(), opens);
        match first_div_by_id(s.html, rule_text(reqs.last().id)) {
            None => Splice { bodies: s.bodies.push(reqs.last().html), ..s },
            Some(e) => Splice {
                html: with_contained_element(s.html, e, opens[reqs.len() - 1]),
                cursor: s.cursor,
                bodies: s.bodies.push(s.html.subrange(e.1, e.2)),
            },
        }
    }
}

/// A link to the element with the given id.
pub open spec fn href_attribute(id: Seq<char>) -> Seq<char> {
    " href=\"#"@ + id + "\""@
}

/// The pairs of ids held by a section map.
pub open spec fn id_pairs(v: Seq<(String, String)>) -> Seq<(Seq<char>, Seq<char>)> {
    v.map_values(|p: (String, String)| (p.0@, p.1@))
}

/// `html` with the ids of sections, and the links to them, renamed in order.
pub open spec fn with_section_ids(html: Seq<char>, map: Seq<(Seq<char>, Seq<char>)>) -> Seq<char>
    decreases map.len(),
{
    if map.len() == 0 {
        html
    } else {
        let h = with_section_ids(html, map.drop_last());
        let (a, b) = map.last();
        replaced_from(
            replaced_from(h, id_attribute(a), id_attribute(b), 0),
            href_attribute(a),
            href_attribute(b),
            0,
        )
    }
}

/// Rename section ids, and the links to them.
pub fn rename_section_ids(html: String, map: &Vec<(String, String)>) -> (r: String)
    ensures
        r@ == with_section_ids(html@, id_pairs(map@)),
{
    let ghost start = html@;
    let ghost pairs = id_pairs(map@);
    let mut out = html;
    let mut i: usize = 0;
    assert(pairs.take(0) =~= Seq::<(Seq<char>, Seq<char>)>::empty());
    while i < map.len()
        invariant
            i <= map@.len(),
            pairs == id_pairs(map@),
            out@ == with_section_ids(start, pairs.take(i as int)),
        decreases map@.len() - i,
    {
        proof {
            reveal_strlit("\"");
            assert(pairs.take(i + 1).drop_last() =~= pairs.take(i as int));
            assert(pairs.take(i + 1).last() == (map@[i as int].0@, map@[i as int].1@));
        }
        let from_id = id_attribute_of(map[i].0.as_str());
        let to_id = id_attribute_of(map[i].1.as_str());
        out = replace_all(out.as_str(), from_id.as_str(), to_id.as_str());
        let from_href = concat3(" href=\"#", map[i].0.as_str(), "\"");
        let to_href = concat3(" href=\"#", map[i].1.as_str(), "\"");
        out = replace_all(out.as_str(), from_href.as_str(), to_href.as_str());
        i = i + 1;
    }
    assert(pairs.take(i as int) =~= pairs);
    out
}

/// The requirements with their HTML replaced.
pub open spec fn with_bodies(reqs: Seq<ReqModel>, bodies: Seq<Seq<char>>) -> Seq<ReqModel> {
    Seq::new(reqs.len(), |i: int| ReqModel { html: bodies[i], ..reqs[i] })
}

/// Wrap every requirement in the rendered page in its container, fill in the
/// HTML of role-marked requirements from the page, and rename section ids.
/// `opens` holds the opening HTML of each requirement's container. The error is
/// the id of a role-marked block that the page does not hold.
pub fn post_process_html(
    content_html: &str,
    source: &str,
    reqs: &mut Vec<ReqDefinition>,
    section_id_map: &Vec<(String, String)>,
    opens: &Vec<String>,
) -> (r: Result<String, String>)
    requires
        opens@.len() == old(reqs)@.len(),
    ensures
        match (
            r,
            splice_all(content_html@, source@, req_models(old(reqs)@), crate::text::texts(opens@)),
        ) {
            (Ok(html), Ok(s)) => {
                &&& html@ == with_section_ids(s.html, id_pairs(section_id_map@))
                &&& req_models(final(reqs)@) == with_bodies(req_models(old(reqs)@), s.bodies)
            },
            (Err(e), Err(id)) => e@ == id,
            _ => false,
        },
{
    let src = chars_of(source);
    let ghost models = req_models(reqs@);
    let ghost tops = crate::text::texts(opens@);
    let mut html = copy_str(content_html);
    let mut cursor: usize = 0;
    let mut i: usize = 0;
    let ghost mut s = Splice { html: content_html@, cursor: 0, bodies: Seq::empty() };
    assert(models.take(0) =~= Seq::<ReqModel>::empty());
    while i < reqs.len()
        invariant
            src@ == source@,
            crate::text::byte_len(src@) <= isize::MAX,
            i <= reqs@.len(),
            reqs@.len() == models.len(),
            opens@.len() == reqs@.len(),
            models == req_models(old(reqs)@),
            tops == crate::text::texts(opens@),
            splice_all(content_html@, source@, models.take(i as int), tops) == Ok::<Splice, Seq<char>>(s),
            s.html == html@,
            s.cursor == cursor,
            s.bodies.len() == i,
            forall|k: int| 0 <= k < i ==> (#[trigger] reqs@[k])@ == (ReqModel { html: s.bodies[k], ..models[k] }),
            forall|k: int| i <= k < models.len() ==> (#[trigger] reqs@[k])@ == models[k],
        decreases models.len() - i,
    {
        let ghost req = models[i as int];
        assert(reqs@[i as int]@ == req);
        proof {
            assert(models.take(i + 1).drop_last() =~= models.take(i as int));
            assert(tops[i as int] == opens@[i as int]@);
        }
        let span = reqs[i].marker_span;
        let marker = match span.offset.checked_add(span.length) {
            Some(end) => match byte_slice_of(&src, span.offset, end) {
                Some(t) => t,
                None => copy_str(""),
            },
            None => copy_str(""),
        };
        proof {
            reveal_strlit("");
        }
        let ghost m = match marker_at(source@, req.marker_span) {
            Some(m) => m,
            None => Seq::empty(),
        };
        assert(marker@ =~= m);
        let mc = chars_of(marker.as_str());
        let ghost before = reqs@;
        if starts_with_str(&mc, "[") {
            let id = reqs[i].id.text();
            let v = chars_of(html.as_str());
            match extract_div_by_id(&v, id.as_str(), cursor) {
                None => {
                    proof {
                        lemma_splice_err(content_html@, source@, models, tops, i + 1);
                    }
                    return Err(id);
                },
                Some(e) => {
                    let inner = sub_string(&v, e.1, e.2);
                    let ghost ge = (e.0 as int, e.1 as int, e.2 as int);
                    html = contain_element(&v, e, opens[i].as_str());
                    let replacement = concat3(opens[i].as_str(), inner.as_str(), "</div>\n</div>");
                    let rlen: usize = chars_of(replacement.as_str()).len();
                    let hlen: usize = chars_of(html.as_str()).len();
                    assert(html@ =~= v@.take(ge.0) + replacement@ + v@.skip(ge.2 + 6));
                    cursor = e.0 + rlen;
                    let mut one = reqs[i].copy();
                    one.html = inner;
                    reqs.set(i, one);
                    proof {
                        s = Splice { html: html@, cursor: cursor as int, bodies: s.bodies.push(inner@) };
                    }
                },
            }
        } else if mc.len() > 0 {
            html = replace_req_paragraph(html.as_str(), marker.as_str(), opens[i].as_str());
            proof {
                s = Splice { html: html@, cursor: cursor as int, bodies: s.bodies.push(req.html) };
            }
        } else {
            proof {
                s = Splice { bodies: s.bodies.push(req.html), ..s };
            }
        }
        i = i + 1;
    }
    proof {
        assert(models.take(i as int) =~= models);
        assert(req_models(reqs@) =~= with_bodies(models, s.bodies));
    }
    Ok(rename_section_ids(html, section_id_map))
}

/// An error on the way is the error of the whole.
proof fn lemma_splice_err(
    html: Seq<char>,
    source: Seq<char>,
    reqs: Seq<ReqModel>,
    opens: Seq<Seq<char>>,
    i: int,
)
    requires
        0 <= i <= reqs.len(),
        splice_all(html, source, reqs.take(i), opens) is Err,
    ensures
        splice_all(html, source, reqs, opens) == splice_all(html, source, reqs.take(i), opens),
    decreases reqs.len() - i,
{
    if i < reqs.len() {
        assert(reqs.take(i + 1).drop_last() =~= reqs.take(i));
        lemma_splice_err(html, source, reqs, opens, i + 1);
    } else {
        assert(reqs.take(i) =~= reqs);
    }
}

/// Wrap every role-marked requirement that the page holds in its container,
/// fill in its HTML from the page, and rename section ids.
pub fn post_process_roles_html(
    content_html: &str,
    reqs: &mut Vec<ReqDefinition>,
    section_id_map: &Vec<(String, String)>,
    opens: &Vec<String>,
) -> (r: String)
    requires
        opens@.len() == old(reqs)@.len(),
    ensures
        ({
            let s = splice_roles(content_html@, req_models(old(reqs)@), crate::text::texts(opens@));
            &&& r@ == with_section_ids(s.html, id_pairs(section_id_map@))
            &&& req_models(final(reqs)@) == with_bodies(req_models(old(reqs)@), s.bodies)
        }),
{
    let ghost models = req_models(reqs@);
    let ghost tops = crate::text::texts(opens@);
    let mut html = copy_str(content_html);
    let mut i: usize = 0;
    assert(models.take(0) =~= Seq::<ReqModel>::empty());
    while i < reqs.len()
        invariant
            i <= reqs@.len(),
            reqs@.len() == models.len(),
            opens@.len() == reqs@.len(),
            models == req_models(old(reqs)@),
            tops == crate::text::texts(opens@),
            ({
                let s = splice_roles(content_html@, models.take(i as int), tops);
                &&& s.html == html@
                &&& s.bodies.len() == i
                &&& forall|k: int|
                    0 <= k < i ==> (#[trigger] reqs@[k])@ == (ReqModel { html: s.bodies[k], ..models[k] })
            }),
            forall|k: int| i <= k < models.len() ==> (#[trigger] reqs@[k])@ == models[k],
        decreases models.len() - i,
    {
        assert(reqs@[i as int]@ == models[i as int]);
        proof {
            assert(models.take(i + 1).drop_last() =~= models.take(i as int));
            assert(tops[i as int] == opens@[i as int]@);
        }
        let id = reqs[i].id.text();
        let v = chars_of(html.as_str());
        match extract_first_div_by_id(&v, id.as_str()) {
            None => {},
            Some(e) => {
                let inner = sub_string(&v, e.1, e.2);
                html = contain_element(&v, e, opens[i].as_str());
                let mut one = reqs[i].copy();
                one.html = inner;
                reqs.set(i, one);
            },
        }
        i = i + 1;
    }
    proof {
        assert(models.take(i as int) =~= models);
        let s = splice_roles(content_html@, models, tops);
        assert(req_models(reqs@) =~= with_bodies(models, s.bodies));
    }
    rename_section_ids(html, section_id_map)
}

/// The opening HTML of a requirement's container where no coverage is known.
pub open spec fn plain_open(anchor: Seq<char>, span: SourceSpan) -> Seq<char> {
    "<div class=\"req-container req-uncovered\" id=\""@ + escaped(anchor) + "\" data-br=\""@ + decimal(
        span.offset as nat,
    ) + "-"@ + decimal((span.offset + span.length) as nat) + "\"><div class=\"req-content\">"@
}

/// The opening HTML of a requirement's container where no coverage is known.
pub fn plain_container_open(anchor: &str, span: SourceSpan) -> (r: String)
    requires
        span.offset + span.length <= usize::MAX,
    ensures
        r@ == plain_open(anchor@, span),
{
    let mut out = copy_str("<div class=\"req-container req-uncovered\" id=\"");
    let e = html_escape(anchor);
    out.append(e.as_str());
    out.append("\" data-br=\"");
    let a = decimal_of_usize(span.offset);
    out.append(a.as_str());
    out.append("-");
    let b = decimal_of_usize(span.offset + span.length);
    out.append(b.as_str());
    out.append("\"><div class=\"req-content\">");
    out
}

} // verus!
