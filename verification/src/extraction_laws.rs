//! What is extracted from an AsciiDoc document, in terms of its text and nodes.

use vstd::prelude::*;

use crate::adoc_marker::{
    attributes_metadata, is_prefix_char, leading_marker, line_at, marker_inner, newlines_before,
    prefix_end, tags_of, with_attribute,
};
use crate::adoc_tree::{
    named_text, AdocAttrList, AdocBlock, AdocContent, AdocDocument, AdocInline, AdocSection,
    AdocValue, InlineKind,
};
use crate::adoc_walk::{
    block_req_id, block_spans, blocks_spans, content_bounds, first_attr, doc_sections, inline_spans, leading_blocks, node_spans,
    nothing_walked, paragraph_marker, source_text, trim_blank_start, walked, walked_block,
    walked_blocks, walked_paragraph, walked_section, walked_sections, weight_text, with_heading,
    AttrKey, WalkModel,
};
use crate::build_laws::lemma_flat;
use crate::document::{ElementModel, HeadingModel};
use crate::requirement::{level_named, no_metadata, status_named, MetadataModel, SourceSpan};
use crate::rule_id::{parsed_rule_id, rule_text};
use crate::slugs::SlugState;
use crate::text::{
    byte_len, byte_slice, find_char, is_space, lemma_byte_len_add, lemma_char_position,
    lemma_find_char, opt_text, trim, trim_end,
};

verus! {

/// Trimming blanks at the start leaves a tail that starts with none.
proof fn lemma_trim_blank_start(s: Seq<char>) -> (k: int)
    ensures
        0 <= k <= s.len(),
        trim_blank_start(s) == s.skip(k),
        forall|j: int|
            0 <= j < k ==> (#[trigger] s[j]) == ' ' || s[j] == '\t' || s[j] == '\n' || s[j] == '\r',
        k < s.len() ==> s[k] != ' ' && s[k] != '\t' && s[k] != '\n' && s[k] != '\r',
    decreases s.len(),
{
    if s.len() > 0 && (s[0] == ' ' || s[0] == '\t' || s[0] == '\n' || s[0] == '\r') {
        let k = lemma_trim_blank_start(s.drop_first());
        assert(s.drop_first().skip(k) =~= s.skip(k + 1));
        assert forall|j: int| 0 <= j < k + 1 implies (#[trigger] s[j]) == ' ' || s[j] == '\t'
            || s[j] == '\n' || s[j] == '\r' by {
            if j > 0 {
                assert(s[j] == s.drop_first()[j - 1]);
            }
        }
        k + 1
    } else {
        assert(s.skip(0) =~= s);
        0
    }
}

/// Trimming at the end leaves a head that ends with no whitespace.
proof fn lemma_trim_end(s: Seq<char>) -> (k: int)
    ensures
        0 <= k <= s.len(),
        trim_end(s) == s.take(k),
        forall|j: int| k <= j < s.len() ==> is_space(#[trigger] s[j]),
        k > 0 ==> !is_space(s[k - 1]),
    decreases s.len(),
{
    if s.len() > 0 && is_space(s.last()) {
        let k = lemma_trim_end(s.drop_last());
        assert(s.drop_last().take(k) =~= s.take(k));
        assert forall|j: int| k <= j < s.len() implies is_space(#[trigger] s[j]) by {
            if j < s.len() - 1 {
                assert(s[j] == s.drop_last()[j]);
            }
        }
        k
    } else {
        assert(s.take(s.len() as int) =~= s);
        s.len() as int
    }
}

/// A text is cut at the byte offset of a character.
proof fn lemma_cut_at(t: Seq<char>, k: int)
    requires
        0 <= k <= t.len(),
    ensures
        byte_slice(t, byte_len(t.take(k)) as int, byte_len(t) as int) == Some(t.skip(k)),
{
    lemma_char_position(t, k);
    lemma_char_position(t, t.len() as int);
    assert(t.take(t.len() as int) =~= t);
    crate::text::lemma_byte_len_take_mono(t, k, t.len() as int);
    assert(t.subrange(k, t.len() as int) =~= t.skip(k));
}

/// A paragraph whose first node begins with a marker defines a requirement that
/// covers the whole paragraph: it starts with the first node and ends with the
/// last, and its text is all that stands behind the marker, up to the end of the
/// last node, without the blanks around it.
pub proof fn law_marked_paragraph_is_covered(
    source: Seq<char>,
    inlines: Seq<AdocInline>,
    w: WalkModel,
    text: Seq<char>,
)
    requires
        inlines.len() > 0,
        inlines[0].start <= inlines.last().end <= byte_len(source),
        byte_slice(source, inlines[0].start as int, inlines.last().end as int) == Some(text),
        inlines[0].text@.len() <= text.len(),
        text.take(inlines[0].text@.len() as int) == inlines[0].text@,
        byte_len(text) <= usize::MAX,
        walked_paragraph(source, inlines, true, w) matches Ok(x) && x.reqs.len() > w.reqs.len(),
    ensures
        ({
            let x = walked_paragraph(source, inlines, true, w)->Ok_0;
            let req = x.reqs.last();
            &&& x.reqs.len() == w.reqs.len() + 1
            &&& x.reqs.drop_last() == w.reqs
            &&& x.elements.last() == ElementModel::Req(req)
            &&& x.elements.drop_last() == w.elements
            &&& x.headings == w.headings
            &&& req.span.offset == inlines[0].start
            &&& req.span.offset + req.span.length == inlines.last().end
            &&& req.marker_span.offset == inlines[0].start
            &&& req.line == line_at(source, inlines[0].start as int) as usize
            &&& exists|k: int, a: int, b: int|
                0 < k <= a <= b <= text.len() && text[k - 1] == ']' && byte_len(text.take(k))
                    == req.marker_span.length && req.raw == #[trigger] text.subrange(a, b) && (
                forall|i: int|
                    k <= i < a ==> (#[trigger] text[i]) == ' ' || text[i] == '\t' || text[i] == '\n'
                        || text[i] == '\r') && (forall|i: int|
                    b <= i < text.len() ==> is_space(#[trigger] text[i])) && (a < b ==> text[a]
                    != ' ' && text[a] != '\n' && !is_space(text[b - 1])) && #[trigger] text.take(k)
                    == inlines[0].text@.take(k)
            &&& req.html == crate::adoc_marker::body_html(req.raw)
        }),
{
    let x = walked_paragraph(source, inlines, true, w)->Ok_0;
    let req = x.reqs.last();
    let t = inlines[0].text@;
    assert(paragraph_marker(inlines) is Some);
    let m = leading_marker(t)->0;
    lemma_find_char(t, ']', 0);
    let k = m.1 + 1;
    assert(t[m.1] == ']');
    assert(t.take(k) =~= t.take(m.1).push(']'));
    lemma_byte_len_add(t.take(m.1), seq![']']);
    assert(t.take(m.1) + seq![']'] =~= t.take(k));
    assert(byte_len(seq![']']) == 1) by {
        reveal_with_fuel(byte_len, 2);
        assert(seq![']'].drop_last() =~= Seq::<char>::empty());
    }
    assert(text.take(k) =~= t.take(k)) by {
        assert forall|i: int| 0 <= i < k implies text.take(k)[i] == t.take(k)[i] by {
            assert(text.take(t.len() as int)[i] == t[i]);
        }
    }
    crate::text::lemma_byte_len_take_mono(text, k, text.len() as int);
    assert(text.take(text.len() as int) =~= text);
    assert(source_text(source, inlines[0].start as int, inlines.last().end as int) == text);
    lemma_cut_at(text, k);
    let after = text.skip(k);
    let p = lemma_trim_blank_start(after);
    let q = lemma_trim_end(after.skip(p));
    let a = k + p;
    let b = k + p + q;
    assert(req.raw =~= text.subrange(a, b));
    assert forall|i: int| k <= i < a implies (#[trigger] text[i]) == ' ' || text[i] == '\t'
        || text[i] == '\n' || text[i] == '\r' by {
        assert(after[i - k] == text[i]);
    }
    assert forall|i: int| b <= i < text.len() implies is_space(#[trigger] text[i]) by {
        assert(after.skip(p)[i - a] == text[i]);
    }
    if a < b {
        assert(text[a] == after[p]);
        assert(text[b - 1] == after.skip(p)[q - 1]);
    }
    assert(text[k - 1] == ']') by {
        assert(text.take(k)[k - 1] == t.take(k)[k - 1]);
    }
    assert(x.reqs.drop_last() =~= w.reqs);
    assert(x.elements.drop_last() =~= w.elements);
    assert(text.take(k) == inlines[0].text@.take(k));
    assert(0 < k <= a <= b <= text.len());
    assert(req.raw == text.subrange(a, b) && text.take(k) == inlines[0].text@.take(k));
}

/// No node of a marked paragraph is left out of the requirement's span.
pub proof fn law_requirement_covers_every_node(
    source: Seq<char>,
    inlines: Seq<AdocInline>,
    w: WalkModel,
    i: int,
)
    requires
        0 <= i < inlines.len(),
        forall|j: int| 0 <= j < inlines.len() ==> (#[trigger] inlines[j]).end <= inlines.last().end,
        inlines[0].start <= inlines.last().end,
        walked_paragraph(source, inlines, true, w) matches Ok(x) && x.reqs.len() > w.reqs.len(),
    ensures
        ({
            let req = (walked_paragraph(source, inlines, true, w)->Ok_0).reqs.last();
            inlines[i].end <= req.span.offset + req.span.length
        }),
{
}

proof fn lemma_prefix_end(s: Seq<char>, i: int, n: int)
    requires
        0 <= i <= n < s.len(),
        forall|j: int| i <= j < n ==> is_prefix_char(#[trigger] s[j]),
        !is_prefix_char(s[n]),
    ensures
        prefix_end(s, i) == n,
    decreases n - i,
{
    if i < n {
        lemma_prefix_end(s, i + 1, n);
    }
}

/// A paragraph that begins with `prefix[inner]`, where the prefix is lowercase
/// letters and digits and the inner text can be read as an id with attributes,
/// defines the requirement with that id and metadata, unless one with the same
/// base came before: then that base is the error.
pub proof fn law_marker_defines_requirement(
    source: Seq<char>,
    inlines: Seq<AdocInline>,
    w: WalkModel,
    prefix: Seq<char>,
    inner: Seq<char>,
    rest: Seq<char>,
)
    requires
        inlines.len() > 0,
        inlines[0].kind == InlineKind::Text,
        inlines[0].text@ == prefix + "["@ + inner + "]"@ + rest,
        prefix.len() > 0,
        forall|j: int|
            0 <= j < prefix.len() ==> ('a' <= (#[trigger] prefix[j]) && prefix[j] <= 'z') || ('0'
                <= prefix[j] && prefix[j] <= '9'),
        inner.len() > 0,
        !inner.contains(']'),
        marker_inner(inner) is Some,
    ensures
        ({
            let (id, metadata) = marker_inner(inner)->0;
            let out = walked_paragraph(source, inlines, true, w);
            let seen = exists|i: int| 0 <= i < w.reqs.len() && (#[trigger] w.reqs[i]).id.0 == id.0;
            &&& (seen ==> out == Err::<WalkModel, Seq<char>>(id.0))
            &&& (!seen ==> out is Ok && (out->Ok_0).reqs.len() == w.reqs.len() + 1 && (
            out->Ok_0).reqs.last().id == id && (out->Ok_0).reqs.last().metadata == metadata && (
            out->Ok_0).reqs.last().anchor_id == crate::slugs::anchor_id(rule_text(id)))
        }),
{
    reveal_strlit("[");
    reveal_strlit("]");
    let t = inlines[0].text@;
    let n = prefix.len() as int;
    let c = n + 1 + inner.len() as int;
    assert(t[n] == '[');
    assert(t[c] == ']');
    assert forall|j: int| 0 <= j < n implies is_prefix_char(#[trigger] t[j]) by {
        assert(t[j] == prefix[j]);
    }
    lemma_prefix_end(t, 0, n);
    lemma_find_char(t, ']', 0);
    assert forall|j: int| 0 <= j < c implies t[j] != ']' by {
        if j < n {
            assert(t[j] == prefix[j]);
        } else if j > n {
            assert(t[j] == inner[j - n - 1]);
            assert(inner.contains(inner[j - n - 1]));
        }
    }
    assert(find_char(t, ']', 0) == Some(c));
    assert(t.subrange(n + 1, c) =~= inner);
    assert(paragraph_marker(inlines) is Some);
}

/// A paragraph where markers do not count, or that begins with something else
/// than text, is a plain paragraph: no requirement comes of it.
pub proof fn law_plain_paragraph(
    source: Seq<char>,
    inlines: Seq<AdocInline>,
    markers: bool,
    w: WalkModel,
)
    requires
        !markers || inlines.len() == 0 || inlines[0].kind != InlineKind::Text || leading_marker(
            inlines[0].text@,
        ) is None,
    ensures
        ({
            let out = walked_paragraph(source, inlines, markers, w);
            &&& out is Ok
            &&& (out->Ok_0).reqs == w.reqs
            &&& (out->Ok_0).headings == w.headings
            &&& (out->Ok_0).elements.len() == w.elements.len() + 1
            &&& (out->Ok_0).elements.last() is Paragraph
            &&& (out->Ok_0).elements.drop_last() == w.elements
        }),
{
    let out = walked_paragraph(source, inlines, markers, w)->Ok_0;
    assert(out.elements.drop_last() =~= w.elements);
}

/// What stands between the brackets of a marker is an id, then a blank and
/// attributes, or an id alone.
pub proof fn law_marker_text_is_read(id: Seq<char>, attributes: Seq<char>)
    requires
        id.len() > 0,
        forall|j: int| 0 <= j < id.len() ==> !is_space(#[trigger] id[j]),
        attributes.len() > 0,
        !is_space(attributes.last()),
    ensures
        match parsed_rule_id(id) {
            Some(x) => marker_inner(id) == Some((x, no_metadata())) && marker_inner(
                id + " "@ + attributes,
            ) is Some && (marker_inner(id + " "@ + attributes)->0).0 == x,
            None => marker_inner(id) is None && marker_inner(id + " "@ + attributes) is None,
        },
{
    reveal_strlit(" ");
    lemma_trim_of_solid(id);
    lemma_find_char(id, ' ', 0);
    assert(find_char(id, ' ', 0) is None) by {
        if let Some(i) = find_char(id, ' ', 0) {
            assert(is_space(id[i]));
        }
    }
    let s = id + " "@ + attributes;
    lemma_trim_of_solid(s);
    lemma_find_char(s, ' ', 0);
    assert(s[id.len() as int] == ' ');
    assert forall|j: int| 0 <= j < id.len() implies s[j] != ' ' by {
        assert(s[j] == id[j]);
        assert(!is_space(id[j]));
    }
    assert(s.subrange(0, id.len() as int) =~= id);
}

/// A text that begins and ends with no whitespace stays as it is.
proof fn lemma_trim_of_solid(s: Seq<char>)
    requires
        s.len() > 0,
        !is_space(s[0]),
        !is_space(s.last()),
    ensures
        trim(s) == s,
{
}

/// `key=value` sets what the key names and nothing else; the last word wins, and
/// other keys change nothing.
pub proof fn law_attribute_sets_its_key(m: MetadataModel, key: Seq<char>, value: Seq<char>)
    requires
        !key.contains('='),
    ensures
        ({
            let out = with_attribute(m, key + "="@ + value);
            &&& (key == "status"@ ==> out == (MetadataModel {
                status: crate::requirement::status_named(value),
                ..m
            }))
            &&& (key == "level"@ ==> out == (MetadataModel {
                level: crate::requirement::level_named(value),
                ..m
            }))
            &&& (key == "since"@ ==> out == (MetadataModel { since: Some(value), ..m }))
            &&& (key == "until"@ ==> out == (MetadataModel { until: Some(value), ..m }))
            &&& (key == "tags"@ ==> out == (MetadataModel { tags: tags_of(value), ..m }))
            &&& (key != "status"@ && key != "level"@ && key != "since"@ && key != "until"@ && key
                != "tags"@ ==> out == m)
        }),
{
    reveal_strlit("=");
    reveal_strlit("status");
    reveal_strlit("level");
    reveal_strlit("since");
    reveal_strlit("until");
    reveal_strlit("tags");
    let s = key + "="@ + value;
    let n = key.len() as int;
    lemma_find_char(s, '=', 0);
    assert(s[n] == '=');
    assert forall|j: int| 0 <= j < n implies s[j] != '=' by {
        assert(s[j] == key[j]);
        assert(key.contains(key[j]));
    }
    assert(s.subrange(0, n) =~= key);
    assert(s.subrange(n + 1, s.len() as int) =~= value);
    assert("status"@[1] == 't');
    assert("since"@[1] == 'i');
    assert("level"@[0] == 'l');
    assert("until"@[0] == 'u');
    assert("tags"@[0] == 't');
    assert("status"@[0] == 's');
}

/// Words set attributes one after the other.
pub proof fn law_attributes_in_order(words: Seq<Seq<char>>, word: Seq<char>)
    ensures
        attributes_metadata(Seq::<Seq<char>>::empty()) == no_metadata(),
        attributes_metadata(words.push(word)) == with_attribute(attributes_metadata(words), word),
{
    assert(words.push(word).drop_last() =~= words);
}

/// A block is a requirement exactly where it is an open block, one of its
/// attribute lists has the role `requirement`, and the first id among them can be
/// read.
pub proof fn law_block_is_requirement(b: AdocBlock)
    ensures
        block_req_id(b) is Some ==> b.context@ == "Open"@ && b.attrs@.len() > 0 && (exists|
            i: int,
            j: int,
        |
            0 <= i < b.attrs@.len() && 0 <= j < b.attrs@[i].roles@.len() && (
            #[trigger] b.attrs@[i].roles@[j])@ == "requirement"@) && (exists|i: int|
            0 <= i < b.attrs@.len() && (#[trigger] b.attrs@[i]).id is Some && parsed_rule_id(
                (b.attrs@[i].id->0)@,
            ) == block_req_id(b) && forall|k: int|
                0 <= k < i ==> (#[trigger] b.attrs@[k]).id is None),
        b.context@ == "Open"@ && (exists|i: int, j: int|
            0 <= i < b.attrs@.len() && 0 <= j < b.attrs@[i].roles@.len() && (
            #[trigger] b.attrs@[i].roles@[j])@ == "requirement"@) && (exists|i: int|
            0 <= i < b.attrs@.len() && (#[trigger] b.attrs@[i]).id is Some && parsed_rule_id(
                (b.attrs@[i].id->0)@,
            ) is Some && forall|k: int| 0 <= k < i ==> (#[trigger] b.attrs@[k]).id is None)
            ==> block_req_id(b) is Some,
{
    lemma_first_id(b.attrs@);
}

proof fn lemma_first_id(attrs: Seq<crate::adoc_tree::AdocAttrList>)
    ensures
        match crate::adoc_walk::first_attr(attrs, crate::adoc_walk::AttrKey::Id) {
            Some(s) => exists|i: int|
                0 <= i < attrs.len() && (#[trigger] attrs[i]).id is Some && (attrs[i].id->0)@ == s
                    && forall|k: int| 0 <= k < i ==> (#[trigger] attrs[k]).id is None,
            None => forall|i: int| 0 <= i < attrs.len() ==> (#[trigger] attrs[i]).id is None,
        },
    decreases attrs.len(),
{
    if attrs.len() > 0 && attrs[0].id is None {
        let rest = attrs.drop_first();
        lemma_first_id(rest);
        match crate::adoc_walk::first_attr(rest, crate::adoc_walk::AttrKey::Id) {
            Some(s) => {
                let i = choose|i: int|
                    0 <= i < rest.len() && (#[trigger] rest[i]).id is Some && (rest[i].id->0)@ == s
                        && forall|k: int| 0 <= k < i ==> (#[trigger] rest[k]).id is None;
                assert(attrs[i + 1] == rest[i]);
                assert forall|k: int| 0 <= k < i + 1 implies (#[trigger] attrs[k]).id is None by {
                    if k > 0 {
                        assert(attrs[k] == rest[k - 1]);
                    }
                }
            },
            None => {
                assert forall|i: int| 0 <= i < attrs.len() implies (
                #[trigger] attrs[i]).id is None by {
                    if i > 0 {
                        assert(attrs[i] == rest[i - 1]);
                    }
                }
            },
        }
    }
}

/// A requirement block covers all that stands in it, from its first block or node
/// to the end of its last, its marker is the run of its attribute lists, and its
/// text is its source, trimmed. A second one with the same base is an error.
pub proof fn law_requirement_block_is_covered(
    source: Seq<char>,
    b: AdocBlock,
    markers: bool,
    w: WalkModel,
    start: usize,
    end: usize,
    text: Seq<char>,
)
    requires
        block_req_id(b) is Some,
        (b.content matches AdocContent::Compound(bs) && bs@.len() > 0 && start == bs@[0].start
            && b.last_end == Some(end)) || (b.content matches AdocContent::Simple(i) && i@.len() > 0
            && start == i@[0].start && end == i@.last().end),
        start <= end <= byte_len(source),
        byte_slice(source, start as int, end as int) == Some(text),
    ensures
        ({
            let id = block_req_id(b)->0;
            let out = walked_block(source, b, markers, w);
            let seen = exists|i: int| 0 <= i < w.reqs.len() && (#[trigger] w.reqs[i]).id.0 == id.0;
            &&& (seen ==> out == Err::<WalkModel, Seq<char>>(id.0))
            &&& (!seen ==> out is Ok && (out->Ok_0).reqs.len() == w.reqs.len() + 1 && {
                let req = (out->Ok_0).reqs.last();
                &&& (out->Ok_0).elements.last() == ElementModel::Req(req)
                &&& req.id == id
                &&& req.span.offset == start
                &&& req.span.offset + req.span.length == end
                &&& req.raw == trim(text)
                &&& req.line == line_at(source, start as int) as usize
                &&& req.marker_span.offset == b.attrs@[0].start
                &&& (b.attrs@[0].start <= b.attrs@.last().end ==> req.marker_span.offset
                    + req.marker_span.length == b.attrs@.last().end)
            })
        }),
{
    assert(content_bounds(b) == Some((start, end)));
    assert(source_text(source, start as int, end as int) == text);
}

/// A section's heading comes before what stands in it, with its title, level and
/// line, and its id leads from the one in the page to the one handed out.
pub proof fn law_section_is_walked(
    source: Seq<char>,
    s: AdocSection,
    markers: bool,
    w: WalkModel,
)
    ensures
        ({
            let h = with_heading(source, s, w);
            let slug = crate::slugs::allocated_slug(
                w.slugs,
                crate::bindings::slug_of(s.title@),
            );
            let heading = HeadingModel {
                title: s.title@,
                id: slug,
                level: s.level,
                line: line_at(source, s.start as int) as usize,
            };
            &&& walked_section(source, s, markers, w) == walked_blocks(
                source,
                s.blocks@,
                s.blocks@.len() as int,
                markers,
                h,
            )
            &&& h.headings == w.headings.push(heading)
            &&& h.elements == w.elements.push(ElementModel::Heading(heading))
            &&& h.reqs == w.reqs
            &&& (s.id matches Some(id) ==> h.section_ids == w.section_ids.push((id@, slug)))
            &&& (s.id is None ==> h.section_ids == w.section_ids)
        }),
{
}

proof fn lemma_blocks_prefix(
    source: Seq<char>,
    a: Seq<AdocBlock>,
    b: Seq<AdocBlock>,
    k: int,
    markers: bool,
    w: WalkModel,
)
    requires
        0 <= k <= a.len(),
        k <= b.len(),
        forall|i: int| 0 <= i < k ==> a[i] == b[i],
    ensures
        walked_blocks(source, a, k, markers, w) == walked_blocks(source, b, k, markers, w),
    decreases k,
{
    if k > 0 {
        lemma_blocks_prefix(source, a, b, k - 1, markers, w);
    }
}

/// No block is passed over: one more block is walked behind those before it.
pub proof fn law_every_block_is_walked(
    source: Seq<char>,
    blocks: Seq<AdocBlock>,
    b: AdocBlock,
    markers: bool,
    w: WalkModel,
)
    ensures
        walked_blocks(source, Seq::<AdocBlock>::empty(), 0, markers, w) == Ok::<
            WalkModel,
            Seq<char>,
        >(w),
        walked_blocks(source, blocks.push(b), blocks.len() as int + 1, markers, w) == match walked_blocks(
            source,
            blocks,
            blocks.len() as int,
            markers,
            w,
        ) {
            Ok(x) => walked_block(source, b, markers, x),
            Err(e) => Err(e),
        },
{
    lemma_blocks_prefix(source, blocks, blocks.push(b), blocks.len() as int, markers, w);
}

/// A paragraph is read as one, a section and a block of blocks are walked into,
/// and text in another block counts only for its code.
pub proof fn law_block_is_walked_by_kind(
    source: Seq<char>,
    b: AdocBlock,
    markers: bool,
    w: WalkModel,
)
    requires
        block_req_id(b) is None,
    ensures
        b.content matches AdocContent::Simple(i) ==> (b.context@ == "Paragraph"@ ==> walked_block(
            source,
            b,
            markers,
            w,
        ) == walked_paragraph(source, i@, markers, w)),
        b.content matches AdocContent::Simple(i) ==> (b.context@ != "Paragraph"@ ==> (walked_block(
            source,
            b,
            markers,
            w,
        ) matches Ok(x) && x.reqs == w.reqs && x.elements == w.elements && x.spans == w.spans
            + inline_spans(i@, i@.len() as int))),
        b.content matches AdocContent::Section(s) ==> walked_block(source, b, markers, w)
            == walked_section(source, s, markers, w),
        b.content matches AdocContent::Compound(bs) ==> walked_block(source, b, markers, w)
            == walked_blocks(source, bs@, bs@.len() as int, markers, w),
        b.content matches AdocContent::Attribute(k, AdocValue::Text(t)) ==> (k@ == "weight"@
            ==> (walked_block(source, b, markers, w) matches Ok(x) && x.weight == weight_text(t@)
            && x.reqs == w.reqs && x.elements == w.elements)),
        b.content matches AdocContent::Quoted ==> walked_block(source, b, markers, w) == Ok::<
            WalkModel,
            Seq<char>,
        >(w),
{
}

/// A document is walked from nothing: the blocks before its first section, then
/// its sections, each behind those before it.
pub proof fn law_document_is_walked(
    doc: AdocDocument,
    source: Seq<char>,
    markers: bool,
    slugs: SlugState,
    sections: Seq<AdocSection>,
    s: AdocSection,
    w: WalkModel,
)
    ensures
        ({
            let weight = match crate::adoc_tree::attribute_text(doc.attributes@, "weight"@) {
                Some(t) => weight_text(t),
                None => 0,
            };
            let bs = leading_blocks(doc);
            let ss = doc_sections(doc);
            walked(doc, source, markers, slugs) == match walked_blocks(
                source,
                bs,
                bs.len() as int,
                markers,
                nothing_walked(weight, slugs),
            ) {
                Ok(x) => walked_sections(source, ss, ss.len() as int, markers, x),
                Err(e) => Err(e),
            }
        }),
        nothing_walked(0, slugs).reqs.len() == 0,
        nothing_walked(0, slugs).elements.len() == 0,
        walked_sections(source, sections.push(s), sections.len() as int + 1, markers, w)
            == match walked_sections(source, sections, sections.len() as int, markers, w) {
            Ok(x) => walked_section(source, s, markers, x),
            Err(e) => Err(e),
        },
{
    lemma_sections_prefix(source, sections, sections.push(s), sections.len() as int, markers, w);
}

proof fn lemma_sections_prefix(
    source: Seq<char>,
    a: Seq<AdocSection>,
    b: Seq<AdocSection>,
    k: int,
    markers: bool,
    w: WalkModel,
)
    requires
        0 <= k <= a.len(),
        k <= b.len(),
        forall|i: int| 0 <= i < k ==> a[i] == b[i],
    ensures
        walked_sections(source, a, k, markers, w) == walked_sections(source, b, k, markers, w),
    decreases k,
{
    if k > 0 {
        lemma_sections_prefix(source, a, b, k - 1, markers, w);
    }
}

proof fn lemma_spans_prefix(a: Seq<AdocInline>, b: Seq<AdocInline>, k: int)
    requires
        0 <= k <= a.len(),
        k <= b.len(),
        forall|i: int| 0 <= i < k ==> a[i] == b[i],
    ensures
        inline_spans(a, k) == inline_spans(b, k),
    decreases k,
{
    if k > 0 {
        lemma_spans_prefix(a, b, k - 1);
    }
}

/// Every monospace node is a code span with its text and place, followed by those
/// inside it; other spans hand on those inside them, and one more node adds its
/// own.
pub proof fn law_code_is_collected(v: Seq<AdocInline>, n: AdocInline)
    ensures
        inline_spans(v.push(n), v.len() as int + 1) == inline_spans(v, v.len() as int) + node_spans(
            n,
        ),
        n.kind == InlineKind::Mono || n.kind == InlineKind::LitMono ==> node_spans(n).len()
            == inline_spans(n.children@, n.children@.len() as int).len() + 1 && node_spans(n)[0].0
            == n.text@ && node_spans(n)[0].1.offset == n.start && (n.start <= n.end ==> node_spans(
            n,
        )[0].1.offset + node_spans(n)[0].1.length == n.end) && node_spans(n).skip(1)
            == inline_spans(n.children@, n.children@.len() as int),
        n.kind == InlineKind::Bold || n.kind == InlineKind::Italic || n.kind
            == InlineKind::Highlight ==> node_spans(n) == inline_spans(
            n.children@,
            n.children@.len() as int,
        ),
        n.kind == InlineKind::Text ==> node_spans(n).len() == 0,
{
    lemma_spans_prefix(v, v.push(n), v.len() as int);
    let inner = inline_spans(n.children@, n.children@.len() as int);
    if n.kind == InlineKind::Mono || n.kind == InlineKind::LitMono {
        assert(node_spans(n).skip(1) =~= inner);
    }
}

proof fn lemma_newlines(s: Seq<char>, k: int, p: spec_fn(char) -> bool)
    requires
        0 <= k <= s.len(),
        forall|c: char| #[trigger] p(c) == (c == '\n'),
    ensures
        newlines_before(s, byte_len(s.take(k)) as int) == s.take(k).filter(p).len(),
    decreases s.len(),
{
    reveal(Seq::filter);
    if s.len() > 0 {
        let t = s.drop_last();
        if k < s.len() {
            lemma_newlines(t, k, p);
            assert(t.take(k) =~= s.take(k));
            crate::text::lemma_byte_len_take_mono(s, k, s.len() - 1);
            assert(s.take(s.len() - 1) =~= t);
        } else {
            lemma_newlines_all(s, byte_len(s) as int, p);
            assert(s.take(k) =~= s);
        }
    }
}

proof fn lemma_newlines_all(s: Seq<char>, off: int, p: spec_fn(char) -> bool)
    requires
        off >= byte_len(s),
        forall|c: char| #[trigger] p(c) == (c == '\n'),
    ensures
        newlines_before(s, off) == s.filter(p).len(),
    decreases s.len(),
{
    reveal(Seq::filter);
    if s.len() > 0 {
        lemma_byte_len_add(s.drop_last(), seq![s.last()]);
        assert(s.drop_last() + seq![s.last()] =~= s);
        assert(p(s.last()) == (s.last() == '\n'));
        assert(byte_len(seq![s.last()]) >= 1) by {
            reveal_with_fuel(byte_len, 2);
            assert(seq![s.last()].drop_last() =~= Seq::<char>::empty());
        }
        lemma_newlines_all(s.drop_last(), off, p);
    }
}

/// The line of a position is one more than the line feeds before it.
pub proof fn law_line_counts_line_feeds(s: Seq<char>, k: int)
    requires
        0 <= k <= s.len(),
    ensures
        line_at(s, byte_len(s.take(k)) as int) == s.take(k).filter(|c: char| c == '\n').len() + 1,
{
    let p = |c: char| c == '\n';
    lemma_newlines(s, k, p);
}

/// An attribute list has a value for a name where the first entry with the name
/// gives it one as text.
pub proof fn law_attribute_by_name(v: Seq<(String, Option<String>)>, name: Seq<char>, k: int)
    requires
        0 <= k < v.len(),
        v[k].0@ == name,
        forall|i: int| 0 <= i < k ==> (#[trigger] v[i]).0@ != name,
    ensures
        named_text(v, name) == opt_text(v[k].1),
    decreases k,
{
    if k > 0 {
        assert(v[0].0@ != name);
        let d = v.drop_first();
        assert(d[k - 1] == v[k]);
        assert forall|i: int| 0 <= i < k - 1 implies (#[trigger] d[i]).0@ != name by {
            assert(d[i] == v[i + 1]);
        }
        law_attribute_by_name(d, name, k - 1);
    }
}

/// Of several attribute lists the first that has a value for a key gives it; the
/// keys are looked up under their own names.
pub proof fn law_first_list_counts(attrs: Seq<AdocAttrList>, key: AttrKey, k: int)
    requires
        0 <= k < attrs.len(),
        value_of(attrs[k], key) is Some,
        forall|i: int| 0 <= i < k ==> value_of(#[trigger] attrs[i], key) is None,
    ensures
        first_attr(attrs, key) == value_of(attrs[k], key),
    decreases k,
{
    if k > 0 {
        assert(value_of(attrs[0], key) is None);
        let d = attrs.drop_first();
        assert(d[k - 1] == attrs[k]);
        assert forall|i: int| 0 <= i < k - 1 implies value_of(#[trigger] d[i], key) is None by {
            assert(d[i] == attrs[i + 1]);
        }
        law_first_list_counts(d, key, k - 1);
    }
}

/// What an attribute list says for a key.
pub open spec fn value_of(a: AdocAttrList, key: AttrKey) -> Option<Seq<char>> {
    match key {
        AttrKey::Id => opt_text(a.id),
        AttrKey::Status => named_text(a.named@, "status"@),
        AttrKey::Level => named_text(a.named@, "level"@),
        AttrKey::Since => named_text(a.named@, "since"@),
        AttrKey::Until => named_text(a.named@, "until"@),
        AttrKey::Tags => named_text(a.named@, "tags"@),
    }
}

/// A requirement block has the metadata that its attribute lists give under each
/// name, and adds the code spans of all that stands in it.
pub proof fn law_requirement_block_metadata(
    source: Seq<char>,
    b: AdocBlock,
    markers: bool,
    w: WalkModel,
)
    requires
        block_req_id(b) is Some,
        walked_block(source, b, markers, w) is Ok,
    ensures
        ({
            let out = walked_block(source, b, markers, w)->Ok_0;
            let m = out.reqs.last().metadata;
            let status = first_attr(b.attrs@, AttrKey::Status);
            let level = first_attr(b.attrs@, AttrKey::Level);
            let tags = first_attr(b.attrs@, AttrKey::Tags);
            &&& (status is None ==> m.status is None)
            &&& (status is Some ==> m.status == status_named(status->0))
            &&& (level is None ==> m.level is None)
            &&& (level is Some ==> m.level == level_named(level->0))
            &&& m.since == first_attr(b.attrs@, AttrKey::Since)
            &&& m.until == first_attr(b.attrs@, AttrKey::Until)
            &&& (tags is None ==> m.tags.len() == 0)
            &&& (tags is Some ==> m.tags == tags_of(tags->0))
            &&& (b.content matches AdocContent::Simple(i) ==> out.spans == w.spans + inline_spans(
                i@,
                i@.len() as int,
            ))
            &&& (b.content matches AdocContent::Compound(bs) ==> out.spans == w.spans + Seq::new(
                bs@.len(),
                |k: int| block_spans(bs@[k]),
            ).flatten())
        }),
{
    if let AdocContent::Compound(bs) = b.content {
        lemma_blocks_spans(bs@, bs@.len() as int);
    }
}

/// The code spans of blocks are those of each, in order; a block has those of its
/// text, or of the blocks in it.
pub proof fn law_block_code_is_collected(b: AdocBlock)
    ensures
        b.content matches AdocContent::Simple(i) ==> block_spans(b) == inline_spans(
            i@,
            i@.len() as int,
        ),
        b.content matches AdocContent::Compound(bs) ==> block_spans(b) == Seq::new(
            bs@.len(),
            |k: int| block_spans(bs@[k]),
        ).flatten(),
{
    if let AdocContent::Compound(bs) = b.content {
        lemma_blocks_spans(bs@, bs@.len() as int);
    }
}

proof fn lemma_blocks_spans(v: Seq<AdocBlock>, n: int)
    requires
        0 <= n <= v.len(),
    ensures
        blocks_spans(v, n) == Seq::new(n as nat, |k: int| block_spans(v[k])).flatten(),
    decreases n,
{
    let parts = Seq::new(n as nat, |k: int| block_spans(v[k]));
    if n > 0 {
        lemma_blocks_spans(v, n - 1);
        let less = Seq::new((n - 1) as nat, |k: int| block_spans(v[k]));
        assert(parts.drop_last() =~= less);
        lemma_flat(parts);
    } else {
        assert(parts.flatten() =~= Seq::<(Seq<char>, SourceSpan)>::empty());
    }
}

} // verus!
