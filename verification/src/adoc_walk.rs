//! Extracting requirements, headings and inline code from AsciiDoc trees.

use vstd::prelude::*;

use crate::adoc_marker::{
    body_html, byte_offset_to_line, leading_marker, line_at, marker_inner, parse_req_leading_marker,
    parse_req_marker_inner, render_req_body_html, split_tags, tags_of,
};
use crate::adoc_html::id_pairs;
use crate::adoc_tree::{
    attribute_text, find_attribute, find_named, named_text, AdocAttrList, AdocBlock, AdocBody,
    AdocContent, AdocDocument, AdocInline, AdocSection, AdocValue, InlineKind,
};
use crate::bindings::{marq_parse_level, marq_parse_status, marq_slugify, slug_of};
use crate::document::{
    code_spans, element_models, heading_models, DocElement, ElementModel, Heading, HeadingModel,
    InlineCodeSpan, Paragraph,
};
use crate::numbers::{parse_i32, parse_i32_of};
use crate::requirement::{
    level_named, req_models, status_named, MetadataModel, ReqDefinition, ReqMetadata, ReqModel,
    SourceSpan,
};
use crate::rule_id::{parse_rule_id, parsed_rule_id, rule_text};
use crate::slugs::{
    after_allocation, allocated_slug, anchor_id, req_anchor_id, slugs_ok, SlugAllocator, SlugState,
};
use crate::text::{
    byte_count, byte_len, byte_slice, byte_slice_of, chars_of, copy_str, opt_text, str_eq,
    sub_string, trim, trim_end, trim_end_at, trimmed,
};

verus! {

/// What has been extracted so far.
pub struct WalkResult {
    pub reqs: Vec<ReqDefinition>,
    pub headings: Vec<Heading>,
    pub elements: Vec<DocElement>,
    pub inline_code_spans: Vec<InlineCodeSpan>,
    pub weight: i32,
    /// Mapping from the parser's section ids to the allocated slugs, in
    /// document order.
    pub section_id_map: Vec<(String, String)>,
}

/// What has been extracted so far, and the slugs handed out.
#[verifier::ext_equal]
pub struct WalkModel {
    pub reqs: Seq<ReqModel>,
    pub headings: Seq<HeadingModel>,
    pub elements: Seq<ElementModel>,
    pub spans: Seq<(Seq<char>, SourceSpan)>,
    pub weight: int,
    pub section_ids: Seq<(Seq<char>, Seq<char>)>,
    pub slugs: SlugState,
}

impl WalkResult {
    /// The result together with an allocator's state.
    pub open spec fn model(&self, slugs: SlugState) -> WalkModel {
        WalkModel {
            reqs: req_models(self.reqs@),
            headings: heading_models(self.headings@),
            elements: element_models(self.elements@),
            spans: code_spans(self.inline_code_spans@),
            weight: self.weight as int,
            section_ids: id_pairs(self.section_id_map@),
            slugs,
        }
    }
}

/// Every requirement's span ends at a position that fits in `usize`.
pub open spec fn spans_fit(reqs: Seq<ReqModel>) -> bool {
    forall|i: int|
        0 <= i < reqs.len() ==> (#[trigger] reqs[i]).span.offset + reqs[i].span.length <= usize::MAX
}

/// The span from `start` to `end`, empty where `end` lies before `start`.
pub open spec fn span_between(start: usize, end: usize) -> SourceSpan {
    SourceSpan {
        offset: start,
        length: if end >= start {
            (end - start) as usize
        } else {
            0
        },
    }
}

fn make_span(start: usize, end: usize) -> (r: SourceSpan)
    ensures
        r == span_between(start, end),
{
    SourceSpan { offset: start, length: end.saturating_sub(start) }
}

/// The code spans of one inline node: the node itself where it is monospace,
/// then those inside it.
pub open spec fn node_spans(n: AdocInline) -> Seq<(Seq<char>, SourceSpan)>
    decreases n, 0int,
{
    match n.kind {
        InlineKind::Mono | InlineKind::LitMono => seq![
            (n.text@, span_between(n.start, n.end)),
        ] + inline_spans(n.children@, n.children@.len() as int),
        InlineKind::Bold
        | InlineKind::Italic
        | InlineKind::Highlight
        | InlineKind::Superscript
        | InlineKind::Subscript
        | InlineKind::TextSpan => inline_spans(n.children@, n.children@.len() as int),
        _ => Seq::empty(),
    }
}

/// The code spans of the first `k` inline nodes.
pub open spec fn inline_spans(v: Seq<AdocInline>, k: int) -> Seq<(Seq<char>, SourceSpan)>
    decreases v, k,
{
    if k <= 0 || k > v.len() {
        Seq::empty()
    } else {
        inline_spans(v, k - 1) + node_spans(v[k - 1])
    }
}

/// The code spans of a block's text, at any depth.
pub open spec fn block_spans(b: AdocBlock) -> Seq<(Seq<char>, SourceSpan)>
    decreases b, 0int,
{
    match b.content {
        AdocContent::Simple(i) => inline_spans(i@, i@.len() as int),
        AdocContent::Compound(bs) => blocks_spans(bs@, bs@.len() as int),
        _ => Seq::empty(),
    }
}

/// The code spans of the first `k` blocks.
pub open spec fn blocks_spans(v: Seq<AdocBlock>, k: int) -> Seq<(Seq<char>, SourceSpan)>
    decreases v, k,
{
    if k <= 0 || k > v.len() {
        Seq::empty()
    } else {
        blocks_spans(v, k - 1) + block_spans(v[k - 1])
    }
}

proof fn lemma_spans_push(v: Seq<InlineCodeSpan>, s: InlineCodeSpan)
    ensures
        code_spans(v.push(s)) == code_spans(v).push((s.content@, s.span)),
{
    assert(code_spans(v.push(s)) =~= code_spans(v).push((s.content@, s.span)));
}

/// Collect the code spans of inline nodes.
fn collect_spans_from_inlines(inlines: &Vec<AdocInline>, spans: &mut Vec<InlineCodeSpan>)
    ensures
        code_spans(final(spans)@) == code_spans(old(spans)@) + inline_spans(
            inlines@,
            inlines@.len() as int,
        ),
    decreases inlines@,
{
    let ghost start = code_spans(spans@);
    let mut i: usize = 0;
    assert(start + inline_spans(inlines@, 0) =~= start);
    while i < inlines.len()
        invariant
            i <= inlines@.len(),
            code_spans(spans@) == start + inline_spans(inlines@, i as int),
        decreases inlines@.len() - i,
    {
        let n = &inlines[i];
        let ghost before = code_spans(spans@);
        if n.kind == InlineKind::Mono || n.kind == InlineKind::LitMono {
            let one = InlineCodeSpan {
                content: copy_str(n.text.as_str()),
                span: make_span(n.start, n.end),
            };
            proof {
                lemma_spans_push(spans@, one);
            }
            spans.push(one);
            proof {
                assert(decreases_to!(inlines@ => inlines@[i as int].children@));
            }
            collect_spans_from_inlines(&n.children, spans);
            assert(code_spans(spans@) =~= before + node_spans(*n));
        } else if n.kind == InlineKind::Bold || n.kind == InlineKind::Italic || n.kind
            == InlineKind::Highlight || n.kind == InlineKind::Superscript || n.kind
            == InlineKind::Subscript || n.kind == InlineKind::TextSpan {
            proof {
                assert(decreases_to!(inlines@ => inlines@[i as int].children@));
            }
            collect_spans_from_inlines(&n.children, spans);
        } else {
            assert(before + node_spans(*n) =~= before);
        }
        assert(start + inline_spans(inlines@, i as int) + node_spans(*n) =~= start + inline_spans(
            inlines@,
            i + 1,
        ));
        i = i + 1;
    }
}

/// Collect the code spans of a block and the blocks inside it.
fn collect_inline_spans_recursive(block: &AdocBlock, spans: &mut Vec<InlineCodeSpan>)
    ensures
        code_spans(final(spans)@) == code_spans(old(spans)@) + block_spans(*block),
    decreases block, 0int,
{
    match &block.content {
        AdocContent::Simple(inlines) => collect_spans_from_inlines(inlines, spans),
        AdocContent::Compound(inner) => {
            proof {
                assert(decreases_to!(block => block.content->Compound_0@));
            }
            collect_spans_from_blocks(inner, spans);
        },
        _ => {
            assert(code_spans(spans@) + block_spans(*block) =~= code_spans(spans@));
        },
    }
}

fn collect_spans_from_blocks(blocks: &Vec<AdocBlock>, spans: &mut Vec<InlineCodeSpan>)
    ensures
        code_spans(final(spans)@) == code_spans(old(spans)@) + blocks_spans(
            blocks@,
            blocks@.len() as int,
        ),
    decreases blocks@, 1int,
{
    let ghost start = code_spans(spans@);
    let mut i: usize = 0;
    assert(start + blocks_spans(blocks@, 0) =~= start);
    while i < blocks.len()
        invariant
            i <= blocks@.len(),
            code_spans(spans@) == start + blocks_spans(blocks@, i as int),
        decreases blocks@.len() - i,
    {
        proof {
            assert(decreases_to!(blocks@ => blocks@[i as int]));
        }
        collect_inline_spans_recursive(&blocks[i], spans);
        assert(start + blocks_spans(blocks@, i as int) + block_spans(blocks@[i as int]) =~= start
            + blocks_spans(blocks@, i + 1));
        i = i + 1;
    }
}

/// `base` is the base of one of the requirements.
pub open spec fn has_base(reqs: Seq<ReqModel>, base: Seq<char>) -> bool {
    exists|i: int| 0 <= i < reqs.len() && (#[trigger] reqs[i]).id.0 == base
}

fn base_seen(reqs: &Vec<ReqDefinition>, base: &str) -> (r: bool)
    ensures
        r == has_base(req_models(reqs@), base@),
{
    let mut i: usize = 0;
    while i < reqs.len()
        invariant
            i <= reqs@.len(),
            forall|j: int| 0 <= j < i ==> (#[trigger] req_models(reqs@)[j]).id.0 != base@,
        decreases reqs@.len() - i,
    {
        if str_eq(reqs[i].id.base.as_str(), base) {
            assert(req_models(reqs@)[i as int].id.0 == base@);
            return true;
        }
        i = i + 1;
    }
    false
}

/// Leading blanks, tabs and line ends dropped.
pub open spec fn trim_blank_start(s: Seq<char>) -> Seq<char>
    decreases s.len(),
{
    if s.len() > 0 && (s[0] == ' ' || s[0] == '\t' || s[0] == '\n' || s[0] == '\r') {
        trim_blank_start(s.drop_first())
    } else {
        s
    }
}

/// The text of `source` from byte `start` up to byte `end` or its end, empty
/// where either falls inside a character.
pub open spec fn source_text(source: Seq<char>, start: int, end: int) -> Seq<char> {
    let upto = if end < byte_len(source) {
        end
    } else {
        byte_len(source) as int
    };
    match byte_slice(source, start, upto) {
        Some(t) => t,
        None => Seq::empty(),
    }
}

/// The body of a paragraph that begins with a marker of `marker_len` bytes.
pub open spec fn body_after_marker(block: Seq<char>, marker_len: int) -> Seq<char> {
    let after = match byte_slice(block, marker_len, byte_len(block) as int) {
        Some(t) => t,
        None => Seq::empty(),
    };
    trim_end(trim_blank_start(after))
}

fn source_text_of(source: &str, start: usize, end: usize) -> (r: String)
    ensures
        r@ == source_text(source@, start as int, end as int),
{
    let v = chars_of(source);
    let n = byte_count(source);
    let upto = if end < n {
        end
    } else {
        n
    };
    match byte_slice_of(&v, start, upto) {
        Some(t) => t,
        None => {
            let r = String::new();
            assert(r@ =~= Seq::<char>::empty());
            r
        },
    }
}

fn body_after_marker_of(block: &str, marker_len: usize) -> (r: String)
    ensures
        r@ == body_after_marker(block@, marker_len as int),
{
    let v = chars_of(block);
    let n = byte_count(block);
    let after = match byte_slice_of(&v, marker_len, n) {
        Some(t) => t,
        None => {
            let e = String::new();
            assert(e@ =~= Seq::<char>::empty());
            e
        },
    };
    let a = chars_of(after.as_str());
    let mut i: usize = 0;
    assert(a@.skip(0) =~= a@);
    while i < a.len() && (a[i] == ' ' || a[i] == '\t' || a[i] == '\n' || a[i] == '\r')
        invariant
            i <= a@.len(),
            trim_blank_start(a@) == trim_blank_start(a@.skip(i as int)),
        decreases a@.len() - i,
    {
        assert(a@.skip(i as int).drop_first() =~= a@.skip(i + 1));
        i = i + 1;
    }
    let end = trim_end_at(&a, i, a.len());
    assert(a@.subrange(i as int, a@.len() as int) =~= a@.skip(i as int));
    sub_string(&a, i, end)
}

/// The result with a paragraph on the given line.
pub open spec fn with_paragraph(w: WalkModel, line: int) -> WalkModel {
    WalkModel {
        elements: w.elements.push(
            ElementModel::Paragraph(Paragraph { line: line as usize, offset: 0 }),
        ),
        ..w
    }
}

/// The result with one more requirement.
pub open spec fn with_req(w: WalkModel, req: ReqModel) -> WalkModel {
    WalkModel { reqs: w.reqs.push(req), elements: w.elements.push(ElementModel::Req(req)), ..w }
}

/// The result with more code spans.
pub open spec fn with_spans(w: WalkModel, spans: Seq<(Seq<char>, SourceSpan)>) -> WalkModel {
    WalkModel { spans: w.spans + spans, ..w }
}

/// The marker that a paragraph begins with: the byte length of the marker, the
/// id and the metadata.
pub open spec fn paragraph_marker(inlines: Seq<AdocInline>) -> Option<
    (int, (Seq<char>, u32), MetadataModel),
> {
    if inlines.len() == 0 || inlines[0].kind != InlineKind::Text {
        None
    } else {
        let t = inlines[0].text@;
        match leading_marker(t) {
            None => None,
            Some(m) => match marker_inner(t.subrange(m.0 + 1, m.1)) {
                None => None,
                Some(x) => Some((byte_len(t.take(m.1)) as int + 1, x.0, x.1)),
            },
        }
    }
}

/// The requirement that a marked paragraph defines.
pub open spec fn paragraph_req(
    source: Seq<char>,
    inlines: Seq<AdocInline>,
    m: (int, (Seq<char>, u32), MetadataModel),
) -> ReqModel {
    let start = inlines[0].start;
    let end = inlines.last().end;
    let raw = body_after_marker(source_text(source, start as int, end as int), m.0);
    ReqModel {
        id: m.1,
        anchor_id: anchor_id(rule_text(m.1)),
        marker_span: SourceSpan { offset: start, length: m.0 as usize },
        span: span_between(start, end),
        line: line_at(source, start as int) as usize,
        metadata: m.2,
        raw,
        html: body_html(raw),
    }
}

/// The result after a paragraph: a requirement where it begins with a marker
/// (and markers in the text count), else an ordinary paragraph. A second
/// requirement with the same base is an error, which names the base.
pub open spec fn walked_paragraph(
    source: Seq<char>,
    inlines: Seq<AdocInline>,
    markers: bool,
    w: WalkModel,
) -> Result<WalkModel, Seq<char>> {
    let w1 = with_spans(w, inline_spans(inlines, inlines.len() as int));
    if inlines.len() == 0 {
        Ok(with_paragraph(w1, 0))
    } else if !markers || paragraph_marker(inlines) is None {
        Ok(with_paragraph(w1, line_at(source, inlines[0].start as int) as int))
    } else {
        let m = paragraph_marker(inlines)->0;
        if has_base(w.reqs, (m.1).0) {
            Err((m.1).0)
        } else {
            Ok(with_req(w1, paragraph_req(source, inlines, m)))
        }
    }
}

/// Two requirements in one document have the same base.
#[derive(Debug, Clone, PartialEq, Eq)]
pub struct DuplicateReq {
    pub base: String,
}

/// An outcome of executable code is the one that the model names.
pub open spec fn same_outcome(
    r: Result<(), DuplicateReq>,
    after: WalkModel,
    model: Result<WalkModel, Seq<char>>,
) -> bool {
    match (r, model) {
        (Ok(_), Ok(w)) => after == w,
        (Err(e), Err(base)) => e.base@ == base,
        _ => false,
    }
}

proof fn lemma_elements_push(v: Seq<DocElement>, e: DocElement)
    ensures
        element_models(v.push(e)) == element_models(v).push(e@),
{
    assert(element_models(v.push(e)) =~= element_models(v).push(e@));
}

proof fn lemma_reqs_push(v: Seq<ReqDefinition>, e: ReqDefinition)
    ensures
        req_models(v.push(e)) == req_models(v).push(e@),
{
    assert(req_models(v.push(e)) =~= req_models(v).push(e@));
}

fn push_paragraph(result: &mut WalkResult, line: usize)
    ensures
        forall|s: SlugState| #[trigger]
            final(result).model(s) == with_paragraph(old(result).model(s), line as int),
        final(result).reqs == old(result).reqs,
{
    let e = DocElement::Paragraph(Paragraph { line, offset: 0 });
    proof {
        lemma_elements_push(result.elements@, e);
    }
    result.elements.push(e);
}

fn push_req(result: &mut WalkResult, req: ReqDefinition)
    ensures
        forall|s: SlugState| #[trigger]
            final(result).model(s) == with_req(old(result).model(s), req@),
        req_models(final(result).reqs@) == req_models(old(result).reqs@).push(req@),
{
    let e = DocElement::Req(req.copy());
    proof {
        lemma_elements_push(result.elements@, e);
        lemma_reqs_push(result.reqs@, req);
    }
    result.elements.push(e);
    result.reqs.push(req);
}

fn walk_paragraph(
    inlines: &Vec<AdocInline>,
    source: &str,
    markers: bool,
    result: &mut WalkResult,
    Ghost(slugs): Ghost<SlugState>,
) -> (r: Result<(), DuplicateReq>)
    requires
        spans_fit(req_models(old(result).reqs@)),
    ensures
        same_outcome(
            r,
            final(result).model(slugs),
            walked_paragraph(source@, inlines@, markers, old(result).model(slugs)),
        ),
        spans_fit(req_models(final(result).reqs@)),
{
    let ghost w0 = result.model(slugs);
    collect_spans_from_inlines(inlines, &mut result.inline_code_spans);
    let ghost w1 = result.model(slugs);
    assert(w1 =~= with_spans(w0, inline_spans(inlines@, inlines@.len() as int)));
    if inlines.len() == 0 {
        push_paragraph(result, 0);
        return Ok(());
    }
    let first = &inlines[0];
    let line = byte_offset_to_line(source, first.start);
    if !markers || first.kind != InlineKind::Text {
        push_paragraph(result, line);
        return Ok(());
    }
    let (id_str, marker_end) = match parse_req_leading_marker(first.text.as_str()) {
        Some((_, id_str, end)) => (id_str, end),
        None => {
            push_paragraph(result, line);
            return Ok(());
        },
    };
    let (id, metadata) = match parse_req_marker_inner(id_str.as_str()) {
        Some(x) => x,
        None => {
            push_paragraph(result, line);
            return Ok(());
        },
    };
    if base_seen(&result.reqs, id.base.as_str()) {
        return Err(DuplicateReq { base: id.base });
    }
    let start = first.start;
    let end = inlines[inlines.len() - 1].end;
    let marker_len: usize = marker_end + 1;
    let text = id.text();
    let anchor = req_anchor_id(text.as_str());
    let block_source = source_text_of(source, start, end);
    let raw = body_after_marker_of(block_source.as_str(), marker_len);
    let html = render_req_body_html(raw.as_str());
    let req = ReqDefinition {
        id,
        anchor_id: anchor,
        marker_span: SourceSpan { offset: start, length: marker_len },
        span: make_span(start, end),
        line,
        metadata,
        raw,
        html,
    };
    proof {
        assert(req@ == paragraph_req(source@, inlines@, paragraph_marker(inlines@)->0));
    }
    push_req(result, req);
    Ok(())
}

/// A block has the role `requirement`.
pub open spec fn has_role(attrs: Seq<AdocAttrList>, role: Seq<char>) -> bool {
    exists|i: int, j: int|
        0 <= i < attrs.len() && 0 <= j < attrs[i].roles@.len() && (#[trigger] attrs[i].roles@[j])@
            == role
}

fn block_has_role(attrs: &Vec<AdocAttrList>, role: &str) -> (r: bool)
    ensures
        r == has_role(attrs@, role@),
{
    let mut i: usize = 0;
    while i < attrs.len()
        invariant
            i <= attrs@.len(),
            forall|a: int, j: int|
                0 <= a < i && 0 <= j < attrs@[a].roles@.len() ==> (#[trigger] attrs@[a].roles@[j])@
                    != role@,
        decreases attrs@.len() - i,
    {
        let mut j: usize = 0;
        while j < attrs[i].roles.len()
            invariant
                i < attrs@.len(),
                j <= attrs@[i as int].roles@.len(),
                forall|k: int|
                    0 <= k < j ==> (#[trigger] attrs@[i as int].roles@[k])@ != role@,
            decreases attrs@[i as int].roles@.len() - j,
        {
            if str_eq(attrs[i].roles[j].as_str(), role) {
                assert(attrs@[i as int].roles@[j as int]@ == role@);
                return true;
            }
            j = j + 1;
        }
        i = i + 1;
    }
    false
}

/// Which value of an attribute list is looked up.
#[derive(Clone, Copy, PartialEq, Eq, Structural)]
pub enum AttrKey {
    Id,
    Status,
    Level,
    Since,
    Until,
    Tags,
}

pub open spec fn attr_of(a: AdocAttrList, key: AttrKey) -> Option<Seq<char>> {
    match key {
        AttrKey::Id => opt_text(a.id),
        AttrKey::Status => named_text(a.named@, "status"@),
        AttrKey::Level => named_text(a.named@, "level"@),
        AttrKey::Since => named_text(a.named@, "since"@),
        AttrKey::Until => named_text(a.named@, "until"@),
        AttrKey::Tags => named_text(a.named@, "tags"@),
    }
}

/// The value of an attribute in the first list that has it.
pub open spec fn first_attr(attrs: Seq<AdocAttrList>, key: AttrKey) -> Option<Seq<char>>
    decreases attrs.len(),
{
    if attrs.len() == 0 {
        None
    } else if attr_of(attrs[0], key) is Some {
        attr_of(attrs[0], key)
    } else {
        first_attr(attrs.drop_first(), key)
    }
}

fn list_attr(a: &AdocAttrList, key: AttrKey) -> (r: Option<String>)
    ensures
        opt_text(r) == attr_of(*a, key),
{
    match key {
        AttrKey::Id => crate::requirement::copy_opt(&a.id),
        AttrKey::Status => find_named(&a.named, "status"),
        AttrKey::Level => find_named(&a.named, "level"),
        AttrKey::Since => find_named(&a.named, "since"),
        AttrKey::Until => find_named(&a.named, "until"),
        AttrKey::Tags => find_named(&a.named, "tags"),
    }
}

fn find_first_attr(attrs: &Vec<AdocAttrList>, key: AttrKey) -> (r: Option<String>)
    ensures
        opt_text(r) == first_attr(attrs@, key),
{
    let mut i: usize = 0;
    assert(attrs@.skip(0) =~= attrs@);
    while i < attrs.len()
        invariant
            i <= attrs@.len(),
            first_attr(attrs@, key) == first_attr(attrs@.skip(i as int), key),
        decreases attrs@.len() - i,
    {
        let here = list_attr(&attrs[i], key);
        assert(attrs@.skip(i as int).drop_first() =~= attrs@.skip(i + 1));
        if here.is_some() {
            return here;
        }
        i = i + 1;
    }
    None
}

/// The id of the requirement that a block defines, where it defines one: an
/// open block with the role `requirement` and an id that parses.
pub open spec fn block_req_id(b: AdocBlock) -> Option<(Seq<char>, u32)> {
    if b.context@ == "Open"@ && has_role(b.attrs@, "requirement"@) {
        match first_attr(b.attrs@, AttrKey::Id) {
            Some(s) => parsed_rule_id(s),
            None => None,
        }
    } else {
        None
    }
}

/// The metadata that the attribute lists of a block give.
pub open spec fn block_metadata(attrs: Seq<AdocAttrList>) -> MetadataModel {
    MetadataModel {
        status: match first_attr(attrs, AttrKey::Status) {
            Some(v) => status_named(v),
            None => None,
        },
        level: match first_attr(attrs, AttrKey::Level) {
            Some(v) => level_named(v),
            None => None,
        },
        since: first_attr(attrs, AttrKey::Since),
        until: first_attr(attrs, AttrKey::Until),
        tags: match first_attr(attrs, AttrKey::Tags) {
            Some(v) => tags_of(v),
            None => Seq::empty(),
        },
    }
}

/// The span of a block's own content, without its attribute lists, title and
/// delimiter lines.
pub open spec fn content_bounds(b: AdocBlock) -> Option<(usize, usize)> {
    match b.content {
        AdocContent::Simple(i) => if i@.len() == 0 {
            None
        } else {
            Some((i@[0].start, i@.last().end))
        },
        AdocContent::Compound(bs) => if bs@.len() == 0 {
            None
        } else {
            Some(
                (
                    bs@[0].start,
                    match b.last_end {
                        Some(e) => e,
                        None => bs@[0].start,
                    },
                ),
            )
        },
        _ => None,
    }
}

/// The requirement that a role-marked block defines. Its marker is the run of
/// attribute lists above it, so that a prefix on one line and the id on another
/// are both found in it. Its HTML is filled in once the page is rendered.
pub open spec fn block_req(source: Seq<char>, b: AdocBlock, id: (Seq<char>, u32)) -> ReqModel {
    let marker_end = b.attrs@.last().end;
    let (start, end) = match content_bounds(b) {
        Some(x) => x,
        None => (marker_end, marker_end),
    };
    ReqModel {
        id,
        anchor_id: anchor_id(rule_text(id)),
        marker_span: span_between(b.attrs@[0].start, marker_end),
        span: span_between(start, end),
        line: line_at(source, start as int) as usize,
        metadata: block_metadata(b.attrs@),
        raw: trim(source_text(source, start as int, end as int)),
        html: Seq::empty(),
    }
}

/// The result after a role-marked block.
pub open spec fn walked_req_block(
    source: Seq<char>,
    b: AdocBlock,
    id: (Seq<char>, u32),
    w: WalkModel,
) -> Result<WalkModel, Seq<char>> {
    if has_base(w.reqs, id.0) {
        Err(id.0)
    } else {
        Ok(with_spans(with_req(w, block_req(source, b, id)), block_spans(b)))
    }
}

fn content_span(b: &AdocBlock) -> (r: Option<(usize, usize)>)
    ensures
        r == content_bounds(*b),
{
    match &b.content {
        AdocContent::Simple(i) => if i.len() == 0 {
            None
        } else {
            Some((i[0].start, i[i.len() - 1].end))
        },
        AdocContent::Compound(bs) => if bs.len() == 0 {
            None
        } else {
            let start = bs[0].start;
            match b.last_end {
                Some(e) => Some((start, e)),
                None => Some((start, start)),
            }
        },
        _ => None,
    }
}

fn metadata_of_block(attrs: &Vec<AdocAttrList>) -> (r: ReqMetadata)
    ensures
        r@ == block_metadata(attrs@),
{
    let status = match find_first_attr(attrs, AttrKey::Status) {
        Some(v) => marq_parse_status(v.as_str()),
        None => None,
    };
    let level = match find_first_attr(attrs, AttrKey::Level) {
        Some(v) => marq_parse_level(v.as_str()),
        None => None,
    };
    let tags = match find_first_attr(attrs, AttrKey::Tags) {
        Some(v) => split_tags(v.as_str()),
        None => {
            let t: Vec<String> = Vec::new();
            assert(crate::text::texts(t@) =~= Seq::<Seq<char>>::empty());
            t
        },
    };
    ReqMetadata {
        status,
        level,
        since: find_first_attr(attrs, AttrKey::Since),
        until: find_first_attr(attrs, AttrKey::Until),
        tags,
    }
}

proof fn lemma_first_attr_needs_list(attrs: Seq<AdocAttrList>, key: AttrKey)
    ensures
        first_attr(attrs, key) is Some ==> attrs.len() > 0,
{
}

/// Extract a role-marked open block as a requirement definition.
///
/// Returns `Ok(false)` when the block is no such block or has no id that
/// parses, so the caller falls back to treating it as an ordinary block, as an
/// `r[...]` marker that does not parse degrades to a plain paragraph.
fn extract_req_block(
    block: &AdocBlock,
    source: &str,
    result: &mut WalkResult,
    Ghost(slugs): Ghost<SlugState>,
) -> (r: Result<bool, DuplicateReq>)
    requires
        spans_fit(req_models(old(result).reqs@)),
    ensures
        spans_fit(req_models(final(result).reqs@)),
        match block_req_id(*block) {
            None => r == Ok::<bool, DuplicateReq>(false) && *final(result) == *old(result),
            Some(id) => match (r, walked_req_block(source@, *block, id, old(result).model(slugs))) {
                (Ok(b), Ok(w)) => b && final(result).model(slugs) == w,
                (Err(e), Err(base)) => e.base@ == base,
                _ => false,
            },
        },
{
    if !str_eq(block.context.as_str(), "Open") || !block_has_role(&block.attrs, "requirement") {
        return Ok(false);
    }
    let id = match find_first_attr(&block.attrs, AttrKey::Id) {
        Some(s) => match parse_rule_id(s.as_str()) {
            Some(id) => id,
            None => {
                return Ok(false);
            },
        },
        None => {
            return Ok(false);
        },
    };
    if base_seen(&result.reqs, id.base.as_str()) {
        return Err(DuplicateReq { base: id.base });
    }
    proof {
        lemma_first_attr_needs_list(block.attrs@, AttrKey::Id);
    }
    let metadata = metadata_of_block(&block.attrs);
    let marker_end = block.attrs[block.attrs.len() - 1].end;
    let marker_span = make_span(block.attrs[0].start, marker_end);
    let (start, end) = match content_span(block) {
        Some(x) => x,
        None => (marker_end, marker_end),
    };
    let line = byte_offset_to_line(source, start);
    let text = id.text();
    let anchor = req_anchor_id(text.as_str());
    let body = source_text_of(source, start, end);
    let raw = trimmed(body.as_str());
    let html = String::new();
    let req = ReqDefinition {
        id,
        anchor_id: anchor,
        marker_span,
        span: make_span(start, end),
        line,
        metadata,
        raw,
        html,
    };
    let ghost gid = block_req_id(*block)->0;
    assert(req@ =~= block_req(source@, *block, gid));
    push_req(result, req);
    let ghost w1 = result.model(slugs);
    collect_inline_spans_recursive(block, &mut result.inline_code_spans);
    assert(result.model(slugs) =~= with_spans(w1, block_spans(*block)));
    Ok(true)
}

/// The result with a section's heading.
pub open spec fn with_heading(source: Seq<char>, s: AdocSection, w: WalkModel) -> WalkModel {
    let slug = allocated_slug(w.slugs, slug_of(s.title@));
    let heading = HeadingModel {
        title: s.title@,
        id: slug,
        level: s.level,
        line: line_at(source, s.start as int) as usize,
    };
    WalkModel {
        slugs: after_allocation(w.slugs, slug_of(s.title@)),
        section_ids: match s.id {
            Some(id) => w.section_ids.push((id@, slug)),
            None => w.section_ids,
        },
        headings: w.headings.push(heading),
        elements: w.elements.push(ElementModel::Heading(heading)),
        spans: w.spans + inline_spans(s.heading@, s.heading@.len() as int),
        ..w
    }
}

/// The result after a section: its heading, then its blocks.
pub open spec fn walked_section(source: Seq<char>, s: AdocSection, markers: bool, w: WalkModel) -> Result<
    WalkModel,
    Seq<char>,
>
    decreases s, 0int,
{
    walked_blocks(source, s.blocks@, s.blocks@.len() as int, markers, with_heading(source, s, w))
}

/// The number that a text writes, or 0.
pub open spec fn weight_text(w: Seq<char>) -> int {
    match parse_i32(trim(w)) {
        Some(n) => n,
        None => 0,
    }
}

/// The result after a block.
pub open spec fn walked_block(source: Seq<char>, b: AdocBlock, markers: bool, w: WalkModel) -> Result<
    WalkModel,
    Seq<char>,
>
    decreases b, 0int,
{
    match block_req_id(b) {
        Some(id) => walked_req_block(source, b, id, w),
        None => match b.content {
            AdocContent::Simple(i) => if b.context@ == "Paragraph"@ {
                walked_paragraph(source, i@, markers, w)
            } else {
                Ok(with_spans(w, inline_spans(i@, i@.len() as int)))
            },
            AdocContent::Section(s) => walked_section(source, s, markers, w),
            AdocContent::Compound(bs) => walked_blocks(source, bs@, bs@.len() as int, markers, w),
            AdocContent::Attribute(k, v) => match v {
                AdocValue::Text(t) => if k@ == "weight"@ {
                    Ok(WalkModel { weight: weight_text(t@), ..w })
                } else {
                    Ok(w)
                },
                AdocValue::Flag(_) => Ok(w),
            },
            _ => Ok(w),
        },
    }
}

/// The result after the first `k` blocks.
pub open spec fn walked_blocks(
    source: Seq<char>,
    bs: Seq<AdocBlock>,
    k: int,
    markers: bool,
    w: WalkModel,
) -> Result<WalkModel, Seq<char>>
    decreases bs, k,
{
    if k <= 0 || k > bs.len() {
        Ok(w)
    } else {
        match walked_blocks(source, bs, k - 1, markers, w) {
            Ok(x) => walked_block(source, bs[k - 1], markers, x),
            Err(e) => Err(e),
        }
    }
}

/// The result after the first `k` sections.
pub open spec fn walked_sections(
    source: Seq<char>,
    ss: Seq<AdocSection>,
    k: int,
    markers: bool,
    w: WalkModel,
) -> Result<WalkModel, Seq<char>>
    decreases k,
{
    if k <= 0 || k > ss.len() {
        Ok(w)
    } else {
        match walked_sections(source, ss, k - 1, markers, w) {
            Ok(x) => walked_section(source, ss[k - 1], markers, x),
            Err(e) => Err(e),
        }
    }
}

/// Nothing extracted yet.
pub open spec fn nothing_walked(weight: int, slugs: SlugState) -> WalkModel {
    WalkModel {
        reqs: Seq::empty(),
        headings: Seq::empty(),
        elements: Seq::empty(),
        spans: Seq::empty(),
        weight,
        section_ids: Seq::empty(),
        slugs,
    }
}

/// The blocks before the first section. A book of several parts is not read.
pub open spec fn leading_blocks(doc: AdocDocument) -> Seq<AdocBlock> {
    match doc.body {
        AdocBody::Blocks(bs) => bs@,
        AdocBody::Sections(Some(bs), _) => bs@,
        _ => Seq::empty(),
    }
}

/// The sections. A book of several parts is not read.
pub open spec fn doc_sections(doc: AdocDocument) -> Seq<AdocSection> {
    match doc.body {
        AdocBody::Sections(_, ss) => ss@,
        _ => Seq::empty(),
    }
}

/// What a document holds: the blocks before the first section, then the
/// sections. `markers` says whether `r[id]` at the start of a paragraph counts.
pub open spec fn walked(
    doc: AdocDocument,
    source: Seq<char>,
    markers: bool,
    slugs: SlugState,
) -> Result<WalkModel, Seq<char>> {
    let weight = match attribute_text(doc.attributes@, "weight"@) {
        Some(t) => weight_text(t),
        None => 0,
    };
    match walked_blocks(
        source,
        leading_blocks(doc),
        leading_blocks(doc).len() as int,
        markers,
        nothing_walked(weight, slugs),
    ) {
        Ok(w) => walked_sections(
            source,
            doc_sections(doc),
            doc_sections(doc).len() as int,
            markers,
            w,
        ),
        Err(e) => Err(e),
    }
}

/// An error among the first blocks is the error of all.
proof fn lemma_blocks_err(source: Seq<char>, bs: Seq<AdocBlock>, k: int, n: int, markers: bool, w: WalkModel)
    requires
        0 <= k <= n <= bs.len(),
        walked_blocks(source, bs, k, markers, w) is Err,
    ensures
        walked_blocks(source, bs, n, markers, w) == walked_blocks(source, bs, k, markers, w),
    decreases n - k,
{
    if k < n {
        lemma_blocks_err(source, bs, k + 1, n, markers, w);
    }
}

proof fn lemma_sections_err(
    source: Seq<char>,
    ss: Seq<AdocSection>,
    k: int,
    n: int,
    markers: bool,
    w: WalkModel,
)
    requires
        0 <= k <= n <= ss.len(),
        walked_sections(source, ss, k, markers, w) is Err,
    ensures
        walked_sections(source, ss, n, markers, w) == walked_sections(source, ss, k, markers, w),
    decreases n - k,
{
    if k < n {
        lemma_sections_err(source, ss, k + 1, n, markers, w);
    }
}

fn walk_blocks(
    blocks: &Vec<AdocBlock>,
    source: &str,
    markers: bool,
    slugs: &mut SlugAllocator,
    result: &mut WalkResult,
) -> (r: Result<(), DuplicateReq>)
    requires
        old(slugs).wf(),
        spans_fit(req_models(old(result).reqs@)),
    ensures
        final(slugs).wf(),
        spans_fit(req_models(final(result).reqs@)),
        same_outcome(
            r,
            final(result).model(final(slugs)@),
            walked_blocks(
                source@,
                blocks@,
                blocks@.len() as int,
                markers,
                old(result).model(old(slugs)@),
            ),
        ),
    decreases blocks@, 1int,
{
    let ghost w0 = result.model(slugs@);
    let mut i: usize = 0;
    while i < blocks.len()
        invariant
            i <= blocks@.len(),
            slugs.wf(),
            spans_fit(req_models(result.reqs@)),
            w0 == old(result).model(old(slugs)@),
            walked_blocks(source@, blocks@, i as int, markers, w0) == Ok::<WalkModel, Seq<char>>(
                result.model(slugs@),
            ),
        decreases blocks@.len() - i,
    {
        proof {
            assert(decreases_to!(blocks@ => blocks@[i as int]));
        }
        match walk_block(&blocks[i], source, markers, slugs, result) {
            Ok(_) => {},
            Err(e) => {
                proof {
                    lemma_blocks_err(source@, blocks@, i + 1, blocks@.len() as int, markers, w0);
                }
                return Err(e);
            },
        }
        i = i + 1;
    }
    Ok(())
}

fn walk_section(
    section: &AdocSection,
    source: &str,
    markers: bool,
    slugs: &mut SlugAllocator,
    result: &mut WalkResult,
) -> (r: Result<(), DuplicateReq>)
    requires
        old(slugs).wf(),
        spans_fit(req_models(old(result).reqs@)),
    ensures
        final(slugs).wf(),
        spans_fit(req_models(final(result).reqs@)),
        same_outcome(
            r,
            final(result).model(final(slugs)@),
            walked_section(source@, *section, markers, old(result).model(old(slugs)@)),
        ),
    decreases section, 0int,
{
    let ghost w0 = result.model(slugs@);
    let base = marq_slugify(section.title.as_str());
    let slug = slugs.allocate(base.as_str());
    match &section.id {
        Some(id) => {
            let ghost before = result.section_id_map@;
            result.section_id_map.push((copy_str(id.as_str()), copy_str(slug.as_str())));
            assert(id_pairs(result.section_id_map@) =~= id_pairs(before).push((id@, slug@)));
        },
        None => {},
    }
    let line = byte_offset_to_line(source, section.start);
    let heading = Heading {
        title: copy_str(section.title.as_str()),
        id: slug,
        level: section.level,
        line,
    };
    let e = DocElement::Heading(heading.copy());
    proof {
        lemma_elements_push(result.elements@, e);
        assert(heading_models(result.headings@.push(heading)) =~= heading_models(result.headings@).push(
            heading@,
        ));
    }
    result.headings.push(heading);
    result.elements.push(e);
    collect_spans_from_inlines(&section.heading, &mut result.inline_code_spans);
    assert(result.model(slugs@) =~= with_heading(source@, *section, w0));
    proof {
        assert(decreases_to!(section => section.blocks@));
    }
    walk_blocks(&section.blocks, source, markers, slugs, result)
}

fn weight_of_text(t: &str) -> (r: i32)
    ensures
        r == weight_text(t@),
{
    let s = trimmed(t);
    let v = chars_of(s.as_str());
    match parse_i32_of(&v) {
        Some(n) => n,
        None => 0,
    }
}

fn walk_block(
    block: &AdocBlock,
    source: &str,
    markers: bool,
    slugs: &mut SlugAllocator,
    result: &mut WalkResult,
) -> (r: Result<(), DuplicateReq>)
    requires
        old(slugs).wf(),
        spans_fit(req_models(old(result).reqs@)),
    ensures
        final(slugs).wf(),
        spans_fit(req_models(final(result).reqs@)),
        same_outcome(
            r,
            final(result).model(final(slugs)@),
            walked_block(source@, *block, markers, old(result).model(old(slugs)@)),
        ),
    decreases block, 0int,
{
    let ghost w0 = result.model(slugs@);
    match extract_req_block(block, source, result, Ghost(slugs@)) {
        Err(e) => {
            return Err(e);
        },
        Ok(b) => if b {
            return Ok(());
        },
    }
    match &block.content {
        AdocContent::Simple(inlines) => if str_eq(block.context.as_str(), "Paragraph") {
            walk_paragraph(inlines, source, markers, result, Ghost(slugs@))
        } else {
            collect_spans_from_inlines(inlines, &mut result.inline_code_spans);
            assert(result.model(slugs@) =~= with_spans(
                w0,
                inline_spans(inlines@, inlines@.len() as int),
            ));
            Ok(())
        },
        AdocContent::Section(section) => {
            proof {
                assert(decreases_to!(block => block.content->Section_0));
            }
            walk_section(section, source, markers, slugs, result)
        },
        AdocContent::Compound(inner) => {
            proof {
                assert(decreases_to!(block => block.content->Compound_0@));
            }
            walk_blocks(inner, source, markers, slugs, result)
        },
        AdocContent::Attribute(key, value) => {
            match value {
                AdocValue::Text(t) => if str_eq(key.as_str(), "weight") {
                    result.weight = weight_of_text(t.as_str());
                    assert(result.model(slugs@) =~= (WalkModel { weight: weight_text(t@), ..w0 }));
                },
                AdocValue::Flag(_) => {},
            }
            Ok(())
        },
        _ => Ok(()),
    }
}

/// Walk a document to extract spec data. `markers` says whether `r[id]` at the
/// start of a paragraph counts.
pub fn walk(
    doc: &AdocDocument,
    source: &str,
    markers: bool,
    slugs: &mut SlugAllocator,
) -> (r: Result<WalkResult, DuplicateReq>)
    requires
        old(slugs).wf(),
    ensures
        final(slugs).wf(),
        match (r, walked(*doc, source@, markers, old(slugs)@)) {
            (Ok(x), Ok(w)) => x.model(final(slugs)@) == w && spans_fit(w.reqs),
            (Err(e), Err(base)) => e.base@ == base,
            _ => false,
        },
{
    let weight = match find_attribute(&doc.attributes, "weight") {
        Some(t) => weight_of_text(t),
        None => 0,
    };
    let mut result = WalkResult {
        reqs: Vec::new(),
        headings: Vec::new(),
        elements: Vec::new(),
        inline_code_spans: Vec::new(),
        weight,
        section_id_map: Vec::new(),
    };
    assert(result.model(slugs@) =~= nothing_walked(weight as int, slugs@));
    let no_blocks: Vec<AdocBlock> = Vec::new();
    let no_sections: Vec<AdocSection> = Vec::new();
    let (blocks, sections) = match &doc.body {
        AdocBody::Blocks(bs) => (bs, &no_sections),
        AdocBody::Sections(Some(bs), ss) => (bs, ss),
        AdocBody::Sections(None, ss) => (&no_blocks, ss),
        AdocBody::Parts(_) => (&no_blocks, &no_sections),
    };
    assert(blocks@ =~= leading_blocks(*doc));
    assert(sections@ =~= doc_sections(*doc));
    match walk_blocks(blocks, source, markers, slugs, &mut result) {
        Ok(_) => {},
        Err(e) => {
            return Err(e);
        },
    }
    let ghost w1 = result.model(slugs@);
    let mut i: usize = 0;
    while i < sections.len()
        invariant
            i <= sections@.len(),
            sections@ == doc_sections(*doc),
            slugs.wf(),
            spans_fit(req_models(result.reqs@)),
            walked(*doc, source@, markers, old(slugs)@) == walked_sections(
                source@,
                sections@,
                sections@.len() as int,
                markers,
                w1,
            ),
            walked_sections(source@, sections@, i as int, markers, w1) == Ok::<
                WalkModel,
                Seq<char>,
            >(result.model(slugs@)),
        decreases sections@.len() - i,
    {
        match walk_section(&sections[i], source, markers, slugs, &mut result) {
            Ok(_) => {},
            Err(e) => {
                proof {
                    lemma_sections_err(
                        source@,
                        sections@,
                        i + 1,
                        sections@.len() as int,
                        markers,
                        w1,
                    );
                }
                return Err(e);
            },
        }
        i = i + 1;
    }
    Ok(result)
}

/// What holds of everything that is extracted: no two requirements share a
/// base, each has the anchor of its id, no two headings share a slug, and no
/// slug is a requirement anchor.
pub open spec fn extraction_ok(w: WalkModel) -> bool {
    &&& slugs_ok(w.slugs)
    &&& forall|i: int, j: int|
        0 <= i < j < w.reqs.len() ==> (#[trigger] w.reqs[i]).id.0 != (#[trigger] w.reqs[j]).id.0
    &&& forall|i: int|
        0 <= i < w.reqs.len() ==> (#[trigger] w.reqs[i]).anchor_id == anchor_id(
            rule_text(w.reqs[i].id),
        )
    &&& forall|i: int, j: int|
        0 <= i < j < w.headings.len() ==> (#[trigger] w.headings[i]).id != (
        #[trigger] w.headings[j]).id
    &&& forall|i: int|
        0 <= i < w.headings.len() ==> w.slugs.emitted.contains((#[trigger] w.headings[i]).id)
}

proof fn lemma_with_req_ok(w: WalkModel, req: ReqModel)
    requires
        extraction_ok(w),
        !has_base(w.reqs, req.id.0),
        req.anchor_id == anchor_id(rule_text(req.id)),
    ensures
        extraction_ok(with_req(w, req)),
{
    let x = with_req(w, req);
    assert forall|i: int, j: int| 0 <= i < j < x.reqs.len() implies (#[trigger] x.reqs[i]).id.0 != (
    #[trigger] x.reqs[j]).id.0 by {
        if j == w.reqs.len() {
            assert(w.reqs[i].id.0 != req.id.0);
        }
    }
}

proof fn lemma_with_heading_ok(source: Seq<char>, s: AdocSection, w: WalkModel)
    requires
        extraction_ok(w),
    ensures
        extraction_ok(with_heading(source, s, w)),
{
    crate::slugs::law_allocation_keeps_state(w.slugs, slug_of(s.title@));
}

proof fn lemma_paragraph_ok(source: Seq<char>, i: Seq<AdocInline>, markers: bool, w: WalkModel)
    requires
        extraction_ok(w),
    ensures
        walked_paragraph(source, i, markers, w) matches Ok(x) ==> extraction_ok(x),
{
    let w1 = with_spans(w, inline_spans(i, i.len() as int));
    if i.len() > 0 && markers && paragraph_marker(i) is Some {
        let m = paragraph_marker(i)->0;
        if !has_base(w.reqs, (m.1).0) {
            lemma_with_req_ok(w1, paragraph_req(source, i, m));
        }
    }
}

proof fn lemma_block_ok(source: Seq<char>, b: AdocBlock, markers: bool, w: WalkModel)
    requires
        extraction_ok(w),
    ensures
        walked_block(source, b, markers, w) matches Ok(x) ==> extraction_ok(x),
    decreases b, 0int,
{
    match block_req_id(b) {
        Some(id) => {
            if !has_base(w.reqs, id.0) {
                lemma_with_req_ok(w, block_req(source, b, id));
            }
        },
        None => match b.content {
            AdocContent::Simple(i) => {
                lemma_paragraph_ok(source, i@, markers, w);
            },
            AdocContent::Section(s) => {
                lemma_section_ok(source, s, markers, w);
            },
            AdocContent::Compound(bs) => {
                lemma_blocks_ok(source, bs@, bs@.len() as int, markers, w);
            },
            _ => {},
        },
    }
}

proof fn lemma_blocks_ok(source: Seq<char>, bs: Seq<AdocBlock>, k: int, markers: bool, w: WalkModel)
    requires
        extraction_ok(w),
    ensures
        walked_blocks(source, bs, k, markers, w) matches Ok(x) ==> extraction_ok(x),
    decreases bs, k,
{
    if 0 < k <= bs.len() {
        lemma_blocks_ok(source, bs, k - 1, markers, w);
        if let Ok(x) = walked_blocks(source, bs, k - 1, markers, w) {
            lemma_block_ok(source, bs[k - 1], markers, x);
        }
    }
}

proof fn lemma_section_ok(source: Seq<char>, s: AdocSection, markers: bool, w: WalkModel)
    requires
        extraction_ok(w),
    ensures
        walked_section(source, s, markers, w) matches Ok(x) ==> extraction_ok(x),
    decreases s, 0int,
{
    lemma_with_heading_ok(source, s, w);
    lemma_blocks_ok(
        source,
        s.blocks@,
        s.blocks@.len() as int,
        markers,
        with_heading(source, s, w),
    );
}

proof fn lemma_sections_ok(
    source: Seq<char>,
    ss: Seq<AdocSection>,
    k: int,
    markers: bool,
    w: WalkModel,
)
    requires
        extraction_ok(w),
    ensures
        walked_sections(source, ss, k, markers, w) matches Ok(x) ==> extraction_ok(x),
    decreases k,
{
    if 0 < k <= ss.len() {
        lemma_sections_ok(source, ss, k - 1, markers, w);
        if let Ok(x) = walked_sections(source, ss, k - 1, markers, w) {
            lemma_section_ok(source, ss[k - 1], markers, x);
        }
    }
}

/// In every document that extraction accepts, no two requirements share a
/// base, no two headings share a slug, and every requirement has the anchor of
/// its id.
pub proof fn law_extraction_is_unambiguous(
    doc: AdocDocument,
    source: Seq<char>,
    markers: bool,
    slugs: SlugState,
)
    requires
        slugs_ok(slugs),
    ensures
        walked(doc, source, markers, slugs) matches Ok(w) ==> extraction_ok(w),
{
    let weight = match attribute_text(doc.attributes@, "weight"@) {
        Some(t) => weight_text(t),
        None => 0,
    };
    let w0 = nothing_walked(weight, slugs);
    let bs = leading_blocks(doc);
    let ss = doc_sections(doc);
    let n = bs.len() as int;
    lemma_blocks_ok(source, bs, n, markers, w0);
    if let Ok(w) = walked_blocks(source, bs, n, markers, w0) {
        lemma_sections_ok(source, ss, ss.len() as int, markers, w);
    }
}

/// No heading's slug is a requirement's anchor.
pub proof fn law_headings_and_anchors_are_disjoint(w: WalkModel, i: int, id: Seq<char>)
    requires
        extraction_ok(w),
        0 <= i < w.headings.len(),
    ensures
        w.headings[i].id != anchor_id(id),
{
    assert(w.slugs.emitted.contains(w.headings[i].id));
    crate::slugs::law_slug_is_no_anchor(w.headings[i].id, id);
}

} // verus!
