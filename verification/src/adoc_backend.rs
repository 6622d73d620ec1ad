//! The AsciiDoc spec formats: parsing documents and rendering them with
//! coverage badges.
//!
//! Requirements can be marked two ways: by a leading `r[id]` token on a
//! paragraph, or by a native `[role="requirement", id="..."]` open block. The
//! dialect with roles knows only the second.

use vstd::prelude::*;

use crate::adoc_html::{
    content_html, extract_content_html, plain_container_open, plain_open, post_process_html,
    post_process_roles_html, splice_all, splice_roles, with_bodies, with_section_ids, Splice,
};
use crate::adoc_renderable::{check_document, document_renders};
use crate::adoc_tree::{adoc_page, adoc_tree, parse_adoc, render_adoc, AdocDocument};
use crate::adoc_walk::{spans_fit, walk, walked, WalkModel, WalkResult};
use crate::api::{rule_models, ApiRule, RuleModel};
use crate::badge::{container_open, coverage_of, find_coverage, rule_coverage_badge_html};
use crate::document::{element_models, DocElement, DocModel, ElementModel, SpecDoc};
use crate::paths::{join_paths, path_join};
use crate::requirement::{req_models, ReqDefinition, ReqModel};
use crate::rule_id::rule_text;
use crate::slugs::{fresh_slugs, SlugAllocator, SlugState};
use crate::text::{byte_count, byte_len, copy_str, texts};

verus! {

/// Why an AsciiDoc document could not be turned into a spec document.
#[derive(Debug, Clone, PartialEq, Eq)]
pub enum AdocError {
    /// The document could not be parsed.
    Parse(String),
    /// A section is too deep, a block does not go with its context, or cross
    /// references lead back to where they stand.
    Unrenderable,
    /// Two requirements have this base.
    Duplicate(String),
    /// The document could not be rendered.
    Render(String),
    /// The rendered page does not hold the block of the requirement with this id.
    MissingBlock(String),
}

/// Why an AsciiDoc document could not be turned into a spec document.
pub enum AdocErrorModel {
    Parse(Seq<char>),
    Unrenderable,
    Duplicate(Seq<char>),
    Render(Seq<char>),
    MissingBlock(Seq<char>),
}

pub open spec fn adoc_error(e: AdocError) -> AdocErrorModel {
    match e {
        AdocError::Parse(t) => AdocErrorModel::Parse(t@),
        AdocError::Unrenderable => AdocErrorModel::Unrenderable,
        AdocError::Duplicate(b) => AdocErrorModel::Duplicate(b@),
        AdocError::Render(t) => AdocErrorModel::Render(t@),
        AdocError::MissingBlock(id) => AdocErrorModel::MissingBlock(id@),
    }
}

/// The spec document that an extracted document and its rendered page make.
/// `opens` holds the opening HTML of each requirement's container.
pub open spec fn doc_from(
    w: WalkModel,
    page: Seq<char>,
    source: Seq<char>,
    opens: Seq<Seq<char>>,
    roles: bool,
) -> Result<DocModel, Seq<char>> {
    let make = |s: Splice|
        DocModel {
            html: with_section_ids(s.html, w.section_ids),
            headings: w.headings,
            reqs: with_bodies(w.reqs, s.bodies),
            elements: w.elements,
            inline_code_spans: w.spans,
        };
    if roles {
        Ok(make(splice_roles(content_html(page), w.reqs, opens)))
    } else {
        match splice_all(content_html(page), source, w.reqs, opens) {
            Ok(s) => Ok(make(s)),
            Err(id) => Err(id),
        }
    }
}

/// Put an extracted document and its rendered page together.
fn document_from(
    walked_doc: WalkResult,
    page: &str,
    source: &str,
    opens: &Vec<String>,
    roles: bool,
    Ghost(slugs): Ghost<SlugState>,
) -> (r: Result<SpecDoc, String>)
    requires
        opens@.len() == walked_doc.reqs@.len(),
    ensures
        match (
            r,
            doc_from(walked_doc.model(slugs), page@, source@, texts(opens@), roles),
        ) {
            (Ok(d), Ok(m)) => d@ == m,
            (Err(e), Err(id)) => e@ == id,
            _ => false,
        },
{
    let content = extract_content_html(page);
    let mut reqs = walked_doc.reqs;
    let html = if roles {
        post_process_roles_html(content.as_str(), &mut reqs, &walked_doc.section_id_map, opens)
    } else {
        match post_process_html(
            content.as_str(),
            source,
            &mut reqs,
            &walked_doc.section_id_map,
            opens,
        ) {
            Ok(h) => h,
            Err(id) => {
                return Err(id);
            },
        }
    };
    Ok(
        SpecDoc {
            html,
            headings: walked_doc.headings,
            reqs,
            elements: walked_doc.elements,
            inline_code_spans: walked_doc.inline_code_spans,
        },
    )
}

/// The opening HTML of containers where no coverage is known.
pub open spec fn plain_opens(reqs: Seq<ReqModel>) -> Seq<Seq<char>> {
    reqs.map_values(|r: ReqModel| plain_open(r.anchor_id, r.span))
}

/// What the opening HTML of containers is made from.
#[derive(Clone, Copy)]
pub struct BadgeSource<'a> {
    pub rules: &'a Vec<ApiRule>,
    /// Absolute path of the document.
    pub source_file: &'a str,
    pub spec_name: &'a str,
    pub impl_name: &'a str,
}

/// The opening HTML of containers with coverage badges.
pub open spec fn badge_opens(
    reqs: Seq<ReqModel>,
    rules: Seq<RuleModel>,
    source_file: Seq<char>,
    spec_name: Seq<char>,
    impl_name: Seq<char>,
) -> Seq<Seq<char>> {
    reqs.map_values(
        |r: ReqModel|
            container_open(r, coverage_of(rules, rule_text(r.id)), source_file, spec_name, impl_name),
    )
}

/// The opening HTML of each requirement's container.
pub open spec fn opens_for(reqs: Seq<ReqModel>, badges: Option<BadgeSource>) -> Seq<Seq<char>> {
    match badges {
        Some(b) => badge_opens(
            reqs,
            rule_models(b.rules@),
            b.source_file@,
            b.spec_name@,
            b.impl_name@,
        ),
        None => plain_opens(reqs),
    }
}

fn make_opens(reqs: &Vec<ReqDefinition>, badges: &Option<BadgeSource>) -> (r: Vec<String>)
    requires
        spans_fit(req_models(reqs@)),
    ensures
        texts(r@) == opens_for(req_models(reqs@), *badges),
{
    let ghost rs = req_models(reqs@);
    let mut out: Vec<String> = Vec::new();
    let mut i: usize = 0;
    while i < reqs.len()
        invariant
            i <= reqs@.len(),
            rs == req_models(reqs@),
            spans_fit(rs),
            out@.len() == i,
            forall|k: int| 0 <= k < i ==> (#[trigger] out@[k])@ == opens_for(rs, *badges)[k],
        decreases reqs@.len() - i,
    {
        assert(rs[i as int] == reqs@[i as int]@);
        let open = match badges {
            Some(b) => {
                let text = reqs[i].id.text();
                let cov = find_coverage(b.rules, text.as_str());
                rule_coverage_badge_html(&reqs[i], &cov, b.source_file, b.spec_name, b.impl_name)
            },
            None => plain_container_open(reqs[i].anchor_id.as_str(), reqs[i].span),
        };
        out.push(open);
        i = i + 1;
    }
    assert(texts(out@) =~= opens_for(rs, *badges));
    out
}

/// The spec document that a parsed tree and a rendered page make, and the slugs
/// handed out after it.
pub open spec fn assembled(
    tree: Result<AdocDocument, Seq<char>>,
    page: Result<Seq<char>, Seq<char>>,
    content: Seq<char>,
    roles: bool,
    badges: Option<BadgeSource>,
    slugs: SlugState,
) -> Result<(DocModel, SlugState), AdocErrorModel> {
    match tree {
        Err(e) => Err(AdocErrorModel::Parse(e)),
        Ok(t) => match walked(t, content, !roles, slugs) {
            Err(base) => Err(AdocErrorModel::Duplicate(base)),
            Ok(w) => match page {
                Err(e) => Err(AdocErrorModel::Render(e)),
                Ok(p) => match doc_from(w, p, content, opens_for(w.reqs, badges), roles) {
                    Ok(d) => Ok((d, w.slugs)),
                    Err(id) => Err(AdocErrorModel::MissingBlock(id)),
                },
            },
        },
    }
}

/// What parsing gave.
pub open spec fn tree_of(r: Result<AdocDocument, String>) -> Result<AdocDocument, Seq<char>> {
    match r {
        Ok(t) => Ok(t),
        Err(e) => Err(e@),
    }
}

/// What rendering gave.
pub open spec fn page_of(r: Result<String, String>) -> Result<Seq<char>, Seq<char>> {
    match r {
        Ok(p) => Ok(p@),
        Err(e) => Err(e@),
    }
}

/// Make a spec document of what parsing and rendering gave.
pub fn assemble(
    tree: Result<AdocDocument, String>,
    page: Result<String, String>,
    content: &str,
    roles: bool,
    badges: &Option<BadgeSource>,
    slugs: &mut SlugAllocator,
) -> (r: Result<SpecDoc, AdocError>)
    requires
        old(slugs).wf(),
    ensures
        final(slugs).wf(),
        match (
            r,
            assembled(tree_of(tree), page_of(page), content@, roles, *badges, old(slugs)@),
        ) {
            (Ok(d), Ok(m)) => d@ == m.0 && final(slugs)@ == m.1,
            (Err(e), Err(m)) => adoc_error(e) == m,
            _ => false,
        },
{
    let t = match tree {
        Ok(t) => t,
        Err(e) => {
            return Err(AdocError::Parse(e));
        },
    };
    let result = match walk(&t, content, !roles, slugs) {
        Ok(w) => w,
        Err(e) => {
            return Err(AdocError::Duplicate(e.base));
        },
    };
    let p = match page {
        Ok(p) => p,
        Err(e) => {
            return Err(AdocError::Render(e));
        },
    };
    let opens = make_opens(&result.reqs, badges);
    assert(texts(opens@).len() == opens@.len());
    assert(req_models(result.reqs@).len() == result.reqs@.len());
    match document_from(result, p.as_str(), content, &opens, roles, Ghost(slugs@)) {
        Ok(d) => Ok(d),
        Err(id) => Err(AdocError::MissingBlock(id)),
    }
}

/// The names of the attributes that are read from documents.
pub open spec fn attribute_names() -> Seq<Seq<char>> {
    seq!["status"@, "level"@, "since"@, "until"@, "tags"@, "weight"@]
}

fn asked_names() -> (r: Vec<String>)
    ensures
        texts(r@) == attribute_names(),
{
    let mut v: Vec<String> = Vec::new();
    v.push(copy_str("status"));
    v.push(copy_str("level"));
    v.push(copy_str("since"));
    v.push(copy_str("until"));
    v.push(copy_str("tags"));
    v.push(copy_str("weight"));
    assert(texts(v@) =~= attribute_names());
    v
}

/// What every document may take of memory while it is parsed.
pub const ARENA_BASE: usize = 0x1000_0000;

/// What a document may take of memory for each of its bytes besides.
pub const ARENA_PER_BYTE: usize = 0x400;

/// How much memory a document may take while it is parsed.
pub open spec fn arena_limit(content: Seq<char>) -> usize {
    if byte_len(content) <= (usize::MAX - ARENA_BASE) / ARENA_PER_BYTE as int {
        (ARENA_BASE + ARENA_PER_BYTE * byte_len(content)) as usize
    } else {
        usize::MAX
    }
}

fn arena_limit_of(content: &str) -> (r: usize)
    ensures
        r == arena_limit(content@),
{
    let n = byte_count(content);
    if n <= (usize::MAX - ARENA_BASE) / ARENA_PER_BYTE {
        ARENA_BASE + ARENA_PER_BYTE * n
    } else {
        usize::MAX
    }
}

/// What parsing gives of a document, with the attributes that are read.
pub open spec fn tree_in(content: Seq<char>) -> Result<AdocDocument, Seq<char>> {
    adoc_tree(content, attribute_names(), arena_limit(content))
}

/// What rendering gives of a document.
pub open spec fn page_in(content: Seq<char>) -> Result<Seq<char>, Seq<char>> {
    adoc_page(content, arena_limit(content))
}

/// A document is parsed and cannot be rendered.
pub open spec fn is_unrenderable(content: Seq<char>) -> bool {
    tree_in(content) matches Ok(t) && !document_renders(t)
}

/// The spec document that a text makes, and the slugs handed out after it.
pub open spec fn document_in(
    content: Seq<char>,
    roles: bool,
    badges: Option<BadgeSource>,
    slugs: SlugState,
) -> Result<(DocModel, SlugState), AdocErrorModel> {
    if is_unrenderable(content) {
        Err(AdocErrorModel::Unrenderable)
    } else {
        assembled(tree_in(content), page_in(content), content, roles, badges, slugs)
    }
}

/// Parse and render a document, and make a spec document of both.
fn read_document(content: &str, roles: bool, badges: &Option<BadgeSource>, slugs: &mut SlugAllocator) -> (r:
    Result<SpecDoc, AdocError>)
    requires
        old(slugs).wf(),
    ensures
        final(slugs).wf(),
        match (r, document_in(content@, roles, *badges, old(slugs)@)) {
            (Ok(d), Ok(m)) => d@ == m.0 && final(slugs)@ == m.1,
            (Err(e), Err(m)) => adoc_error(e) == m,
            _ => false,
        },
{
    let names = asked_names();
    let limit = arena_limit_of(content);
    let tree = match parse_adoc(content, &names, limit) {
        Ok(t) => t,
        Err(e) => {
            return Err(AdocError::Parse(e));
        },
    };
    if !check_document(&tree) {
        return Err(AdocError::Unrenderable);
    }
    let page = render_adoc(content, &names, limit);
    assemble(Ok(tree), page, content, roles, badges, slugs)
}

/// Parse an AsciiDoc document into a spec document.
pub fn parse_asciidoc(content: &str, roles: bool) -> (r: Result<SpecDoc, AdocError>)
    ensures
        match (r, document_in(content@, roles, None, fresh_slugs())) {
            (Ok(d), Ok(m)) => d@ == m.0,
            (Err(e), Err(m)) => adoc_error(e) == m,
            _ => false,
        },
{
    let mut slugs = SlugAllocator::new();
    read_document(content, roles, &None, &mut slugs)
}

/// One spec source file.
pub struct RenderSource<'a> {
    pub path: &'a str,
    pub content: &'a str,
}

/// What spec sources are rendered with.
pub struct RenderInput<'a> {
    pub sources: &'a Vec<RenderSource<'a>>,
    /// Project root.
    pub root: &'a str,
    /// The rules whose coverage the badges show.
    pub rules: &'a Vec<ApiRule>,
    pub spec_name: &'a str,
    pub impl_name: &'a str,
}

/// One logical section of a rendered spec.
#[derive(Debug)]
pub struct RenderedSection {
    /// Which source the section comes from.
    pub source_idx: usize,
    pub html: String,
    pub elements: Vec<DocElement>,
    pub head_injections: Vec<String>,
}

/// What a section says.
#[verifier::ext_equal]
pub struct SectionModel {
    pub source_idx: usize,
    pub html: Seq<char>,
    pub elements: Seq<ElementModel>,
    pub head_injections: Seq<Seq<char>>,
}

impl View for RenderedSection {
    type V = SectionModel;

    open spec fn view(&self) -> SectionModel {
        SectionModel {
            source_idx: self.source_idx,
            html: self.html@,
            elements: element_models(self.elements@),
            head_injections: texts(self.head_injections@),
        }
    }
}

pub open spec fn section_models(v: Seq<RenderedSection>) -> Seq<SectionModel> {
    v.map_values(|s: RenderedSection| s@)
}

/// Rendered spec sources.
#[derive(Debug)]
pub struct RenderOutput {
    pub sections: Vec<RenderedSection>,
}

/// The sections of the first `n` sources, and the slugs handed out after them;
/// the first error among them.
pub open spec fn rendered_sections(input: RenderInput, n: int, roles: bool, slugs: SlugState) -> Result<
    (Seq<SectionModel>, SlugState),
    AdocErrorModel,
>
    decreases n,
{
    if n <= 0 {
        Ok((Seq::empty(), slugs))
    } else {
        match rendered_sections(input, n - 1, roles, slugs) {
            Err(e) => Err(e),
            Ok((before, s)) => {
                let src = input.sources@[n - 1];
                match rendered_source(input, src, roles, s) {
                    Err(e) => Err(e),
                    Ok((doc, t)) => Ok(
                        (
                            before.push(
                                SectionModel {
                                    source_idx: (n - 1) as usize,
                                    html: doc.html,
                                    elements: doc.elements,
                                    head_injections: Seq::empty(),
                                },
                            ),
                            t,
                        ),
                    ),
                }
            },
        }
    }
}

/// A source rendered with coverage badges.
#[verifier::opaque]
pub open spec fn rendered_source(
    input: RenderInput,
    src: RenderSource,
    roles: bool,
    slugs: SlugState,
) -> Result<(DocModel, SlugState), AdocErrorModel> {
    let opens = |w: WalkModel|
        badge_opens(
            w.reqs,
            rule_models(input.rules@),
            path_join(input.root@, src.path@),
            input.spec_name@,
            input.impl_name@,
        );
    match tree_in(src.content@) {
        Err(e) => Err(AdocErrorModel::Parse(e)),
        Ok(t) => if !document_renders(t) {
            Err(AdocErrorModel::Unrenderable)
        } else {
            match (walked(t, src.content@, !roles, slugs), page_in(src.content@)) {
                (Err(base), _) => Err(AdocErrorModel::Duplicate(base)),
                (Ok(_), Err(e)) => Err(AdocErrorModel::Render(e)),
                (Ok(w), Ok(p)) => match doc_from(w, p, src.content@, opens(w), roles) {
                    Ok(d) => Ok((d, w.slugs)),
                    Err(id) => Err(AdocErrorModel::MissingBlock(id)),
                },
            }
        },
    }
}

proof fn lemma_sections_error(input: RenderInput, k: int, n: int, roles: bool, slugs: SlugState)
    requires
        0 <= k <= n,
        rendered_sections(input, k, roles, slugs) is Err,
    ensures
        rendered_sections(input, n, roles, slugs) == rendered_sections(input, k, roles, slugs),
    decreases n - k,
{
    if k < n {
        lemma_sections_error(input, k + 1, n, roles, slugs);
    }
}

fn render_source(input: &RenderInput, src: &RenderSource, roles: bool, slugs: &mut SlugAllocator) -> (r:
    Result<SpecDoc, AdocError>)
    requires
        old(slugs).wf(),
    ensures
        final(slugs).wf(),
        match (r, rendered_source(*input, *src, roles, old(slugs)@)) {
            (Ok(d), Ok(m)) => d@ == m.0 && final(slugs)@ == m.1,
            (Err(e), Err(m)) => adoc_error(e) == m,
            _ => false,
        },
{
    let source_file = join_paths(input.root, src.path);
    let badges = Some(
        BadgeSource {
            rules: input.rules,
            source_file: source_file.as_str(),
            spec_name: input.spec_name,
            impl_name: input.impl_name,
        },
    );
    proof {
        reveal(rendered_source);
    }
    read_document(src.content, roles, &badges, slugs)
}

/// Render spec sources to HTML with coverage badges. Heading slugs are unique
/// across all sources that share the allocator.
pub fn render_asciidoc(input: &RenderInput, roles: bool, slugs: &mut SlugAllocator) -> (r: Result<
    RenderOutput,
    AdocError,
>)
    requires
        old(slugs).wf(),
    ensures
        final(slugs).wf(),
        match (
            r,
            rendered_sections(*input, input.sources@.len() as int, roles, old(slugs)@),
        ) {
            (Ok(o), Ok(m)) => section_models(o.sections@) == m.0 && final(slugs)@ == m.1,
            (Err(e), Err(m)) => adoc_error(e) == m,
            _ => false,
        },
{
    let mut sections: Vec<RenderedSection> = Vec::new();
    let ghost s0 = slugs@;
    let mut i: usize = 0;
    assert(section_models(sections@) =~= Seq::<SectionModel>::empty());
    while i < input.sources.len()
        invariant
            i <= input.sources@.len(),
            slugs.wf(),
            s0 == old(slugs)@,
            rendered_sections(*input, i as int, roles, s0) == Ok::<
                (Seq<SectionModel>, SlugState),
                AdocErrorModel,
            >((section_models(sections@), slugs@)),
        decreases input.sources@.len() - i,
    {
        let src = &input.sources[i];
        match render_source(input, src, roles, slugs) {
            Ok(doc) => {
                let head_injections: Vec<String> = Vec::new();
                assert(texts(head_injections@) =~= Seq::<Seq<char>>::empty());
                let one = RenderedSection {
                    source_idx: i,
                    html: doc.html,
                    elements: doc.elements,
                    head_injections,
                };
                let ghost before = sections@;
                sections.push(one);
                assert(section_models(sections@) =~= section_models(before).push(one@));
            },
            Err(e) => {
                proof {
                    lemma_sections_error(*input, i + 1, input.sources@.len() as int, roles, s0);
                }
                return Err(e);
            },
        }
        i = i + 1;
    }
    Ok(RenderOutput { sections })
}

} // verus!
