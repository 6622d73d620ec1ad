//! What an editor is told about the rule at a position.

use vstd::prelude::*;

use crate::api::{
    code_refs, copy_code_refs, forward_models, spec_infos, ApiCodeRef, ApiConfig, ApiRule,
    ApiSpecForward, ImplKey, RuleModel, SpecInfoModel,
};
use crate::bindings::markdown_diff;
use crate::diagnostics::{similar_ids, suggest_similar_rule_ids};
use crate::document::SpecDoc;
use crate::format::SpecFormat;
use crate::lookup::{
    find_rule_at_position, find_rule_in_data, found_matches, found_rule, is_new_base,
    is_valid_new_id, rule_at, FileView,
};
use crate::markers::diff_inline;
use crate::positions::{span_range, span_to_range};
use crate::requirement::{copy_opt, req_models, ReqModel};
use crate::rule_id::{
    classify_reference_for_rule, id_views, parse_rule_id, parsed_rule_id, reference_match, rule_text,
    RuleId, RuleIdMatch,
};
use crate::text::{byte_count, byte_len, concat3, copy_str, opt_text, str_eq, texts};
use crate::validation::{source_models, SourceFile, SourceModel};

verus! {

/// What is known of a project, as far as an editor asks for it.
pub struct ProjectView<'a> {
    pub config: &'a ApiConfig,
    pub forward: &'a Vec<(ImplKey, ApiSpecForward)>,
    pub files: &'a Vec<SourceFile>,
}

/// What is known of a project, as far as an editor asks for it.
#[verifier::ext_equal]
pub struct ProjectModel {
    pub specs: Seq<SpecInfoModel>,
    pub forward: Seq<((Seq<char>, Seq<char>), Seq<RuleModel>)>,
    pub files: Seq<SourceModel>,
}

impl<'a> View for ProjectView<'a> {
    type V = ProjectModel;

    open spec fn view(&self) -> ProjectModel {
        ProjectModel {
            specs: spec_infos(self.config.specs@),
            forward: forward_models(self.forward@),
            files: source_models(self.files@),
        }
    }
}

/// The rule with the given id in the project, with the name of its spec.
pub open spec fn project_rule(p: ProjectModel, id: (Seq<char>, u32)) -> Option<
    (Seq<char>, RuleModel),
> {
    found_rule(p.forward, p.forward.len() as int, id.0)
}

/// A line counted from 0, as editors count.
pub open spec fn zero_based(line: usize) -> u32 {
    #[verifier::truncate]
    ((if line > 0 {
        (line - 1) as usize
    } else {
        0usize
    }) as u32)
}

/// A line counted from 0, as editors count.
pub fn to_zero_based(line: usize) -> (r: u32)
    ensures
        r == zero_based(line),
{
    let n: usize = line.saturating_sub(1);
    #[verifier::truncate]
    (n as u32)
}

/// The column of a rule, 0 where none is known.
pub open spec fn rule_column(column: Option<usize>) -> u32 {
    match column {
        Some(c) => #[verifier::truncate]
        (c as u32),
        None => 0,
    }
}

/// The column of a rule, 0 where none is known.
pub fn column_of(column: Option<usize>) -> (r: u32)
    ensures
        r == rule_column(column),
{
    match column {
        Some(c) => #[verifier::truncate]
        (c as u32),
        None => 0,
    }
}

/// A place to jump to, with 0-indexed positions.
#[derive(Debug, Clone, PartialEq, Eq)]
pub struct LspLocation {
    pub path: String,
    pub line: u32,
    pub character: u32,
}

impl View for LspLocation {
    type V = (Seq<char>, u32, u32);

    open spec fn view(&self) -> (Seq<char>, u32, u32) {
        (self.path@, self.line, self.character)
    }
}

pub open spec fn locations(v: Seq<LspLocation>) -> Seq<(Seq<char>, u32, u32)> {
    v.map_values(|l: LspLocation| l@)
}

/// Where a rule is defined.
pub open spec fn definition_place(r: RuleModel) -> Seq<(Seq<char>, u32, u32)> {
    match (r.source_file, r.source_line) {
        (Some(file), Some(line)) => seq![(file, zero_based(line), rule_column(r.source_column))],
        _ => Seq::empty(),
    }
}

/// The places of references.
pub open spec fn reference_places(refs: Seq<(Seq<char>, usize)>) -> Seq<(Seq<char>, u32, u32)> {
    refs.map_values(|r: (Seq<char>, usize)| (r.0, zero_based(r.1), 0u32))
}

fn push_definition(r: &ApiRule, out: &mut Vec<LspLocation>)
    ensures
        locations(final(out)@) == locations(old(out)@) + definition_place(r@),
{
    let ghost before = out@;
    match (&r.source_file, r.source_line) {
        (Some(file), Some(line)) => {
            let l = LspLocation {
                path: copy_str(file.as_str()),
                line: to_zero_based(line),
                character: column_of(r.source_column),
            };
            out.push(l);
            assert(locations(out@) =~= locations(before) + seq![l@]);
        },
        _ => {
            assert(locations(before) + Seq::<(Seq<char>, u32, u32)>::empty() =~= locations(before));
        },
    }
}

fn push_places(refs: &Vec<ApiCodeRef>, out: &mut Vec<LspLocation>)
    ensures
        locations(final(out)@) == locations(old(out)@) + reference_places(code_refs(refs@)),
{
    let ghost start = locations(out@);
    let ghost ps = reference_places(code_refs(refs@));
    let mut i: usize = 0;
    assert(start + ps.take(0) =~= start);
    while i < refs.len()
        invariant
            i <= refs@.len(),
            ps == reference_places(code_refs(refs@)),
            locations(out@) == start + ps.take(i as int),
        decreases refs@.len() - i,
    {
        let ghost before = out@;
        let l = LspLocation {
            path: copy_str(refs[i].file.as_str()),
            line: to_zero_based(refs[i].line),
            character: 0,
        };
        out.push(l);
        proof {
            assert(code_refs(refs@)[i as int] == refs@[i as int]@);
            assert(ps[i as int] == l@);
            assert(locations(out@) =~= locations(before).push(l@));
            assert(ps.take(i + 1) =~= ps.take(i as int).push(ps[i as int]));
            assert(locations(out@) =~= start + ps.take(i + 1));
        }
        i = i + 1;
    }
    assert(ps.take(i as int) =~= ps);
}

/// The rule at a position, with the name of its spec.
pub open spec fn rule_shown_at(p: ProjectModel, v: FileView, line: u32, character: u32) -> Option<
    (Seq<char>, RuleModel),
> {
    match rule_at(p.files, v, line, character) {
        Some(a) => project_rule(p, a.req_id),
        None => None,
    }
}

fn find_shown_rule(p: &ProjectView<'_>, v: &FileView, line: u32, character: u32) -> (r: Option<
    (usize, usize),
>)
    ensures
        found_matches(p.forward@, r, rule_shown_at(p@, *v, line, character)),
{
    match find_rule_at_position(p.files, v, line, character) {
        Some(a) => {
            assert(p@.forward.len() == p.forward@.len());
            find_rule_in_data(p.forward, &a.req_id)
        },
        None => None,
    }
}

/// Get the definition location for a reference at a position.
pub fn lsp_definition(p: &ProjectView<'_>, v: &FileView, line: u32, character: u32) -> (r: Vec<
    LspLocation,
>)
    ensures
        locations(r@) == match rule_shown_at(p@, *v, line, character) {
            Some((_, rule)) => definition_place(rule),
            None => Seq::empty(),
        },
{
    let mut out: Vec<LspLocation> = Vec::new();
    assert(locations(out@) =~= Seq::<(Seq<char>, u32, u32)>::empty());
    match find_shown_rule(p, v, line, character) {
        Some((i, j)) => {
            let rule = &p.forward[i].1.rules[j];
            push_definition(rule, &mut out);
            assert(Seq::<(Seq<char>, u32, u32)>::empty() + definition_place(rule@)
                =~= definition_place(rule@));
        },
        None => {},
    }
    out
}

/// Get the implementation locations for a reference at a position.
pub fn lsp_implementation(p: &ProjectView<'_>, v: &FileView, line: u32, character: u32) -> (r: Vec<
    LspLocation,
>)
    ensures
        locations(r@) == match rule_shown_at(p@, *v, line, character) {
            Some((_, rule)) => reference_places(rule.impl_refs),
            None => Seq::empty(),
        },
{
    let mut out: Vec<LspLocation> = Vec::new();
    assert(locations(out@) =~= Seq::<(Seq<char>, u32, u32)>::empty());
    match find_shown_rule(p, v, line, character) {
        Some((i, j)) => {
            let rule = &p.forward[i].1.rules[j];
            push_places(&rule.impl_refs, &mut out);
            assert(Seq::<(Seq<char>, u32, u32)>::empty() + reference_places(rule@.impl_refs)
                =~= reference_places(rule@.impl_refs));
        },
        None => {},
    }
    out
}

/// All places of a rule: its definition if asked for, then the places that
/// implement it, verify it and depend on it.
pub open spec fn all_places(r: RuleModel, include_declaration: bool) -> Seq<(Seq<char>, u32, u32)> {
    (if include_declaration {
        definition_place(r)
    } else {
        Seq::empty()
    }) + reference_places(r.impl_refs) + reference_places(r.verify_refs) + reference_places(
        r.depends_refs,
    )
}

/// Get all references to a requirement.
pub fn lsp_references(
    p: &ProjectView<'_>,
    v: &FileView,
    line: u32,
    character: u32,
    include_declaration: bool,
) -> (r: Vec<LspLocation>)
    ensures
        locations(r@) == match rule_shown_at(p@, *v, line, character) {
            Some((_, rule)) => all_places(rule, include_declaration),
            None => Seq::empty(),
        },
{
    let mut out: Vec<LspLocation> = Vec::new();
    assert(locations(out@) =~= Seq::<(Seq<char>, u32, u32)>::empty());
    match find_shown_rule(p, v, line, character) {
        Some((i, j)) => {
            let rule = &p.forward[i].1.rules[j];
            if include_declaration {
                push_definition(rule, &mut out);
                assert(locations(out@) =~= definition_place(rule@));
            }
            push_places(&rule.impl_refs, &mut out);
            push_places(&rule.verify_refs, &mut out);
            push_places(&rule.depends_refs, &mut out);
        },
        None => {},
    }
    out
}

/// A version of a rule to look for in the history of a file.
#[derive(Debug, Clone, PartialEq, Eq)]
pub struct PreviousVersion {
    pub source_file: String,
    pub rule_id: RuleId,
}

/// A version to look for agrees with the model.
pub open spec fn previous_matches(
    r: Option<PreviousVersion>,
    m: Option<(Seq<char>, (Seq<char>, u32))>,
) -> bool {
    match (r, m) {
        (Some(a), Some(b)) => a.source_file@ == b.0 && a.rule_id@ == b.1,
        (None, None) => true,
        _ => false,
    }
}

/// What a rule is compared with where an editor shows it: the version before it
/// where the reference is up to date, the version referred to where it is stale.
pub open spec fn hover_previous(r: RuleModel, reference: (Seq<char>, u32)) -> Option<
    (Seq<char>, (Seq<char>, u32)),
> {
    match (reference_match(r.id, reference), r.source_file) {
        (RuleIdMatch::Exact, Some(file)) => if r.id.1 > 1 {
            Some((file, (r.id.0, (r.id.1 - 1) as u32)))
        } else {
            None
        },
        (RuleIdMatch::Stale, Some(file)) => Some((file, reference)),
        _ => None,
    }
}

fn previous_for_hover(r: &ApiRule, reference: &RuleId) -> (p: Option<PreviousVersion>)
    ensures
        previous_matches(p, hover_previous(r@, reference@)),
{
    let m = classify_reference_for_rule(&r.id, reference);
    match &r.source_file {
        None => None,
        Some(file) => match m {
            RuleIdMatch::Exact => if r.id.version > 1 {
                let id = RuleId { base: copy_str(r.id.base.as_str()), version: r.id.version - 1 };
                Some(PreviousVersion { source_file: copy_str(file.as_str()), rule_id: id })
            } else {
                None
            },
            RuleIdMatch::Stale => Some(
                PreviousVersion {
                    source_file: copy_str(file.as_str()),
                    rule_id: reference.copy(),
                },
            ),
            RuleIdMatch::NoMatch => None,
        },
    }
}

/// What is shown of a rule at a position.
#[derive(Debug, PartialEq, Eq)]
pub struct HoverInfo {
    pub rule_id: RuleId,
    pub raw: String,
    pub spec_name: String,
    pub spec_url: Option<String>,
    pub source_file: Option<String>,
    pub format: SpecFormat,
    pub impl_count: usize,
    pub verify_count: usize,
    pub impl_refs: Vec<ApiCodeRef>,
    pub verify_refs: Vec<ApiCodeRef>,
    pub range: (u32, u32, u32, u32),
    /// The version to compare with, if there is one to look for.
    pub previous: Option<PreviousVersion>,
}

/// The URL of a spec.
pub open spec fn spec_url(specs: Seq<SpecInfoModel>, name: Seq<char>, i: int) -> Option<Seq<char>>
    decreases specs.len() - i,
{
    if i < 0 || i >= specs.len() {
        None
    } else if specs[i].name == name {
        specs[i].source_url
    } else {
        spec_url(specs, name, i + 1)
    }
}

fn url_of_spec(config: &ApiConfig, name: &str) -> (r: Option<String>)
    ensures
        opt_text(r) == spec_url(spec_infos(config.specs@), name@, 0),
{
    let ghost ss = spec_infos(config.specs@);
    let mut i: usize = 0;
    while i < config.specs.len()
        invariant
            i <= config.specs@.len(),
            ss == spec_infos(config.specs@),
            spec_url(ss, name@, 0) == spec_url(ss, name@, i as int),
        decreases config.specs@.len() - i,
    {
        assert(ss[i as int] == config.specs@[i as int]@);
        if str_eq(config.specs[i].name.as_str(), name) {
            return copy_opt(&config.specs[i].source_url);
        }
        i = i + 1;
    }
    None
}

/// What is shown of a rule.
pub open spec fn hover_holds(
    h: HoverInfo,
    p: ProjectModel,
    content: Seq<char>,
    at: crate::lookup::AtModel,
    found: (Seq<char>, RuleModel),
) -> bool {
    let rule = found.1;
    &&& h.rule_id@ == rule.id
    &&& h.raw@ == rule.raw
    &&& h.spec_name@ == found.0
    &&& opt_text(h.spec_url) == spec_url(p.specs, found.0, 0)
    &&& opt_text(h.source_file) == rule.source_file
    &&& h.format == rule.format
    &&& h.impl_count == rule.impl_refs.len()
    &&& h.verify_count == rule.verify_refs.len()
    &&& code_refs(h.impl_refs@) == rule.impl_refs
    &&& code_refs(h.verify_refs@) == rule.verify_refs
    &&& h.range == span_range(content, at.span.offset, at.span.length)
    &&& previous_matches(h.previous, hover_previous(rule, at.req_id))
}

/// Get hover info for a position in a file.
pub fn lsp_hover(p: &ProjectView<'_>, v: &FileView, line: u32, character: u32) -> (r: Option<HoverInfo>)
    ensures
        match (rule_at(p@.files, *v, line, character), r) {
            (Some(at), Some(h)) => project_rule(p@, at.req_id) is Some && hover_holds(
                h,
                p@,
                v.content@,
                at,
                project_rule(p@, at.req_id)->0,
            ),
            (Some(at), None) => project_rule(p@, at.req_id) is None,
            (None, h) => h is None,
        },
{
    let at = match find_rule_at_position(p.files, v, line, character) {
        Some(a) => a,
        None => {
            return None;
        },
    };
    assert(p@.forward.len() == p.forward@.len());
    let (i, j) = match find_rule_in_data(p.forward, &at.req_id) {
        Some(found) => found,
        None => {
            return None;
        },
    };
    let spec_name = p.forward[i].0.spec_name.as_str();
    let rule = &p.forward[i].1.rules[j];
    let range = span_to_range(v.content.as_str(), at.span.offset, at.span.length);
    assert(code_refs(rule.impl_refs@).len() == rule.impl_refs@.len());
    assert(code_refs(rule.verify_refs@).len() == rule.verify_refs@.len());
    Some(
        HoverInfo {
            rule_id: rule.id.copy(),
            raw: copy_str(rule.raw.as_str()),
            spec_name: copy_str(spec_name),
            spec_url: url_of_spec(p.config, spec_name),
            source_file: copy_opt(&rule.source_file),
            format: rule.format,
            impl_count: rule.impl_refs.len(),
            verify_count: rule.verify_refs.len(),
            impl_refs: copy_code_refs(&rule.impl_refs),
            verify_refs: copy_code_refs(&rule.verify_refs),
            range,
            previous: previous_for_hover(rule, &at.req_id),
        },
    )
}

/// The text of the first requirement with the given id in a document.
pub open spec fn historical_text(reqs: Seq<ReqModel>, id: (Seq<char>, u32), i: int) -> Option<Seq<char>>
    decreases reqs.len() - i,
{
    if i < 0 || i >= reqs.len() {
        None
    } else if rule_text(reqs[i].id) == rule_text(id) {
        Some(reqs[i].raw)
    } else {
        historical_text(reqs, id, i + 1)
    }
}

/// Find the text of a rule in a parsed document.
pub fn find_rule_text_in_spec(doc: &SpecDoc, rule_id: &RuleId) -> (r: Option<String>)
    ensures
        opt_text(r) == historical_text(doc@.reqs, rule_id@, 0),
{
    let ghost rs = doc@.reqs;
    let wanted = rule_id.text();
    let mut i: usize = 0;
    while i < doc.reqs.len()
        invariant
            i <= doc.reqs@.len(),
            rs == req_models(doc.reqs@),
            wanted@ == rule_text(rule_id@),
            historical_text(rs, rule_id@, 0) == historical_text(rs, rule_id@, i as int),
        decreases doc.reqs@.len() - i,
    {
        assert(rs[i as int] == doc.reqs@[i as int]@);
        let id = doc.reqs[i].id.text();
        if str_eq(id.as_str(), wanted.as_str()) {
            return Some(copy_str(doc.reqs[i].raw.as_str()));
        }
        i = i + 1;
    }
    None
}

/// What is shown for a diff: the diff itself, the current text where the diff
/// is empty, and both texts where there is no diff.
pub open spec fn shown_diff(diff: Option<Seq<char>>, old_text: Seq<char>, current: Seq<char>) -> Seq<
    char,
> {
    match diff {
        Some(d) => if d.len() == 0 {
            current
        } else {
            d
        },
        None => "~~"@ + old_text + "~~\n\n"@ + current,
    }
}

/// What is shown for a diff.
pub fn show_diff(diff: Option<String>, old_text: &str, current: &str) -> (r: String)
    ensures
        r@ == shown_diff(opt_text(diff), old_text@, current@),
{
    match diff {
        Some(d) => {
            let n: usize = d.as_str().unicode_len();
            if n == 0 {
                copy_str(current)
            } else {
                d
            }
        },
        None => {
            let mut m = concat3("~~", old_text, "~~\n\n");
            m.append(current);
            m
        },
    }
}

/// Diff an earlier text of a rule against its current text.
pub fn diff_against(fmt: SpecFormat, historical: &str, current: &str) -> (r: String)
    ensures
        r@ == shown_diff(Some(markdown_diff(historical@, current@)), historical@, current@),
{
    show_diff(diff_inline(fmt, historical, current), historical, current)
}

/// Where a rename may begin.
#[derive(Debug, PartialEq, Eq)]
pub struct PrepareRenameResult {
    pub range: (u32, u32, u32, u32),
    pub placeholder: String,
}

/// Prepare a rename (check if renaming is valid).
pub fn lsp_prepare_rename(p: &ProjectView<'_>, v: &FileView, line: u32, character: u32) -> (r: Option<
    PrepareRenameResult,
>)
    ensures
        match (rule_at(p@.files, *v, line, character), r) {
            (Some(at), Some(x)) => project_rule(p@, at.req_id) is Some && x.range == span_range(
                v.content@,
                at.span.offset,
                at.span.length,
            ) && x.placeholder@ == rule_text(at.req_id),
            (Some(at), None) => project_rule(p@, at.req_id) is None,
            (None, x) => x is None,
        },
{
    let at = match find_rule_at_position(p.files, v, line, character) {
        Some(a) => a,
        None => {
            return None;
        },
    };
    assert(p@.forward.len() == p.forward@.len());
    match find_rule_in_data(p.forward, &at.req_id) {
        Some(_) => {
            let range = span_to_range(v.content.as_str(), at.span.offset, at.span.length);
            Some(PrepareRenameResult { range, placeholder: at.req_id.text() })
        },
        None => None,
    }
}

/// A change to a file.
#[derive(Debug, PartialEq, Eq)]
pub struct LspTextEdit {
    pub path: String,
    pub range: (u32, u32, u32, u32),
    pub new_text: String,
}

impl View for LspTextEdit {
    type V = (Seq<char>, (u32, u32, u32, u32), Seq<char>);

    open spec fn view(&self) -> (Seq<char>, (u32, u32, u32, u32), Seq<char>) {
        (self.path@, self.range, self.new_text@)
    }
}

pub open spec fn edit_models(v: Seq<LspTextEdit>) -> Seq<
    (Seq<char>, (u32, u32, u32, u32), Seq<char>),
> {
    v.map_values(|e: LspTextEdit| e@)
}

/// A column `n` bytes behind the column of a rule.
pub open spec fn column_behind(column: Option<usize>, n: nat) -> u32 {
    let start = match column {
        Some(c) => c as nat,
        None => 0,
    };
    #[verifier::truncate]
    ((if start + n <= usize::MAX {
        (start + n) as usize
    } else {
        usize::MAX
    }) as u32)
}

/// The changes that rename a rule: one at its definition, one at each place that
/// implements it.
pub open spec fn rename_edits(r: RuleModel, reference: (Seq<char>, u32), new_name: Seq<char>) -> Seq<
    (Seq<char>, (u32, u32, u32, u32), Seq<char>),
> {
    (match (r.source_file, r.source_line) {
        (Some(file), Some(line)) => seq![
            (
                file,
                (
                    zero_based(line),
                    rule_column(r.source_column),
                    zero_based(line),
                    column_behind(r.source_column, byte_len(rule_text(reference))),
                ),
                new_name,
            ),
        ],
        _ => Seq::empty(),
    }) + r.impl_refs.map_values(
        |x: (Seq<char>, usize)|
            (x.0, (zero_based(x.1), 0u32, zero_based(x.1), 0u32), new_name),
    )
}

/// Execute a rename: nothing where the new name is no valid rule id or the rule
/// is not known.
pub fn lsp_rename(p: &ProjectView<'_>, v: &FileView, line: u32, character: u32, new_name: &str) -> (r:
    Vec<LspTextEdit>)
    ensures
        edit_models(r@) == match (
            rule_at(p@.files, *v, line, character),
            parsed_rule_id(new_name@),
        ) {
            (Some(at), Some(id)) => if !is_new_base(id.0) {
                Seq::empty()
            } else {
                match project_rule(p@, at.req_id) {
                    Some((_, rule)) => rename_edits(rule, at.req_id, new_name@),
                    None => Seq::empty(),
                }
            },
            _ => Seq::empty(),
        },
{
    let mut out: Vec<LspTextEdit> = Vec::new();
    assert(edit_models(out@) =~= Seq::<(Seq<char>, (u32, u32, u32, u32), Seq<char>)>::empty());
    let at = match find_rule_at_position(p.files, v, line, character) {
        Some(a) => a,
        None => {
            return out;
        },
    };
    let id = match parse_rule_id(new_name) {
        Some(id) => id,
        None => {
            return out;
        },
    };
    if !is_valid_new_id(&id) {
        return out;
    }
    assert(p@.forward.len() == p.forward@.len());
    let (i, j) = match find_rule_in_data(p.forward, &at.req_id) {
        Some(found) => found,
        None => {
            return out;
        },
    };
    let rule = &p.forward[i].1.rules[j];
    let ghost want = rename_edits(rule@, at.req_id@, new_name@);
    let reference = at.req_id.text();
    match (&rule.source_file, rule.source_line) {
        (Some(file), Some(l)) => {
            let start: usize = match rule.source_column {
                Some(c) => c,
                None => 0,
            };
            let end: usize = start.saturating_add(byte_count(reference.as_str()));
            let end_char: u32 = #[verifier::truncate]
            (end as u32);
            let e = LspTextEdit {
                path: copy_str(file.as_str()),
                range: (to_zero_based(l), column_of(rule.source_column), to_zero_based(l), end_char),
                new_text: copy_str(new_name),
            };
            out.push(e);
            assert(edit_models(out@) =~= seq![e@]);
        },
        _ => {},
    }
    let ghost head = edit_models(out@);
    let ghost tail = rule@.impl_refs.map_values(
        |x: (Seq<char>, usize)| (x.0, (zero_based(x.1), 0u32, zero_based(x.1), 0u32), new_name@),
    );
    assert(want == head + tail);
    let mut k: usize = 0;
    assert(head + tail.take(0) =~= head);
    while k < rule.impl_refs.len()
        invariant
            k <= rule.impl_refs@.len(),
            tail == code_refs(rule.impl_refs@).map_values(
                |x: (Seq<char>, usize)|
                    (x.0, (zero_based(x.1), 0u32, zero_based(x.1), 0u32), new_name@),
            ),
            edit_models(out@) == head + tail.take(k as int),
        decreases rule.impl_refs@.len() - k,
    {
        let x = &rule.impl_refs[k];
        let l = to_zero_based(x.line);
        let e = LspTextEdit {
            path: copy_str(x.file.as_str()),
            range: (l, 0, l, 0),
            new_text: copy_str(new_name),
        };
        let ghost before = out@;
        out.push(e);
        proof {
            assert(code_refs(rule.impl_refs@)[k as int] == x@);
            assert(tail[k as int] == e@);
            assert(edit_models(out@) =~= edit_models(before).push(e@));
            assert(tail.take(k + 1) =~= tail.take(k as int).push(tail[k as int]));
            assert(edit_models(out@) =~= head + tail.take(k + 1));
        }
        k = k + 1;
    }
    assert(tail.take(k as int) =~= tail);
    out
}

/// Something an editor offers to do.
#[derive(Debug, Clone, PartialEq, Eq)]
pub struct LspCodeAction {
    pub title: String,
    pub kind: String,
    pub command: String,
    pub arguments: Vec<String>,
    pub is_preferred: bool,
}

/// Something an editor offers to do.
#[verifier::ext_equal]
pub struct ActionModel {
    pub title: Seq<char>,
    pub kind: Seq<char>,
    pub command: Seq<char>,
    pub arguments: Seq<Seq<char>>,
    pub is_preferred: bool,
}

impl View for LspCodeAction {
    type V = ActionModel;

    open spec fn view(&self) -> ActionModel {
        ActionModel {
            title: self.title@,
            kind: self.kind@,
            command: self.command@,
            arguments: texts(self.arguments@),
            is_preferred: self.is_preferred,
        }
    }
}

pub open spec fn action_models(v: Seq<LspCodeAction>) -> Seq<ActionModel> {
    v.map_values(|a: LspCodeAction| a@)
}

/// A spec with the given name uses the prefix.
pub open spec fn spec_has_prefix(specs: Seq<SpecInfoModel>, name: Seq<char>, prefix: Seq<char>) -> bool {
    exists|i: int|
        0 <= i < specs.len() && (#[trigger] specs[i]).prefix == prefix && specs[i].name == name
}

/// The ids of the rules of all specs that use the prefix, in the order of the
/// implementations.
pub open spec fn ids_with_prefix(p: ProjectModel, prefix: Seq<char>, n: int) -> Seq<(Seq<char>, u32)>
    decreases n,
{
    if n <= 0 {
        Seq::empty()
    } else {
        let before = ids_with_prefix(p, prefix, n - 1);
        if spec_has_prefix(p.specs, p.forward[n - 1].0.0, prefix) {
            before + crate::api::rule_ids(p.forward[n - 1].1)
        } else {
            before
        }
    }
}

/// The offer to replace a reference to an unknown rule by one to a similar rule.
pub open spec fn replace_action(id: (Seq<char>, u32), best: (Seq<char>, u32)) -> ActionModel {
    ActionModel {
        title: "Replace '"@ + rule_text(id) + "' with '"@ + rule_text(best)
            + "' (all impl annotations)"@,
        kind: "quickfix"@,
        command: "tracey.renameUnknownRequirement"@,
        arguments: seq![rule_text(id), rule_text(best)],
        is_preferred: true,
    }
}

/// The offer to create a requirement that is referred to.
pub open spec fn create_action(id: (Seq<char>, u32)) -> ActionModel {
    ActionModel {
        title: "Create requirement '"@ + rule_text(id) + "'"@,
        kind: "quickfix"@,
        command: "tracey.createRequirement"@,
        arguments: seq![rule_text(id)],
        is_preferred: false,
    }
}

/// The offer to open the dashboard at a requirement.
pub open spec fn open_action(id: (Seq<char>, u32)) -> ActionModel {
    ActionModel {
        title: "Open in dashboard"@,
        kind: "source"@,
        command: "tracey.openDashboard"@,
        arguments: seq![rule_text(id)],
        is_preferred: false,
    }
}

/// What an editor offers to do about the rule at a position.
pub open spec fn actions_for(p: ProjectModel, at: crate::lookup::AtModel) -> Seq<ActionModel> {
    match project_rule(p, at.req_id) {
        Some(_) => seq![open_action(at.req_id)],
        None => {
            let suggestions = match at.prefix {
                Some(prefix) => similar_ids(
                    at.req_id,
                    ids_with_prefix(p, prefix, p.forward.len() as int),
                    1,
                ),
                None => Seq::empty(),
            };
            if suggestions.len() > 0 {
                seq![replace_action(at.req_id, suggestions[0]), create_action(at.req_id)]
            } else {
                seq![create_action(at.req_id)]
            }
        },
    }
}

fn uses_prefix(config: &ApiConfig, name: &str, prefix: &str) -> (r: bool)
    ensures
        r == spec_has_prefix(spec_infos(config.specs@), name@, prefix@),
{
    let ghost ss = spec_infos(config.specs@);
    let mut i: usize = 0;
    while i < config.specs.len()
        invariant
            i <= config.specs@.len(),
            ss == spec_infos(config.specs@),
            forall|k: int|
                0 <= k < i ==> !((#[trigger] ss[k]).prefix == prefix@ && ss[k].name == name@),
        decreases config.specs@.len() - i,
    {
        assert(ss[i as int] == config.specs@[i as int]@);
        if str_eq(config.specs[i].prefix.as_str(), prefix) && str_eq(
            config.specs[i].name.as_str(),
            name,
        ) {
            assert(ss[i as int].prefix == prefix@ && ss[i as int].name == name@);
            return true;
        }
        i = i + 1;
    }
    false
}

fn collect_ids_with_prefix(p: &ProjectView<'_>, prefix: &str) -> (r: Vec<RuleId>)
    ensures
        id_views(r@) == ids_with_prefix(p@, prefix@, p@.forward.len() as int),
{
    let ghost m = p@;
    let mut out: Vec<RuleId> = Vec::new();
    let mut i: usize = 0;
    assert(id_views(out@) =~= Seq::<(Seq<char>, u32)>::empty());
    while i < p.forward.len()
        invariant
            i <= p.forward@.len(),
            m == p@,
            id_views(out@) == ids_with_prefix(m, prefix@, i as int),
        decreases p.forward@.len() - i,
    {
        assert(m.forward[i as int] == (
            p.forward@[i as int].0@,
            crate::api::rule_models(p.forward@[i as int].1.rules@),
        ));
        if uses_prefix(p.config, p.forward[i].0.spec_name.as_str(), prefix) {
            let rules = &p.forward[i].1.rules;
            let ghost before = id_views(out@);
            let ghost ids = crate::api::rule_ids(crate::api::rule_models(rules@));
            let mut j: usize = 0;
            assert(before + ids.take(0) =~= before);
            while j < rules.len()
                invariant
                    j <= rules@.len(),
                    ids == crate::api::rule_ids(crate::api::rule_models(rules@)),
                    id_views(out@) == before + ids.take(j as int),
                decreases rules@.len() - j,
            {
                let ghost now = out@;
                out.push(rules[j].id.copy());
                proof {
                    assert(id_views(out@) =~= id_views(now).push(ids[j as int]));
                    assert(ids.take(j + 1) =~= ids.take(j as int).push(ids[j as int]));
                    assert(id_views(out@) =~= before + ids.take(j + 1));
                }
                j = j + 1;
            }
            assert(ids.take(j as int) =~= ids);
        }
        i = i + 1;
    }
    out
}

fn make_action(
    title: String,
    kind: &str,
    command: &str,
    arguments: Vec<String>,
    is_preferred: bool,
) -> (r: LspCodeAction)
    ensures
        r@ == (ActionModel {
            title: title@,
            kind: kind@,
            command: command@,
            arguments: texts(arguments@),
            is_preferred,
        }),
{
    LspCodeAction {
        title,
        kind: copy_str(kind),
        command: copy_str(command),
        arguments,
        is_preferred,
    }
}

/// Get code actions for a position.
pub fn lsp_code_actions(p: &ProjectView<'_>, v: &FileView, line: u32, character: u32) -> (r: Vec<
    LspCodeAction,
>)
    ensures
        action_models(r@) == match rule_at(p@.files, *v, line, character) {
            Some(at) => actions_for(p@, at),
            None => Seq::empty(),
        },
{
    let mut out: Vec<LspCodeAction> = Vec::new();
    assert(action_models(out@) =~= Seq::<ActionModel>::empty());
    let at = match find_rule_at_position(p.files, v, line, character) {
        Some(a) => a,
        None => {
            return out;
        },
    };
    assert(p@.forward.len() == p.forward@.len());
    let id = at.req_id.text();
    let mut arguments: Vec<String> = Vec::new();
    arguments.push(copy_str(id.as_str()));
    assert(texts(arguments@) =~= seq![rule_text(at.req_id@)]);
    match find_rule_in_data(p.forward, &at.req_id) {
        Some(_) => {
            let a = make_action(
                copy_str("Open in dashboard"),
                "source",
                "tracey.openDashboard",
                arguments,
                false,
            );
            assert(a@ =~= open_action(at.req_id@));
            out.push(a);
            assert(action_models(out@) =~= seq![a@]);
            out
        },
        None => {
            let create = make_action(
                concat3("Create requirement '", id.as_str(), "'"),
                "quickfix",
                "tracey.createRequirement",
                arguments,
                false,
            );
            assert(create@ =~= create_action(at.req_id@));
            match &at.prefix {
                Some(prefix) => {
                    let known = collect_ids_with_prefix(p, prefix.as_str());
                    let suggestions = suggest_similar_rule_ids(&at.req_id, &known, 1);
                    assert(id_views(suggestions@).len() == suggestions@.len());
                    if suggestions.len() > 0 {
                        let best = suggestions[0].text();
                        let mut title = concat3("Replace '", id.as_str(), "' with '");
                        title.append(best.as_str());
                        title.append("' (all impl annotations)");
                        let mut both: Vec<String> = Vec::new();
                        both.push(id);
                        both.push(best);
                        let replace = make_action(
                            title,
                            "quickfix",
                            "tracey.renameUnknownRequirement",
                            both,
                            true,
                        );
                        proof {
                            assert(id_views(suggestions@)[0] == suggestions@[0]@);
                            assert(texts(both@) =~= seq![
                                rule_text(at.req_id@),
                                rule_text(suggestions@[0]@),
                            ]);
                            assert(replace@ =~= replace_action(at.req_id@, suggestions@[0]@));
                        }
                        out.push(replace);
                        out.push(create);
                        assert(action_models(out@) =~= seq![replace@, create@]);
                        return out;
                    }
                },
                None => {},
            }
            out.push(create);
            assert(action_models(out@) =~= seq![create@]);
            out
        },
    }
}

} // verus!
