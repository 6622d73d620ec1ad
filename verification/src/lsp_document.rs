//! What an editor is told about a whole document.

use vstd::prelude::*;

use crate::api::{forward_models, rule_models, ApiRule, ApiSpecForward, ImplKey, RuleModel};
use crate::bindings::{str_to_lowercase, unicode_lowercase};
use crate::format::{path_format, SpecFormat};
use crate::lookup::{
    doc_of, find_rule_at_position, find_rule_in_data, lookup_source_reqs, rule_at, shown_source,
    FileView,
};
use crate::lsp::{
    column_of, locations, project_rule, rule_column, to_zero_based, zero_based, LspLocation,
    ProjectModel, ProjectView,
};
use crate::numbers::{decimal, decimal_of_usize};
use crate::paths::{relative_or_self, relative_path_or_self};
use crate::positions::{span_range, span_to_range};
use crate::refs::{ref_models, verb_word, RefModel, RefVerb, ReqReference};
use crate::requirement::{copy_opt, req_models, ReqDefinition, ReqModel, SourceSpan};
use crate::rule_id::{opt_id, parse_rule_id, parsed_rule_id, rule_text, RuleId};
use crate::spec_diagnostics::all_rules;
use crate::text::{
    byte_count, byte_len, chars_of, concat3, copy_str, find_from, find_str, opt_text, str_eq, texts,
};
use crate::validation::{source_models, SourceModel};

verus! {

/// A requirement definition or reference as it stands in a shown document.
pub struct Mark {
    /// The id, where it can be read.
    pub id: Option<RuleId>,
    /// The id as it is written.
    pub text: String,
    /// The marker.
    pub span: SourceSpan,
    /// The marker, and for a definition the text that belongs to it.
    pub whole: SourceSpan,
    /// The verb of a reference; `None` for a definition in a spec document.
    pub verb: Option<RefVerb>,
}

/// A requirement definition or reference as it stands in a shown document.
#[verifier::ext_equal]
pub struct MarkModel {
    pub id: Option<(Seq<char>, u32)>,
    pub text: Seq<char>,
    pub span: SourceSpan,
    pub whole: SourceSpan,
    pub verb: Option<RefVerb>,
}

impl View for Mark {
    type V = MarkModel;

    open spec fn view(&self) -> MarkModel {
        MarkModel {
            id: opt_id(self.id),
            text: self.text@,
            span: self.span,
            whole: self.whole,
            verb: self.verb,
        }
    }
}

pub open spec fn mark_models(v: Seq<Mark>) -> Seq<MarkModel> {
    v.map_values(|m: Mark| m@)
}

/// The mark of a definition.
pub open spec fn definition_mark(r: ReqModel) -> MarkModel {
    MarkModel {
        id: parsed_rule_id(rule_text(r.id)),
        text: rule_text(r.id),
        span: r.marker_span,
        whole: r.span,
        verb: None,
    }
}

/// The mark of a reference.
pub open spec fn reference_mark(r: RefModel) -> MarkModel {
    MarkModel {
        id: Some(r.req_id),
        text: rule_text(r.req_id),
        span: r.span,
        whole: r.span,
        verb: Some(r.verb),
    }
}

/// The marks of a shown document: the definitions of a spec document that could
/// be parsed, or the references of a source file that the build knows of.
pub open spec fn shown_marks(files: Seq<SourceModel>, v: FileView) -> Seq<MarkModel> {
    if path_format(v.path@) is Some {
        match doc_of(v) {
            Some(d) => d.reqs.map_values(|r: ReqModel| definition_mark(r)),
            None => Seq::empty(),
        }
    } else {
        match shown_source(files, v) {
            Some(i) => files[i].reqs.references.map_values(|r: RefModel| reference_mark(r)),
            None => Seq::empty(),
        }
    }
}

fn definition_marks(reqs: &Vec<ReqDefinition>) -> (r: Vec<Mark>)
    ensures
        mark_models(r@) == req_models(reqs@).map_values(|r: ReqModel| definition_mark(r)),
{
    let ghost want = req_models(reqs@).map_values(|r: ReqModel| definition_mark(r));
    let mut out: Vec<Mark> = Vec::new();
    let mut i: usize = 0;
    while i < reqs.len()
        invariant
            i <= reqs@.len(),
            want == req_models(reqs@).map_values(|r: ReqModel| definition_mark(r)),
            out@.len() == i,
            forall|k: int| 0 <= k < i ==> (#[trigger] out@[k])@ == want[k],
        decreases reqs@.len() - i,
    {
        let text = reqs[i].id.text();
        let m = Mark {
            id: parse_rule_id(text.as_str()),
            text,
            span: reqs[i].marker_span,
            whole: reqs[i].span,
            verb: None,
        };
        assert(req_models(reqs@)[i as int] == reqs@[i as int]@);
        out.push(m);
        i = i + 1;
    }
    assert(mark_models(out@) =~= want);
    out
}

fn reference_marks(refs: &Vec<ReqReference>) -> (r: Vec<Mark>)
    ensures
        mark_models(r@) == ref_models(refs@).map_values(|r: RefModel| reference_mark(r)),
{
    let ghost want = ref_models(refs@).map_values(|r: RefModel| reference_mark(r));
    let mut out: Vec<Mark> = Vec::new();
    let mut i: usize = 0;
    while i < refs.len()
        invariant
            i <= refs@.len(),
            want == ref_models(refs@).map_values(|r: RefModel| reference_mark(r)),
            out@.len() == i,
            forall|k: int| 0 <= k < i ==> (#[trigger] out@[k])@ == want[k],
        decreases refs@.len() - i,
    {
        let m = Mark {
            id: Some(refs[i].req_id.copy()),
            text: refs[i].req_id.text(),
            span: refs[i].span,
            whole: refs[i].span,
            verb: Some(refs[i].verb),
        };
        assert(ref_models(refs@)[i as int] == refs@[i as int]@);
        out.push(m);
        i = i + 1;
    }
    assert(mark_models(out@) =~= want);
    out
}

/// The marks of a shown document.
pub fn marks_of(p: &ProjectView<'_>, v: &FileView) -> (r: Vec<Mark>)
    ensures
        mark_models(r@) == shown_marks(p@.files, *v),
{
    match SpecFormat::from_path(v.path.as_str()) {
        Some(_) => match &v.doc {
            Some(d) => definition_marks(&d.reqs),
            None => {
                let out: Vec<Mark> = Vec::new();
                assert(mark_models(out@) =~= Seq::<MarkModel>::empty());
                out
            },
        },
        None => match lookup_source_reqs(p.files, v) {
            Some(i) => {
                assert(source_models(p.files@)[i as int] == p.files@[i as int]@);
                reference_marks(&p.files[i].reqs.references)
            },
            None => {
                let out: Vec<Mark> = Vec::new();
                assert(mark_models(out@) =~= Seq::<MarkModel>::empty());
                out
            },
        },
    }
}

/// A stretch of a line to colour.
#[derive(Debug, Clone, Copy, PartialEq, Eq, Structural)]
pub struct LspSemanticToken {
    pub line: u32,
    pub start_char: u32,
    pub length: u32,
    pub token_type: u32,
    pub modifiers: u32,
}

/// Some rule of the project has exactly this id.
pub open spec fn is_known_id(p: ProjectModel, id: Option<(Seq<char>, u32)>) -> bool {
    exists|i: int, j: int|
        0 <= i < p.forward.len() && 0 <= j < p.forward[i].1.len() && Some(
            (#[trigger] p.forward[i].1[j]).id,
        ) == id
}

/// How a mark is coloured: definitions as definitions, references to known rules
/// as declarations.
pub open spec fn mark_token(p: ProjectModel, content: Seq<char>, m: MarkModel) -> LspSemanticToken {
    let range = span_range(content, m.span.offset, m.span.length);
    LspSemanticToken {
        line: range.0,
        start_char: range.1,
        length: #[verifier::truncate]
        (m.span.length as u32),
        token_type: 2,
        modifiers: match m.verb {
            None => 1,
            Some(RefVerb::Define) => 1,
            Some(_) => if is_known_id(p, m.id) {
                2
            } else {
                0
            },
        },
    }
}

fn knows_id(p: &ProjectView<'_>, id: &Option<RuleId>) -> (r: bool)
    ensures
        r == is_known_id(p@, opt_id(*id)),
{
    let ghost m = p@;
    let wanted = match id {
        Some(w) => w,
        None => {
            return false;
        },
    };
    let mut i: usize = 0;
    while i < p.forward.len()
        invariant
            i <= p.forward@.len(),
            m == p@,
            opt_id(*id) == Some(wanted@),
            forall|a: int, b: int|
                0 <= a < i && 0 <= b < m.forward[a].1.len() ==> (
                #[trigger] m.forward[a].1[b]).id != wanted@,
        decreases p.forward@.len() - i,
    {
        let rules = &p.forward[i].1.rules;
        assert(m.forward[i as int].1 == rule_models(rules@));
        let mut j: usize = 0;
        while j < rules.len()
            invariant
                i < p.forward@.len(),
                m == p@,
                opt_id(*id) == Some(wanted@),
                rules == p.forward@[i as int].1.rules,
                m.forward[i as int].1 == rule_models(rules@),
                j <= rules@.len(),
                forall|b: int| 0 <= b < j ==> (#[trigger] m.forward[i as int].1[b]).id != wanted@,
            decreases rules@.len() - j,
        {
            assert(m.forward[i as int].1[j as int] == rules@[j as int]@);
            if rules[j].id.same(wanted) {
                assert(m.forward[i as int].1[j as int].id == wanted@);
                return true;
            }
            j = j + 1;
        }
        i = i + 1;
    }
    false
}

/// Get semantic tokens for syntax highlighting.
pub fn lsp_semantic_tokens(p: &ProjectView<'_>, v: &FileView) -> (r: Vec<LspSemanticToken>)
    ensures
        r@ == shown_marks(p@.files, *v).map_values(|m: MarkModel| mark_token(p@, v.content@, m)),
{
    let marks = marks_of(p, v);
    let ghost ms = mark_models(marks@);
    let mut out: Vec<LspSemanticToken> = Vec::new();
    let mut i: usize = 0;
    while i < marks.len()
        invariant
            i <= marks@.len(),
            ms == mark_models(marks@),
            out@.len() == i,
            forall|k: int| 0 <= k < i ==> #[trigger] out@[k] == mark_token(p@, v.content@, ms[k]),
        decreases marks@.len() - i,
    {
        let m = &marks[i];
        assert(ms[i as int] == m@);
        let range = span_to_range(v.content.as_str(), m.span.offset, m.span.length);
        let modifiers: u32 = match m.verb {
            None => 1,
            Some(RefVerb::Define) => 1,
            Some(_) => if knows_id(p, &m.id) {
                2
            } else {
                0
            },
        };
        let length: u32 = #[verifier::truncate]
        (m.span.length as u32);
        out.push(
            LspSemanticToken {
                line: range.0,
                start_char: range.1,
                length,
                token_type: 2,
                modifiers,
            },
        );
        i = i + 1;
    }
    assert(out@ =~= ms.map_values(|m: MarkModel| mark_token(p@, v.content@, m)));
    out
}

/// The rule that a mark stands for.
pub open spec fn mark_rule(p: ProjectModel, m: MarkModel) -> Option<RuleModel> {
    match m.id {
        Some(id) => match project_rule(p, id) {
            Some((_, rule)) => Some(rule),
            None => None,
        },
        None => None,
    }
}

fn rule_of_mark<'a>(p: &ProjectView<'a>, m: &Mark) -> (r: Option<&'a ApiRule>)
    ensures
        match (r, mark_rule(p@, m@)) {
            (Some(a), Some(b)) => a@ == b,
            (None, None) => true,
            _ => false,
        },
{
    match &m.id {
        Some(id) => {
            assert(p@.forward.len() == p.forward@.len());
            match find_rule_in_data(p.forward, id) {
                Some((i, j)) => Some(&p.forward[i].1.rules[j]),
                None => None,
            }
        },
        None => None,
    }
}

/// A line of information above a requirement.
#[derive(Debug, Clone, PartialEq, Eq)]
pub struct LspCodeLens {
    pub line: u32,
    pub start_char: u32,
    pub end_char: u32,
    pub title: String,
    pub command: String,
    pub arguments: Vec<String>,
}

/// A line of information above a requirement.
#[verifier::ext_equal]
pub struct LensModel {
    pub line: u32,
    pub start_char: u32,
    pub end_char: u32,
    pub title: Seq<char>,
    pub command: Seq<char>,
    pub arguments: Seq<Seq<char>>,
}

impl View for LspCodeLens {
    type V = LensModel;

    open spec fn view(&self) -> LensModel {
        LensModel {
            line: self.line,
            start_char: self.start_char,
            end_char: self.end_char,
            title: self.title@,
            command: self.command@,
            arguments: texts(self.arguments@),
        }
    }
}

pub open spec fn lens_models(v: Seq<LspCodeLens>) -> Seq<LensModel> {
    v.map_values(|l: LspCodeLens| l@)
}

/// How the coverage of a rule is summed up.
pub open spec fn coverage_title(r: RuleModel) -> Seq<char> {
    if r.impl_refs.len() == 0 && r.verify_refs.len() == 0 {
        "⚪ not implemented"@
    } else if r.verify_refs.len() == 0 {
        "🟡 "@ + decimal(r.impl_refs.len()) + " impl, no verify"@
    } else {
        "🟢 "@ + decimal(r.impl_refs.len()) + " impl, "@ + decimal(r.verify_refs.len())
            + " verify"@
    }
}

fn coverage_title_of(r: &ApiRule) -> (t: String)
    ensures
        t@ == coverage_title(r@),
{
    assert(crate::api::code_refs(r.impl_refs@).len() == r.impl_refs@.len());
    assert(crate::api::code_refs(r.verify_refs@).len() == r.verify_refs@.len());
    if r.impl_refs.len() == 0 && r.verify_refs.len() == 0 {
        return copy_str("⚪ not implemented");
    }
    let impls = decimal_of_usize(r.impl_refs.len());
    if r.verify_refs.len() == 0 {
        return concat3("🟡 ", impls.as_str(), " impl, no verify");
    }
    let verifies = decimal_of_usize(r.verify_refs.len());
    let mut t = concat3("🟢 ", impls.as_str(), " impl, ");
    t.append(verifies.as_str());
    t.append(" verify");
    t
}

/// The lenses of the first `n` marks: one for each definition of a known rule.
pub open spec fn lenses(p: ProjectModel, content: Seq<char>, marks: Seq<MarkModel>, n: int) -> Seq<
    LensModel,
>
    decreases n,
{
    if n <= 0 {
        Seq::empty()
    } else {
        let before = lenses(p, content, marks, n - 1);
        let m = marks[n - 1];
        let defines = match m.verb {
            None => true,
            Some(verb) => verb == RefVerb::Define,
        };
        match mark_rule(p, m) {
            Some(rule) if defines => {
                let range = span_range(content, m.span.offset, m.span.length);
                before.push(
                    LensModel {
                        line: range.0,
                        start_char: range.1,
                        end_char: range.3,
                        title: coverage_title(rule),
                        command: "tracey.showReferences"@,
                        arguments: seq![m.text],
                    },
                )
            },
            _ => before,
        }
    }
}

/// Get code lens items.
pub fn lsp_code_lens(p: &ProjectView<'_>, v: &FileView) -> (r: Vec<LspCodeLens>)
    ensures
        ({
            let marks = shown_marks(p@.files, *v);
            lens_models(r@) == lenses(p@, v.content@, marks, marks.len() as int)
        }),
{
    let marks = marks_of(p, v);
    let ghost ms = mark_models(marks@);
    let mut out: Vec<LspCodeLens> = Vec::new();
    let mut i: usize = 0;
    assert(lens_models(out@) =~= Seq::<LensModel>::empty());
    while i < marks.len()
        invariant
            i <= marks@.len(),
            ms == mark_models(marks@),
            lens_models(out@) == lenses(p@, v.content@, ms, i as int),
        decreases marks@.len() - i,
    {
        let m = &marks[i];
        assert(ms[i as int] == m@);
        let defines = match m.verb {
            None => true,
            Some(verb) => verb == RefVerb::Define,
        };
        if defines {
            match rule_of_mark(p, m) {
                Some(rule) => {
                    let range = span_to_range(v.content.as_str(), m.span.offset, m.span.length);
                    let mut arguments: Vec<String> = Vec::new();
                    arguments.push(copy_str(m.text.as_str()));
                    let lens = LspCodeLens {
                        line: range.0,
                        start_char: range.1,
                        end_char: range.3,
                        title: coverage_title_of(rule),
                        command: copy_str("tracey.showReferences"),
                        arguments,
                    };
                    let ghost before = out@;
                    out.push(lens);
                    proof {
                        assert(texts(arguments@) =~= seq![m.text@]);
                        assert(lens_models(out@) =~= lens_models(before).push(lens@));
                    }
                },
                None => {},
            }
        }
        i = i + 1;
    }
    out
}

/// A hint behind a marker.
#[derive(Debug, Clone, PartialEq, Eq)]
pub struct LspInlayHint {
    pub line: u32,
    pub character: u32,
    pub label: String,
}

impl View for LspInlayHint {
    type V = (u32, u32, Seq<char>);

    open spec fn view(&self) -> (u32, u32, Seq<char>) {
        (self.line, self.character, self.label@)
    }
}

pub open spec fn hint_models(v: Seq<LspInlayHint>) -> Seq<(u32, u32, Seq<char>)> {
    v.map_values(|h: LspInlayHint| h@)
}

/// The hints of the first `n` marks: one for each mark of a known rule that
/// begins in the given lines.
pub open spec fn hints(
    p: ProjectModel,
    content: Seq<char>,
    marks: Seq<MarkModel>,
    n: int,
    start_line: u32,
    end_line: u32,
) -> Seq<(u32, u32, Seq<char>)>
    decreases n,
{
    if n <= 0 {
        Seq::empty()
    } else {
        let before = hints(p, content, marks, n - 1, start_line, end_line);
        let m = marks[n - 1];
        let range = span_range(content, m.span.offset, m.span.length);
        match mark_rule(p, m) {
            Some(rule) if start_line <= range.0 && range.0 <= end_line => before.push(
                (
                    range.0,
                    range.3,
                    " ["@ + decimal(rule.impl_refs.len()) + " impl, "@ + decimal(
                        rule.verify_refs.len(),
                    ) + " verify]"@,
                ),
            ),
            _ => before,
        }
    }
}

/// Get inlay hints for a range of lines.
pub fn lsp_inlay_hints(p: &ProjectView<'_>, v: &FileView, start_line: u32, end_line: u32) -> (r: Vec<
    LspInlayHint,
>)
    ensures
        ({
            let marks = shown_marks(p@.files, *v);
            hint_models(r@) == hints(
                p@,
                v.content@,
                marks,
                marks.len() as int,
                start_line,
                end_line,
            )
        }),
{
    let marks = marks_of(p, v);
    let ghost ms = mark_models(marks@);
    let mut out: Vec<LspInlayHint> = Vec::new();
    let mut i: usize = 0;
    assert(hint_models(out@) =~= Seq::<(u32, u32, Seq<char>)>::empty());
    while i < marks.len()
        invariant
            i <= marks@.len(),
            ms == mark_models(marks@),
            hint_models(out@) == hints(p@, v.content@, ms, i as int, start_line, end_line),
        decreases marks@.len() - i,
    {
        let m = &marks[i];
        assert(ms[i as int] == m@);
        let range = span_to_range(v.content.as_str(), m.span.offset, m.span.length);
        if start_line <= range.0 && range.0 <= end_line {
            match rule_of_mark(p, m) {
                Some(rule) => {
                    assert(crate::api::code_refs(rule.impl_refs@).len() == rule.impl_refs@.len());
                    assert(crate::api::code_refs(rule.verify_refs@).len()
                        == rule.verify_refs@.len());
                    let impls = decimal_of_usize(rule.impl_refs.len());
                    let verifies = decimal_of_usize(rule.verify_refs.len());
                    let mut label = concat3(" [", impls.as_str(), " impl, ");
                    label.append(verifies.as_str());
                    label.append(" verify]");
                    let hint = LspInlayHint { line: range.0, character: range.3, label };
                    let ghost before = out@;
                    out.push(hint);
                    assert(hint_models(out@) =~= hint_models(before).push(hint@));
                },
                None => {},
            }
        }
        i = i + 1;
    }
    out
}

/// The places of the first `n` marks with the given id.
pub open spec fn highlights(
    path: Seq<char>,
    content: Seq<char>,
    marks: Seq<MarkModel>,
    n: int,
    id: (Seq<char>, u32),
) -> Seq<(Seq<char>, u32, u32)>
    decreases n,
{
    if n <= 0 {
        Seq::empty()
    } else {
        let before = highlights(path, content, marks, n - 1, id);
        let m = marks[n - 1];
        if m.id == Some(id) {
            let range = span_range(content, m.whole.offset, m.whole.length);
            before.push((path, range.0, range.1))
        } else {
            before
        }
    }
}

/// Get document highlight ranges: all marks of the requirement at a position.
pub fn lsp_document_highlight(p: &ProjectView<'_>, v: &FileView, line: u32, character: u32) -> (r: Vec<
    LspLocation,
>)
    ensures
        ({
            let marks = shown_marks(p@.files, *v);
            locations(r@) == match rule_at(p@.files, *v, line, character) {
                Some(at) => highlights(v.path@, v.content@, marks, marks.len() as int, at.req_id),
                None => Seq::empty(),
            }
        }),
{
    let mut out: Vec<LspLocation> = Vec::new();
    assert(locations(out@) =~= Seq::<(Seq<char>, u32, u32)>::empty());
    let at = match find_rule_at_position(p.files, v, line, character) {
        Some(a) => a,
        None => {
            return out;
        },
    };
    let marks = marks_of(p, v);
    let ghost ms = mark_models(marks@);
    let mut i: usize = 0;
    while i < marks.len()
        invariant
            i <= marks@.len(),
            ms == mark_models(marks@),
            locations(out@) == highlights(v.path@, v.content@, ms, i as int, at.req_id@),
        decreases marks@.len() - i,
    {
        let m = &marks[i];
        assert(ms[i as int] == m@);
        let same = match &m.id {
            Some(id) => id.same(&at.req_id),
            None => false,
        };
        if same {
            let range = span_to_range(v.content.as_str(), m.whole.offset, m.whole.length);
            let l = LspLocation {
                path: copy_str(v.path.as_str()),
                line: range.0,
                character: range.1,
            };
            let ghost before = out@;
            out.push(l);
            assert(locations(out@) =~= locations(before).push(l@));
        }
        i = i + 1;
    }
    out
}

/// A requirement or reference in a list of symbols.
#[derive(Debug, PartialEq, Eq)]
pub struct LspSymbol {
    pub name: String,
    pub kind: String,
    pub path: Option<String>,
    pub range: (u32, u32, u32, u32),
}

/// A requirement or reference in a list of symbols.
#[verifier::ext_equal]
pub struct SymbolModel {
    pub name: Seq<char>,
    pub kind: Seq<char>,
    pub path: Option<Seq<char>>,
    pub range: (u32, u32, u32, u32),
}

impl View for LspSymbol {
    type V = SymbolModel;

    open spec fn view(&self) -> SymbolModel {
        SymbolModel {
            name: self.name@,
            kind: self.kind@,
            path: opt_text(self.path),
            range: self.range,
        }
    }
}

pub open spec fn symbol_models(v: Seq<LspSymbol>) -> Seq<SymbolModel> {
    v.map_values(|s: LspSymbol| s@)
}

/// The column `n` bytes behind a column, or the last one there is.
pub open spec fn column_after(column: u32, n: nat) -> u32 {
    if column + n <= u32::MAX {
        (column + n) as u32
    } else {
        u32::MAX
    }
}

fn column_after_text(column: u32, text: &str) -> (r: u32)
    ensures
        r == column_after(column, byte_len(text@)),
{
    let n = byte_count(text);
    let room: u32 = u32::MAX - column;
    if n <= room as usize {
        column + n as u32
    } else {
        u32::MAX
    }
}

/// A rule at a line and a column in a list of symbols.
pub open spec fn rule_symbol(r: RuleModel, line: u32, column: u32) -> SymbolModel {
    SymbolModel {
        name: rule_text(r.id),
        kind: "requirement"@,
        path: r.source_file,
        range: (line, column, line, column_after(column, byte_len(rule_text(r.id)))),
    }
}

fn make_rule_symbol(r: &ApiRule, line: u32, column: u32) -> (s: LspSymbol)
    ensures
        s@ == rule_symbol(r@, line, column),
{
    let name = r.id.text();
    let end = column_after_text(column, name.as_str());
    LspSymbol {
        name,
        kind: copy_str("requirement"),
        path: copy_opt(&r.source_file),
        range: (line, column, line, end),
    }
}

/// The position of a rule in its file, counted from 0; the first line and column
/// where it is not known.
pub open spec fn first_based(n: Option<usize>) -> u32 {
    match n {
        Some(x) => zero_based(x),
        None => 0,
    }
}

fn first_based_of(n: Option<usize>) -> (r: u32)
    ensures
        r == first_based(n),
{
    match n {
        Some(x) => to_zero_based(x),
        None => 0,
    }
}

/// The symbols of the rules that are defined in a file.
pub open spec fn file_symbols(rules: Seq<RuleModel>, file: Seq<char>) -> Seq<SymbolModel>
    decreases rules.len(),
{
    if rules.len() == 0 {
        Seq::empty()
    } else {
        let before = file_symbols(rules.drop_last(), file);
        let r = rules.last();
        if r.source_file == Some(file) {
            before.push(rule_symbol(r, first_based(r.source_line), first_based(r.source_column)))
        } else {
            before
        }
    }
}

/// The symbols of the rules whose id holds the query, whatever the case.
pub open spec fn query_symbols(rules: Seq<RuleModel>, query: Seq<char>) -> Seq<SymbolModel>
    decreases rules.len(),
{
    if rules.len() == 0 {
        Seq::empty()
    } else {
        let before = query_symbols(rules.drop_last(), query);
        let r = rules.last();
        if find_from(unicode_lowercase(r.id.0), unicode_lowercase(query), 0) is Some {
            before.push(
                match r.source_line {
                    Some(l) => rule_symbol(r, zero_based(l), rule_column(r.source_column)),
                    None => rule_symbol(r, 0, 0),
                },
            )
        } else {
            before
        }
    }
}

/// The symbols of references.
pub open spec fn reference_symbols(content: Seq<char>, refs: Seq<RefModel>) -> Seq<SymbolModel> {
    refs.map_values(
        |r: RefModel|
            SymbolModel {
                name: rule_text(r.req_id),
                kind: verb_word(r.verb),
                path: None,
                range: span_range(content, r.span.offset, r.span.length),
            },
    )
}

/// The symbols of a document: in a spec document the requirements that are
/// defined there, in a source file the references that the build knows of.
pub open spec fn document_symbols(p: ProjectModel, v: FileView, root: Seq<char>) -> Seq<SymbolModel> {
    if path_format(v.path@) is Some {
        file_symbols(all_rules(p.forward), relative_or_self(v.path@, root))
    } else {
        match shown_source(p.files, v) {
            Some(i) => reference_symbols(v.content@, p.files[i].reqs.references),
            None => Seq::empty(),
        }
    }
}

fn symbols_in_file(forward: &Vec<(ImplKey, ApiSpecForward)>, file: &str) -> (r: Vec<LspSymbol>)
    ensures
        symbol_models(r@) == file_symbols(all_rules(forward_models(forward@)), file@),
{
    let ghost fs = forward_models(forward@);
    let mut out: Vec<LspSymbol> = Vec::new();
    let mut i: usize = 0;
    proof {
        assert(fs.take(0) =~= Seq::<((Seq<char>, Seq<char>), Seq<RuleModel>)>::empty());
        assert(symbol_models(out@) =~= Seq::<SymbolModel>::empty());
    }
    while i < forward.len()
        invariant
            i <= forward@.len(),
            fs == forward_models(forward@),
            symbol_models(out@) == file_symbols(all_rules(fs.take(i as int)), file@),
        decreases forward@.len() - i,
    {
        let rules = &forward[i].1.rules;
        let ghost rs = rule_models(rules@);
        let ghost start = all_rules(fs.take(i as int));
        proof {
            assert(fs.take(i + 1).drop_last() =~= fs.take(i as int));
            assert(fs.take(i + 1).last() == (forward@[i as int].0@, rs));
            assert(start + rs.take(0) =~= start);
        }
        let mut j: usize = 0;
        while j < rules.len()
            invariant
                j <= rules@.len(),
                rs == rule_models(rules@),
                symbol_models(out@) == file_symbols(start + rs.take(j as int), file@),
            decreases rules@.len() - j,
        {
            let rule = &rules[j];
            proof {
                assert(rs[j as int] == rule@);
                assert((start + rs.take(j + 1)).drop_last() =~= start + rs.take(j as int));
                assert((start + rs.take(j + 1)).last() == rule@);
            }
            let here = match &rule.source_file {
                Some(f) => str_eq(f.as_str(), file),
                None => false,
            };
            if here {
                let s = make_rule_symbol(
                    rule,
                    first_based_of(rule.source_line),
                    first_based_of(rule.source_column),
                );
                let ghost before = out@;
                out.push(s);
                assert(symbol_models(out@) =~= symbol_models(before).push(s@));
            }
            j = j + 1;
        }
        assert(rs.take(j as int) =~= rs);
        i = i + 1;
    }
    assert(fs.take(i as int) =~= fs);
    out
}

/// Get document symbols (requirement definitions or references) in a file.
pub fn lsp_document_symbols(p: &ProjectView<'_>, v: &FileView, root: &str) -> (r: Vec<LspSymbol>)
    ensures
        symbol_models(r@) == document_symbols(p@, *v, root@),
{
    match SpecFormat::from_path(v.path.as_str()) {
        Some(_) => {
            let file = relative_path_or_self(v.path.as_str(), root);
            symbols_in_file(p.forward, file.as_str())
        },
        None => {
            let mut out: Vec<LspSymbol> = Vec::new();
            assert(symbol_models(out@) =~= Seq::<SymbolModel>::empty());
            match lookup_source_reqs(p.files, v) {
                Some(at) => {
                    assert(source_models(p.files@)[at as int] == p.files@[at as int]@);
                    let refs = &p.files[at].reqs.references;
                    let ghost want = reference_symbols(v.content@, ref_models(refs@));
                    let mut i: usize = 0;
                    while i < refs.len()
                        invariant
                            i <= refs@.len(),
                            want == reference_symbols(v.content@, ref_models(refs@)),
                            out@.len() == i,
                            forall|k: int| 0 <= k < i ==> (#[trigger] out@[k])@ == want[k],
                        decreases refs@.len() - i,
                    {
                        let x = &refs[i];
                        assert(ref_models(refs@)[i as int] == x@);
                        let s = LspSymbol {
                            name: x.req_id.text(),
                            kind: copy_str(x.verb.as_str()),
                            path: None,
                            range: span_to_range(v.content.as_str(), x.span.offset, x.span.length),
                        };
                        out.push(s);
                        i = i + 1;
                    }
                    assert(symbol_models(out@) =~= want);
                },
                None => {},
            }
            out
        },
    }
}

/// Whether a text holds another.
pub fn text_holds(s: &str, part: &str) -> (r: bool)
    ensures
        r == (find_from(s@, part@, 0) is Some),
{
    let c = chars_of(s);
    find_str(&c, part, 0).is_some()
}

/// Search the workspace for requirement ids.
pub fn lsp_workspace_symbols(p: &ProjectView<'_>, query: &str) -> (r: Vec<LspSymbol>)
    ensures
        symbol_models(r@) == query_symbols(all_rules(p@.forward), query@),
{
    let forward = p.forward;
    let ghost fs = forward_models(forward@);
    let wanted = str_to_lowercase(query);
    let mut out: Vec<LspSymbol> = Vec::new();
    let mut i: usize = 0;
    proof {
        assert(fs.take(0) =~= Seq::<((Seq<char>, Seq<char>), Seq<RuleModel>)>::empty());
        assert(symbol_models(out@) =~= Seq::<SymbolModel>::empty());
    }
    while i < forward.len()
        invariant
            i <= forward@.len(),
            fs == forward_models(forward@),
            wanted@ == unicode_lowercase(query@),
            symbol_models(out@) == query_symbols(all_rules(fs.take(i as int)), query@),
        decreases forward@.len() - i,
    {
        let rules = &forward[i].1.rules;
        let ghost rs = rule_models(rules@);
        let ghost start = all_rules(fs.take(i as int));
        proof {
            assert(fs.take(i + 1).drop_last() =~= fs.take(i as int));
            assert(fs.take(i + 1).last() == (forward@[i as int].0@, rs));
            assert(start + rs.take(0) =~= start);
        }
        let mut j: usize = 0;
        while j < rules.len()
            invariant
                j <= rules@.len(),
                rs == rule_models(rules@),
                wanted@ == unicode_lowercase(query@),
                symbol_models(out@) == query_symbols(start + rs.take(j as int), query@),
            decreases rules@.len() - j,
        {
            let rule = &rules[j];
            proof {
                assert(rs[j as int] == rule@);
                assert((start + rs.take(j + 1)).drop_last() =~= start + rs.take(j as int));
                assert((start + rs.take(j + 1)).last() == rule@);
            }
            let base = str_to_lowercase(rule.id.base.as_str());
            if text_holds(base.as_str(), wanted.as_str()) {
                let s = match rule.source_line {
                    Some(_) => make_rule_symbol(
                        rule,
                        first_based_of(rule.source_line),
                        column_of(rule.source_column),
                    ),
                    None => make_rule_symbol(rule, 0, 0),
                };
                let ghost before = out@;
                out.push(s);
                assert(symbol_models(out@) =~= symbol_models(before).push(s@));
            }
            j = j + 1;
        }
        assert(rs.take(j as int) =~= rs);
        i = i + 1;
    }
    assert(fs.take(i as int) =~= fs);
    out
}

} // verus!
