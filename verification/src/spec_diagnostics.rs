//! Diagnostics for spec documents, and for the workspace as a whole.

use vstd::prelude::*;

use crate::adoc_marker::is_prefix_char;
use crate::api::{
    diagnostic_models, file_diagnostics, forward_models, rule_models, spec_infos, ApiConfig,
    ApiSpecForward, DiagnosticModel, ImplKey, LspDiagnostic, LspFileDiagnostics, RuleModel,
};
use crate::coverage::{show_path, shown_path};
use crate::diagnostics::{
    build_source_diagnostic_context, classify_reference_against_known_rules,
    collect_source_diagnostic_issues, context_model, ids_text, issue_diagnostic, issue_models,
    join_ids, known_ids, known_match, knows_prefix, similar_ids, source_issue_to_lsp, source_issues,
    stale_diagnostic_message_short, stale_message, suggest_similar_rule_ids, IssueModel,
    KnownRuleMatch, SourceDiagnosticContext,
};
use crate::document::{code_spans, InlineCodeSpan};
use crate::numbers::{decimal, decimal_of_usize};
use crate::order::{
    in_order, key_models, positions, sort_positions, sorted_order, KeyModel, SortKey,
};
use crate::paths::{lists_path, path_in};
use crate::positions::{span_range, span_to_range};
use crate::requirement::{req_models, ReqDefinition, ReqModel, SourceSpan};
use crate::rule_id::{id_views, parse_rule_id, parsed_rule_id, rule_text, RuleId};
use crate::text::{
    chars_of, concat3, copy_str, find_char, find_char_from, str_eq, sub_string, texts,
};
use crate::validation::{
    path_pairs, source_models, unparseable_file_message, unparseable_message, SetModel,
    SourceModel, SourceSet,
};

verus! {

/// The prefix and the rule id of a text of the form `PREFIX[RULE_ID]`.
pub open spec fn inline_reference(s: Seq<char>) -> Option<(Seq<char>, (Seq<char>, u32))> {
    match find_char(s, '[', 0) {
        None => None,
        Some(b) => match find_char(s, ']', b + 1) {
            None => None,
            Some(close) => if b > 0 && (forall|i: int|
                0 <= i < b ==> is_prefix_char(#[trigger] s[i])) && close + 1 == s.len() {
                match parsed_rule_id(s.subrange(b + 1, close)) {
                    Some(id) => Some((s.take(b), id)),
                    None => None,
                }
            } else {
                None
            },
        },
    }
}

fn prefix_chars_before(s: &[char], b: usize) -> (r: bool)
    requires
        b <= s@.len(),
    ensures
        r == forall|i: int| 0 <= i < b ==> is_prefix_char(#[trigger] s@[i]),
{
    let mut i: usize = 0;
    while i < b
        invariant
            i <= b <= s@.len(),
            forall|j: int| 0 <= j < i ==> is_prefix_char(#[trigger] s@[j]),
        decreases b - i,
    {
        let c = s[i];
        if !(('a' <= c && c <= 'z') || ('0' <= c && c <= '9')) {
            assert(!is_prefix_char(s@[i as int]));
            return false;
        }
        i = i + 1;
    }
    true
}

/// Parse an inline code span content like `r[auth.login]` into (prefix, rule id).
/// Returns None if the content doesn't match the `PREFIX[RULE_ID]` pattern.
pub fn parse_inline_rule_reference(content: &str) -> (r: Option<(String, RuleId)>)
    ensures
        match (r, inline_reference(content@)) {
            (Some(a), Some(b)) => a.0@ == b.0 && a.1@ == b.1,
            (None, None) => true,
            _ => false,
        },
{
    let s = chars_of(content);
    let b = match find_char_from(&s, '[', 0) {
        Some(b) => b,
        None => {
            return None;
        },
    };
    let close = match find_char_from(&s, ']', b + 1) {
        Some(c) => c,
        None => {
            return None;
        },
    };
    if b == 0 || close + 1 != s.len() {
        return None;
    }
    if !prefix_chars_before(&s, b) {
        return None;
    }
    let rule = sub_string(&s, b + 1, close);
    match parse_rule_id(rule.as_str()) {
        Some(id) => {
            let prefix = sub_string(&s, 0, b);
            assert(s@.subrange(0, b as int) =~= content@.take(b as int));
            Some((prefix, id))
        },
        None => None,
    }
}

/// All rules of all implementations.
pub open spec fn all_rules(forward: Seq<((Seq<char>, Seq<char>), Seq<RuleModel>)>) -> Seq<RuleModel>
    decreases forward.len(),
{
    if forward.len() == 0 {
        Seq::empty()
    } else {
        all_rules(forward.drop_last()) + forward.last().1
    }
}

/// Among the first `n` rules, the one with the given base and the highest
/// version; the first of several.
pub open spec fn best_rule(rules: Seq<RuleModel>, n: int, base: Seq<char>) -> Option<RuleModel>
    decreases n,
{
    if n <= 0 {
        None
    } else {
        let before = best_rule(rules, n - 1, base);
        let r = rules[n - 1];
        if r.id.0 != base {
            before
        } else {
            match before {
                Some(b) => if b.id.1 >= r.id.1 {
                    before
                } else {
                    Some(r)
                },
                None => Some(r),
            }
        }
    }
}

/// The coverage hint for a requirement definition.
pub open spec fn coverage_hint(
    content: Seq<char>,
    def: ReqModel,
    rules: Seq<RuleModel>,
) -> Seq<DiagnosticModel> {
    let range = span_range(content, def.marker_span.offset, def.marker_span.length);
    match parsed_rule_id(rule_text(def.id)) {
        None => Seq::empty(),
        Some(id) => match best_rule(rules, rules.len() as int, id.0) {
            None => Seq::empty(),
            Some(r) => if r.impl_refs.len() == 0 {
                seq![
                    DiagnosticModel {
                        severity: "hint"@,
                        code: "uncovered"@,
                        message: "Requirement has no implementations"@,
                        range,
                    },
                ]
            } else if r.verify_refs.len() == 0 {
                seq![
                    DiagnosticModel {
                        severity: "hint"@,
                        code: "untested"@,
                        message: "Requirement has "@ + decimal(r.impl_refs.len())
                            + " impl but no verification"@,
                        range,
                    },
                ]
            } else {
                Seq::empty()
            },
        },
    }
}

/// What is said of a reference in a spec document to a rule that is not known.
pub open spec fn orphan_message(id: (Seq<char>, u32), known: Seq<(Seq<char>, u32)>) -> Seq<char> {
    let similar = similar_ids(id, known, 3);
    let said = "Reference to unknown rule '"@ + rule_text(id) + "'"@;
    if similar.len() == 0 {
        said
    } else {
        said + " (did you mean: "@ + ids_text(similar, ", "@) + ")"@
    }
}

/// The diagnostic for a reference in a spec document.
pub open spec fn reference_diagnostics(
    content: Seq<char>,
    span: (Seq<char>, SourceSpan),
    ctx: Seq<(Seq<char>, Seq<(Seq<char>, u32)>)>,
) -> Seq<DiagnosticModel> {
    let range = span_range(content, span.1.offset, span.1.length);
    match inline_reference(span.0) {
        None => Seq::empty(),
        Some((prefix, id)) => if !knows_prefix(ctx, prefix) {
            seq![
                DiagnosticModel {
                    severity: "error"@,
                    code: "unknown-prefix"@,
                    message: "Unknown prefix: '"@ + prefix + "'"@,
                    range,
                },
            ]
        } else {
            match known_match(id, known_ids(ctx, prefix)) {
                Ok(None) => Seq::empty(),
                Ok(Some(rule)) => seq![
                    DiagnosticModel {
                        severity: "warning"@,
                        code: "stale"@,
                        message: stale_message(id, Some(rule)),
                        range,
                    },
                ],
                Err(_) => seq![
                    DiagnosticModel {
                        severity: "warning"@,
                        code: "orphaned"@,
                        message: orphan_message(id, known_ids(ctx, prefix)),
                        range,
                    },
                ],
            }
        },
    }
}

/// The hints for the first `n` requirement definitions.
pub open spec fn coverage_hints(
    content: Seq<char>,
    defs: Seq<ReqModel>,
    n: int,
    rules: Seq<RuleModel>,
) -> Seq<DiagnosticModel>
    decreases n,
{
    if n <= 0 {
        Seq::empty()
    } else {
        coverage_hints(content, defs, n - 1, rules) + coverage_hint(content, defs[n - 1], rules)
    }
}

/// The diagnostics for the first `n` code spans.
pub open spec fn spans_diagnostics(
    content: Seq<char>,
    spans: Seq<(Seq<char>, SourceSpan)>,
    n: int,
    ctx: Seq<(Seq<char>, Seq<(Seq<char>, u32)>)>,
) -> Seq<DiagnosticModel>
    decreases n,
{
    if n <= 0 {
        Seq::empty()
    } else {
        spans_diagnostics(content, spans, n - 1, ctx) + reference_diagnostics(
            content,
            spans[n - 1],
            ctx,
        )
    }
}

/// A spec document with what was parsed from it.
pub struct SpecFile {
    pub path: String,
    pub content: String,
    pub reqs: Vec<ReqDefinition>,
    pub inline_code_spans: Vec<InlineCodeSpan>,
}

/// What a parsed spec document says.
#[verifier::ext_equal]
pub struct SpecFileModel {
    pub path: Seq<char>,
    pub content: Seq<char>,
    pub reqs: Seq<ReqModel>,
    pub inline_code_spans: Seq<(Seq<char>, SourceSpan)>,
}

impl View for SpecFile {
    type V = SpecFileModel;

    open spec fn view(&self) -> SpecFileModel {
        SpecFileModel {
            path: self.path@,
            content: self.content@,
            reqs: req_models(self.reqs@),
            inline_code_spans: code_spans(self.inline_code_spans@),
        }
    }
}

pub open spec fn spec_file_models(v: Seq<SpecFile>) -> Seq<SpecFileModel> {
    v.map_values(|f: SpecFile| f@)
}

/// The diagnostics of a spec document.
pub open spec fn spec_file_diagnostics(
    f: SpecFileModel,
    rules: Seq<RuleModel>,
    ctx: Seq<(Seq<char>, Seq<(Seq<char>, u32)>)>,
) -> Seq<DiagnosticModel> {
    coverage_hints(f.content, f.reqs, f.reqs.len() as int, rules) + spans_diagnostics(
        f.content,
        f.inline_code_spans,
        f.inline_code_spans.len() as int,
        ctx,
    )
}

/// The diagnostics of the first `n` spec documents; those without any are left
/// out.
pub open spec fn spec_files_diagnostics(
    root: Seq<char>,
    files: Seq<SpecFileModel>,
    n: int,
    rules: Seq<RuleModel>,
    ctx: Seq<(Seq<char>, Seq<(Seq<char>, u32)>)>,
) -> Seq<(Seq<char>, Seq<DiagnosticModel>)>
    decreases n,
{
    if n <= 0 {
        Seq::empty()
    } else {
        let before = spec_files_diagnostics(root, files, n - 1, rules, ctx);
        let f = files[n - 1];
        let ds = spec_file_diagnostics(f, rules, ctx);
        if ds.len() == 0 {
            before
        } else {
            before.push((shown_path(root, f.path), ds))
        }
    }
}

proof fn lemma_diagnostics_push(v: Seq<LspDiagnostic>, d: LspDiagnostic)
    ensures
        diagnostic_models(v.push(d)) == diagnostic_models(v).push(d@),
{
    assert(diagnostic_models(v.push(d)) =~= diagnostic_models(v).push(d@));
}

fn make_diagnostic(
    severity: &str,
    code: &str,
    message: String,
    range: (u32, u32, u32, u32),
) -> (r: LspDiagnostic)
    ensures
        r@ == (DiagnosticModel { severity: severity@, code: code@, message: message@, range }),
{
    LspDiagnostic {
        severity: copy_str(severity),
        code: copy_str(code),
        message,
        start_line: range.0,
        start_char: range.1,
        end_line: range.2,
        end_char: range.3,
    }
}

/// Positions of the best rule for a base.
fn find_best_rule(forward: &Vec<(ImplKey, ApiSpecForward)>, base: &str) -> (r: Option<(usize, usize)>)
    ensures
        ({
            let rules = all_rules(forward_models(forward@));
            match (r, best_rule(rules, rules.len() as int, base@)) {
                (Some(p), Some(b)) => p.0 < forward@.len() && p.1 < forward@[p.0 as int].1.rules@.len()
                    && forward@[p.0 as int].1.rules@[p.1 as int]@ == b,
                (None, None) => true,
                _ => false,
            }
        }),
{
    let ghost fs = forward_models(forward@);
    let mut best: Option<(usize, usize)> = None;
    let mut i: usize = 0;
    while i < forward.len()
        invariant
            i <= forward@.len(),
            fs == forward_models(forward@),
            ({
                let rules = all_rules(fs.take(i as int));
                match (best, best_rule(rules, rules.len() as int, base@)) {
                    (Some(p), Some(b)) => p.0 < forward@.len() && p.1
                        < forward@[p.0 as int].1.rules@.len()
                        && forward@[p.0 as int].1.rules@[p.1 as int]@ == b,
                    (None, None) => true,
                    _ => false,
                }
            }),
        decreases forward@.len() - i,
    {
        let ghost before = all_rules(fs.take(i as int));
        let ghost here = rule_models(forward@[i as int].1.rules@);
        let ghost after = all_rules(fs.take(i + 1));
        proof {
            assert(fs.take(i + 1).drop_last() =~= fs.take(i as int));
            assert(fs.take(i + 1).last() == fs[i as int]);
            assert(after =~= before + here);
            lemma_best_prefix(before, after, before.len() as int, base@);
        }
        let mut j: usize = 0;
        while j < forward[i].1.rules.len()
            invariant
                i < forward@.len(),
                j <= forward@[i as int].1.rules@.len(),
                here == rule_models(forward@[i as int].1.rules@),
                after == before + here,
                ({
                    match (best, best_rule(after, before.len() + j, base@)) {
                        (Some(p), Some(b)) => p.0 < forward@.len() && p.1
                            < forward@[p.0 as int].1.rules@.len()
                            && forward@[p.0 as int].1.rules@[p.1 as int]@ == b,
                        (None, None) => true,
                        _ => false,
                    }
                }),
            decreases forward@[i as int].1.rules@.len() - j,
        {
            let rule = &forward[i].1.rules[j];
            assert(after[before.len() + j] == rule@);
            if str_eq(rule.id.base.as_str(), base) {
                let keep = match best {
                    Some(p) => forward[p.0].1.rules[p.1].id.version >= rule.id.version,
                    None => false,
                };
                if !keep {
                    best = Some((i, j));
                }
            }
            j = j + 1;
        }
        i = i + 1;
    }
    assert(fs.take(i as int) =~= fs);
    best
}

proof fn lemma_best_prefix(a: Seq<RuleModel>, b: Seq<RuleModel>, n: int, base: Seq<char>)
    requires
        0 <= n <= a.len(),
        n <= b.len(),
        forall|i: int| 0 <= i < n ==> a[i] == b[i],
    ensures
        best_rule(a, n, base) == best_rule(b, n, base),
    decreases n,
{
    if n > 0 {
        lemma_best_prefix(a, b, n - 1, base);
    }
}

fn push_coverage_hint(
    content: &str,
    def: &ReqDefinition,
    forward: &Vec<(ImplKey, ApiSpecForward)>,
    out: &mut Vec<LspDiagnostic>,
)
    ensures
        diagnostic_models(final(out)@) == diagnostic_models(old(out)@) + coverage_hint(
            content@,
            def@,
            all_rules(forward_models(forward@)),
        ),
{
    let ghost start = diagnostic_models(out@);
    let range = span_to_range(content, def.marker_span.offset, def.marker_span.length);
    let text = def.id.text();
    assert(start + Seq::<DiagnosticModel>::empty() =~= start);
    let id = match parse_rule_id(text.as_str()) {
        Some(id) => id,
        None => {
            return;
        },
    };
    let (i, j) = match find_best_rule(forward, id.base.as_str()) {
        Some(p) => p,
        None => {
            return;
        },
    };
    let rule = &forward[i].1.rules[j];
    assert(rule@.impl_refs.len() == rule.impl_refs@.len());
    assert(rule@.verify_refs.len() == rule.verify_refs@.len());
    if rule.impl_refs.len() == 0 {
        let d = make_diagnostic(
            "hint",
            "uncovered",
            copy_str("Requirement has no implementations"),
            range,
        );
        proof {
            lemma_diagnostics_push(out@, d);
        }
        out.push(d);
        assert(start.push(d@) =~= start + seq![d@]);
    } else if rule.verify_refs.len() == 0 {
        let n = decimal_of_usize(rule.impl_refs.len());
        let d = make_diagnostic(
            "hint",
            "untested",
            concat3("Requirement has ", n.as_str(), " impl but no verification"),
            range,
        );
        proof {
            lemma_diagnostics_push(out@, d);
        }
        out.push(d);
        assert(start.push(d@) =~= start + seq![d@]);
    }
}

fn push_reference_diagnostic(
    content: &str,
    span: &InlineCodeSpan,
    ctx: &SourceDiagnosticContext,
    out: &mut Vec<LspDiagnostic>,
)
    ensures
        diagnostic_models(final(out)@) == diagnostic_models(old(out)@) + reference_diagnostics(
            content@,
            (span.content@, span.span),
            ctx.model(),
        ),
{
    let ghost start = diagnostic_models(out@);
    assert(start + Seq::<DiagnosticModel>::empty() =~= start);
    let (prefix, id) = match parse_inline_rule_reference(span.content.as_str()) {
        Some(x) => x,
        None => {
            return;
        },
    };
    let range = span_to_range(content, span.span.offset, span.span.length);
    let d = match ctx.rules_for(prefix.as_str()) {
        None => make_diagnostic(
            "error",
            "unknown-prefix",
            concat3("Unknown prefix: '", prefix.as_str(), "'"),
            range,
        ),
        Some(known) => match classify_reference_against_known_rules(&id, &known) {
            KnownRuleMatch::Exact => {
                return;
            },
            KnownRuleMatch::Stale(rule) => make_diagnostic(
                "warning",
                "stale",
                stale_diagnostic_message_short(&id, Some(&rule)),
                range,
            ),
            KnownRuleMatch::Missing => {
                let similar = suggest_similar_rule_ids(&id, &known, 3);
                let t = id.text();
                let mut m = concat3("Reference to unknown rule '", t.as_str(), "'");
                assert(id_views(similar@).len() == similar@.len());
                if similar.len() > 0 {
                    m.append(" (did you mean: ");
                    let ids = join_ids(&similar, ", ");
                    m.append(ids.as_str());
                    m.append(")");
                }
                make_diagnostic("warning", "orphaned", m, range)
            },
        },
    };
    proof {
        lemma_diagnostics_push(out@, d);
    }
    out.push(d);
    assert(start.push(d@) =~= start + seq![d@]);
}

fn diagnose_spec_file(
    f: &SpecFile,
    forward: &Vec<(ImplKey, ApiSpecForward)>,
    ctx: &SourceDiagnosticContext,
) -> (r: Vec<LspDiagnostic>)
    ensures
        diagnostic_models(r@) == spec_file_diagnostics(
            f@,
            all_rules(forward_models(forward@)),
            ctx.model(),
        ),
{
    let ghost rules = all_rules(forward_models(forward@));
    let ghost defs = req_models(f.reqs@);
    let ghost spans = code_spans(f.inline_code_spans@);
    let mut out: Vec<LspDiagnostic> = Vec::new();
    let mut i: usize = 0;
    assert(diagnostic_models(out@) =~= Seq::<DiagnosticModel>::empty());
    while i < f.reqs.len()
        invariant
            i <= f.reqs@.len(),
            rules == all_rules(forward_models(forward@)),
            defs == req_models(f.reqs@),
            diagnostic_models(out@) == coverage_hints(f.content@, defs, i as int, rules),
        decreases f.reqs@.len() - i,
    {
        push_coverage_hint(f.content.as_str(), &f.reqs[i], forward, &mut out);
        assert(defs[i as int] == f.reqs@[i as int]@);
        i = i + 1;
    }
    let ghost hints = diagnostic_models(out@);
    let mut j: usize = 0;
    assert(hints + spans_diagnostics(f.content@, spans, 0, ctx.model()) =~= hints);
    while j < f.inline_code_spans.len()
        invariant
            j <= f.inline_code_spans@.len(),
            spans == code_spans(f.inline_code_spans@),
            diagnostic_models(out@) == hints + spans_diagnostics(
                f.content@,
                spans,
                j as int,
                ctx.model(),
            ),
        decreases f.inline_code_spans@.len() - j,
    {
        push_reference_diagnostic(f.content.as_str(), &f.inline_code_spans[j], ctx, &mut out);
        proof {
            let s = f.inline_code_spans@[j as int];
            assert(spans[j as int] == (s.content@, s.span));
            assert(hints + spans_diagnostics(f.content@, spans, j as int, ctx.model())
                + reference_diagnostics(f.content@, spans[j as int], ctx.model()) =~= hints
                + spans_diagnostics(f.content@, spans, j + 1, ctx.model()));
        }
        j = j + 1;
    }
    out
}

/// Compute diagnostics for spec documents: coverage hints and the validation of
/// references to other rules. Without any spec there are none.
pub fn compute_spec_file_diagnostics(
    root: &str,
    forward_by_impl: &Vec<(ImplKey, ApiSpecForward)>,
    files: &Vec<SpecFile>,
    ctx: &SourceDiagnosticContext,
) -> (r: Vec<LspFileDiagnostics>)
    ensures
        file_diagnostics(r@) == if ctx.model().len() == 0 {
            Seq::empty()
        } else {
            spec_files_diagnostics(
                root@,
                spec_file_models(files@),
                files@.len() as int,
                all_rules(forward_models(forward_by_impl@)),
                ctx.model(),
            )
        },
{
    let ghost rules = all_rules(forward_models(forward_by_impl@));
    let mut out: Vec<LspFileDiagnostics> = Vec::new();
    assert(file_diagnostics(out@) =~= Seq::<(Seq<char>, Seq<DiagnosticModel>)>::empty());
    assert(ctx.model().len() == ctx.specs@.len());
    if ctx.specs.len() == 0 {
        return out;
    }
    let mut i: usize = 0;
    while i < files.len()
        invariant
            i <= files@.len(),
            rules == all_rules(forward_models(forward_by_impl@)),
            file_diagnostics(out@) == spec_files_diagnostics(
                root@,
                spec_file_models(files@),
                i as int,
                rules,
                ctx.model(),
            ),
        decreases files@.len() - i,
    {
        let diagnostics = diagnose_spec_file(&files[i], forward_by_impl, ctx);
        assert(spec_file_models(files@)[i as int] == files@[i as int]@);
        assert(diagnostic_models(diagnostics@).len() == diagnostics@.len());
        if diagnostics.len() > 0 {
            let one = LspFileDiagnostics { path: show_path(root, files[i].path.as_str()), diagnostics };
            let ghost before = out@;
            out.push(one);
            assert(file_diagnostics(out@) =~= file_diagnostics(before).push(one@));
        }
        i = i + 1;
    }
    out
}

/// The diagnostics of a source file.
pub open spec fn source_diagnostics(
    f: SourceModel,
    is_test: bool,
    ctx: Seq<(Seq<char>, Seq<(Seq<char>, u32)>)>,
) -> Seq<DiagnosticModel> {
    source_issues(f.content, f.reqs.references, f.reqs.warnings, is_test, ctx).map_values(
        |i: IssueModel| issue_diagnostic(i),
    )
}

/// The diagnostics of the first `n` source files; those without any are left
/// out.
pub open spec fn sources_diagnostics(
    root: Seq<char>,
    files: Seq<SourceModel>,
    n: int,
    test_files: Seq<Seq<char>>,
    ctx: Seq<(Seq<char>, Seq<(Seq<char>, u32)>)>,
) -> Seq<(Seq<char>, Seq<DiagnosticModel>)>
    decreases n,
{
    if n <= 0 {
        Seq::empty()
    } else {
        let before = sources_diagnostics(root, files, n - 1, test_files, ctx);
        let f = files[n - 1];
        let ds = source_diagnostics(f, lists_path(test_files, f.path), ctx);
        if ds.len() == 0 {
            before
        } else {
            before.push((shown_path(root, f.path), ds))
        }
    }
}

/// The diagnostics of files that the patterns find but that cannot be read;
/// they stand at the top of the configuration file.
pub open spec fn failure_diagnostics(
    root: Seq<char>,
    config_path: Seq<char>,
    failures: Seq<(Seq<char>, Seq<char>)>,
) -> Seq<(Seq<char>, Seq<DiagnosticModel>)> {
    if failures.len() == 0 {
        Seq::empty()
    } else {
        seq![
            (
                shown_path(root, config_path),
                failures.map_values(
                    |f: (Seq<char>, Seq<char>)|
                        DiagnosticModel {
                            severity: "warning"@,
                            code: "include-unparseable-file"@,
                            message: unparseable_message(shown_path(root, f.0), f.1),
                            range: (0u32, 0u32, 0u32, 1u32),
                        },
                ),
            ),
        ]
    }
}

/// What file diagnostics are ordered by.
pub open spec fn path_keys(v: Seq<(Seq<char>, Seq<DiagnosticModel>)>) -> Seq<KeyModel> {
    v.map_values(
        |d: (Seq<char>, Seq<DiagnosticModel>)| KeyModel { weight: 0, text: d.0, number: 0 },
    )
}

/// What workspace diagnostics are computed from, besides the rules.
pub struct WorkspaceInput<'a> {
    pub root: &'a str,
    pub config_path: &'a str,
    pub sources: &'a SourceSet,
    pub spec_files: &'a Vec<SpecFile>,
    /// Files that cannot be read, with the reason.
    pub failures: &'a Vec<(String, String)>,
}

/// What workspace diagnostics are computed from, besides the rules.
#[verifier::ext_equal]
pub struct WorkspaceModel {
    pub root: Seq<char>,
    pub config_path: Seq<char>,
    pub sources: SetModel,
    pub spec_files: Seq<SpecFileModel>,
    pub failures: Seq<(Seq<char>, Seq<char>)>,
}

impl<'a> View for WorkspaceInput<'a> {
    type V = WorkspaceModel;

    open spec fn view(&self) -> WorkspaceModel {
        WorkspaceModel {
            root: self.root@,
            config_path: self.config_path@,
            sources: self.sources@,
            spec_files: spec_file_models(self.spec_files@),
            failures: path_pairs(self.failures@),
        }
    }
}

/// The diagnostics of the workspace, before they are ordered.
pub open spec fn workspace_parts(
    input: WorkspaceModel,
    forward: Seq<((Seq<char>, Seq<char>), Seq<RuleModel>)>,
    ctx: Seq<(Seq<char>, Seq<(Seq<char>, u32)>)>,
) -> Seq<(Seq<char>, Seq<DiagnosticModel>)> {
    sources_diagnostics(
        input.root,
        input.sources.files,
        input.sources.files.len() as int,
        input.sources.test_files,
        ctx,
    ) + (if ctx.len() == 0 {
        Seq::empty()
    } else {
        spec_files_diagnostics(
            input.root,
            input.spec_files,
            input.spec_files.len() as int,
            all_rules(forward),
            ctx,
        )
    }) + failure_diagnostics(input.root, input.config_path, input.failures)
}

fn diagnose_sources(input: &WorkspaceInput<'_>, ctx: &SourceDiagnosticContext) -> (r: Vec<
    LspFileDiagnostics,
>)
    ensures
        file_diagnostics(r@) == sources_diagnostics(
            input.root@,
            source_models(input.sources.files@),
            input.sources.files@.len() as int,
            texts(input.sources.test_files@),
            ctx.model(),
        ),
{
    let ghost fs = source_models(input.sources.files@);
    let ghost tests = texts(input.sources.test_files@);
    let mut out: Vec<LspFileDiagnostics> = Vec::new();
    let mut i: usize = 0;
    assert(file_diagnostics(out@) =~= Seq::<(Seq<char>, Seq<DiagnosticModel>)>::empty());
    while i < input.sources.files.len()
        invariant
            i <= input.sources.files@.len(),
            fs == source_models(input.sources.files@),
            tests == texts(input.sources.test_files@),
            file_diagnostics(out@) == sources_diagnostics(
                input.root@,
                fs,
                i as int,
                tests,
                ctx.model(),
            ),
        decreases input.sources.files@.len() - i,
    {
        let f = &input.sources.files[i];
        assert(fs[i as int] == f@);
        let is_test = path_in(&input.sources.test_files, f.path.as_str());
        let issues = collect_source_diagnostic_issues(f.content.as_str(), &f.reqs, is_test, ctx);
        let ghost model = source_diagnostics(f@, is_test, ctx.model());
        let mut diagnostics: Vec<LspDiagnostic> = Vec::new();
        let mut j: usize = 0;
        while j < issues.len()
            invariant
                j <= issues@.len(),
                issue_models(issues@) == source_issues(
                    f.content@,
                    f.reqs@.references,
                    f.reqs@.warnings,
                    is_test,
                    ctx.model(),
                ),
                model == source_diagnostics(f@, is_test, ctx.model()),
                diagnostics@.len() == j,
                forall|k: int| 0 <= k < j ==> (#[trigger] diagnostics@[k])@ == model[k],
            decreases issues@.len() - j,
        {
            let d = source_issue_to_lsp(&issues[j]);
            assert(issue_models(issues@)[j as int] == issues@[j as int]@);
            assert(d@ == model[j as int]);
            diagnostics.push(d);
            j = j + 1;
        }
        assert(diagnostic_models(diagnostics@) =~= model);
        if diagnostics.len() > 0 {
            let one = LspFileDiagnostics {
                path: show_path(input.root, f.path.as_str()),
                diagnostics,
            };
            let ghost before = out@;
            out.push(one);
            assert(file_diagnostics(out@) =~= file_diagnostics(before).push(one@));
        }
        i = i + 1;
    }
    out
}

fn diagnose_failures(input: &WorkspaceInput<'_>) -> (r: Vec<LspFileDiagnostics>)
    ensures
        file_diagnostics(r@) == failure_diagnostics(
            input.root@,
            input.config_path@,
            path_pairs(input.failures@),
        ),
{
    let mut out: Vec<LspFileDiagnostics> = Vec::new();
    assert(file_diagnostics(out@) =~= Seq::<(Seq<char>, Seq<DiagnosticModel>)>::empty());
    assert(path_pairs(input.failures@).len() == input.failures@.len());
    if input.failures.len() == 0 {
        return out;
    }
    let ghost model = failure_diagnostics(
        input.root@,
        input.config_path@,
        path_pairs(input.failures@),
    );
    let mut diagnostics: Vec<LspDiagnostic> = Vec::new();
    let mut i: usize = 0;
    while i < input.failures.len()
        invariant
            i <= input.failures@.len(),
            model == failure_diagnostics(
                input.root@,
                input.config_path@,
                path_pairs(input.failures@),
            ),
            input.failures@.len() > 0,
            diagnostics@.len() == i,
            forall|k: int| 0 <= k < i ==> (#[trigger] diagnostics@[k])@ == model[0].1[k],
        decreases input.failures@.len() - i,
    {
        let shown = show_path(input.root, input.failures[i].0.as_str());
        let m = unparseable_file_message(shown.as_str(), input.failures[i].1.as_str());
        let d = make_diagnostic("warning", "include-unparseable-file", m, (0, 0, 0, 1));
        assert(path_pairs(input.failures@)[i as int] == (
            input.failures@[i as int].0@,
            input.failures@[i as int].1@,
        ));
        diagnostics.push(d);
        i = i + 1;
    }
    assert(diagnostic_models(diagnostics@) =~= model[0].1);
    let one = LspFileDiagnostics {
        path: show_path(input.root, input.config_path),
        diagnostics,
    };
    out.push(one);
    assert(file_diagnostics(out@) =~= model);
    out
}

fn copy_file_diagnostics(d: &LspFileDiagnostics) -> (r: LspFileDiagnostics)
    ensures
        r@ == d@,
{
    let mut out: Vec<LspDiagnostic> = Vec::new();
    let mut i: usize = 0;
    while i < d.diagnostics.len()
        invariant
            i <= d.diagnostics@.len(),
            out@.len() == i,
            forall|k: int| 0 <= k < i ==> (#[trigger] out@[k])@ == d.diagnostics@[k]@,
        decreases d.diagnostics@.len() - i,
    {
        let x = &d.diagnostics[i];
        out.push(
            make_diagnostic(
                x.severity.as_str(),
                x.code.as_str(),
                copy_str(x.message.as_str()),
                (x.start_line, x.start_char, x.end_line, x.end_char),
            ),
        );
        i = i + 1;
    }
    assert(diagnostic_models(out@) =~= diagnostic_models(d.diagnostics@));
    LspFileDiagnostics { path: copy_str(d.path.as_str()), diagnostics: out }
}

fn sort_file_diagnostics(v: &Vec<LspFileDiagnostics>) -> (r: Vec<LspFileDiagnostics>)
    ensures
        file_diagnostics(r@) == in_order(file_diagnostics(v@), path_keys(file_diagnostics(v@))),
{
    let ghost ds = file_diagnostics(v@);
    let mut keys: Vec<SortKey> = Vec::new();
    let mut i: usize = 0;
    while i < v.len()
        invariant
            i <= v@.len(),
            ds == file_diagnostics(v@),
            keys@.len() == i,
            forall|k: int| 0 <= k < i ==> (#[trigger] keys@[k])@ == path_keys(ds)[k],
        decreases v@.len() - i,
    {
        keys.push(SortKey { weight: 0, text: copy_str(v[i].path.as_str()), number: 0 });
        i = i + 1;
    }
    assert(key_models(keys@) =~= path_keys(ds));
    let order = sort_positions(&keys);
    let mut out: Vec<LspFileDiagnostics> = Vec::new();
    let mut j: usize = 0;
    while j < order.len()
        invariant
            j <= order@.len(),
            ds == file_diagnostics(v@),
            order@.len() == v@.len(),
            positions(order@) == sorted_order(path_keys(ds), ds.len() as int),
            forall|k: int| 0 <= k < order@.len() ==> #[trigger] order@[k] < v@.len(),
            out@.len() == j,
            forall|k: int| 0 <= k < j ==> (#[trigger] out@[k])@ == ds[positions(order@)[k]],
        decreases order@.len() - j,
    {
        assert(order@[j as int] < v@.len());
        out.push(copy_file_diagnostics(&v[order[j]]));
        j = j + 1;
    }
    assert(file_diagnostics(out@) =~= in_order(ds, path_keys(ds)));
    out
}

/// Compute the diagnostics of the workspace: those of source files, of spec
/// documents, and of files that cannot be read, ordered by path.
pub fn compute_workspace_diagnostics(
    config: &ApiConfig,
    forward_by_impl: &Vec<(ImplKey, ApiSpecForward)>,
    input: &WorkspaceInput<'_>,
) -> (r: Vec<LspFileDiagnostics>)
    ensures
        ({
            let forward = forward_models(forward_by_impl@);
            let parts = workspace_parts(
                input@,
                forward,
                context_model(spec_infos(config.specs@), forward),
            );
            file_diagnostics(r@) == in_order(parts, path_keys(parts))
        }),
{
    let ctx = build_source_diagnostic_context(config, forward_by_impl);
    let mut out = diagnose_sources(input, &ctx);
    let mut specs = compute_spec_file_diagnostics(
        input.root,
        forward_by_impl,
        input.spec_files,
        &ctx,
    );
    let mut failures = diagnose_failures(input);
    let ghost a = out@;
    let ghost b = specs@;
    let ghost c = failures@;
    out.append(&mut specs);
    out.append(&mut failures);
    assert(file_diagnostics(out@) =~= file_diagnostics(a) + file_diagnostics(b) + file_diagnostics(
        c,
    ));
    sort_file_diagnostics(&out)
}

} // verus!
