//! Validation of rules and references.

use vstd::prelude::*;

use crate::api::{
    error_models, file_entries, forward_models, rule_models, spec_infos, ApiConfig, ApiReverseData,
    ApiRule, ApiSpecForward, ErrorModel, ImplKey, RuleModel, ValidationError, ValidationErrorCode,
    ValidationResult,
};
use crate::coverage::{show_path, shown_path};
use crate::cycles::{find_cycles, is_cycle};
use crate::diagnostics::{
    build_source_diagnostic_context, collect_source_diagnostic_issues, context_model, issue_models,
    join_ids, source_issues, IssueCode, IssueModel, SourceDiagnosticContext, SourceDiagnosticIssue,
    SourceDiagnosticIssueCode,
};
use crate::languages::{supported_extension_list, supported_extensions};
use crate::numbers::{decimal, decimal_of_usize};
use crate::paths::{
    components, components_of, join_paths, lists_path, path_in, path_join, same_path,
};
use crate::positions::one_based;
use crate::refs::{Reqs, ReqsModel};
use crate::requirement::copy_opt;
use crate::rule_id::{id_views, rule_text, RuleId};
use crate::split::{split_char, split_char_of};
use crate::text::{chars_of, concat2, concat3, copy_str, str_eq, texts};

verus! {

/// A source file with what was extracted from it.
pub struct SourceFile {
    pub path: String,
    pub content: String,
    pub reqs: Reqs,
}

/// What a source file says.
pub struct SourceModel {
    pub path: Seq<char>,
    pub content: Seq<char>,
    pub reqs: ReqsModel,
}

impl View for SourceFile {
    type V = SourceModel;

    open spec fn view(&self) -> SourceModel {
        SourceModel { path: self.path@, content: self.content@, reqs: self.reqs@ }
    }
}

pub open spec fn source_models(v: Seq<SourceFile>) -> Seq<SourceModel> {
    v.map_values(|f: SourceFile| f@)
}

/// A segment of a rule id: letters, digits, hyphens and underscores.
pub open spec fn is_segment(s: Seq<char>) -> bool {
    s.len() > 0 && forall|i: int|
        0 <= i < s.len() ==> ({
            let c = #[trigger] s[i];
            ('a' <= c && c <= 'z') || ('A' <= c && c <= 'Z') || ('0' <= c && c <= '9') || c == '-'
                || c == '_'
        })
}

/// A rule's base is made of dot-separated segments.
pub open spec fn is_well_named(base: Seq<char>) -> bool {
    forall|i: int|
        0 <= i < split_char(base, '.').len() ==> is_segment(#[trigger] split_char(base, '.')[i])
}

fn segment_ok(s: &str) -> (r: bool)
    ensures
        r == is_segment(s@),
{
    let v = chars_of(s);
    if v.len() == 0 {
        return false;
    }
    let mut i: usize = 0;
    while i < v.len()
        invariant
            v@ == s@,
            i <= v@.len(),
            forall|j: int|
                0 <= j < i ==> ({
                    let c = #[trigger] v@[j];
                    ('a' <= c && c <= 'z') || ('A' <= c && c <= 'Z') || ('0' <= c && c <= '9') || c
                        == '-' || c == '_'
                }),
        decreases v@.len() - i,
    {
        let c = v[i];
        if !(('a' <= c && c <= 'z') || ('A' <= c && c <= 'Z') || ('0' <= c && c <= '9') || c == '-'
            || c == '_') {
            return false;
        }
        i = i + 1;
    }
    true
}

/// Whether a rule id follows the naming convention.
pub fn is_valid_rule_id(id: &RuleId) -> (r: bool)
    ensures
        r == is_well_named(id.base@),
{
    let segments = split_char_of(id.base.as_str(), '.');
    let ghost ss = split_char(id.base@, '.');
    let mut i: usize = 0;
    while i < segments.len()
        invariant
            i <= segments@.len(),
            ss == split_char(id.base@, '.'),
            texts(segments@) == ss,
            forall|j: int| 0 <= j < i ==> is_segment(#[trigger] ss[j]),
        decreases segments@.len() - i,
    {
        assert(ss[i as int] == segments@[i as int]@);
        if !segment_ok(segments[i].as_str()) {
            return false;
        }
        i = i + 1;
    }
    true
}

/// The first of the first `n` rules with the given id.
pub open spec fn first_with_id(rules: Seq<RuleModel>, n: int, id: (Seq<char>, u32)) -> Option<int>
    decreases n,
{
    if n <= 0 {
        None
    } else {
        match first_with_id(rules, n - 1, id) {
            Some(i) => Some(i),
            None => if rules[n - 1].id == id {
                Some(n - 1)
            } else {
                None
            },
        }
    }
}

/// The first of the first `n` rules with the given base.
pub open spec fn first_with_base(rules: Seq<RuleModel>, n: int, base: Seq<char>) -> Option<int>
    decreases n,
{
    if n <= 0 {
        None
    } else {
        match first_with_base(rules, n - 1, base) {
            Some(i) => Some(i),
            None => if rules[n - 1].id.0 == base {
                Some(n - 1)
            } else {
                None
            },
        }
    }
}

/// Where a rule is defined.
pub open spec fn defined_at(r: RuleModel) -> Seq<char> {
    let file = match r.source_file {
        Some(f) => f,
        None => "?"@,
    };
    let line = match r.source_line {
        Some(l) => l,
        None => 0,
    };
    file + ":"@ + decimal(line as nat)
}

/// An error about a rule, at the place where it is defined.
pub open spec fn rule_error(
    code: ValidationErrorCode,
    message: Seq<char>,
    r: RuleModel,
    related: Seq<(Seq<char>, u32)>,
) -> ErrorModel {
    ErrorModel {
        code,
        message,
        file: r.source_file,
        line: r.source_line,
        column: r.source_column,
        related_rules: related,
        reference_rule_id: None,
        reference_text: None,
    }
}

/// The errors of the rule at position `k`: an earlier rule with the same id,
/// and an earlier rule with the same base.
pub open spec fn duplicate_errors_at(rules: Seq<RuleModel>, k: int) -> Seq<ErrorModel> {
    let r = rules[k];
    let same_id = match first_with_id(rules, k, r.id) {
        Some(p) => seq![
            rule_error(
                ValidationErrorCode::DuplicateRequirement,
                "Duplicate rule ID '"@ + rule_text(r.id) + "' (first defined at "@ + defined_at(
                    rules[p],
                ) + ")"@,
                r,
                seq![r.id],
            ),
        ],
        None => Seq::empty(),
    };
    let same_base = match first_with_base(rules, k, r.id.0) {
        Some(p) => seq![
            rule_error(
                ValidationErrorCode::DuplicateRequirement,
                "Duplicate rule base '"@ + r.id.0 + "' across versions ('"@ + rule_text(rules[p].id)
                    + "' and '"@ + rule_text(r.id) + "') in same spec (first defined at "@
                    + defined_at(rules[p]) + ")"@,
                r,
                seq![rules[p].id, r.id],
            ),
        ],
        None => Seq::empty(),
    };
    same_id + same_base
}

/// The duplicates among the first `n` rules.
pub open spec fn duplicate_errors(rules: Seq<RuleModel>, n: int) -> Seq<ErrorModel>
    decreases n,
{
    if n <= 0 {
        Seq::empty()
    } else {
        duplicate_errors(rules, n - 1) + duplicate_errors_at(rules, n - 1)
    }
}

/// The badly named among the first `n` rules.
pub open spec fn naming_errors(rules: Seq<RuleModel>, n: int) -> Seq<ErrorModel>
    decreases n,
{
    if n <= 0 {
        Seq::empty()
    } else {
        let before = naming_errors(rules, n - 1);
        let r = rules[n - 1];
        if is_well_named(r.id.0) {
            before
        } else {
            before.push(
                rule_error(
                    ValidationErrorCode::InvalidNaming,
                    "Rule ID '"@ + rule_text(r.id)
                        + "' doesn't follow naming convention (use dot-separated segments of letters, digits, hyphens, or underscores)"@,
                    r,
                    Seq::empty(),
                ),
            )
        }
    }
}

proof fn lemma_first_with_id(rules: Seq<RuleModel>, n: int, id: (Seq<char>, u32))
    requires
        0 <= n <= rules.len(),
    ensures
        match first_with_id(rules, n, id) {
            Some(i) => 0 <= i < n && rules[i].id == id && forall|j: int|
                0 <= j < i ==> (#[trigger] rules[j]).id != id,
            None => forall|j: int| 0 <= j < n ==> (#[trigger] rules[j]).id != id,
        },
    decreases n,
{
    if n > 0 {
        lemma_first_with_id(rules, n - 1, id);
    }
}

proof fn lemma_first_with_base(rules: Seq<RuleModel>, n: int, base: Seq<char>)
    requires
        0 <= n <= rules.len(),
    ensures
        match first_with_base(rules, n, base) {
            Some(i) => 0 <= i < n && rules[i].id.0 == base && forall|j: int|
                0 <= j < i ==> (#[trigger] rules[j]).id.0 != base,
            None => forall|j: int| 0 <= j < n ==> (#[trigger] rules[j]).id.0 != base,
        },
    decreases n,
{
    if n > 0 {
        lemma_first_with_base(rules, n - 1, base);
    }
}

proof fn lemma_errors_push(v: Seq<ValidationError>, e: ValidationError)
    ensures
        error_models(v.push(e)) == error_models(v).push(e@),
{
    assert(error_models(v.push(e)) =~= error_models(v).push(e@));
}

fn find_id(rules: &Vec<ApiRule>, n: usize, id: &RuleId) -> (r: Option<usize>)
    requires
        n <= rules@.len(),
    ensures
        crate::text::same_index(r, first_with_id(rule_models(rules@), n as int, id@)),
        r matches Some(i) ==> i < n,
{
    let ghost ms = rule_models(rules@);
    let mut i: usize = 0;
    while i < n
        invariant
            i <= n <= rules@.len(),
            ms == rule_models(rules@),
            forall|j: int| 0 <= j < i ==> (#[trigger] ms[j]).id != id@,
        decreases n - i,
    {
        assert(ms[i as int] == rules@[i as int]@);
        if rules[i].id.same(id) {
            proof {
                lemma_first_with_id(ms, n as int, id@);
            }
            return Some(i);
        }
        i = i + 1;
    }
    proof {
        lemma_first_with_id(ms, n as int, id@);
    }
    None
}

fn find_base(rules: &Vec<ApiRule>, n: usize, base: &str) -> (r: Option<usize>)
    requires
        n <= rules@.len(),
    ensures
        crate::text::same_index(r, first_with_base(rule_models(rules@), n as int, base@)),
        r matches Some(i) ==> i < n,
{
    let ghost ms = rule_models(rules@);
    let mut i: usize = 0;
    while i < n
        invariant
            i <= n <= rules@.len(),
            ms == rule_models(rules@),
            forall|j: int| 0 <= j < i ==> (#[trigger] ms[j]).id.0 != base@,
        decreases n - i,
    {
        assert(ms[i as int] == rules@[i as int]@);
        if str_eq(rules[i].id.base.as_str(), base) {
            proof {
                lemma_first_with_base(ms, n as int, base@);
            }
            return Some(i);
        }
        i = i + 1;
    }
    proof {
        lemma_first_with_base(ms, n as int, base@);
    }
    None
}

fn defined_at_of(r: &ApiRule) -> (s: String)
    ensures
        s@ == defined_at(r@),
{
    let mut out = match &r.source_file {
        Some(f) => copy_str(f.as_str()),
        None => copy_str("?"),
    };
    out.append(":");
    let line: usize = match r.source_line {
        Some(l) => l,
        None => 0,
    };
    let n = decimal_of_usize(line);
    out.append(n.as_str());
    out
}

fn make_rule_error(
    code: ValidationErrorCode,
    message: String,
    r: &ApiRule,
    related_rules: Vec<RuleId>,
) -> (e: ValidationError)
    ensures
        e@ == rule_error(code, message@, r@, id_views(related_rules@)),
{
    ValidationError {
        code,
        message,
        file: copy_opt(&r.source_file),
        line: r.source_line,
        column: r.source_column,
        related_rules,
        reference_rule_id: None,
        reference_text: None,
    }
}

fn push_duplicates(rules: &Vec<ApiRule>, k: usize, errors: &mut Vec<ValidationError>)
    requires
        k < rules@.len(),
    ensures
        error_models(final(errors)@) == error_models(old(errors)@) + duplicate_errors_at(
            rule_models(rules@),
            k as int,
        ),
{
    let ghost ms = rule_models(rules@);
    let ghost start = error_models(errors@);
    let r = &rules[k];
    assert(ms[k as int] == r@);
    let text = r.id.text();
    let ghost mut same_id: Seq<ErrorModel> = Seq::empty();
    match find_id(rules, k, &r.id) {
        Some(p) => {
            assert(ms[p as int] == rules@[p as int]@);
            let mut m = concat3("Duplicate rule ID '", text.as_str(), "' (first defined at ");
            let at = defined_at_of(&rules[p]);
            m.append(at.as_str());
            m.append(")");
            let mut related: Vec<RuleId> = Vec::new();
            related.push(r.id.copy());
            assert(id_views(related@) =~= seq![r.id@]);
            let e = make_rule_error(ValidationErrorCode::DuplicateRequirement, m, r, related);
            proof {
                lemma_errors_push(errors@, e);
                same_id = seq![e@];
            }
            errors.push(e);
            assert(start.push(e@) =~= start + same_id);
        },
        None => {
            assert(start + same_id =~= start);
        },
    }
    let ghost mid = error_models(errors@);
    match find_base(rules, k, r.id.base.as_str()) {
        Some(p) => {
            assert(ms[p as int] == rules@[p as int]@);
            let mut m = concat3("Duplicate rule base '", r.id.base.as_str(), "' across versions ('");
            let prev = rules[p].id.text();
            m.append(prev.as_str());
            m.append("' and '");
            m.append(text.as_str());
            m.append("') in same spec (first defined at ");
            let at = defined_at_of(&rules[p]);
            m.append(at.as_str());
            m.append(")");
            let mut related: Vec<RuleId> = Vec::new();
            related.push(rules[p].id.copy());
            related.push(r.id.copy());
            assert(id_views(related@) =~= seq![rules@[p as int].id@, r.id@]);
            let e = make_rule_error(ValidationErrorCode::DuplicateRequirement, m, r, related);
            proof {
                lemma_errors_push(errors@, e);
            }
            errors.push(e);
            assert(mid.push(e@) =~= start + (same_id + seq![e@]));
        },
        None => {
            assert(mid =~= start + (same_id + Seq::<ErrorModel>::empty()));
        },
    }
}

fn push_rule_errors(rules: &Vec<ApiRule>, errors: &mut Vec<ValidationError>)
    ensures
        error_models(final(errors)@) == error_models(old(errors)@) + duplicate_errors(
            rule_models(rules@),
            rules@.len() as int,
        ) + naming_errors(rule_models(rules@), rules@.len() as int),
{
    let ghost ms = rule_models(rules@);
    let ghost start = error_models(errors@);
    let mut i: usize = 0;
    assert(start + duplicate_errors(ms, 0) =~= start);
    while i < rules.len()
        invariant
            i <= rules@.len(),
            ms == rule_models(rules@),
            error_models(errors@) == start + duplicate_errors(ms, i as int),
        decreases rules@.len() - i,
    {
        push_duplicates(rules, i, errors);
        assert(start + duplicate_errors(ms, i as int) + duplicate_errors_at(ms, i as int) =~= start
            + duplicate_errors(ms, i + 1));
        i = i + 1;
    }
    let ghost mid = error_models(errors@);
    let mut j: usize = 0;
    assert(mid + naming_errors(ms, 0) =~= mid);
    while j < rules.len()
        invariant
            j <= rules@.len(),
            ms == rule_models(rules@),
            error_models(errors@) == mid + naming_errors(ms, j as int),
        decreases rules@.len() - j,
    {
        let r = &rules[j];
        assert(ms[j as int] == r@);
        if !is_valid_rule_id(&r.id) {
            let text = r.id.text();
            let m = concat3(
                "Rule ID '",
                text.as_str(),
                "' doesn't follow naming convention (use dot-separated segments of letters, digits, hyphens, or underscores)",
            );
            let none: Vec<RuleId> = Vec::new();
            assert(id_views(none@) =~= Seq::<(Seq<char>, u32)>::empty());
            let e = make_rule_error(ValidationErrorCode::InvalidNaming, m, r, none);
            let ghost now = error_models(errors@);
            proof {
                lemma_errors_push(errors@, e);
            }
            errors.push(e);
            assert(now.push(e@) =~= mid + naming_errors(ms, j + 1));
        }
        j = j + 1;
    }
}

/// An issue of a source file as a validation error; a marker that could not be
/// read is none.
pub open spec fn issue_error(path: Seq<char>, i: IssueModel) -> Option<ErrorModel> {
    let make = |code: ValidationErrorCode, related: Seq<(Seq<char>, u32)>|
        Some(
            ErrorModel {
                code,
                message: i.message,
                file: Some(path),
                line: Some(i.line),
                column: Some(one_based(i.range.1)),
                related_rules: related,
                reference_rule_id: i.reference_rule_id,
                reference_text: i.reference_text,
            },
        );
    match i.code {
        IssueCode::UnknownPrefix => make(ValidationErrorCode::UnknownPrefix, Seq::empty()),
        IssueCode::Stale(rule) => make(ValidationErrorCode::StaleRequirement, seq![rule]),
        IssueCode::UnknownRequirement => make(
            ValidationErrorCode::UnknownRequirement,
            Seq::empty(),
        ),
        IssueCode::ImplInTestFile => make(
            ValidationErrorCode::ImplInTestFile,
            match i.reference_rule_id {
                Some(id) => seq![id],
                None => Seq::empty(),
            },
        ),
        IssueCode::ParseWarning => None,
    }
}

/// The first `n` issues of a source file as validation errors.
pub open spec fn issue_errors(path: Seq<char>, issues: Seq<IssueModel>, n: int) -> Seq<ErrorModel>
    decreases n,
{
    if n <= 0 {
        Seq::empty()
    } else {
        let before = issue_errors(path, issues, n - 1);
        match issue_error(path, issues[n - 1]) {
            Some(e) => before.push(e),
            None => before,
        }
    }
}

/// The source file at the given path.
pub open spec fn source_at(files: Seq<SourceModel>, path: Seq<char>) -> Option<int>
    decreases files.len(),
{
    if files.len() == 0 {
        None
    } else {
        match source_at(files.drop_last(), path) {
            Some(i) => Some(i),
            None => if components(files.last().path) == components(path) {
                Some(files.len() - 1)
            } else {
                None
            },
        }
    }
}

/// Paths with what they resolve to.
pub open spec fn path_pairs(v: Seq<(String, String)>) -> Seq<(Seq<char>, Seq<char>)> {
    v.map_values(|p: (String, String)| (p.0@, p.1@))
}

/// What a path resolves to: itself where nothing is known.
pub open spec fn resolved(pairs: Seq<(Seq<char>, Seq<char>)>, path: Seq<char>) -> Seq<char>
    decreases pairs.len(),
{
    if pairs.len() == 0 {
        path
    } else if components(pairs.last().0) == components(path) {
        pairs.last().1
    } else {
        resolved(pairs.drop_last(), path)
    }
}

/// What is needed to validate source files.
pub struct SourceSet {
    pub files: Vec<SourceFile>,
    /// Paths with what they resolve to, where that differs.
    pub resolved_paths: Vec<(String, String)>,
    /// Files that only verify.
    pub test_files: Vec<String>,
}

/// What a set of source files says.
#[verifier::ext_equal]
pub struct SetModel {
    pub files: Seq<SourceModel>,
    pub resolved_paths: Seq<(Seq<char>, Seq<char>)>,
    pub test_files: Seq<Seq<char>>,
}

impl View for SourceSet {
    type V = SetModel;

    open spec fn view(&self) -> SetModel {
        SetModel {
            files: source_models(self.files@),
            resolved_paths: path_pairs(self.resolved_paths@),
            test_files: texts(self.test_files@),
        }
    }
}

/// The errors of one file of an implementation.
pub open spec fn file_errors(
    root: Seq<char>,
    path: Seq<char>,
    set: SetModel,
    ctx: Seq<(Seq<char>, Seq<(Seq<char>, u32)>)>,
) -> Seq<ErrorModel> {
    let files = set.files;
    let full = path_join(root, path);
    let canonical = resolved(set.resolved_paths, full);
    let at = match source_at(files, canonical) {
        Some(i) => Some(i),
        None => source_at(files, full),
    };
    match at {
        None => Seq::empty(),
        Some(i) => {
            let is_test = lists_path(set.test_files, full) || lists_path(set.test_files, canonical);
            let f = files[i];
            let issues = source_issues(
                f.content,
                f.reqs.references,
                f.reqs.warnings,
                is_test,
                ctx,
            );
            issue_errors(path, issues, issues.len() as int)
        },
    }
}

/// The errors of the first `n` files of an implementation.
pub open spec fn files_errors(
    root: Seq<char>,
    entries: Seq<(Seq<char>, usize, usize)>,
    n: int,
    set: SetModel,
    ctx: Seq<(Seq<char>, Seq<(Seq<char>, u32)>)>,
) -> Seq<ErrorModel>
    decreases n,
{
    if n <= 0 {
        Seq::empty()
    } else {
        files_errors(root, entries, n - 1, set, ctx) + file_errors(root, entries[n - 1].0, set, ctx)
    }
}

fn find_source(files: &Vec<SourceFile>, path: &str) -> (r: Option<usize>)
    ensures
        crate::text::same_index(r, source_at(source_models(files@), path@)),
        r matches Some(i) ==> i < files@.len(),
{
    let ghost fs = source_models(files@);
    let parts = components_of(path);
    let mut found: Option<usize> = None;
    let mut i: usize = 0;
    while i < files.len()
        invariant
            i <= files@.len(),
            fs == source_models(files@),
            texts(parts@) == components(path@),
            crate::text::same_index(found, source_at(fs.take(i as int), path@)),
            found matches Some(k) ==> k < files@.len(),
        decreases files@.len() - i,
    {
        proof {
            assert(fs.take(i + 1).drop_last() =~= fs.take(i as int));
            assert(fs.take(i + 1).last() == files@[i as int]@);
        }
        if found.is_none() && same_path(&parts, files[i].path.as_str()) {
            found = Some(i);
        }
        i = i + 1;
    }
    assert(fs.take(i as int) =~= fs);
    found
}

fn resolve(pairs: &Vec<(String, String)>, path: &str) -> (r: String)
    ensures
        r@ == resolved(path_pairs(pairs@), path@),
{
    let ghost ps = path_pairs(pairs@);
    let parts = components_of(path);
    let mut i: usize = pairs.len();
    assert(ps.take(i as int) =~= ps);
    while i > 0
        invariant
            i <= pairs@.len(),
            ps == path_pairs(pairs@),
            texts(parts@) == components(path@),
            resolved(ps, path@) == resolved(ps.take(i as int), path@),
        decreases i,
    {
        assert(ps.take(i as int).drop_last() =~= ps.take(i - 1));
        assert(ps.take(i as int).last() == (pairs@[i - 1].0@, pairs@[i - 1].1@));
        if same_path(&parts, pairs[i - 1].0.as_str()) {
            return copy_str(pairs[i - 1].1.as_str());
        }
        i = i - 1;
    }
    copy_str(path)
}

/// Whether a text is in a list.
pub fn text_in(v: &Vec<String>, s: &str) -> (r: bool)
    ensures
        r == texts(v@).contains(s@),
{
    let ghost ts = texts(v@);
    let mut i: usize = 0;
    while i < v.len()
        invariant
            i <= v@.len(),
            ts == texts(v@),
            forall|j: int| 0 <= j < i ==> ts[j] != s@,
        decreases v@.len() - i,
    {
        if str_eq(v[i].as_str(), s) {
            assert(ts[i as int] == s@);
            return true;
        }
        i = i + 1;
    }
    false
}

fn issue_to_error(path: &str, i: &SourceDiagnosticIssue) -> (r: Option<ValidationError>)
    ensures
        match (r, issue_error(path@, i@)) {
            (Some(a), Some(b)) => a@ == b,
            (None, None) => true,
            _ => false,
        },
{
    let mut related: Vec<RuleId> = Vec::new();
    assert(id_views(related@) =~= Seq::<(Seq<char>, u32)>::empty());
    let code = match &i.code {
        SourceDiagnosticIssueCode::UnknownPrefix => ValidationErrorCode::UnknownPrefix,
        SourceDiagnosticIssueCode::Stale { current_rule_id } => {
            related.push(current_rule_id.copy());
            assert(id_views(related@) =~= seq![current_rule_id@]);
            ValidationErrorCode::StaleRequirement
        },
        SourceDiagnosticIssueCode::UnknownRequirement => ValidationErrorCode::UnknownRequirement,
        SourceDiagnosticIssueCode::ImplInTestFile => {
            match &i.reference_rule_id {
                Some(id) => {
                    related.push(id.copy());
                    assert(id_views(related@) =~= seq![id@]);
                },
                None => {},
            }
            ValidationErrorCode::ImplInTestFile
        },
        SourceDiagnosticIssueCode::ParseWarning => {
            return None;
        },
    };
    let reference_rule_id = match &i.reference_rule_id {
        Some(id) => Some(id.copy()),
        None => None,
    };
    let column: usize = (i.start_char as usize).saturating_add(1);
    let e = ValidationError {
        code,
        message: copy_str(i.message.as_str()),
        file: Some(copy_str(path)),
        line: Some(i.line),
        column: Some(column),
        related_rules: related,
        reference_rule_id,
        reference_text: copy_opt(&i.reference_text),
    };
    Some(e)
}

fn push_file_errors(
    root: &str,
    path: &str,
    set: &SourceSet,
    ctx: &SourceDiagnosticContext,
    errors: &mut Vec<ValidationError>,
)
    ensures
        error_models(final(errors)@) == error_models(old(errors)@) + file_errors(
            root@,
            path@,
            set@,
            ctx.model(),
        ),
{
    let ghost start = error_models(errors@);
    let full = join_paths(root, path);
    let canonical = resolve(&set.resolved_paths, full.as_str());
    let at = match find_source(&set.files, canonical.as_str()) {
        Some(i) => Some(i),
        None => find_source(&set.files, full.as_str()),
    };
    let f = match at {
        Some(i) => {
            assert(source_models(set.files@)[i as int] == set.files@[i as int]@);
            &set.files[i]
        },
        None => {
            assert(start + Seq::<ErrorModel>::empty() =~= start);
            return;
        },
    };
    let is_test = path_in(&set.test_files, full.as_str()) || path_in(
        &set.test_files,
        canonical.as_str(),
    );
    let issues = collect_source_diagnostic_issues(f.content.as_str(), &f.reqs, is_test, ctx);
    let ghost is = issue_models(issues@);
    let mut j: usize = 0;
    assert(start + issue_errors(path@, is, 0) =~= start);
    while j < issues.len()
        invariant
            j <= issues@.len(),
            is == issue_models(issues@),
            error_models(errors@) == start + issue_errors(path@, is, j as int),
        decreases issues@.len() - j,
    {
        assert(is[j as int] == issues@[j as int]@);
        match issue_to_error(path, &issues[j]) {
            Some(e) => {
                let ghost now = error_models(errors@);
                proof {
                    lemma_errors_push(errors@, e);
                }
                errors.push(e);
                assert(now.push(e@) =~= start + issue_errors(path@, is, j + 1));
            },
            None => {},
        }
        j = j + 1;
    }
}

/// The first `n` supported extensions, each with a dot, separated by commas.
pub open spec fn dotted_types(exts: Seq<Seq<char>>, n: int) -> Seq<char>
    decreases n,
{
    if n <= 0 {
        Seq::empty()
    } else if n == 1 {
        "."@ + exts[0]
    } else {
        dotted_types(exts, n - 1) + ", "@ + ("."@ + exts[n - 1])
    }
}

/// What is said of a file that the patterns find but that cannot be read.
pub open spec fn unparseable_message(path: Seq<char>, reason: Seq<char>) -> Seq<char> {
    "Include discovered '"@ + path + "' but Tracey could not parse it ("@ + reason
        + "). Supported file types: "@ + dotted_types(
        supported_extensions(),
        supported_extensions().len() as int,
    )
        + ". To fix this, either move/rename annotations to a supported file type, or update include/exclude patterns so this file is not scanned."@
}

/// What is said of a file that the patterns find but that cannot be read.
pub fn unparseable_file_message(path: &str, reason: &str) -> (r: String)
    ensures
        r@ == unparseable_message(path@, reason@),
{
    let exts = supported_extension_list();
    let ghost es = supported_extensions();
    let mut types = String::new();
    let mut i: usize = 0;
    assert(types@ =~= Seq::<char>::empty());
    while i < exts.len()
        invariant
            i <= exts@.len(),
            es == texts(exts@),
            types@ == dotted_types(es, i as int),
        decreases exts@.len() - i,
    {
        let one = concat2(".", exts[i].as_str());
        assert(es[i as int] == exts@[i as int]@);
        if i > 0 {
            types.append(", ");
            types.append(one.as_str());
        } else {
            types.append(one.as_str());
            assert(types@ =~= one@);
        }
        i = i + 1;
    }
    let mut m = concat3("Include discovered '", path, "' but Tracey could not parse it (");
    m.append(reason);
    m.append("). Supported file types: ");
    m.append(types.as_str());
    m.append(
        ". To fix this, either move/rename annotations to a supported file type, or update include/exclude patterns so this file is not scanned.",
    );
    m
}

/// The error of a file that the patterns find but that cannot be read.
pub open spec fn unparseable_error(
    root: Seq<char>,
    config_path: Seq<char>,
    failure: (Seq<char>, Seq<char>),
) -> ErrorModel {
    ErrorModel {
        code: ValidationErrorCode::IncludeUnparseableFile,
        message: unparseable_message(shown_path(root, failure.0), failure.1),
        file: Some(shown_path(root, config_path)),
        line: Some(1),
        column: Some(1),
        related_rules: Seq::empty(),
        reference_rule_id: None,
        reference_text: None,
    }
}

pub open spec fn unparseable_errors(
    root: Seq<char>,
    config_path: Seq<char>,
    failures: Seq<(Seq<char>, Seq<char>)>,
) -> Seq<ErrorModel> {
    failures.map_values(|f: (Seq<char>, Seq<char>)| unparseable_error(root, config_path, f))
}

fn push_unparseable(
    root: &str,
    config_path: &str,
    failures: &Vec<(String, String)>,
    errors: &mut Vec<ValidationError>,
)
    ensures
        error_models(final(errors)@) == error_models(old(errors)@) + unparseable_errors(
            root@,
            config_path@,
            path_pairs(failures@),
        ),
{
    let ghost start = error_models(errors@);
    let ghost all = unparseable_errors(root@, config_path@, path_pairs(failures@));
    let mut i: usize = 0;
    assert(start + all.take(0) =~= start);
    while i < failures.len()
        invariant
            i <= failures@.len(),
            all == unparseable_errors(root@, config_path@, path_pairs(failures@)),
            error_models(errors@) == start + all.take(i as int),
        decreases failures@.len() - i,
    {
        let shown = show_path(root, failures[i].0.as_str());
        let none: Vec<RuleId> = Vec::new();
        assert(id_views(none@) =~= Seq::<(Seq<char>, u32)>::empty());
        let e = ValidationError {
            code: ValidationErrorCode::IncludeUnparseableFile,
            message: unparseable_file_message(shown.as_str(), failures[i].1.as_str()),
            file: Some(show_path(root, config_path)),
            line: Some(1),
            column: Some(1),
            related_rules: none,
            reference_rule_id: None,
            reference_text: None,
        };
        let ghost now = error_models(errors@);
        proof {
            lemma_errors_push(errors@, e);
            assert(path_pairs(failures@)[i as int] == (failures@[i as int].0@, failures@[i as int].1@));
            assert(e@ == all[i as int]);
            assert(all.take(i + 1) =~= all.take(i as int).push(all[i as int]));
        }
        errors.push(e);
        assert(now.push(e@) =~= start + all.take(i + 1));
        i = i + 1;
    }
    assert(all.take(i as int) =~= all);
}

/// Cycles among the dependencies of rules. Rules carry no dependencies on
/// other rules, so the graph has no edges and there are none.
pub fn detect_circular_dependencies(rules: &Vec<ApiRule>) -> (r: Vec<Vec<RuleId>>)
    ensures
        r@.len() == 0,
{
    let mut graph: Vec<Vec<usize>> = Vec::new();
    let mut i: usize = 0;
    while i < rules.len()
        invariant
            i <= rules@.len(),
            graph@.len() == i,
            forall|k: int| 0 <= k < i ==> (#[trigger] graph@[k])@.len() == 0,
        decreases rules@.len() - i,
    {
        graph.push(Vec::new());
        i = i + 1;
    }
    let cycles = find_cycles(&graph);
    proof {
        if cycles@.len() > 0 {
            let w = cycles@[0]@;
            assert(is_cycle(graph@, w));
            assert(crate::cycles::has_edge(graph@, w[0], w[0int + 1]));
            assert(graph@[w[0] as int]@.len() == 0);
        }
    }
    let mut out: Vec<Vec<RuleId>> = Vec::new();
    let mut c: usize = 0;
    while c < cycles.len()
        invariant
            cycles@.len() == 0,
            out@.len() == 0,
        decreases cycles@.len() - c,
    {
        let mut ids: Vec<RuleId> = Vec::new();
        let mut k: usize = 0;
        while k < cycles[c].len()
            invariant
                c < cycles@.len(),
                cycles@.len() == 0,
            decreases cycles@[c as int]@.len() - k,
        {
            ids.push(rules[cycles[c][k]].id.copy());
            k = k + 1;
        }
        out.push(ids);
        c = c + 1;
    }
    out
}

/// What belongs to an implementation.
pub open spec fn entry_of<T>(v: Seq<((Seq<char>, Seq<char>), T)>, key: (Seq<char>, Seq<char>)) -> Option<T>
    decreases v.len(),
{
    if v.len() == 0 {
        None
    } else if v.last().0 == key {
        Some(v.last().1)
    } else {
        entry_of(v.drop_last(), key)
    }
}

/// The keys of a list, with the entries as they are.
pub open spec fn keyed<T>(v: Seq<(ImplKey, T)>) -> Seq<((Seq<char>, Seq<char>), T)> {
    v.map_values(|e: (ImplKey, T)| (e.0@, e.1))
}

/// The position of what belongs to an implementation.
pub fn find_entry<T>(v: &Vec<(ImplKey, T)>, key: &ImplKey) -> (r: Option<usize>)
    ensures
        match (r, entry_of(keyed(v@), key@)) {
            (Some(i), Some(t)) => i < v@.len() && v@[i as int].1 == t,
            (None, None) => true,
            _ => false,
        },
{
    let ghost ks = keyed(v@);
    let mut i: usize = v.len();
    assert(ks.take(i as int) =~= ks);
    while i > 0
        invariant
            i <= v@.len(),
            ks == keyed(v@),
            entry_of(ks, key@) == entry_of(ks.take(i as int), key@),
        decreases i,
    {
        assert(ks.take(i as int).drop_last() =~= ks.take(i - 1));
        assert(ks.take(i as int).last() == (v@[i - 1].0@, v@[i - 1].1));
        if str_eq(v[i - 1].0.spec_name.as_str(), key.spec_name.as_str()) && str_eq(
            v[i - 1].0.impl_name.as_str(),
            key.impl_name.as_str(),
        ) {
            return Some(i - 1);
        }
        i = i - 1;
    }
    None
}

/// What validation is done on, besides the rules.
pub struct ValidationInput<'a> {
    pub root: &'a str,
    pub config_path: &'a str,
    /// The coverage of each implementation's files.
    pub reverse: &'a Vec<(ImplKey, ApiReverseData)>,
    pub sources: &'a SourceSet,
    /// For each implementation the files that cannot be read, with the reason.
    pub failures: &'a Vec<(ImplKey, Vec<(String, String)>)>,
}

/// The coverage of each implementation's files.
pub open spec fn reverse_models(v: Seq<(ImplKey, ApiReverseData)>) -> Seq<
    ((Seq<char>, Seq<char>), Seq<(Seq<char>, usize, usize)>),
> {
    v.map_values(|e: (ImplKey, ApiReverseData)| (e.0@, file_entries(e.1.files@)))
}

/// For each implementation the files that cannot be read, with the reason.
pub open spec fn failure_models(v: Seq<(ImplKey, Vec<(String, String)>)>) -> Seq<
    ((Seq<char>, Seq<char>), Seq<(Seq<char>, Seq<char>)>),
> {
    v.map_values(|e: (ImplKey, Vec<(String, String)>)| (e.0@, path_pairs(e.1@)))
}

/// What validation is done on, besides the rules.
#[verifier::ext_equal]
pub struct ValidationModel {
    pub root: Seq<char>,
    pub config_path: Seq<char>,
    pub reverse: Seq<((Seq<char>, Seq<char>), Seq<(Seq<char>, usize, usize)>)>,
    pub sources: SetModel,
    pub failures: Seq<((Seq<char>, Seq<char>), Seq<(Seq<char>, Seq<char>)>)>,
}

impl<'a> View for ValidationInput<'a> {
    type V = ValidationModel;

    open spec fn view(&self) -> ValidationModel {
        ValidationModel {
            root: self.root@,
            config_path: self.config_path@,
            reverse: reverse_models(self.reverse@),
            sources: self.sources@,
            failures: failure_models(self.failures@),
        }
    }
}

proof fn lemma_reverse_entry(v: Seq<(ImplKey, ApiReverseData)>, key: (Seq<char>, Seq<char>))
    ensures
        entry_of(reverse_models(v), key) == match entry_of(keyed(v), key) {
            Some(d) => Some(file_entries(d.files@)),
            None => None,
        },
    decreases v.len(),
{
    if v.len() > 0 {
        assert(reverse_models(v).drop_last() =~= reverse_models(v.drop_last()));
        assert(keyed(v).drop_last() =~= keyed(v.drop_last()));
        lemma_reverse_entry(v.drop_last(), key);
    }
}

proof fn lemma_failure_entry(v: Seq<(ImplKey, Vec<(String, String)>)>, key: (Seq<char>, Seq<char>))
    ensures
        entry_of(failure_models(v), key) == match entry_of(keyed(v), key) {
            Some(f) => Some(path_pairs(f@)),
            None => None,
        },
    decreases v.len(),
{
    if v.len() > 0 {
        assert(failure_models(v).drop_last() =~= failure_models(v.drop_last()));
        assert(keyed(v).drop_last() =~= keyed(v.drop_last()));
        lemma_failure_entry(v.drop_last(), key);
    }
}

/// The errors of an implementation: duplicate rules, badly named rules, issues
/// of its source files, and files that cannot be read.
pub open spec fn impl_errors(
    key: (Seq<char>, Seq<char>),
    rules: Seq<RuleModel>,
    input: ValidationModel,
    ctx: Seq<(Seq<char>, Seq<(Seq<char>, u32)>)>,
) -> Seq<ErrorModel> {
    let from_rules = duplicate_errors(rules, rules.len() as int) + naming_errors(
        rules,
        rules.len() as int,
    );
    let from_files = match entry_of(input.reverse, key) {
        Some(files) => files_errors(input.root, files, files.len() as int, input.sources, ctx),
        None => Seq::empty(),
    };
    let from_failures = match entry_of(input.failures, key) {
        Some(f) => unparseable_errors(input.root, input.config_path, f),
        None => Seq::empty(),
    };
    from_rules + from_files + from_failures
}

fn validate_impl(
    key: &ImplKey,
    rules: &Vec<ApiRule>,
    input: &ValidationInput<'_>,
    ctx: &SourceDiagnosticContext,
) -> (r: ValidationResult)
    ensures
        r.spec_name@ == key@.0,
        r.impl_name@ == key@.1,
        error_models(r.errors@) == impl_errors(key@, rule_models(rules@), input@, ctx.model()),
        r.warning_count == 0,
        r.error_count == r.errors@.len(),
{
    let mut errors: Vec<ValidationError> = Vec::new();
    let ghost c = ctx.model();
    proof {
        lemma_reverse_entry(input.reverse@, key@);
        lemma_failure_entry(input.failures@, key@);
    }
    assert(error_models(errors@) =~= Seq::<ErrorModel>::empty());
    push_rule_errors(rules, &mut errors);
    let ghost a = error_models(errors@);
    let ghost from_rules = duplicate_errors(rule_models(rules@), rules@.len() as int)
        + naming_errors(rule_models(rules@), rules@.len() as int);
    assert(a =~= from_rules);
    let ghost mut from_files: Seq<ErrorModel> = Seq::empty();
    match find_entry(input.reverse, key) {
        Some(i) => {
            let data = &input.reverse[i].1;
            let ghost es = file_entries(data.files@);
            let mut j: usize = 0;
            assert(a + files_errors(input.root@, es, 0, input.sources@, c) =~= a);
            while j < data.files.len()
                invariant
                    j <= data.files@.len(),
                    es == file_entries(data.files@),
                    c == ctx.model(),
                    error_models(errors@) == a + files_errors(
                        input.root@,
                        es,
                        j as int,
                        input.sources@,
                        c,
                    ),
                decreases data.files@.len() - j,
            {
                push_file_errors(
                    input.root,
                    data.files[j].path.as_str(),
                    input.sources,
                    ctx,
                    &mut errors,
                );
                assert(es[j as int].0 == data.files@[j as int].path@);
                assert(a + files_errors(input.root@, es, j as int, input.sources@, c) + file_errors(
                    input.root@,
                    es[j as int].0,
                    input.sources@,
                    c,
                ) =~= a + files_errors(input.root@, es, j + 1, input.sources@, c));
                j = j + 1;
            }
            proof {
                from_files = files_errors(
                    input.root@,
                    es,
                    data.files@.len() as int,
                    input.sources@,
                    c,
                );
            }
        },
        None => {
            assert(a + from_files =~= a);
        },
    }
    let ghost b = error_models(errors@);
    match find_entry(input.failures, key) {
        Some(i) => {
            push_unparseable(
                input.root,
                input.config_path,
                &input.failures[i].1,
                &mut errors,
            );
        },
        None => {
            assert(b + Seq::<ErrorModel>::empty() =~= b);
        },
    }
    let cycles = detect_circular_dependencies(rules);
    let mut k: usize = 0;
    let ghost all = error_models(errors@);
    while k < cycles.len()
        invariant
            cycles@.len() == 0,
            error_models(errors@) == all,
        decreases cycles@.len() - k,
    {
        let path = join_ids(&cycles[k], " -> ");
        errors.push(
            ValidationError {
                code: ValidationErrorCode::CircularDependency,
                message: concat2("Circular dependency detected: ", path.as_str()),
                file: None,
                line: None,
                column: None,
                related_rules: crate::rule_id::copy_ids(&cycles[k]),
                reference_rule_id: None,
                reference_text: None,
            },
        );
        k = k + 1;
    }
    let error_count = errors.len();
    ValidationResult {
        spec_name: copy_str(key.spec_name.as_str()),
        impl_name: copy_str(key.impl_name.as_str()),
        errors,
        warning_count: 0,
        error_count,
    }
}

/// Validate every implementation.
pub fn compute_validation_by_impl(
    config: &ApiConfig,
    forward_by_impl: &Vec<(ImplKey, ApiSpecForward)>,
    input: &ValidationInput<'_>,
) -> (r: Vec<(ImplKey, ValidationResult)>)
    ensures
        r@.len() == forward_by_impl@.len(),
        forall|i: int|
            0 <= i < r@.len() ==> ({
                let key = forward_by_impl@[i].0@;
                let v = (#[trigger] r@[i]).1;
                &&& r@[i].0@ == key
                &&& v.spec_name@ == key.0
                &&& v.impl_name@ == key.1
                &&& error_models(v.errors@) == impl_errors(
                    key,
                    rule_models(forward_by_impl@[i].1.rules@),
                    input@,
                    context_model(spec_infos(config.specs@), forward_models(forward_by_impl@)),
                )
                &&& v.warning_count == 0
                &&& v.error_count == v.errors@.len()
            }),
{
    let ctx = build_source_diagnostic_context(config, forward_by_impl);
    let ghost c = context_model(spec_infos(config.specs@), forward_models(forward_by_impl@));
    let mut out: Vec<(ImplKey, ValidationResult)> = Vec::new();
    let mut i: usize = 0;
    while i < forward_by_impl.len()
        invariant
            i <= forward_by_impl@.len(),
            ctx.model() == c,
            out@.len() == i,
            forall|k: int|
                0 <= k < i ==> ({
                    let key = forward_by_impl@[k].0@;
                    let v = (#[trigger] out@[k]).1;
                    &&& out@[k].0@ == key
                    &&& v.spec_name@ == key.0
                    &&& v.impl_name@ == key.1
                    &&& error_models(v.errors@) == impl_errors(
                        key,
                        rule_models(forward_by_impl@[k].1.rules@),
                        input@,
                        c,
                    )
                    &&& v.warning_count == 0
                    &&& v.error_count == v.errors@.len()
                }),
        decreases forward_by_impl@.len() - i,
    {
        let key = &forward_by_impl[i].0;
        let v = validate_impl(key, &forward_by_impl[i].1.rules, input, &ctx);
        out.push((key.copy(), v));
        i = i + 1;
    }
    out
}

/// Rules with different bases and proper names give no errors of their own.
pub proof fn law_distinct_rules_validate(rules: Seq<RuleModel>, n: int)
    requires
        0 <= n <= rules.len(),
        forall|i: int, j: int|
            0 <= i < j < rules.len() ==> (#[trigger] rules[i]).id.0 != (#[trigger] rules[j]).id.0,
        forall|i: int| 0 <= i < rules.len() ==> is_well_named((#[trigger] rules[i]).id.0),
    ensures
        duplicate_errors(rules, n).len() == 0,
        naming_errors(rules, n).len() == 0,
    decreases n,
{
    if n > 0 {
        law_distinct_rules_validate(rules, n - 1);
        lemma_first_with_id(rules, n - 1, rules[n - 1].id);
        lemma_first_with_base(rules, n - 1, rules[n - 1].id.0);
    }
}

/// Two rules with the same base are always reported.
pub proof fn law_shared_base_is_reported(rules: Seq<RuleModel>, i: int, j: int)
    requires
        0 <= i < j < rules.len(),
        rules[i].id.0 == rules[j].id.0,
    ensures
        duplicate_errors_at(rules, j).len() > 0,
{
    lemma_first_with_base(rules, j, rules[j].id.0);
}

} // verus!
