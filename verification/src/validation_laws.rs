//! What validation reports, in terms of the rules and of the files.

use vstd::prelude::*;

use crate::api::{ErrorModel, RuleModel, ValidationErrorCode};
use crate::diagnostics::{source_issues, IssueCode, IssueModel};
use crate::paths::{components, path_join};
use crate::split::split_char_from;
use crate::text::{find_char, lemma_find_char};
use crate::validation::{
    duplicate_errors, duplicate_errors_at, entry_of, file_errors, files_errors, first_with_base,
    first_with_id, impl_errors, is_segment, is_well_named, issue_errors, naming_errors, resolved,
    source_at, unparseable_errors, SetModel, SourceModel, ValidationModel,
};

verus! {

/// A character of a segment.
pub open spec fn is_segment_char(c: char) -> bool {
    ('a' <= c && c <= 'z') || ('A' <= c && c <= 'Z') || ('0' <= c && c <= '9') || c == '-' || c
        == '_'
}

proof fn lemma_segments(s: Seq<char>, start: int)
    requires
        0 <= start <= s.len(),
    ensures
        split_char_from(s, '.', start).len() > 0,
        (forall|i: int|
            0 <= i < split_char_from(s, '.', start).len() ==> is_segment(
                #[trigger] split_char_from(s, '.', start)[i],
            )) <==> start < s.len() && s[start] != '.' && s.last() != '.' && (forall|i: int|
            start <= i < s.len() ==> is_segment_char(#[trigger] s[i]) || s[i] == '.') && (forall|
            i: int,
        |
            start <= i < s.len() - 1 ==> !(#[trigger] s[i] == '.' && s[i + 1] == '.')),
    decreases s.len() - start,
{
    lemma_find_char(s, '.', start);
    let all = split_char_from(s, '.', start);
    match find_char(s, '.', start) {
        None => {
            let one = s.subrange(start, s.len() as int);
            assert(all =~= seq![one]);
            if start < s.len() && (forall|i: int|
                start <= i < s.len() ==> is_segment_char(#[trigger] s[i]) || s[i] == '.') {
                assert forall|i: int| 0 <= i < one.len() implies is_segment_char(
                    #[trigger] one[i],
                ) by {
                    assert(one[i] == s[start + i]);
                    assert(is_segment_char(s[start + i]) || s[start + i] == '.');
                }
                assert(is_segment(all[0]));
            }
            if is_segment(all[0]) {
                assert forall|i: int| start <= i < s.len() implies is_segment_char(
                    #[trigger] s[i],
                ) || s[i] == '.' by {
                    assert(one[i - start] == s[i]);
                }
            }
        },
        Some(k) => {
            let one = s.subrange(start, k);
            let rest = split_char_from(s, '.', k + 1);
            lemma_segments(s, k + 1);
            assert(all =~= seq![one] + rest);
            let whole = forall|i: int| 0 <= i < all.len() ==> is_segment(#[trigger] all[i]);
            let tail = forall|i: int| 0 <= i < rest.len() ==> is_segment(#[trigger] rest[i]);
            assert(whole <==> is_segment(one) && tail) by {
                if whole {
                    assert(is_segment(all[0]));
                    assert forall|i: int| 0 <= i < rest.len() implies is_segment(
                        #[trigger] rest[i],
                    ) by {
                        assert(all[i + 1] == rest[i]);
                    }
                }
                if is_segment(one) && tail {
                    assert forall|i: int| 0 <= i < all.len() implies is_segment(
                        #[trigger] all[i],
                    ) by {
                        if i > 0 {
                            assert(all[i] == rest[i - 1]);
                        }
                    }
                }
            }
            if is_segment(one) && tail {
                assert(one[0] == s[start]);
                assert forall|i: int| start <= i < s.len() implies is_segment_char(#[trigger] s[i])
                    || s[i] == '.' by {
                    if i < k {
                        assert(one[i - start] == s[i]);
                    }
                }
                assert forall|i: int| start <= i < s.len() - 1 implies !(#[trigger] s[i] == '.'
                    && s[i + 1] == '.') by {
                    if i < k {
                        assert(s[i] != '.');
                    }
                }
            }
            if start < s.len() && s[start] != '.' && s.last() != '.' && (forall|i: int|
                start <= i < s.len() ==> is_segment_char(#[trigger] s[i]) || s[i] == '.') && (
            forall|i: int|
                start <= i < s.len() - 1 ==> !(#[trigger] s[i] == '.' && s[i + 1] == '.')) {
                assert(k > start);
                assert forall|i: int| 0 <= i < one.len() implies is_segment_char(
                    #[trigger] one[i],
                ) by {
                    assert(one[i] == s[start + i]);
                }
                assert(is_segment(one));
                assert(s[k] == '.');
                assert(k + 1 < s.len());
                assert(s[k + 1] != '.');
                assert(tail);
            }
        },
    }
}

/// A rule is well named exactly where its base is letters, digits, hyphens,
/// underscores and single dots, and neither begins nor ends with a dot.
pub proof fn law_well_named(base: Seq<char>)
    ensures
        is_well_named(base) <==> base.len() > 0 && base[0] != '.' && base.last() != '.' && (forall|
            i: int,
        |
            0 <= i < base.len() ==> ('a' <= (#[trigger] base[i]) && base[i] <= 'z') || ('A'
                <= base[i] && base[i] <= 'Z') || ('0' <= base[i] && base[i] <= '9') || base[i]
                == '-' || base[i] == '_' || base[i] == '.') && (forall|i: int|
            0 <= i < base.len() - 1 ==> !(#[trigger] base[i] == '.' && base[i + 1] == '.')),
{
    lemma_segments(base, 0);
    let all = crate::split::split_char(base, '.');
    assert(all == split_char_from(base, '.', 0));
    if is_well_named(base) {
        assert forall|i: int| 0 <= i < split_char_from(base, '.', 0).len() implies is_segment(
            #[trigger] split_char_from(base, '.', 0)[i],
        ) by {
            assert(is_segment(all[i]));
        }
        assert forall|i: int| 0 <= i < base.len() implies ('a' <= (#[trigger] base[i]) && base[i]
            <= 'z') || ('A' <= base[i] && base[i] <= 'Z') || ('0' <= base[i] && base[i] <= '9')
            || base[i] == '-' || base[i] == '_' || base[i] == '.' by {
            assert(is_segment_char(base[i]) || base[i] == '.');
        }
    }
    if base.len() > 0 && base[0] != '.' && base.last() != '.' && (forall|i: int|
        0 <= i < base.len() ==> ('a' <= (#[trigger] base[i]) && base[i] <= 'z') || ('A' <= base[i]
            && base[i] <= 'Z') || ('0' <= base[i] && base[i] <= '9') || base[i] == '-' || base[i]
            == '_' || base[i] == '.') && (forall|i: int|
        0 <= i < base.len() - 1 ==> !(#[trigger] base[i] == '.' && base[i + 1] == '.')) {
        assert forall|i: int| 0 <= i < base.len() implies is_segment_char(#[trigger] base[i])
            || base[i] == '.' by {}
        assert forall|i: int| 0 <= i < all.len() implies is_segment(#[trigger] all[i]) by {
            assert(is_segment(split_char_from(base, '.', 0)[i]));
        }
    }
}

proof fn lemma_first_id(rules: Seq<RuleModel>, n: int, id: (Seq<char>, u32))
    requires
        0 <= n <= rules.len(),
    ensures
        match first_with_id(rules, n, id) {
            Some(p) => 0 <= p < n && rules[p].id == id,
            None => forall|i: int| 0 <= i < n ==> (#[trigger] rules[i]).id != id,
        },
    decreases n,
{
    if n > 0 {
        lemma_first_id(rules, n - 1, id);
    }
}

proof fn lemma_first_base(rules: Seq<RuleModel>, n: int, base: Seq<char>)
    requires
        0 <= n <= rules.len(),
    ensures
        match first_with_base(rules, n, base) {
            Some(p) => 0 <= p < n && rules[p].id.0 == base,
            None => forall|i: int| 0 <= i < n ==> (#[trigger] rules[i]).id.0 != base,
        },
    decreases n,
{
    if n > 0 {
        lemma_first_base(rules, n - 1, base);
    }
}

proof fn lemma_duplicates_contain(rules: Seq<RuleModel>, j: int, n: int, e: ErrorModel)
    requires
        0 <= j < n <= rules.len(),
        duplicate_errors_at(rules, j).contains(e),
    ensures
        duplicate_errors(rules, n).contains(e),
    decreases n,
{
    let a = duplicate_errors(rules, n - 1);
    let b = duplicate_errors_at(rules, n - 1);
    if j == n - 1 {
        let x = choose|x: int| 0 <= x < b.len() && b[x] == e;
        assert((a + b)[a.len() + x] == e);
    } else {
        lemma_duplicates_contain(rules, j, n - 1, e);
        let x = choose|x: int| 0 <= x < a.len() && a[x] == e;
        assert((a + b)[x] == e);
    }
}

proof fn lemma_naming_contains(rules: Seq<RuleModel>, j: int, n: int)
    requires
        0 <= j < n <= rules.len(),
        !is_well_named(rules[j].id.0),
    ensures
        exists|k: int|
            0 <= k < naming_errors(rules, n).len() && (#[trigger] naming_errors(rules, n)[k]).code
                == ValidationErrorCode::InvalidNaming && naming_errors(rules, n)[k].file
                == rules[j].source_file && naming_errors(rules, n)[k].line == rules[j].source_line,
    decreases n,
{
    let all = naming_errors(rules, n);
    let before = naming_errors(rules, n - 1);
    if j == n - 1 {
        assert(all[before.len() as int].code == ValidationErrorCode::InvalidNaming);
    } else {
        lemma_naming_contains(rules, j, n - 1);
        let k = choose|k: int|
            0 <= k < before.len() && (#[trigger] before[k]).code
                == ValidationErrorCode::InvalidNaming && before[k].file == rules[j].source_file
                && before[k].line == rules[j].source_line;
        assert(all[k] == before[k]);
    }
}

/// An implementation's errors are those of its rules, of its files and of the
/// files that cannot be read, all of them and no others.
pub proof fn law_validation_reports_everything(
    key: (Seq<char>, Seq<char>),
    rules: Seq<RuleModel>,
    input: ValidationModel,
    ctx: Seq<(Seq<char>, Seq<(Seq<char>, u32)>)>,
    e: ErrorModel,
)
    ensures
        ({
            let n = rules.len() as int;
            let files = match entry_of(input.reverse, key) {
                Some(f) => f,
                None => Seq::empty(),
            };
            let failures = match entry_of(input.failures, key) {
                Some(f) => f,
                None => Seq::empty(),
            };
            let a = duplicate_errors(rules, n);
            let b = naming_errors(rules, n);
            let c = files_errors(input.root, files, files.len() as int, input.sources, ctx);
            let d = unparseable_errors(input.root, input.config_path, failures);
            let all = impl_errors(key, rules, input, ctx);
            &&& all.len() == a.len() + b.len() + c.len() + d.len()
            &&& (all.contains(e) <==> a.contains(e) || b.contains(e) || c.contains(e) || d.contains(
                e,
            ))
        }),
{
    let n = rules.len() as int;
    let files = match entry_of(input.reverse, key) {
        Some(f) => f,
        None => Seq::empty(),
    };
    let failures = match entry_of(input.failures, key) {
        Some(f) => f,
        None => Seq::empty(),
    };
    let a = duplicate_errors(rules, n);
    let b = naming_errors(rules, n);
    let c = files_errors(input.root, files, files.len() as int, input.sources, ctx);
    let d = unparseable_errors(input.root, input.config_path, failures);
    let all = impl_errors(key, rules, input, ctx);
    assert(all =~= a + b + c + d);
    if all.contains(e) {
        let x = choose|x: int| 0 <= x < all.len() && all[x] == e;
        if x < a.len() {
            assert(a[x] == e);
        } else if x < a.len() + b.len() {
            assert(b[x - a.len()] == e);
        } else if x < a.len() + b.len() + c.len() {
            assert(c[x - a.len() - b.len()] == e);
        } else {
            assert(d[x - a.len() - b.len() - c.len()] == e);
        }
    }
    if a.contains(e) {
        let x = choose|x: int| 0 <= x < a.len() && a[x] == e;
        assert(all[x] == e);
    }
    if b.contains(e) {
        let x = choose|x: int| 0 <= x < b.len() && b[x] == e;
        assert(all[a.len() + x] == e);
    }
    if c.contains(e) {
        let x = choose|x: int| 0 <= x < c.len() && c[x] == e;
        assert(all[a.len() + b.len() + x] == e);
    }
    if d.contains(e) {
        let x = choose|x: int| 0 <= x < d.len() && d[x] == e;
        assert(all[a.len() + b.len() + c.len() + x] == e);
    }
}

/// Of two rules with the same base the later is reported where it is defined, and
/// so is every rule that is not well named.
pub proof fn law_bad_rules_are_reported(
    key: (Seq<char>, Seq<char>),
    rules: Seq<RuleModel>,
    input: ValidationModel,
    ctx: Seq<(Seq<char>, Seq<(Seq<char>, u32)>)>,
    j: int,
)
    requires
        0 <= j < rules.len(),
    ensures
        (exists|i: int| 0 <= i < j && (#[trigger] rules[i]).id.0 == rules[j].id.0) ==> exists|
            e: ErrorModel,
        | #[trigger]
            impl_errors(key, rules, input, ctx).contains(e) && e.code
                == ValidationErrorCode::DuplicateRequirement && e.file == rules[j].source_file
                && e.line == rules[j].source_line && e.related_rules.contains(rules[j].id),
        !is_well_named(rules[j].id.0) ==> exists|e: ErrorModel| #[trigger]
            impl_errors(key, rules, input, ctx).contains(e) && e.code
                == ValidationErrorCode::InvalidNaming && e.file == rules[j].source_file && e.line
                == rules[j].source_line,
{
    let n = rules.len() as int;
    if exists|i: int| 0 <= i < j && (#[trigger] rules[i]).id.0 == rules[j].id.0 {
        lemma_first_base(rules, j, rules[j].id.0);
        let at = duplicate_errors_at(rules, j);
        let e = at.last();
        assert(at[at.len() - 1] == e);
        assert(at.contains(e));
        lemma_duplicates_contain(rules, j, n, e);
        law_validation_reports_everything(key, rules, input, ctx, e);
        assert(e.related_rules[1] == rules[j].id);
        assert(impl_errors(key, rules, input, ctx).contains(e));
    }
    if !is_well_named(rules[j].id.0) {
        lemma_naming_contains(rules, j, n);
        let all = naming_errors(rules, n);
        let k = choose|k: int|
            0 <= k < all.len() && (#[trigger] all[k]).code == ValidationErrorCode::InvalidNaming
                && all[k].file == rules[j].source_file && all[k].line == rules[j].source_line;
        assert(all.contains(all[k]));
        law_validation_reports_everything(key, rules, input, ctx, all[k]);
        assert(impl_errors(key, rules, input, ctx).contains(all[k]));
    }
}

proof fn lemma_issue_errors_prefix(path: Seq<char>, a: Seq<IssueModel>, b: Seq<IssueModel>, n: int)
    requires
        0 <= n <= a.len(),
        n <= b.len(),
        forall|i: int| 0 <= i < n ==> a[i] == b[i],
    ensures
        issue_errors(path, a, n) == issue_errors(path, b, n),
    decreases n,
{
    if n > 0 {
        lemma_issue_errors_prefix(path, a, b, n - 1);
    }
}

/// Every issue of a file is an error with its message, line and column, under the
/// code of its kind, except for markers that could not be read.
pub proof fn law_every_issue_is_an_error(path: Seq<char>, issues: Seq<IssueModel>, i: IssueModel)
    ensures
        ({
            let before = issue_errors(path, issues, issues.len() as int);
            let after = issue_errors(path, issues.push(i), issues.len() as int + 1);
            if i.code == IssueCode::ParseWarning {
                after == before
            } else {
                let e = after.last();
                &&& after.len() == before.len() + 1
                &&& after.drop_last() == before
                &&& e.message == i.message
                &&& e.file == Some(path)
                &&& e.line == Some(i.line)
                &&& (i.range.1 < u32::MAX ==> e.column == Some((i.range.1 as int + 1) as usize))
                &&& e.reference_rule_id == i.reference_rule_id
                &&& e.reference_text == i.reference_text
                &&& (i.code == IssueCode::UnknownPrefix ==> e.code
                    == ValidationErrorCode::UnknownPrefix)
                &&& (i.code == IssueCode::UnknownRequirement ==> e.code
                    == ValidationErrorCode::UnknownRequirement)
                &&& (i.code == IssueCode::ImplInTestFile ==> e.code
                    == ValidationErrorCode::ImplInTestFile)
                &&& (i.code matches IssueCode::Stale(rule) ==> e.code
                    == ValidationErrorCode::StaleRequirement && e.related_rules == seq![rule])
            }
        }),
{
    lemma_issue_errors_prefix(path, issues, issues.push(i), issues.len() as int);
    let before = issue_errors(path, issues, issues.len() as int);
    let after = issue_errors(path, issues.push(i), issues.len() as int + 1);
    if i.code != IssueCode::ParseWarning {
        assert(after.drop_last() =~= before);
    }
}

proof fn lemma_source_at(files: Seq<SourceModel>, path: Seq<char>)
    ensures
        match source_at(files, path) {
            Some(i) => 0 <= i < files.len() && components(files[i].path) == components(path)
                && forall|j: int|
                0 <= j < i ==> components((#[trigger] files[j]).path) != components(path),
            None => forall|j: int|
                0 <= j < files.len() ==> components((#[trigger] files[j]).path) != components(path),
        },
    decreases files.len(),
{
    if files.len() > 0 {
        let rest = files.drop_last();
        lemma_source_at(rest, path);
        match source_at(rest, path) {
            Some(i) => {
                assert(files[i] == rest[i]);
                assert forall|j: int| 0 <= j < i implies components((#[trigger] files[j]).path)
                    != components(path) by {
                    assert(rest[j] == files[j]);
                }
            },
            None => {
                assert forall|j: int| 0 <= j < files.len() - 1 implies components(
                    (#[trigger] files[j]).path,
                ) != components(path) by {
                    assert(rest[j] == files[j]);
                }
            },
        }
    }
}

/// The errors of a file are those of the issues of the source with that path,
/// where paths resolve to themselves; a file that no source has gives none.
pub proof fn law_file_errors_are_of_the_file(
    root: Seq<char>,
    path: Seq<char>,
    set: SetModel,
    ctx: Seq<(Seq<char>, Seq<(Seq<char>, u32)>)>,
    k: int,
)
    requires
        set.resolved_paths.len() == 0,
        0 <= k < set.files.len(),
        components(set.files[k].path) == components(path_join(root, path)),
        forall|j: int|
            0 <= j < set.files.len() && j != k ==> components((#[trigger] set.files[j]).path)
                != components(path_join(root, path)),
    ensures
        ({
            let f = set.files[k];
            let is_test = exists|i: int|
                0 <= i < set.test_files.len() && components(#[trigger] set.test_files[i])
                    == components(path_join(root, path));
            let issues = source_issues(
                f.content,
                f.reqs.references,
                f.reqs.warnings,
                is_test,
                ctx,
            );
            file_errors(root, path, set, ctx) == issue_errors(path, issues, issues.len() as int)
        }),
{
    let full = path_join(root, path);
    lemma_source_at(set.files, full);
    assert(resolved(set.resolved_paths, full) == full);
    assert(source_at(set.files, full) == Some(k));
}

/// No file of an implementation is passed over.
pub proof fn law_every_file_is_validated(
    root: Seq<char>,
    entries: Seq<(Seq<char>, usize, usize)>,
    n: int,
    set: SetModel,
    ctx: Seq<(Seq<char>, Seq<(Seq<char>, u32)>)>,
    k: int,
    e: ErrorModel,
)
    requires
        0 <= k < n <= entries.len(),
        file_errors(root, entries[k].0, set, ctx).contains(e),
    ensures
        files_errors(root, entries, n, set, ctx).contains(e),
    decreases n,
{
    let a = files_errors(root, entries, n - 1, set, ctx);
    let b = file_errors(root, entries[n - 1].0, set, ctx);
    if k == n - 1 {
        let x = choose|x: int| 0 <= x < b.len() && b[x] == e;
        assert((a + b)[a.len() + x] == e);
    } else {
        law_every_file_is_validated(root, entries, n - 1, set, ctx, k, e);
        let x = choose|x: int| 0 <= x < a.len() && a[x] == e;
        assert((a + b)[x] == e);
    }
}

/// Every file that cannot be read is an error of its own, which stands at the top
/// of the configuration and names the file and the reason.
pub proof fn law_unreadable_files_are_reported(
    root: Seq<char>,
    config_path: Seq<char>,
    failures: Seq<(Seq<char>, Seq<char>)>,
)
    ensures
        unparseable_errors(root, config_path, failures).len() == failures.len(),
        forall|i: int|
            0 <= i < failures.len() ==> {
                let e = #[trigger] unparseable_errors(root, config_path, failures)[i];
                &&& e.code == ValidationErrorCode::IncludeUnparseableFile
                &&& e.file == Some(crate::coverage::shown_path(root, config_path))
                &&& e.line == Some(1usize)
                &&& e.message == crate::validation::unparseable_message(
                    crate::coverage::shown_path(root, failures[i].0),
                    failures[i].1,
                )
            },
{
}

/// What belongs to an implementation is the last entry with its key.
pub proof fn law_entry_has_the_key<T>(v: Seq<((Seq<char>, Seq<char>), T)>, key: (Seq<char>, Seq<char>))
    ensures
        match entry_of(v, key) {
            Some(t) => exists|i: int|
                0 <= i < v.len() && (#[trigger] v[i]).0 == key && v[i].1 == t && forall|j: int|
                    i < j < v.len() ==> (#[trigger] v[j]).0 != key,
            None => forall|i: int| 0 <= i < v.len() ==> (#[trigger] v[i]).0 != key,
        },
    decreases v.len(),
{
    if v.len() > 0 {
        let rest = v.drop_last();
        let n = v.len() - 1;
        if v.last().0 == key {
            assert(v[n].0 == key);
        } else {
            law_entry_has_the_key(rest, key);
            if let Some(t) = entry_of(rest, key) {
                let i = choose|i: int|
                    0 <= i < rest.len() && (#[trigger] rest[i]).0 == key && rest[i].1 == t
                        && forall|j: int| i < j < rest.len() ==> (#[trigger] rest[j]).0 != key;
                assert(v[i] == rest[i]);
                assert forall|j: int| i < j < v.len() implies (#[trigger] v[j]).0 != key by {
                    if j < n {
                        assert(rest[j] == v[j]);
                    }
                }
            } else {
                assert forall|i: int| 0 <= i < v.len() implies (#[trigger] v[i]).0 != key by {
                    if i < n {
                        assert(rest[i] == v[i]);
                    }
                }
            }
        }
    }
}

} // verus!
