//! What is said of spec documents and of the workspace, in terms of rules and
//! references.

use vstd::prelude::*;

use crate::api::RuleModel;
use crate::coverage::shown_path;
use crate::diagnostics::{
    issue_diagnostic, known_ids, known_match, law_stale_means_newer, source_issues, IssueModel,
};
use crate::order::{in_order, law_sorted, sorted_order, text_le};
use crate::paths::components;
use crate::positions::span_range;
use crate::requirement::{ReqModel, SourceSpan};
use crate::rule_id::{law_rule_text_roundtrip, parsed_rule_id, writable};
use crate::spec_diagnostics::{
    all_rules, best_rule, coverage_hint, coverage_hints, failure_diagnostics, inline_reference,
    path_keys, reference_diagnostics, source_diagnostics, sources_diagnostics, spans_diagnostics,
    spec_file_diagnostics, spec_files_diagnostics, workspace_parts, SpecFileModel, WorkspaceModel,
};
use crate::text::{find_char, lemma_find_char};
use crate::validation::SourceModel;

verus! {

/// `prefix[id]` is a reference exactly where the prefix is lowercase letters and
/// digits and the id can be read.
pub proof fn law_inline_reference(prefix: Seq<char>, id: Seq<char>)
    requires
        !prefix.contains('['),
        !id.contains(']'),
    ensures
        ({
            let out = inline_reference(prefix + "["@ + id + "]"@);
            let lower = forall|i: int|
                0 <= i < prefix.len() ==> ('a' <= (#[trigger] prefix[i]) && prefix[i] <= 'z') || ('0'
                    <= prefix[i] && prefix[i] <= '9');
            &&& (prefix.len() > 0 && lower && parsed_rule_id(id) is Some ==> out == Some(
                (prefix, parsed_rule_id(id)->0),
            ))
            &&& (prefix.len() == 0 || !lower || parsed_rule_id(id) is None ==> out is None)
        }),
{
    reveal_strlit("[");
    reveal_strlit("]");
    let s = prefix + "["@ + id + "]"@;
    let n = prefix.len() as int;
    let e = n + 1 + id.len() as int;
    lemma_find_char(s, '[', 0);
    lemma_find_char(s, ']', n + 1);
    assert(s[n] == '[');
    assert(s[e] == ']');
    assert forall|j: int| 0 <= j < n implies s[j] != '[' by {
        assert(s[j] == prefix[j]);
        assert(prefix.contains(prefix[j]));
    }
    assert forall|j: int| n + 1 <= j < e implies s[j] != ']' by {
        assert(s[j] == id[j - n - 1]);
        assert(id.contains(id[j - n - 1]));
    }
    assert(find_char(s, '[', 0) == Some(n));
    assert(find_char(s, ']', n + 1) == Some(e));
    assert(s.subrange(n + 1, e) =~= id);
    assert(s.take(n) =~= prefix);
    let lower = forall|i: int|
        0 <= i < prefix.len() ==> ('a' <= (#[trigger] prefix[i]) && prefix[i] <= 'z') || ('0'
            <= prefix[i] && prefix[i] <= '9');
    if !lower {
        let i = choose|i: int|
            0 <= i < prefix.len() && !(('a' <= (#[trigger] prefix[i]) && prefix[i] <= 'z') || ('0'
                <= prefix[i] && prefix[i] <= '9'));
        assert(s[i] == prefix[i]);
        assert(!crate::adoc_marker::is_prefix_char(s[i]));
    } else {
        assert forall|i: int| 0 <= i < n implies crate::adoc_marker::is_prefix_char(
            #[trigger] s[i],
        ) by {
            assert(s[i] == prefix[i]);
        }
    }
}

proof fn lemma_best_rule(rules: Seq<RuleModel>, n: int, base: Seq<char>)
    requires
        0 <= n <= rules.len(),
    ensures
        match best_rule(rules, n, base) {
            Some(b) => b.id.0 == base && (exists|i: int| 0 <= i < n && (#[trigger] rules[i]) == b)
                && forall|i: int|
                0 <= i < n && (#[trigger] rules[i]).id.0 == base ==> rules[i].id.1 <= b.id.1,
            None => forall|i: int| 0 <= i < n ==> (#[trigger] rules[i]).id.0 != base,
        },
    decreases n,
{
    if n > 0 {
        lemma_best_rule(rules, n - 1, base);
        assert(rules[n - 1] == rules[n - 1]);
    }
}

/// A requirement is hinted at where the newest rule with its base is not
/// implemented, or is implemented and not verified; one that is both, or that no
/// rule stands for, is not.
pub proof fn law_coverage_is_hinted(
    content: Seq<char>,
    def: ReqModel,
    rules: Seq<RuleModel>,
    k: int,
)
    requires
        writable(def.id),
        0 <= k < rules.len(),
        rules[k].id.0 == def.id.0,
        forall|i: int|
            0 <= i < rules.len() && i != k && (#[trigger] rules[i]).id.0 == def.id.0 ==> rules[i].id.1
                < rules[k].id.1,
    ensures
        ({
            let out = coverage_hint(content, def, rules);
            let r = rules[k];
            &&& (r.impl_refs.len() == 0 ==> out.len() == 1 && out[0].code == "uncovered"@)
            &&& (r.impl_refs.len() > 0 && r.verify_refs.len() == 0 ==> out.len() == 1 && out[0].code
                == "untested"@)
            &&& (r.impl_refs.len() > 0 && r.verify_refs.len() > 0 ==> out.len() == 0)
            &&& (out.len() == 1 ==> out[0].severity == "hint"@ && out[0].range == span_range(
                content,
                def.marker_span.offset,
                def.marker_span.length,
            ))
        }),
{
    law_rule_text_roundtrip(def.id);
    lemma_best_rule(rules, rules.len() as int, def.id.0);
    assert(best_rule(rules, rules.len() as int, def.id.0) == Some(rules[k])) by {
        let b = best_rule(rules, rules.len() as int, def.id.0)->0;
        assert(rules[k].id.0 == def.id.0);
        let i = choose|i: int| 0 <= i < rules.len() && (#[trigger] rules[i]) == b;
    }
}

/// A requirement that no rule stands for is not hinted at.
pub proof fn law_unknown_requirement_is_not_hinted(
    content: Seq<char>,
    def: ReqModel,
    rules: Seq<RuleModel>,
)
    requires
        writable(def.id),
        forall|i: int| 0 <= i < rules.len() ==> (#[trigger] rules[i]).id.0 != def.id.0,
    ensures
        coverage_hint(content, def, rules).len() == 0,
{
    law_rule_text_roundtrip(def.id);
    lemma_best_rule(rules, rules.len() as int, def.id.0);
}

/// A reference in a spec document is wrong where no spec uses its prefix, stale
/// where only a newer version is known under the prefix, orphaned where none is,
/// and in order where the very rule is known.
pub proof fn law_spec_reference_is_checked(
    content: Seq<char>,
    span: (Seq<char>, SourceSpan),
    ctx: Seq<(Seq<char>, Seq<(Seq<char>, u32)>)>,
)
    requires
        inline_reference(span.0) is Some,
    ensures
        ({
            let (prefix, id) = inline_reference(span.0)->0;
            let out = reference_diagnostics(content, span, ctx);
            let uses = exists|k: int| 0 <= k < ctx.len() && (#[trigger] ctx[k]).0 == prefix;
            let known = known_ids(ctx, prefix);
            let newer = exists|i: int|
                0 <= i < known.len() && (#[trigger] known[i]).0 == id.0 && known[i].1 > id.1;
            &&& (!uses ==> out.len() == 1 && out[0].code == "unknown-prefix"@ && out[0].severity
                == "error"@)
            &&& (uses && known.contains(id) ==> out.len() == 0)
            &&& (uses && !known.contains(id) && newer ==> out.len() == 1 && out[0].code == "stale"@)
            &&& (uses && !known.contains(id) && !newer ==> out.len() == 1 && out[0].code
                == "orphaned"@)
            &&& (out.len() == 1 ==> out[0].range == span_range(
                content,
                span.1.offset,
                span.1.length,
            ))
        }),
{
    let (prefix, id) = inline_reference(span.0)->0;
    let known = known_ids(ctx, prefix);
    law_stale_means_newer(id, known);
    match known_match(id, known) {
        Ok(Some(rule)) => {
            let i = choose|i: int| 0 <= i < known.len() && known[i] == rule;
            assert(known[i].0 == id.0);
        },
        Err(_) => {
            if exists|i: int|
                0 <= i < known.len() && (#[trigger] known[i]).0 == id.0 && known[i].1 > id.1 {
                let i = choose|i: int|
                    0 <= i < known.len() && (#[trigger] known[i]).0 == id.0 && known[i].1 > id.1;
                assert(known[i].0 != id.0 || known[i].1 < id.1);
            }
            if known.contains(id) {
                let i = choose|i: int| 0 <= i < known.len() && known[i] == id;
                assert(known[i].0 != id.0 || known[i].1 < id.1);
            }
        },
        _ => {},
    }
}

proof fn lemma_hints_prefix(
    content: Seq<char>,
    a: Seq<ReqModel>,
    b: Seq<ReqModel>,
    n: int,
    rules: Seq<RuleModel>,
)
    requires
        0 <= n <= a.len(),
        n <= b.len(),
        forall|i: int| 0 <= i < n ==> a[i] == b[i],
    ensures
        coverage_hints(content, a, n, rules) == coverage_hints(content, b, n, rules),
    decreases n,
{
    if n > 0 {
        lemma_hints_prefix(content, a, b, n - 1, rules);
    }
}

proof fn lemma_spans_prefix(
    content: Seq<char>,
    a: Seq<(Seq<char>, SourceSpan)>,
    b: Seq<(Seq<char>, SourceSpan)>,
    n: int,
    ctx: Seq<(Seq<char>, Seq<(Seq<char>, u32)>)>,
)
    requires
        0 <= n <= a.len(),
        n <= b.len(),
        forall|i: int| 0 <= i < n ==> a[i] == b[i],
    ensures
        spans_diagnostics(content, a, n, ctx) == spans_diagnostics(content, b, n, ctx),
    decreases n,
{
    if n > 0 {
        lemma_spans_prefix(content, a, b, n - 1, ctx);
    }
}

/// Every requirement and every code span of a document is looked at: one more
/// adds what is said of it.
pub proof fn law_every_span_is_checked(
    f: SpecFileModel,
    def: ReqModel,
    span: (Seq<char>, SourceSpan),
    rules: Seq<RuleModel>,
    ctx: Seq<(Seq<char>, Seq<(Seq<char>, u32)>)>,
)
    ensures
        ({
            let more = SpecFileModel { inline_code_spans: f.inline_code_spans.push(span), ..f };
            spec_file_diagnostics(more, rules, ctx) == spec_file_diagnostics(f, rules, ctx)
                + reference_diagnostics(f.content, span, ctx)
        }),
        ({
            let bare = SpecFileModel { inline_code_spans: Seq::empty(), ..f };
            let more = SpecFileModel { reqs: f.reqs.push(def), ..bare };
            spec_file_diagnostics(more, rules, ctx) == spec_file_diagnostics(bare, rules, ctx)
                + coverage_hint(f.content, def, rules)
        }),
        ({
            let bare = SpecFileModel {
                inline_code_spans: Seq::empty(),
                reqs: Seq::empty(),
                ..f
            };
            spec_file_diagnostics(bare, rules, ctx).len() == 0
        }),
{
    let spans = f.inline_code_spans;
    let n = spans.len() as int;
    lemma_spans_prefix(f.content, spans, spans.push(span), n, ctx);
    let more = SpecFileModel { inline_code_spans: spans.push(span), ..f };
    assert(spec_file_diagnostics(more, rules, ctx) =~= spec_file_diagnostics(f, rules, ctx)
        + reference_diagnostics(f.content, span, ctx));
    lemma_hints_prefix(f.content, f.reqs, f.reqs.push(def), f.reqs.len() as int, rules);
    let bare = SpecFileModel { inline_code_spans: Seq::empty(), ..f };
    let more = SpecFileModel { reqs: f.reqs.push(def), ..bare };
    assert(spec_file_diagnostics(more, rules, ctx) =~= spec_file_diagnostics(bare, rules, ctx)
        + coverage_hint(f.content, def, rules));
}

proof fn lemma_spec_files_contain(
    root: Seq<char>,
    files: Seq<SpecFileModel>,
    n: int,
    rules: Seq<RuleModel>,
    ctx: Seq<(Seq<char>, Seq<(Seq<char>, u32)>)>,
    k: int,
)
    requires
        0 <= k < n <= files.len(),
        spec_file_diagnostics(files[k], rules, ctx).len() > 0,
    ensures
        spec_files_diagnostics(root, files, n, rules, ctx).contains(
            (shown_path(root, files[k].path), spec_file_diagnostics(files[k], rules, ctx)),
        ),
    decreases n,
{
    let all = spec_files_diagnostics(root, files, n, rules, ctx);
    let before = spec_files_diagnostics(root, files, n - 1, rules, ctx);
    let e = (shown_path(root, files[k].path), spec_file_diagnostics(files[k], rules, ctx));
    if k == n - 1 {
        assert(all[before.len() as int] == e);
    } else {
        lemma_spec_files_contain(root, files, n - 1, rules, ctx, k);
        let x = choose|x: int| 0 <= x < before.len() && before[x] == e;
        assert(all[x] == e);
    }
}

proof fn lemma_sources_contain(
    root: Seq<char>,
    files: Seq<SourceModel>,
    n: int,
    test_files: Seq<Seq<char>>,
    ctx: Seq<(Seq<char>, Seq<(Seq<char>, u32)>)>,
    k: int,
    is_test: bool,
)
    requires
        0 <= k < n <= files.len(),
        is_test == exists|i: int|
            0 <= i < test_files.len() && components(#[trigger] test_files[i]) == components(
                files[k].path,
            ),
        source_diagnostics(files[k], is_test, ctx).len() > 0,
    ensures
        sources_diagnostics(root, files, n, test_files, ctx).contains(
            (shown_path(root, files[k].path), source_diagnostics(files[k], is_test, ctx)),
        ),
    decreases n,
{
    let all = sources_diagnostics(root, files, n, test_files, ctx);
    let before = sources_diagnostics(root, files, n - 1, test_files, ctx);
    let e = (shown_path(root, files[k].path), source_diagnostics(files[k], is_test, ctx));
    if k == n - 1 {
        assert(all[before.len() as int] == e);
    } else {
        lemma_sources_contain(root, files, n - 1, test_files, ctx, k, is_test);
        let x = choose|x: int| 0 <= x < before.len() && before[x] == e;
        assert(all[x] == e);
    }
}

/// The diagnostics of the workspace hold, each under the path that is shown, all
/// issues of every source file that has any, all that is said of every spec
/// document, and every file that cannot be read; they come in the order of paths.
pub proof fn law_workspace_reports_everything(
    input: WorkspaceModel,
    forward: Seq<((Seq<char>, Seq<char>), Seq<RuleModel>)>,
    ctx: Seq<(Seq<char>, Seq<(Seq<char>, u32)>)>,
    k: int,
    is_test: bool,
)
    requires
        ctx.len() > 0,
    ensures
        ({
            let parts = workspace_parts(input, forward, ctx);
            let out = in_order(parts, path_keys(parts));
            let f = input.sources.files[k];
            let s = input.spec_files[k];
            let issues = source_issues(
                f.content,
                f.reqs.references,
                f.reqs.warnings,
                is_test,
                ctx,
            );
            &&& (0 <= k < input.sources.files.len() && is_test == (exists|i: int|
                0 <= i < input.sources.test_files.len() && components(
                    #[trigger] input.sources.test_files[i],
                ) == components(f.path)) && issues.len() > 0 ==> out.contains(
                (shown_path(input.root, f.path), issues.map_values(
                    |i: IssueModel| issue_diagnostic(i),
                )),
            ))
            &&& (0 <= k < input.spec_files.len() && spec_file_diagnostics(
                s,
                all_rules(forward),
                ctx,
            ).len() > 0 ==> out.contains(
                (shown_path(input.root, s.path), spec_file_diagnostics(s, all_rules(forward), ctx)),
            ))
            &&& (input.failures.len() > 0 ==> exists|i: int|
                0 <= i < out.len() && (#[trigger] out[i]).0 == shown_path(
                    input.root,
                    input.config_path,
                ) && out[i].1.len() == input.failures.len())
            &&& forall|i: int, j: int|
                0 <= i < j < out.len() ==> (#[trigger] out[i]).0 == (#[trigger] out[j]).0 || text_le(
                    out[i].0,
                    out[j].0,
                    0,
                )
        }),
{
    let parts = workspace_parts(input, forward, ctx);
    let keys = path_keys(parts);
    let out = in_order(parts, keys);
    law_sorted(keys, keys.len() as int);
    let order = sorted_order(keys, keys.len() as int);
    assert forall|i: int, j: int| 0 <= i < j < out.len() implies (#[trigger] out[i]).0 == (
    #[trigger] out[j]).0 || text_le(out[i].0, out[j].0, 0) by {
        assert(crate::order::key_le(keys[order[i]], keys[order[j]]));
    }
    let a = sources_diagnostics(
        input.root,
        input.sources.files,
        input.sources.files.len() as int,
        input.sources.test_files,
        ctx,
    );
    let b = spec_files_diagnostics(
        input.root,
        input.spec_files,
        input.spec_files.len() as int,
        all_rules(forward),
        ctx,
    );
    let c = failure_diagnostics(input.root, input.config_path, input.failures);
    assert(parts =~= a + b + c);
    let f = input.sources.files[k];
    let s = input.spec_files[k];
    if 0 <= k < input.sources.files.len() && is_test == (exists|i: int|
        0 <= i < input.sources.test_files.len() && components(#[trigger] input.sources.test_files[i])
            == components(f.path)) && source_issues(
        f.content,
        f.reqs.references,
        f.reqs.warnings,
        is_test,
        ctx,
    ).len() > 0 {
        lemma_sources_contain(
            input.root,
            input.sources.files,
            input.sources.files.len() as int,
            input.sources.test_files,
            ctx,
            k,
            is_test,
        );
        let e = (shown_path(input.root, f.path), source_diagnostics(f, is_test, ctx));
        let x = choose|x: int| 0 <= x < a.len() && a[x] == e;
        assert(parts[x] == e);
        lemma_kept(parts, keys, x);
    }
    if 0 <= k < input.spec_files.len() && spec_file_diagnostics(s, all_rules(forward), ctx).len()
        > 0 {
        lemma_spec_files_contain(
            input.root,
            input.spec_files,
            input.spec_files.len() as int,
            all_rules(forward),
            ctx,
            k,
        );
        let e = (shown_path(input.root, s.path), spec_file_diagnostics(s, all_rules(forward), ctx));
        let x = choose|x: int| 0 <= x < b.len() && b[x] == e;
        assert(parts[a.len() + x] == e);
        lemma_kept(parts, keys, a.len() + x);
    }
    if input.failures.len() > 0 {
        let x = a.len() + b.len();
        assert(parts[x as int] == c[0]);
        lemma_kept(parts, keys, x as int);
        let i = choose|i: int| 0 <= i < out.len() && out[i] == parts[x as int];
        assert(out[i].0 == shown_path(input.root, input.config_path));
    }
}

/// Putting things in order loses none.
pub proof fn lemma_kept<T>(items: Seq<T>, keys: Seq<crate::order::KeyModel>, x: int)
    requires
        keys.len() == items.len(),
        0 <= x < items.len(),
    ensures
        in_order(items, keys).len() == items.len(),
        in_order(items, keys).contains(items[x]),
{
    let n = keys.len() as int;
    law_sorted(keys, n);
    let order = sorted_order(keys, n);
    lemma_all_positions(keys, n, x);
    let i = choose|i: int| 0 <= i < order.len() && order[i] == x;
    assert(in_order(items, keys)[i] == items[x]);
}

pub proof fn lemma_all_positions(keys: Seq<crate::order::KeyModel>, n: int, x: int)
    requires
        0 <= x < n <= keys.len(),
    ensures
        sorted_order(keys, n).contains(x),
    decreases n,
{
    let o = sorted_order(keys, n - 1);
    lemma_insert_keeps(o, keys, n - 1, x);
    if x < n - 1 {
        lemma_all_positions(keys, n - 1, x);
    }
}

proof fn lemma_insert_keeps(order: Seq<int>, keys: Seq<crate::order::KeyModel>, k: int, x: int)
    ensures
        x == k || order.contains(x) ==> crate::order::insert_sorted(order, keys, k).contains(x),
    decreases order.len(),
{
    let out = crate::order::insert_sorted(order, keys, k);
    if order.len() == 0 || crate::order::key_le(keys[order.last()], keys[k]) {
        assert(out[order.len() as int] == k);
        if order.contains(x) {
            let i = choose|i: int| 0 <= i < order.len() && order[i] == x;
            assert(out[i] == x);
        }
    } else {
        let rest = order.drop_last();
        lemma_insert_keeps(rest, keys, k, x);
        let before = crate::order::insert_sorted(rest, keys, k);
        assert(out[before.len() as int] == order.last());
        if x == k || rest.contains(x) {
            let i = choose|i: int| 0 <= i < before.len() && before[i] == x;
            assert(out[i] == x);
        } else if order.contains(x) {
            let i = choose|i: int| 0 <= i < order.len() && order[i] == x;
            if i < rest.len() {
                assert(rest[i] == x);
            }
        }
    }
}

/// All rules of all implementations are looked at.
pub proof fn law_all_rules(
    forward: Seq<((Seq<char>, Seq<char>), Seq<RuleModel>)>,
    i: int,
    j: int,
)
    requires
        0 <= i < forward.len(),
        0 <= j < forward[i].1.len(),
    ensures
        all_rules(forward).contains(forward[i].1[j]),
    decreases forward.len(),
{
    let rest = forward.drop_last();
    let before = all_rules(rest);
    let all = all_rules(forward);
    if i < rest.len() {
        assert(rest[i] == forward[i]);
        law_all_rules(rest, i, j);
        let x = choose|x: int| 0 <= x < before.len() && before[x] == forward[i].1[j];
        assert(all[x] == forward[i].1[j]);
    } else {
        assert(all[before.len() + j] == forward[i].1[j]);
    }
}

} // verus!
