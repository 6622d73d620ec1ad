//! What is said of the references in a source file, in terms of the rules that
//! are known.

use vstd::prelude::*;

use crate::api::{rule_ids, RuleModel, SpecInfoModel};
use crate::diagnostics::{
    common_prefix, context_model, ids_text, issue_diagnostic, known_ids, known_match, knows_prefix,
    law_stale_means_newer, reference_issues, reference_text, references_issues, similar_ids,
    source_issues, spec_rule_ids, stale_message, unknown_message, uses_explicit_verb, IssueCode,
    IssueModel,
};
use crate::positions::span_range;
use crate::refs::{RefModel, RefVerb, WarningModel};
use crate::rule_id::rule_text;
use crate::text::byte_slice;

verus! {

/// The ids that a prefix refers to are those of all specs that use it.
proof fn lemma_known_ids(ctx: Seq<(Seq<char>, Seq<(Seq<char>, u32)>)>, prefix: Seq<char>)
    ensures
        forall|id: (Seq<char>, u32)| #[trigger]
            known_ids(ctx, prefix).contains(id) <==> exists|k: int|
                0 <= k < ctx.len() && (#[trigger] ctx[k]).0 == prefix && ctx[k].1.contains(id),
    decreases ctx.len(),
{
    if ctx.len() > 0 {
        let rest = ctx.drop_last();
        lemma_known_ids(rest, prefix);
        assert forall|id: (Seq<char>, u32)| #[trigger]
            known_ids(ctx, prefix).contains(id) <==> exists|k: int|
                0 <= k < ctx.len() && (#[trigger] ctx[k]).0 == prefix && ctx[k].1.contains(id) by {
            let before = known_ids(rest, prefix);
            let all = known_ids(ctx, prefix);
            if all.contains(id) {
                let i = choose|i: int| 0 <= i < all.len() && all[i] == id;
                if i < before.len() {
                    assert(before[i] == id);
                    assert(before.contains(id));
                    let k = choose|k: int|
                        0 <= k < rest.len() && (#[trigger] rest[k]).0 == prefix
                            && rest[k].1.contains(id);
                    assert(ctx[k] == rest[k]);
                } else {
                    assert(ctx.last().1[i - before.len()] == id);
                    assert(ctx[ctx.len() - 1].1.contains(id));
                }
            }
            if exists|k: int|
                0 <= k < ctx.len() && (#[trigger] ctx[k]).0 == prefix && ctx[k].1.contains(id) {
                let k = choose|k: int|
                    0 <= k < ctx.len() && (#[trigger] ctx[k]).0 == prefix && ctx[k].1.contains(id);
                if k < rest.len() {
                    assert(rest[k] == ctx[k]);
                    assert(before.contains(id));
                    let i = choose|i: int| 0 <= i < before.len() && before[i] == id;
                    assert(all[i] == id);
                } else {
                    let i = choose|i: int| 0 <= i < ctx[k].1.len() && ctx[k].1[i] == id;
                    assert(all[before.len() + i] == id);
                }
            }
        }
    }
}

/// A reference with a known prefix is in order where a spec with that prefix has
/// the very rule. Else, whatever its verb, it has exactly one issue on its id:
/// that it is stale, naming a newer version that a spec with that prefix has, or,
/// where there is none, that the rule is not known. Besides, `impl` in a test
/// file is an issue, and nothing else is.
pub proof fn law_reference_is_checked(
    content: Seq<char>,
    r: RefModel,
    is_test: bool,
    ctx: Seq<(Seq<char>, Seq<(Seq<char>, u32)>)>,
)
    requires
        exists|k: int| 0 <= k < ctx.len() && (#[trigger] ctx[k]).0 == r.prefix,
    ensures
        ({
            let out = reference_issues(content, r, is_test, ctx);
            let exact = exists|k: int|
                0 <= k < ctx.len() && (#[trigger] ctx[k]).0 == r.prefix && ctx[k].1.contains(
                    r.req_id,
                );
            let newer = exists|k: int, i: int|
                0 <= k < ctx.len() && ctx[k].0 == r.prefix && 0 <= i < ctx[k].1.len() && (
                #[trigger] ctx[k].1[i]).0 == r.req_id.0 && ctx[k].1[i].1 > r.req_id.1;
            let in_test = is_test && r.verb == RefVerb::Impl;
            let n = if exact {
                0int
            } else {
                1int
            };
            &&& out.len() == n + if in_test {
                1int
            } else {
                0int
            }
            &&& forall|i: int|
                0 <= i < out.len() ==> (#[trigger] out[i]).line == r.line && out[i].range
                    == span_range(content, r.span.offset, r.span.length)
                    && out[i].reference_rule_id == Some(r.req_id)
            &&& (!exact && !newer ==> out[0].code == IssueCode::UnknownRequirement)
            &&& (!exact && newer ==> exists|k: int, i: int|
                0 <= k < ctx.len() && ctx[k].0 == r.prefix && 0 <= i < ctx[k].1.len() && (
                #[trigger] ctx[k].1[i]).0 == r.req_id.0 && ctx[k].1[i].1 > r.req_id.1
                    && out[0].code == IssueCode::Stale(ctx[k].1[i]))
            &&& (in_test ==> out[n].code == IssueCode::ImplInTestFile)
        }),
{
    let known = known_ids(ctx, r.prefix);
    lemma_known_ids(ctx, r.prefix);
    law_stale_means_newer(r.req_id, known);
    let out = reference_issues(content, r, is_test, ctx);
    let newer = exists|k: int, i: int|
        0 <= k < ctx.len() && ctx[k].0 == r.prefix && 0 <= i < ctx[k].1.len() && (
        #[trigger] ctx[k].1[i]).0 == r.req_id.0 && ctx[k].1[i].1 > r.req_id.1;
    assert(knows_prefix(ctx, r.prefix));
    match known_match(r.req_id, known) {
        Ok(None) => {
            assert(known.contains(r.req_id));
        },
        Ok(Some(rule)) => {
            assert(known.contains(rule));
            let k = choose|k: int|
                0 <= k < ctx.len() && (#[trigger] ctx[k]).0 == r.prefix && ctx[k].1.contains(rule);
            let i = choose|i: int| 0 <= i < ctx[k].1.len() && ctx[k].1[i] == rule;
            assert(ctx[k].1[i].0 == r.req_id.0);
            assert(newer);
            assert(!known.contains(r.req_id));
            assert(out[0].code == IssueCode::Stale(ctx[k].1[i]));
        },
        Err(_) => {
            if newer {
                let (k, i) = choose|k: int, i: int|
                    0 <= k < ctx.len() && ctx[k].0 == r.prefix && 0 <= i < ctx[k].1.len() && (
                    #[trigger] ctx[k].1[i]).0 == r.req_id.0 && ctx[k].1[i].1 > r.req_id.1;
                let id = ctx[k].1[i];
                assert(ctx[k].1.contains(id));
                assert(known.contains(id));
                let j = choose|j: int| 0 <= j < known.len() && known[j] == id;
                assert(known[j].0 != r.req_id.0 || known[j].1 < r.req_id.1);
                assert(false);
            }
            assert(!known.contains(r.req_id)) by {
                if known.contains(r.req_id) {
                    let j = choose|j: int| 0 <= j < known.len() && known[j] == r.req_id;
                    assert(known[j].0 != r.req_id.0 || known[j].1 < r.req_id.1);
                }
            }
        },
    }
}

/// A reference whose prefix no spec uses has the one issue that the prefix is not
/// known, where its marker spells out a verb, and none where it does not.
pub proof fn law_unknown_prefix_is_told(
    content: Seq<char>,
    r: RefModel,
    inner: Seq<char>,
    is_test: bool,
    ctx: Seq<(Seq<char>, Seq<(Seq<char>, u32)>)>,
)
    requires
        forall|k: int| 0 <= k < ctx.len() ==> (#[trigger] ctx[k]).0 != r.prefix,
        byte_slice(content, r.span.offset as int, r.span.offset + r.span.length) == Some(
            r.prefix + "["@ + inner + "]"@,
        ),
    ensures
        ({
            let out = reference_issues(content, r, is_test, ctx);
            if inner.contains(' ') {
                &&& out.len() == 1
                &&& out[0].code == IssueCode::UnknownPrefix
                &&& out[0].message == "Unknown prefix: '"@ + r.prefix + "'"@
                &&& out[0].line == r.line
                &&& out[0].range == span_range(content, r.span.offset, r.span.length)
            } else {
                out.len() == 0
            }
        }),
{
    reveal_strlit("[");
    reveal_strlit("]");
    let s = r.prefix + "["@ + inner + "]"@;
    let n = r.prefix.len() as int;
    assert(s.subrange(0, n) =~= r.prefix);
    assert(s.subrange(n + 1, s.len() - 1) =~= inner);
    assert(crate::text::has_prefix(s, r.prefix));
    crate::text::lemma_find_char(inner, ' ', 0);
    if inner.contains(' ') {
        let i = choose|i: int| 0 <= i < inner.len() && inner[i] == ' ';
        assert(inner[i] == ' ');
    }
    assert(uses_explicit_verb(content, r.span.offset, r.span.length, r.prefix) == inner.contains(
        ' ',
    ));
    assert(!knows_prefix(ctx, r.prefix));
}

proof fn lemma_references_issues(
    content: Seq<char>,
    refs: Seq<RefModel>,
    more: Seq<RefModel>,
    n: int,
    is_test: bool,
    ctx: Seq<(Seq<char>, Seq<(Seq<char>, u32)>)>,
)
    requires
        0 <= n <= refs.len(),
        refs.len() <= more.len(),
        forall|i: int| 0 <= i < refs.len() ==> refs[i] == more[i],
    ensures
        references_issues(content, refs, n, is_test, ctx) == references_issues(
            content,
            more,
            n,
            is_test,
            ctx,
        ),
    decreases n,
{
    if n > 0 {
        lemma_references_issues(content, refs, more, n - 1, is_test, ctx);
    }
}

/// No reference and no unreadable marker of a file is passed over: one more
/// reference adds its own issues behind those of the references before it, one
/// more marker that could not be read adds one issue at the end, and a file with
/// neither has no issue.
pub proof fn law_every_reference_is_checked(
    content: Seq<char>,
    refs: Seq<RefModel>,
    r: RefModel,
    warnings: Seq<WarningModel>,
    w: WarningModel,
    is_test: bool,
    ctx: Seq<(Seq<char>, Seq<(Seq<char>, u32)>)>,
)
    requires
        ctx.len() > 0,
    ensures
        source_issues(
            content,
            Seq::<RefModel>::empty(),
            Seq::<WarningModel>::empty(),
            is_test,
            ctx,
        ).len() == 0,
        source_issues(content, refs.push(r), Seq::<WarningModel>::empty(), is_test, ctx)
            == source_issues(content, refs, Seq::<WarningModel>::empty(), is_test, ctx)
            + reference_issues(content, r, is_test, ctx),
        ({
            let before = source_issues(content, refs, warnings, is_test, ctx);
            let after = source_issues(content, refs, warnings.push(w), is_test, ctx);
            &&& after.len() == before.len() + 1
            &&& after.drop_last() == before
            &&& after.last().code == IssueCode::ParseWarning
            &&& after.last().line == w.line
            &&& after.last().range == span_range(content, w.span.offset, w.span.length)
            &&& (w.unknown_verb matches Some(v) ==> after.last().message == "Unknown verb: '"@ + v
                + "'"@)
            &&& (w.unknown_verb is None ==> after.last().message == "Malformed reference"@)
        }),
{
    let none = Seq::<WarningModel>::empty();
    let f = |w: WarningModel| crate::diagnostics::warning_issue(content, w);
    assert(none.map_values(f) =~= Seq::<IssueModel>::empty());
    let more = refs.push(r);
    lemma_references_issues(content, refs, more, refs.len() as int, is_test, ctx);
    let a = references_issues(content, refs, refs.len() as int, is_test, ctx);
    assert(source_issues(content, refs, none, is_test, ctx) =~= a);
    assert(source_issues(content, more, none, is_test, ctx) =~= a + reference_issues(
        content,
        r,
        is_test,
        ctx,
    ));
    assert(warnings.push(w).map_values(f) =~= warnings.map_values(f).push(f(w)));
    assert(source_issues(content, refs, warnings.push(w), is_test, ctx).drop_last()
        =~= source_issues(content, refs, warnings, is_test, ctx));
}

proof fn lemma_clean_prefix(
    content: Seq<char>,
    refs: Seq<RefModel>,
    n: int,
    is_test: bool,
    ctx: Seq<(Seq<char>, Seq<(Seq<char>, u32)>)>,
)
    requires
        0 <= n <= refs.len(),
        references_issues(content, refs, n, is_test, ctx).len() == 0,
    ensures
        forall|i: int|
            0 <= i < n ==> reference_issues(content, #[trigger] refs[i], is_test, ctx).len() == 0,
    decreases n,
{
    if n > 0 {
        lemma_clean_prefix(content, refs, n - 1, is_test, ctx);
    }
}

/// A file without issues holds no marker that could not be read, and each of its
/// references with a known prefix names a rule that a spec with that prefix has.
pub proof fn law_clean_file_refers_to_known_rules(
    content: Seq<char>,
    refs: Seq<RefModel>,
    warnings: Seq<WarningModel>,
    is_test: bool,
    ctx: Seq<(Seq<char>, Seq<(Seq<char>, u32)>)>,
)
    requires
        ctx.len() > 0,
        source_issues(content, refs, warnings, is_test, ctx).len() == 0,
    ensures
        warnings.len() == 0,
        forall|i: int|
            0 <= i < refs.len() && (exists|k: int|
                0 <= k < ctx.len() && (#[trigger] ctx[k]).0 == (#[trigger] refs[i]).prefix) ==> (
            exists|k: int|
                0 <= k < ctx.len() && (#[trigger] ctx[k]).0 == refs[i].prefix && ctx[k].1.contains(
                    refs[i].req_id,
                )) && !(is_test && refs[i].verb == RefVerb::Impl),
{
    let n = refs.len() as int;
    let a = references_issues(content, refs, n, is_test, ctx);
    let f = |w: WarningModel| crate::diagnostics::warning_issue(content, w);
    assert(warnings.map_values(f).len() == warnings.len());
    assert(a.len() == 0);
    lemma_clean_prefix(content, refs, n, is_test, ctx);
    assert forall|i: int|
        0 <= i < refs.len() && (exists|k: int|
            0 <= k < ctx.len() && (#[trigger] ctx[k]).0 == (#[trigger] refs[i]).prefix) implies (
    exists|k: int|
        0 <= k < ctx.len() && (#[trigger] ctx[k]).0 == refs[i].prefix && ctx[k].1.contains(
            refs[i].req_id,
        )) && !(is_test && refs[i].verb == RefVerb::Impl) by {
        assert(reference_issues(content, refs[i], is_test, ctx).len() == 0);
        law_reference_is_checked(content, refs[i], is_test, ctx);
    }
}

proof fn lemma_spec_rule_ids(
    name: Seq<char>,
    forward: Seq<((Seq<char>, Seq<char>), Seq<RuleModel>)>,
    id: (Seq<char>, u32),
)
    ensures
        spec_rule_ids(name, forward).contains(id) <==> exists|j: int, i: int|
            0 <= j < forward.len() && (forward[j].0).0 == name && 0 <= i < forward[j].1.len() && (
            #[trigger] forward[j].1[i]).id == id,
    decreases forward.len(),
{
    if forward.len() > 0 {
        let rest = forward.drop_last();
        lemma_spec_rule_ids(name, rest, id);
        let before = spec_rule_ids(name, rest);
        let all = spec_rule_ids(name, forward);
        let last = forward[forward.len() - 1];
        if all.contains(id) {
            let x = choose|x: int| 0 <= x < all.len() && all[x] == id;
            if x < before.len() {
                assert(before[x] == id);
                assert(before.contains(id));
                let (j, i) = choose|j: int, i: int|
                    0 <= j < rest.len() && (rest[j].0).0 == name && 0 <= i < rest[j].1.len() && (
                    #[trigger] rest[j].1[i]).id == id;
                assert(forward[j].1[i].id == id);
            } else {
                assert(rule_ids(last.1)[x - before.len()] == id);
                assert(forward[forward.len() - 1].1[x - before.len()].id == id);
            }
        }
        if exists|j: int, i: int|
            0 <= j < forward.len() && (forward[j].0).0 == name && 0 <= i < forward[j].1.len() && (
            #[trigger] forward[j].1[i]).id == id {
            let (j, i) = choose|j: int, i: int|
                0 <= j < forward.len() && (forward[j].0).0 == name && 0 <= i < forward[j].1.len()
                    && (#[trigger] forward[j].1[i]).id == id;
            if j < rest.len() {
                assert(rest[j].1[i].id == id);
                assert(before.contains(id));
                let x = choose|x: int| 0 <= x < before.len() && before[x] == id;
                assert(all[x] == id);
            } else {
                assert(rule_ids(last.1)[i] == id);
                assert(all[before.len() + i] == id);
            }
        }
    }
}

/// Files are checked against every spec: under its prefix stand the ids of the
/// rules of all its implementations, and no others.
pub proof fn law_context_holds_all_rules(
    specs: Seq<SpecInfoModel>,
    forward: Seq<((Seq<char>, Seq<char>), Seq<RuleModel>)>,
)
    ensures
        context_model(specs, forward).len() == specs.len(),
        forall|k: int|
            0 <= k < specs.len() ==> (#[trigger] context_model(specs, forward)[k]).0
                == specs[k].prefix,
        forall|k: int, id: (Seq<char>, u32)|
            0 <= k < specs.len() ==> (#[trigger] context_model(specs, forward)[k].1.contains(id)
                <==> exists|j: int, i: int|
                0 <= j < forward.len() && (forward[j].0).0 == specs[k].name && 0 <= i
                    < forward[j].1.len() && (#[trigger] forward[j].1[i]).id == id),
{
    assert forall|k: int, id: (Seq<char>, u32)| 0 <= k < specs.len() implies (
    #[trigger] context_model(specs, forward)[k].1.contains(id) <==> exists|j: int, i: int|
        0 <= j < forward.len() && (forward[j].0).0 == specs[k].name && 0 <= i < forward[j].1.len()
            && (#[trigger] forward[j].1[i]).id == id) by {
        lemma_spec_rule_ids(specs[k].name, forward, id);
    }
}

proof fn lemma_common_prefix(a: Seq<char>, b: Seq<char>, i: int)
    requires
        0 <= i <= a.len(),
        i <= b.len(),
        a.take(i) == b.take(i),
    ensures
        ({
            let c = common_prefix(a, b, i);
            i <= c <= a.len() && c <= b.len() && a.take(c) == b.take(c)
        }),
    decreases a.len() - i,
{
    if i < a.len() && i < b.len() && a[i] == b[i] {
        assert(a.take(i + 1) =~= a.take(i).push(a[i]));
        assert(b.take(i + 1) =~= b.take(i).push(b[i]));
        lemma_common_prefix(a, b, i + 1);
    }
}

/// What is suggested is known, begins like the reference for at least half of
/// it, comes once, and is no more than asked for.
pub proof fn law_suggestions_are_known(
    reference: (Seq<char>, u32),
    known: Seq<(Seq<char>, u32)>,
    max: nat,
)
    ensures
        ({
            let out = similar_ids(reference, known, max);
            &&& out.len() <= max
            &&& out.no_duplicates()
            &&& forall|i: int|
                0 <= i < out.len() ==> known.contains(#[trigger] out[i]) && exists|c: int|
                    0 < c <= reference.0.len() && c <= out[i].0.len() && 2 * c >= reference.0.len()
                        && reference.0.take(c) == #[trigger] out[i].0.take(c)
        }),
    decreases known.len(),
{
    if known.len() > 0 {
        let rest = known.drop_last();
        law_suggestions_are_known(reference, rest, max);
        let before = similar_ids(reference, rest, max);
        let out = similar_ids(reference, known, max);
        let last = known.last();
        assert(reference.0.take(0) =~= last.0.take(0));
        lemma_common_prefix(reference.0, last.0, 0);
        assert(out.no_duplicates()) by {
            if out.len() > before.len() {
                assert forall|i: int, j: int| 0 <= i < out.len() && 0 <= j < out.len() && i
                    != j implies out[i] != out[j] by {
                    if i < before.len() && j < before.len() {
                        assert(before[i] != before[j]);
                    } else if i < before.len() {
                        assert(before.contains(before[i]));
                    } else {
                        assert(before.contains(before[j]));
                    }
                }
            }
        }
        assert forall|i: int| 0 <= i < out.len() implies known.contains(#[trigger] out[i])
            && exists|c: int|
            0 < c <= reference.0.len() && c <= out[i].0.len() && 2 * c >= reference.0.len()
                && reference.0.take(c) == #[trigger] out[i].0.take(c) by {
            if i < before.len() {
                assert(out[i] == before[i]);
                let x = choose|x: int| 0 <= x < rest.len() && rest[x] == before[i];
                assert(known[x] == out[i]);
            } else {
                let c = common_prefix(reference.0, last.0, 0);
                assert(known[known.len() - 1] == out[i]);
                assert(reference.0.take(c) == out[i].0.take(c));
            }
        }
    }
}

/// The message on a rule that is not known names the reference as it stands in
/// the marker, and the one on a stale reference names both ids.
pub proof fn law_messages_name_the_reference(
    prefix: Seq<char>,
    verb: RefVerb,
    id: (Seq<char>, u32),
    known: Seq<(Seq<char>, u32)>,
    rule: (Seq<char>, u32),
)
    ensures
        ({
            let word = match verb {
                RefVerb::Define => "define"@,
                RefVerb::Impl => "impl"@,
                RefVerb::Verify => "verify"@,
                RefVerb::Depends => "depends"@,
                RefVerb::Related => "related"@,
            };
            let start = "Unknown rule reference "@ + prefix + "["@ + word + " "@ + rule_text(id)
                + "]"@;
            let m = unknown_message(prefix, verb, id, known);
            let similar = similar_ids(id, known, 3);
            if similar.len() == 0 {
                m == start
            } else {
                m == start + " (did you mean: "@ + ids_text(similar, ", "@) + ")"@
            }
        }),
        exists|a: Seq<char>, b: Seq<char>, c: Seq<char>|
            stale_message(id, Some(rule)) == #[trigger] (a + rule_text(id) + b + rule_text(rule) + c),
{
    let word = match verb {
        RefVerb::Define => "define"@,
        RefVerb::Impl => "impl"@,
        RefVerb::Verify => "verify"@,
        RefVerb::Depends => "depends"@,
        RefVerb::Related => "related"@,
    };
    assert("Unknown rule reference "@ + reference_text(prefix, verb, id)
        =~= "Unknown rule reference "@ + prefix + "["@ + word + " "@ + rule_text(id) + "]"@);
    let a = crate::diagnostics::STALE_IMPLEMENTATION_MUST_CHANGE_PREFIX@ + ". Reference '"@;
    let b = "' is stale; current rule is '"@;
    assert(stale_message(id, Some(rule)) =~= a + rule_text(id) + b + rule_text(rule) + "'."@);
}

/// How each kind of issue is shown in an editor.
pub proof fn law_issue_is_shown(i: IssueModel)
    ensures
        ({
            let d = issue_diagnostic(i);
            &&& d.message == i.message
            &&& d.range == i.range
            &&& (i.code == IssueCode::UnknownPrefix ==> d.severity == "hint"@ && d.code
                == "unknown-prefix"@)
            &&& (i.code is Stale ==> d.severity == "warning"@ && d.code == "stale"@)
            &&& (i.code == IssueCode::UnknownRequirement ==> d.severity == "warning"@ && d.code
                == "orphaned"@)
            &&& (i.code == IssueCode::ImplInTestFile ==> d.severity == "warning"@ && d.code
                == "impl-in-test"@)
            &&& (i.code == IssueCode::ParseWarning ==> d.severity == "warning"@ && d.code
                == "parse-warning"@)
        }),
{
}

} // verus!
