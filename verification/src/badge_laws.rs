//! What the coverage badges of a rule show, in terms of the references to it.

use vstd::prelude::*;

use crate::api::RuleModel;
use crate::badge::{
    container_open, coverage_of, coverage_word, id_badge, linked_rule, ref_badge, ref_json, refs_json,
    rule_coverage, rule_link, CoverageModel, CoverageStatus,
};
use crate::html::escaped;
use crate::numbers::decimal;
use crate::requirement::ReqModel;
use crate::rule_id::rule_text;
use crate::slugs::anchor_id;
use crate::split::replaced_from;
use crate::text::trim;

verus! {

/// A rule is stale where it has a stale reference. Of the others, one that is
/// implemented and verified is covered, one that is only implemented or only
/// verified is partly covered, and one that is neither is not covered.
pub proof fn law_status_by_references(r: RuleModel)
    ensures
        rule_coverage(r).status == CoverageStatus::Stale <==> r.is_stale,
        rule_coverage(r).status == CoverageStatus::Covered <==> !r.is_stale && r.impl_refs.len() > 0
            && r.verify_refs.len() > 0,
        rule_coverage(r).status == CoverageStatus::Partial <==> !r.is_stale && ((r.impl_refs.len()
            > 0 && r.verify_refs.len() == 0) || (r.impl_refs.len() == 0 && r.verify_refs.len()
            > 0)),
        rule_coverage(r).status == CoverageStatus::Uncovered <==> !r.is_stale && r.impl_refs.len()
            == 0 && r.verify_refs.len() == 0,
        rule_coverage(r).impl_refs == r.impl_refs,
        rule_coverage(r).verify_refs == r.verify_refs,
{
}

/// The coverage that is looked up is that of a rule with the id, and there is
/// none only where no rule has the id.
pub proof fn law_coverage_is_of_the_rule(rules: Seq<RuleModel>, text: Seq<char>)
    ensures
        match coverage_of(rules, text) {
            Some(c) => exists|i: int|
                0 <= i < rules.len() && rule_text((#[trigger] rules[i]).id) == text && c.impl_refs
                    == rules[i].impl_refs && c.verify_refs == rules[i].verify_refs && c
                    == rule_coverage(rules[i]) && forall|j: int|
                    i < j < rules.len() ==> rule_text((#[trigger] rules[j]).id) != text,
            None => forall|i: int|
                0 <= i < rules.len() ==> rule_text((#[trigger] rules[i]).id) != text,
        },
    decreases rules.len(),
{
    if rules.len() > 0 {
        let rest = rules.drop_last();
        let n = rules.len() - 1;
        if rule_text(rules.last().id) == text {
            assert(rules[n] == rules.last());
        } else {
            law_coverage_is_of_the_rule(rest, text);
            if let Some(c) = coverage_of(rest, text) {
                let i = choose|i: int|
                    0 <= i < rest.len() && rule_text((#[trigger] rest[i]).id) == text
                        && c.impl_refs == rest[i].impl_refs && c.verify_refs == rest[i].verify_refs
                        && c == rule_coverage(rest[i]) && forall|j: int|
                        i < j < rest.len() ==> rule_text((#[trigger] rest[j]).id) != text;
                assert(rules[i] == rest[i]);
                assert forall|j: int| i < j < rules.len() implies rule_text(
                    (#[trigger] rules[j]).id,
                ) != text by {
                    if j < n {
                        assert(rest[j] == rules[j]);
                    }
                }
            } else {
                assert forall|i: int| 0 <= i < rules.len() implies rule_text(
                    (#[trigger] rules[i]).id,
                ) != text by {
                    if i < n {
                        assert(rest[i] == rules[i]);
                    }
                }
            }
        }
    }
}

/// The container of a requirement says how well it is covered and has its
/// anchor. One without known coverage counts as not covered.
pub proof fn law_container_says_status(
    rule: ReqModel,
    coverage: Option<CoverageModel>,
    source_file: Seq<char>,
    spec_name: Seq<char>,
    impl_name: Seq<char>,
)
    ensures
        ({
            let html = container_open(rule, coverage, source_file, spec_name, impl_name);
            let word = match coverage {
                Some(c) => match c.status {
                    CoverageStatus::Covered => "covered"@,
                    CoverageStatus::Partial => "partial"@,
                    CoverageStatus::Stale => "stale"@,
                    CoverageStatus::Uncovered => "uncovered"@,
                },
                None => "uncovered"@,
            };
            exists|badges: Seq<char>|
                html == "<div class=\"req-container req-"@ + word + "\" id=\""@ + rule.anchor_id
                    + "\">\n<div class=\"req-badges-left\">"@ + #[trigger] (id_badge(
                    rule,
                    source_file,
                    spec_name,
                    impl_name,
                ) + badges) + "</div>\n<div class=\"req-content\">"@ && (coverage is None ==> badges.len()
                    == 0)
        }),
{
    let base = id_badge(rule, source_file, spec_name, impl_name);
    match coverage {
        Some(c) => {
            let badges = ref_badge(
                c.impl_refs,
                "req-impl"@,
                "Implementation"@,
                spec_name,
                impl_name,
            ) + ref_badge(c.verify_refs, "req-test"@, "Test"@, spec_name, impl_name);
            assert(base + badges =~= base + ref_badge(
                c.impl_refs,
                "req-impl"@,
                "Implementation"@,
                spec_name,
                impl_name,
            ) + ref_badge(c.verify_refs, "req-test"@, "Test"@, spec_name, impl_name));
        },
        None => {
            assert(base + Seq::<char>::empty() =~= base);
        },
    }
}

/// How a link to a place in the code begins.
pub open spec fn link_to(
    class: Seq<char>,
    r: (Seq<char>, usize),
    spec_name: Seq<char>,
    impl_name: Seq<char>,
) -> Seq<char> {
    "<a class=\"req-badge "@ + class + "\" href=\"/"@ + spec_name + "/"@ + impl_name + "/sources/"@
        + r.0 + ":"@ + decimal(r.1 as nat) + "\""@
}

/// A requirement's container links to the first place that implements it and to
/// the first that verifies it, and to none where there is none.
pub proof fn law_container_links_references(
    rule: ReqModel,
    c: CoverageModel,
    source_file: Seq<char>,
    spec_name: Seq<char>,
    impl_name: Seq<char>,
)
    ensures
        ({
            let html = container_open(rule, Some(c), source_file, spec_name, impl_name);
            &&& (c.impl_refs.len() > 0 ==> exists|a: Seq<char>, b: Seq<char>|
                html == #[trigger] (a + link_to("req-impl"@, c.impl_refs[0], spec_name, impl_name) + b))
            &&& (c.verify_refs.len() > 0 ==> exists|a: Seq<char>, b: Seq<char>|
                html == #[trigger] (a + link_to(
                    "req-test"@,
                    c.verify_refs[0],
                    spec_name,
                    impl_name,
                ) + b))
            &&& (c.impl_refs.len() == 0 && c.verify_refs.len() == 0 ==> exists|head: Seq<char>|
                html == #[trigger] (head + id_badge(rule, source_file, spec_name, impl_name))
                    + "</div>\n<div class=\"req-content\">"@)
        }),
{
    let html = container_open(rule, Some(c), source_file, spec_name, impl_name);
    let base = id_badge(rule, source_file, spec_name, impl_name);
    let x = ref_badge(c.impl_refs, "req-impl"@, "Implementation"@, spec_name, impl_name);
    let y = ref_badge(c.verify_refs, "req-test"@, "Test"@, spec_name, impl_name);
    let tail = "</div>\n<div class=\"req-content\">"@;
    let head = lemma_container_parts(rule, c, source_file, spec_name, impl_name);
    if c.impl_refs.len() > 0 {
        let l = link_to("req-impl"@, c.impl_refs[0], spec_name, impl_name);
        lemma_badge_begins(c.impl_refs, "req-impl"@, "Implementation"@, spec_name, impl_name, l);
        let rest = x.skip(l.len() as int);
        lemma_regroup(head, base, l, rest, y, tail);
        assert(html == (head + base) + l + (rest + y + tail));
    }
    if c.verify_refs.len() > 0 {
        let l = link_to("req-test"@, c.verify_refs[0], spec_name, impl_name);
        lemma_badge_begins(c.verify_refs, "req-test"@, "Test"@, spec_name, impl_name, l);
        let rest = y.skip(l.len() as int);
        lemma_regroup_last(head, base, x, l, rest, tail);
        assert(html == (head + base + x) + l + (rest + tail));
    }
    if c.impl_refs.len() == 0 && c.verify_refs.len() == 0 {
        assert(head + base + x + y =~= head + base);
        assert(html == (head + base) + tail);
    }
}

proof fn lemma_regroup(
    a: Seq<char>,
    b: Seq<char>,
    l: Seq<char>,
    r: Seq<char>,
    y: Seq<char>,
    t: Seq<char>,
)
    ensures
        a + b + (l + r) + y + t == (a + b) + l + (r + y + t),
{
    assert(a + b + (l + r) + y + t =~= (a + b) + l + (r + y + t));
}

proof fn lemma_regroup_last(
    a: Seq<char>,
    b: Seq<char>,
    x: Seq<char>,
    l: Seq<char>,
    r: Seq<char>,
    t: Seq<char>,
)
    ensures
        a + b + x + (l + r) + t == (a + b + x) + l + (r + t),
{
    assert(a + b + x + (l + r) + t =~= (a + b + x) + l + (r + t));
}

/// What a container is made of.
proof fn lemma_container_parts(
    rule: ReqModel,
    c: CoverageModel,
    source_file: Seq<char>,
    spec_name: Seq<char>,
    impl_name: Seq<char>,
) -> (head: Seq<char>)
    ensures
        container_open(rule, Some(c), source_file, spec_name, impl_name) == head + id_badge(
            rule,
            source_file,
            spec_name,
            impl_name,
        ) + ref_badge(c.impl_refs, "req-impl"@, "Implementation"@, spec_name, impl_name)
            + ref_badge(c.verify_refs, "req-test"@, "Test"@, spec_name, impl_name)
            + "</div>\n<div class=\"req-content\">"@,
{
    let head = "<div class=\"req-container req-"@ + coverage_word(c.status) + "\" id=\""@
        + rule.anchor_id + "\">\n<div class=\"req-badges-left\">"@;
    let base = id_badge(rule, source_file, spec_name, impl_name);
    let x = ref_badge(c.impl_refs, "req-impl"@, "Implementation"@, spec_name, impl_name);
    let y = ref_badge(c.verify_refs, "req-test"@, "Test"@, spec_name, impl_name);
    lemma_regroup_badges(head, base, x, y, "</div>\n<div class=\"req-content\">"@);
    head
}

proof fn lemma_regroup_badges(h: Seq<char>, b: Seq<char>, x: Seq<char>, y: Seq<char>, t: Seq<char>)
    ensures
        h + (b + x + y) + t == h + b + x + y + t,
{
    assert(h + (b + x + y) + t =~= h + b + x + y + t);
}

proof fn lemma_badge_begins(
    refs: Seq<(Seq<char>, usize)>,
    class: Seq<char>,
    title: Seq<char>,
    spec_name: Seq<char>,
    impl_name: Seq<char>,
    l: Seq<char>,
)
    requires
        refs.len() > 0,
        l == link_to(class, refs[0], spec_name, impl_name),
    ensures
        ref_badge(refs, class, title, spec_name, impl_name) == l + ref_badge(
            refs,
            class,
            title,
            spec_name,
            impl_name,
        ).skip(l.len() as int),
{
    reveal_strlit("\" data-file=\"");
    reveal_strlit("\"");
    let all = ref_badge(refs, class, title, spec_name, impl_name);
    let front = "<a class=\"req-badge "@ + class + "\" href=\"/"@ + spec_name + "/"@ + impl_name
        + "/sources/"@ + refs[0].0 + ":"@ + decimal(refs[0].1 as nat);
    assert(l =~= front + "\""@);
    assert(all.take(front.len() as int) =~= front);
    assert(all[front.len() as int] == '"');
    assert(all.take(l.len() as int) =~= l);
    assert(all =~= all.take(l.len() as int) + all.skip(l.len() as int));
}

/// A badge lists all places, each with its file and line, in order.
pub proof fn law_badge_lists_all_places(refs: Seq<(Seq<char>, usize)>, r: (Seq<char>, usize))
    ensures
        refs_json(seq![r], 1) == ref_json(r),
        refs.len() > 0 ==> refs_json(refs.push(r), refs.len() as int + 1) == refs_json(
            refs,
            refs.len() as int,
        ) + ","@ + ref_json(r),
        exists|file: Seq<char>|
            ref_json(r) == #[trigger] ("{\"file\":\""@ + file + "\",\"line\":"@ + decimal(r.1 as nat)
                + "}"@),
{
    lemma_refs_json(refs, refs.push(r), refs.len() as int);
    let file = replaced_from(replaced_from(r.0, "\\"@, "\\\\"@, 0), "\""@, "\\\""@, 0);
    assert(ref_json(r) == "{\"file\":\""@ + file + "\",\"line\":"@ + decimal(r.1 as nat) + "}"@);
}

proof fn lemma_refs_json(a: Seq<(Seq<char>, usize)>, b: Seq<(Seq<char>, usize)>, n: int)
    requires
        n <= a.len(),
        n <= b.len(),
        forall|i: int| 0 <= i < n ==> a[i] == b[i],
    ensures
        refs_json(a, n) == refs_json(b, n),
    decreases n,
{
    if n > 1 {
        lemma_refs_json(a, b, n - 1);
    }
}

/// Inline code is a link exactly where it is `r[...]` around letters, digits,
/// dots, hyphens, underscores and plus signs; the link leads to the anchor of that
/// id and shows the code.
pub proof fn law_inline_code_links(code: Seq<char>, id: Seq<char>, spec_name: Seq<char>, impl_name: Seq<char>)
    requires
        trim(code) == "r["@ + id + "]"@,
        id.len() > 0,
    ensures
        rule_link(code, spec_name, impl_name) is Some <==> forall|i: int|
            0 <= i < id.len() ==> {
                let c = #[trigger] id[i];
                crate::bindings::unicode_alphanumeric(c) || c == '.' || c == '-' || c == '_' || c
                    == '+'
            },
        rule_link(code, spec_name, impl_name) matches Some(html) ==> html == "<code><a href=\"/"@
            + spec_name + "/"@ + impl_name + "/spec#"@ + anchor_id(id) + "\" class=\"rule-ref\">"@
            + escaped("r["@ + id + "]"@) + "</a></code>"@,
{
    reveal_strlit("r[");
    reveal_strlit("]");
    let t = trim(code);
    assert(t.subrange(2, t.len() - 1) =~= id);
    assert(t.subrange(0, 2) =~= "r["@);
    assert(t.subrange(t.len() - 1, t.len() as int) =~= "]"@);
    assert(crate::text::has_prefix(t, "r["@));
    assert(crate::text::has_suffix(t, "]"@));
    if linked_rule(code) is None {
        assert(!(forall|i: int|
            0 <= i < id.len() ==> crate::badge::is_link_char(#[trigger] id[i])));
        let i = choose|i: int| 0 <= i < id.len() && !crate::badge::is_link_char(#[trigger] id[i]);
        assert(id[i] == id[i]);
    }
}

} // verus!
