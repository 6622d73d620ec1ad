//! What coverage says of rules, references and code, in terms of what they are.

use vstd::prelude::*;

use crate::api::{CodeUnit, ExtractedModel};
use crate::coverage::{
    common_from, covered_count, covered_rule, covered_rules, entry_keys, places, rule_keys,
    search_entries, shown_path, stale_places, steps_between, steps_up, sum_covered, sum_units,
    unit_entries, RefList,
};
use crate::order::{in_order, law_sorted, sorted_order, text_le};
use crate::refs::{RefModel, RefVerb};
use crate::requirement::{ReqLevel, ReqStatus};
use crate::rule_id::{law_rule_text_roundtrip, reference_match, rule_text, writable, RuleIdMatch};

verus! {

/// The places of a list are those of the references that count for it.
proof fn lemma_places_filter(
    refs: Seq<RefModel>,
    n: int,
    root: Seq<char>,
    prefix: Seq<char>,
    rule: (Seq<char>, u32),
    list: RefList,
    p: spec_fn(RefModel) -> bool,
    f: spec_fn(RefModel) -> (Seq<char>, usize),
)
    requires
        0 <= n <= refs.len(),
        forall|r: RefModel| #[trigger] p(r) == crate::coverage::counts_for(r, prefix, rule, list),
        forall|r: RefModel| #[trigger] f(r) == (shown_path(root, r.file), r.line),
    ensures
        places(refs, n, root, prefix, rule, list) == refs.take(n).filter(p).map_values(f),
    decreases n,
{
    reveal(Seq::filter);
    if n > 0 {
        lemma_places_filter(refs, n - 1, root, prefix, rule, list, p, f);
        let s = refs.take(n);
        assert(s.drop_last() =~= refs.take(n - 1));
        assert(s.last() == refs[n - 1]);
        assert(p(refs[n - 1]) == crate::coverage::counts_for(refs[n - 1], prefix, rule, list));
        assert(f(refs[n - 1]) == (shown_path(root, refs[n - 1].file), refs[n - 1].line));
        let before = refs.take(n - 1).filter(p);
        if p(refs[n - 1]) {
            assert(before.push(refs[n - 1]).map_values(f) =~= before.map_values(f).push(
                f(refs[n - 1]),
            ));
        }
        assert(places(refs, n, root, prefix, rule, list) =~= refs.take(n).filter(p).map_values(f));
    } else {
        assert(places(refs, n, root, prefix, rule, list) =~= refs.take(n).filter(p).map_values(f));
    }
}

proof fn lemma_stale_filter(
    refs: Seq<RefModel>,
    n: int,
    root: Seq<char>,
    prefix: Seq<char>,
    rule: (Seq<char>, u32),
    p: spec_fn(RefModel) -> bool,
    f: spec_fn(RefModel) -> (Seq<char>, usize, (Seq<char>, u32)),
)
    requires
        0 <= n <= refs.len(),
        forall|r: RefModel| #[trigger] p(r) == crate::coverage::is_stale_ref(r, prefix, rule),
        forall|r: RefModel| #[trigger] f(r) == (shown_path(root, r.file), r.line, r.req_id),
    ensures
        stale_places(refs, n, root, prefix, rule) == refs.take(n).filter(p).map_values(f),
    decreases n,
{
    reveal(Seq::filter);
    if n > 0 {
        lemma_stale_filter(refs, n - 1, root, prefix, rule, p, f);
        let s = refs.take(n);
        assert(s.drop_last() =~= refs.take(n - 1));
        assert(s.last() == refs[n - 1]);
        assert(p(refs[n - 1]) == crate::coverage::is_stale_ref(refs[n - 1], prefix, rule));
        assert(f(refs[n - 1]) == (
            shown_path(root, refs[n - 1].file),
            refs[n - 1].line,
            refs[n - 1].req_id,
        ));
        let before = refs.take(n - 1).filter(p);
        if p(refs[n - 1]) {
            assert(before.push(refs[n - 1]).map_values(f) =~= before.map_values(f).push(
                f(refs[n - 1]),
            ));
        }
    }
    assert(stale_places(refs, n, root, prefix, rule) =~= refs.take(n).filter(p).map_values(f));
}

/// A rule's implementations are the places of the references with its prefix and
/// base, not newer than it, that say `impl` or `define`; its verifications those
/// that say `verify`; its dependencies those that name its very version and say
/// `depends` or `related`. Its stale references are those among the first two
/// kinds that are older, and it is stale exactly where it has one.
pub proof fn law_references_by_verb(
    e: ExtractedModel,
    id: (Seq<char>, u32),
    refs: Seq<RefModel>,
    root: Seq<char>,
    prefix: Seq<char>,
)
    ensures
        covered_rule(e, id, refs, root, prefix).impl_refs == refs.filter(
            |r: RefModel|
                r.prefix == prefix && (r.verb == RefVerb::Impl || r.verb == RefVerb::Define)
                    && r.req_id.0 == id.0 && r.req_id.1 <= id.1,
        ).map_values(|r: RefModel| (shown_path(root, r.file), r.line)),
        covered_rule(e, id, refs, root, prefix).verify_refs == refs.filter(
            |r: RefModel|
                r.prefix == prefix && r.verb == RefVerb::Verify && r.req_id.0 == id.0 && r.req_id.1
                    <= id.1,
        ).map_values(|r: RefModel| (shown_path(root, r.file), r.line)),
        covered_rule(e, id, refs, root, prefix).depends_refs == refs.filter(
            |r: RefModel|
                r.prefix == prefix && (r.verb == RefVerb::Depends || r.verb == RefVerb::Related)
                    && r.req_id == id,
        ).map_values(|r: RefModel| (shown_path(root, r.file), r.line)),
        covered_rule(e, id, refs, root, prefix).stale_refs == refs.filter(
            |r: RefModel|
                r.prefix == prefix && (r.verb == RefVerb::Impl || r.verb == RefVerb::Define
                    || r.verb == RefVerb::Verify) && r.req_id.0 == id.0 && r.req_id.1 < id.1,
        ).map_values(|r: RefModel| (shown_path(root, r.file), r.line, r.req_id)),
        covered_rule(e, id, refs, root, prefix).is_stale <==> exists|i: int|
            0 <= i < refs.len() && (#[trigger] refs[i]).prefix == prefix && (refs[i].verb
                == RefVerb::Impl || refs[i].verb == RefVerb::Define || refs[i].verb
                == RefVerb::Verify) && refs[i].req_id.0 == id.0 && refs[i].req_id.1 < id.1,
{
    let n = refs.len() as int;
    assert(refs.take(n) =~= refs);
    let f = |r: RefModel| (shown_path(root, r.file), r.line);
    let g = |r: RefModel| (shown_path(root, r.file), r.line, r.req_id);
    let p = |r: RefModel|
        r.prefix == prefix && (r.verb == RefVerb::Impl || r.verb == RefVerb::Define) && r.req_id.0
            == id.0 && r.req_id.1 <= id.1;
    lemma_places_filter(refs, n, root, prefix, id, RefList::Impl, p, f);
    let p = |r: RefModel|
        r.prefix == prefix && r.verb == RefVerb::Verify && r.req_id.0 == id.0 && r.req_id.1 <= id.1;
    lemma_places_filter(refs, n, root, prefix, id, RefList::Verify, p, f);
    let p = |r: RefModel|
        r.prefix == prefix && (r.verb == RefVerb::Depends || r.verb == RefVerb::Related)
            && r.req_id == id;
    lemma_places_filter(refs, n, root, prefix, id, RefList::Depends, p, f);
    let p = |r: RefModel|
        r.prefix == prefix && (r.verb == RefVerb::Impl || r.verb == RefVerb::Define || r.verb
            == RefVerb::Verify) && r.req_id.0 == id.0 && r.req_id.1 < id.1;
    lemma_stale_filter(refs, n, root, prefix, id, p, g);
    lemma_filter_is_empty(refs, p);
    assert(refs.filter(p).map_values(g).len() == refs.filter(p).len());
}

/// Filtering leaves something exactly where something passes.
pub proof fn lemma_filter_is_empty<T>(s: Seq<T>, p: spec_fn(T) -> bool)
    ensures
        s.filter(p).len() > 0 <==> exists|i: int| 0 <= i < s.len() && p(#[trigger] s[i]),
    decreases s.len(),
{
    reveal(Seq::filter);
    if s.len() > 0 {
        lemma_filter_is_empty(s.drop_last(), p);
        let t = s.drop_last();
        if t.filter(p).len() > 0 {
            let i = choose|i: int| 0 <= i < t.len() && p(#[trigger] t[i]);
            assert(p(s[i]));
        }
        if p(s.last()) {
            assert(p(s[s.len() - 1]));
        }
        if exists|i: int| 0 <= i < s.len() && p(#[trigger] s[i]) {
            let i = choose|i: int| 0 <= i < s.len() && p(#[trigger] s[i]);
            if i < s.len() - 1 {
                assert(t[i] == s[i]);
            }
        }
    }
}

/// A rule keeps what its requirement says: text, place, section, status and
/// level.
pub proof fn law_rule_keeps_definition(
    e: ExtractedModel,
    id: (Seq<char>, u32),
    refs: Seq<RefModel>,
    root: Seq<char>,
    prefix: Seq<char>,
)
    ensures
        ({
            let rule = covered_rule(e, id, refs, root, prefix);
            let m = e.def.metadata;
            &&& rule.id == id
            &&& rule.raw == e.def.raw
            &&& rule.html == e.def.html
            &&& rule.source_file == Some(e.source_file)
            &&& rule.source_line == Some(e.def.line)
            &&& rule.source_column == e.column
            &&& rule.format == e.format
            &&& rule.section == e.section
            &&& rule.section_title == e.section_title
            &&& (rule.status is None <==> m.status is None)
            &&& (m.status == Some(ReqStatus::Draft) ==> rule.status == Some("draft"@))
            &&& (m.status == Some(ReqStatus::Stable) ==> rule.status == Some("stable"@))
            &&& (m.status == Some(ReqStatus::Deprecated) ==> rule.status == Some("deprecated"@))
            &&& (m.status == Some(ReqStatus::Removed) ==> rule.status == Some("removed"@))
            &&& (rule.level is None <==> m.level is None)
            &&& (m.level == Some(ReqLevel::Must) ==> rule.level == Some("must"@))
            &&& (m.level == Some(ReqLevel::Should) ==> rule.level == Some("should"@))
            &&& (m.level == Some(ReqLevel::May) ==> rule.level == Some("may"@))
        }),
{
}

proof fn lemma_covered_rules(
    rules: Seq<ExtractedModel>,
    refs: Seq<RefModel>,
    root: Seq<char>,
    prefix: Seq<char>,
)
    requires
        forall|i: int| 0 <= i < rules.len() ==> writable((#[trigger] rules[i]).def.id),
    ensures
        covered_rules(rules, refs, root, prefix).len() == rules.len(),
        forall|i: int|
            0 <= i < rules.len() ==> (#[trigger] covered_rules(rules, refs, root, prefix)[i])
                == covered_rule(rules[i], rules[i].def.id, refs, root, prefix),
    decreases rules.len(),
{
    if rules.len() > 0 {
        let rest = rules.drop_last();
        assert forall|i: int| 0 <= i < rest.len() implies writable((#[trigger] rest[i]).def.id) by {
            assert(rest[i] == rules[i]);
        }
        lemma_covered_rules(rest, refs, root, prefix);
        assert(writable(rules[rules.len() - 1].def.id));
        law_rule_text_roundtrip(rules.last().def.id);
    }
}

/// The rules of an implementation are those of the specification, each once, in
/// the order of base and version, with the references to it as
/// [`law_references_by_verb`] says.
pub proof fn law_every_rule_is_listed_once(
    rules: Seq<ExtractedModel>,
    refs: Seq<RefModel>,
    root: Seq<char>,
    prefix: Seq<char>,
)
    requires
        forall|i: int| 0 <= i < rules.len() ==> writable((#[trigger] rules[i]).def.id),
    ensures
        ({
            let unordered = covered_rules(rules, refs, root, prefix);
            let out = in_order(unordered, rule_keys(unordered));
            &&& out.len() == rules.len()
            &&& exists|order: Seq<int>| #![auto]
                order.len() == rules.len() && order.no_duplicates() && forall|k: int|
                    0 <= k < order.len() ==> 0 <= order[k] < rules.len() && out[k] == covered_rule(
                        rules[order[k]],
                        rules[order[k]].def.id,
                        refs,
                        root,
                        prefix,
                    )
            &&& forall|i: int, j: int|
                0 <= i < j < out.len() ==> ((#[trigger] out[i]).id.0 == (#[trigger] out[j]).id.0
                    && out[i].id.1 <= out[j].id.1) || (out[i].id.0 != out[j].id.0 && text_le(
                    out[i].id.0,
                    out[j].id.0,
                    0,
                ))
        }),
{
    lemma_covered_rules(rules, refs, root, prefix);
    let unordered = covered_rules(rules, refs, root, prefix);
    let keys = rule_keys(unordered);
    law_sorted(keys, keys.len() as int);
    let order = sorted_order(keys, keys.len() as int);
    let out = in_order(unordered, keys);
    assert forall|i: int, j: int| 0 <= i < j < out.len() implies ((#[trigger] out[i]).id.0 == (
    #[trigger] out[j]).id.0 && out[i].id.1 <= out[j].id.1) || (out[i].id.0 != out[j].id.0
        && text_le(out[i].id.0, out[j].id.0, 0)) by {
        assert(crate::order::key_le(keys[order[i]], keys[order[j]]));
    }
    assert(order.len() == rules.len());
    assert(order.no_duplicates());
    assert forall|k: int| 0 <= k < order.len() implies 0 <= order[k] < rules.len() && out[k]
        == covered_rule(rules[order[k]], rules[order[k]].def.id, refs, root, prefix) by {
        assert(0 <= order[k] < rules.len());
    }
}

/// A reference matches a rule exactly where both name the same base and version,
/// and is stale exactly where it names an older version of the same base.
pub proof fn law_reference_match(rule: (Seq<char>, u32), reference: (Seq<char>, u32))
    ensures
        reference_match(rule, reference) == RuleIdMatch::Exact <==> rule == reference,
        reference_match(rule, reference) == RuleIdMatch::Stale <==> rule.0 == reference.0
            && reference.1 < rule.1,
        reference_match(rule, reference) == RuleIdMatch::NoMatch <==> rule.0 != reference.0
            || reference.1 > rule.1,
{
}

proof fn lemma_covered_filter(units: Seq<CodeUnit>, n: int, p: spec_fn(CodeUnit) -> bool)
    requires
        0 <= n <= units.len(),
        forall|u: CodeUnit| #[trigger] p(u) == (u.req_refs@.len() > 0),
    ensures
        covered_count(units, n) == units.take(n).filter(p).len(),
    decreases n,
{
    reveal(Seq::filter);
    if n > 0 {
        lemma_covered_filter(units, n - 1, p);
        assert(units.take(n).drop_last() =~= units.take(n - 1));
        assert(p(units[n - 1]) == (units[n - 1].req_refs@.len() > 0));
    }
}

/// Each file is listed with its path, with how many units it has, and with how
/// many of these refer to a requirement.
pub proof fn law_file_entries(root: Seq<char>, files: Seq<(Seq<char>, Seq<CodeUnit>)>)
    requires
        forall|i: int| 0 <= i < files.len() ==> (#[trigger] files[i]).1.len() <= usize::MAX,
    ensures
        unit_entries(root, files).len() == files.len(),
        forall|i: int|
            0 <= i < files.len() ==> {
                let e = #[trigger] unit_entries(root, files)[i];
                &&& e.0 == shown_path(root, files[i].0)
                &&& e.1 == files[i].1.len()
                &&& e.2 == files[i].1.filter(|u: CodeUnit| u.req_refs@.len() > 0).len()
            },
{
    assert forall|i: int| 0 <= i < files.len() implies {
        let e = #[trigger] unit_entries(root, files)[i];
        &&& e.0 == shown_path(root, files[i].0)
        &&& e.1 == files[i].1.len()
        &&& e.2 == files[i].1.filter(|u: CodeUnit| u.req_refs@.len() > 0).len()
    } by {
        let u = files[i].1;
        assert(u.len() <= usize::MAX);
        let p = |u: CodeUnit| u.req_refs@.len() > 0;
        lemma_covered_filter(u, u.len() as int, p);
        assert(u.take(u.len() as int) =~= u);
        lemma_filter_len(u, p);
    }
}

/// Filtering leaves no more than there was.
pub proof fn lemma_filter_len<T>(s: Seq<T>, p: spec_fn(T) -> bool)
    ensures
        s.filter(p).len() <= s.len(),
    decreases s.len(),
{
    reveal(Seq::filter);
    if s.len() > 0 {
        lemma_filter_len(s.drop_last(), p);
    }
}

/// The totals of no files are zero, and one more file adds its units and its
/// covered units.
pub proof fn law_totals_add_up(v: Seq<(Seq<char>, usize, usize)>, e: (Seq<char>, usize, usize))
    ensures
        sum_units(Seq::<(Seq<char>, usize, usize)>::empty()) == 0,
        sum_covered(Seq::<(Seq<char>, usize, usize)>::empty()) == 0,
        sum_units(v.push(e)) == sum_units(v) + e.1,
        sum_covered(v.push(e)) == sum_covered(v) + e.2,
{
    assert(v.push(e).drop_last() =~= v);
}

/// The files of an implementation are listed in the order of their paths, each
/// once.
pub proof fn law_files_listed_in_order(entries: Seq<(Seq<char>, usize, usize)>)
    ensures
        ({
            let out = in_order(entries, entry_keys(entries));
            &&& out.len() == entries.len()
            &&& exists|order: Seq<int>| #![auto]
                order.len() == entries.len() && order.no_duplicates() && forall|k: int|
                    0 <= k < order.len() ==> 0 <= order[k] < entries.len() && out[k]
                        == entries[order[k]]
            &&& forall|i: int, j: int|
                0 <= i < j < out.len() ==> (#[trigger] out[i]).0 == (#[trigger] out[j]).0 || text_le(
                    out[i].0,
                    out[j].0,
                    0,
                )
        }),
{
    let keys = entry_keys(entries);
    law_sorted(keys, keys.len() as int);
    let order = sorted_order(keys, keys.len() as int);
    let out = in_order(entries, keys);
    assert forall|i: int, j: int| 0 <= i < j < out.len() implies (#[trigger] out[i]).0 == (
    #[trigger] out[j]).0 || text_le(out[i].0, out[j].0, 0) by {
        assert(crate::order::key_le(keys[order[i]], keys[order[j]]));
    }
    assert(order.len() == entries.len());
    assert(order.no_duplicates());
    assert forall|k: int| 0 <= k < order.len() implies 0 <= order[k] < entries.len() && out[k]
        == entries[order[k]] by {
        assert(0 <= order[k] < entries.len());
    }
}

/// Every requirement is searched for by its id and found with its text and
/// format.
pub proof fn law_search_entries(v: Seq<ExtractedModel>)
    ensures
        search_entries(v).len() == v.len(),
        forall|i: int|
            0 <= i < v.len() ==> (#[trigger] search_entries(v)[i]).0 == rule_text(v[i].def.id)
                && search_entries(v)[i].1 == v[i].def.raw && search_entries(v)[i].2 == v[i].format,
{
}

proof fn lemma_common_from(a: Seq<Seq<char>>, b: Seq<Seq<char>>, i: int)
    requires
        0 <= i <= a.len(),
        i <= b.len(),
        a.take(i) == b.take(i),
    ensures
        ({
            let c = common_from(a, b, i);
            &&& i <= c <= a.len() && c <= b.len()
            &&& a.take(c) == b.take(c)
            &&& (c < a.len() && c < b.len() ==> a[c] != b[c])
        }),
    decreases a.len() - i,
{
    if i < a.len() && i < b.len() && a[i] == b[i] {
        assert(a.take(i + 1) =~= a.take(i).push(a[i]));
        assert(b.take(i + 1) =~= b.take(i).push(b[i]));
        lemma_common_from(a, b, i + 1);
    }
}

/// The way from one path to another leads there: as many steps up as leave what
/// both begin with, then down what is left of the other. Only an absolute path
/// that shares nothing with the first is kept whole.
pub proof fn law_way_leads_there(from: Seq<Seq<char>>, to: Seq<Seq<char>>)
    ensures
        steps_between(from, to) == to && from.len() > 0 && to.len() > 0 && from[0] != to[0] || (
        from.len() == 0 && steps_between(from, to) == to) || exists|c: int|
            0 <= c <= from.len() && c <= to.len() && from.take(c) == to.take(c) && (c < from.len()
                && c < to.len() ==> from[c] != to[c]) && #[trigger] steps_up(from.len() - c)
                + to.skip(c) == steps_between(from, to),
        forall|n: int| 0 <= n ==> (#[trigger] steps_up(n)).len() == n,
        forall|n: int, i: int| 0 <= i < n ==> #[trigger] steps_up(n)[i] == ".."@,
{
    assert(from.take(0) =~= to.take(0));
    lemma_common_from(from, to, 0);
    let c = common_from(from, to, 0);
    if c == 0 && to.len() > 0 && to[0] == "/"@ {
    } else {
        assert(steps_up(from.len() - c) + to.skip(c) == steps_between(from, to));
    }
}

} // verus!
