//! What the answers to queries say of what the build found.

use vstd::prelude::*;

use crate::api::{ImplKey, SpecInfoModel};
use crate::queries::{
    all_covered, all_uncovered, entry_with_path, first_impl, flat_node, flat_nodes, node_entry,
    resolved_pair, stale_previous, uncovered_units, unmapped_entries, CoverageChange, FileTreeNode, ImplDelta,
    UnitDetail, UnmappedModel, UnmappedQuery, answer_sections,
    found_sections, rule_ref_ids, status_says, CoverageStats, ImplStatus, SectionRules,
};
use crate::rule_id::RuleId;
use crate::text::opt_text;

verus! {

/// A question is about the spec and the implementation that it names; without a
/// name it is about the first spec, and about the first implementation of the
/// first spec that has the name.
pub proof fn law_question_is_about(
    spec_name: Option<Seq<char>>,
    impl_name: Option<Seq<char>>,
    specs: Seq<SpecInfoModel>,
)
    ensures
        ({
            let (s, i) = resolved_pair(spec_name, impl_name, specs);
            &&& spec_name is Some ==> s == spec_name->0
            &&& impl_name is Some ==> i == impl_name->0
            &&& spec_name is None && specs.len() > 0 ==> s == specs[0].name
            &&& spec_name is None && specs.len() == 0 ==> s == Seq::<char>::empty()
            &&& forall|k: int|
                impl_name is None && 0 <= k < specs.len() && (#[trigger] specs[k]).name == s && (
                forall|j: int| 0 <= j < k ==> (#[trigger] specs[j]).name != s)
                    && specs[k].implementations.len() > 0 ==> i == specs[k].implementations[0]
            &&& impl_name is None && (forall|k: int|
                0 <= k < specs.len() ==> (#[trigger] specs[k]).name != s) ==> i == Seq::<
                char,
            >::empty()
        }),
{
    let (s, _) = resolved_pair(spec_name, impl_name, specs);
    lemma_first_impl(specs, s, 0);
}

proof fn lemma_first_impl(specs: Seq<SpecInfoModel>, s: Seq<char>, from: int)
    requires
        0 <= from <= specs.len(),
        forall|j: int| 0 <= j < from ==> (#[trigger] specs[j]).name != s,
    ensures
        forall|k: int|
            0 <= k < specs.len() && (#[trigger] specs[k]).name == s && (forall|j: int|
                0 <= j < k ==> (#[trigger] specs[j]).name != s) && specs[k].implementations.len() > 0
                ==> first_impl(specs, s, from) == specs[k].implementations[0],
        (forall|k: int| 0 <= k < specs.len() ==> (#[trigger] specs[k]).name != s) ==> first_impl(
            specs,
            s,
            from,
        ) == Seq::<char>::empty(),
    decreases specs.len() - from,
{
    if from < specs.len() {
        if specs[from].name != s {
            lemma_first_impl(specs, s, from + 1);
        }
    }
}

/// The first node of a flattened tree is its root, and nothing of any child is
/// lost: the nodes of each child stand together behind it.
pub proof fn law_flat_tree_holds_children(n: FileTreeNode, k: int)
    requires
        0 <= k < n.children@.len(),
    ensures
        flat_node(n)[0].path == n.path@,
        flat_node(n)[0].is_dir == n.is_dir,
        flat_node(n)[0].total_units == n.total_units,
        n.covered_units <= n.total_units ==> flat_node(n)[0].unmapped_units + n.covered_units
            == n.total_units,
        exists|before: Seq<UnmappedModel>, after: Seq<UnmappedModel>|
            flat_node(n) == #[trigger] (seq![node_entry(n)] + before + flat_node(n.children@[k])
                + after),
{
    let rest = flat_nodes(n.children@, n.children@.len() as int);
    assert(flat_node(n) == seq![node_entry(n)] + rest);
    lemma_flat_holds(n.children@, n.children@.len() as int, k);
    let (before, after) = choose|before: Seq<UnmappedModel>, after: Seq<UnmappedModel>|
        rest == #[trigger] (before + flat_node(n.children@[k]) + after);
    assert(flat_node(n) =~= seq![node_entry(n)] + before + flat_node(n.children@[k]) + after);
}

proof fn lemma_flat_holds(v: Seq<FileTreeNode>, n: int, k: int)
    requires
        0 <= k < n <= v.len(),
    ensures
        exists|before: Seq<UnmappedModel>, after: Seq<UnmappedModel>|
            flat_nodes(v, n) == #[trigger] (before + flat_node(v[k]) + after),
    decreases n,
{
    assert(flat_nodes(v, n) == flat_nodes(v, n - 1) + flat_node(v[n - 1]));
    if k == n - 1 {
        let after = Seq::<UnmappedModel>::empty();
        assert(flat_nodes(v, n) =~= flat_nodes(v, n - 1) + flat_node(v[k]) + after);
    } else {
        lemma_flat_holds(v, n - 1, k);
        let (before, after) = choose|before: Seq<UnmappedModel>, after: Seq<UnmappedModel>|
            flat_nodes(v, n - 1) == #[trigger] (before + flat_node(v[k]) + after);
        let behind = after + flat_node(v[n - 1]);
        assert(flat_nodes(v, n) =~= before + flat_node(v[k]) + behind);
    }
}

/// The units told of a file are those that refer to no requirement, in order.
pub proof fn law_only_uncovered_units(v: Seq<UnitDetail>)
    ensures
        uncovered_units(v) == v.filter(|u: UnitDetail| !u.is_covered).map_values(
            |u: UnitDetail| (u.kind@, opt_text(u.name), u.start_line, u.end_line),
        ),
    decreases v.len(),
{
    reveal(Seq::filter);
    let keep = |u: UnitDetail| !u.is_covered;
    let says = |u: UnitDetail| (u.kind@, opt_text(u.name), u.start_line, u.end_line);
    if v.len() > 0 {
        law_only_uncovered_units(v.drop_last());
        assert(uncovered_units(v) =~= v.filter(keep).map_values(says));
    } else {
        assert(uncovered_units(v) =~= v.filter(keep).map_values(says));
    }
}

/// An answer about unmapped code lists every node of the tree. Only the first
/// node with the path of the file asked for says its units: all those that refer
/// to no requirement.
pub proof fn law_unmapped_answer(q: UnmappedQuery, i: int)
    requires
        0 <= i < flat_nodes(q.tree@, q.tree@.len() as int).len(),
    ensures
        ({
            let flat = flat_nodes(q.tree@, q.tree@.len() as int);
            let e = unmapped_entries(q)[i];
            let asked = q.file_details is Some && flat[i].path == q.file_details->0.path@ && (
            forall|j: int| 0 <= j < i ==> (#[trigger] flat[j]).path != flat[i].path);
            &&& unmapped_entries(q).len() == flat.len()
            &&& e.path == flat[i].path && e.is_dir == flat[i].is_dir
            &&& e.total_units == flat[i].total_units
            &&& e.unmapped_units == flat[i].unmapped_units
            &&& !asked ==> e.units == flat[i].units
            &&& asked ==> e.units == q.file_details->0.units@.filter(
                |u: UnitDetail| !u.is_covered,
            ).map_values(
                |u: UnitDetail| (u.kind@, opt_text(u.name), u.start_line, u.end_line),
            )
        }),
{
    let flat = flat_nodes(q.tree@, q.tree@.len() as int);
    if q.file_details is Some {
        law_only_uncovered_units(q.file_details->0.units@);
        lemma_entry_first(flat, q.file_details->0.path@, 0);
    }
}

proof fn lemma_entry_first(v: Seq<UnmappedModel>, path: Seq<char>, from: int)
    requires
        0 <= from <= v.len(),
    ensures
        match entry_with_path(v, path, from) {
            Some(i) => from <= i < v.len() && v[i].path == path && forall|j: int|
                from <= j < i ==> (#[trigger] v[j]).path != path,
            None => forall|j: int| from <= j < v.len() ==> (#[trigger] v[j]).path != path,
        },
    decreases v.len() - from,
{
    if from < v.len() && v[from].path != path {
        lemma_entry_first(v, path, from + 1);
    }
}

/// The nodes of a tree themselves say no units.
pub proof fn law_nodes_say_no_units(v: Seq<FileTreeNode>, n: int)
    ensures
        forall|i: int|
            0 <= i < flat_nodes(v, n).len() ==> (#[trigger] flat_nodes(v, n)[i]).units.len() == 0,
    decreases v, n,
{
    if 0 < n <= v.len() {
        law_nodes_say_no_units(v, n - 1);
        let last = v[n - 1];
        law_nodes_say_no_units(last.children@, last.children@.len() as int);
        let below = flat_nodes(last.children@, last.children@.len() as int);
        let before = flat_nodes(v, n - 1);
        assert forall|i: int| 0 <= i < flat_nodes(v, n).len() implies (#[trigger] flat_nodes(
            v,
            n,
        )[i]).units.len() == 0 by {
            assert(flat_nodes(v, n) == before + flat_node(last));
            assert(flat_node(last) == seq![node_entry(last)] + below);
            if i < before.len() {
                assert(flat_nodes(v, n)[i] == before[i]);
            } else if i > before.len() {
                assert(flat_nodes(v, n)[i] == below[i - before.len() - 1]);
            }
        }
    }
}

/// A rule on its own is compared with an earlier version exactly where references
/// to it are stale, it is known where it stands, and there is an earlier one; and
/// then with the version just before it.
pub proof fn law_stale_rule_is_compared(
    is_stale: bool,
    id: (Seq<char>, u32),
    source_file: Option<Seq<char>>,
)
    ensures
        (stale_previous(is_stale, id, source_file) is Some) == (is_stale && source_file is Some
            && id.1 >= 2),
        stale_previous(is_stale, id, source_file) is Some ==> {
            let (file, previous) = stale_previous(is_stale, id, source_file)->0;
            Some(file) == source_file && previous.0 == id.0 && previous.1 + 1 == id.1
        },
{
}

/// What changed for any implementation is told, and nothing else.
pub proof fn law_changes_are_told(v: Seq<ImplDelta>)
    ensures
        forall|c: CoverageChange| #[trigger]
            all_covered(v).contains(c) <==> exists|i: int|
                0 <= i < v.len() && (#[trigger] v[i]).newly_covered@.contains(c),
        forall|r: RuleId| #[trigger]
            all_uncovered(v).contains(r) <==> exists|i: int|
                0 <= i < v.len() && (#[trigger] v[i]).newly_uncovered@.contains(r),
    decreases v.len(),
{
    if v.len() > 0 {
        let d = v.drop_last();
        law_changes_are_told(d);
        assert forall|c: CoverageChange| #[trigger] all_covered(v).contains(c) <==> exists|i: int|
            0 <= i < v.len() && (#[trigger] v[i]).newly_covered@.contains(c) by {
            lemma_in_concat(all_covered(d), v.last().newly_covered@, c);
            if all_covered(d).contains(c) {
                let i = choose|i: int|
                    0 <= i < d.len() && (#[trigger] d[i]).newly_covered@.contains(c);
                assert(v[i].newly_covered@.contains(c));
            }
            if exists|i: int| 0 <= i < v.len() && (#[trigger] v[i]).newly_covered@.contains(c) {
                let i = choose|i: int|
                    0 <= i < v.len() && (#[trigger] v[i]).newly_covered@.contains(c);
                if i < d.len() {
                    assert(d[i].newly_covered@.contains(c));
                }
            }
        }
        assert forall|r: RuleId| #[trigger] all_uncovered(v).contains(r) <==> exists|i: int|
            0 <= i < v.len() && (#[trigger] v[i]).newly_uncovered@.contains(r) by {
            lemma_in_concat(all_uncovered(d), v.last().newly_uncovered@, r);
            if all_uncovered(d).contains(r) {
                let i = choose|i: int|
                    0 <= i < d.len() && (#[trigger] d[i]).newly_uncovered@.contains(r);
                assert(v[i].newly_uncovered@.contains(r));
            }
            if exists|i: int| 0 <= i < v.len() && (#[trigger] v[i]).newly_uncovered@.contains(r) {
                let i = choose|i: int|
                    0 <= i < v.len() && (#[trigger] v[i]).newly_uncovered@.contains(r);
                if i < d.len() {
                    assert(d[i].newly_uncovered@.contains(r));
                }
            }
        }
    }
}

/// A concatenation holds what its parts hold.
pub proof fn lemma_in_concat<T>(a: Seq<T>, b: Seq<T>, x: T)
    ensures
        (a + b).contains(x) <==> a.contains(x) || b.contains(x),
{
    if a.contains(x) {
        let i = a.index_of(x);
        assert((a + b)[i] == x);
    }
    if b.contains(x) {
        let i = b.index_of(x);
        assert((a + b)[a.len() + i] == x);
    }
}

/// As many changes are told as the implementations have together.
pub proof fn law_no_change_is_dropped(v: Seq<ImplDelta>, d: ImplDelta)
    ensures
        all_covered(v.push(d)) == all_covered(v) + d.newly_covered@,
        all_uncovered(v.push(d)) == all_uncovered(v) + d.newly_uncovered@,
{
    assert(v.push(d).drop_last() =~= v);
}

/// The status of an implementation tells what was counted for it, each count under
/// its own name.
pub proof fn law_status_tells_counts(s: ImplStatus, found: (ImplKey, CoverageStats))
    requires
        status_says(s, found),
    ensures
        s.spec@ == found.0@.0,
        s.impl_name@ == found.0@.1,
        s.total_rules == found.1.total_rules,
        s.covered_rules == found.1.impl_covered,
        s.stale_rules == found.1.stale_covered,
        s.verified_rules == found.1.verify_covered,
{
}

/// The rules of an answer are those found, section by section.
pub proof fn law_answer_has_all_rules(
    answer: Seq<SectionRules>,
    found: Seq<(String, Vec<RuleId>)>,
    i: int,
    j: int,
)
    requires
        answer_sections(answer) == found_sections(found),
        0 <= i < found.len(),
        0 <= j < found[i].1@.len(),
    ensures
        answer.len() == found.len(),
        answer[i].section@ == found[i].0@,
        answer[i].rules@.len() == found[i].1@.len(),
        answer[i].rules@[j].id@ == found[i].1@[j]@,
{
    assert(answer_sections(answer).len() == answer.len());
    assert(found_sections(found).len() == found.len());
    assert(answer_sections(answer)[i] == (answer[i].section@, rule_ref_ids(answer[i].rules@)));
    assert(found_sections(found)[i] == (found[i].0@, crate::rule_id::id_views(found[i].1@)));
    let a = rule_ref_ids(answer[i].rules@);
    let b = crate::rule_id::id_views(found[i].1@);
    assert(a == b);
    assert(a.len() == answer[i].rules@.len());
    assert(b.len() == found[i].1@.len());
    assert(a[j] == answer[i].rules@[j].id@);
    assert(b[j] == found[i].1@[j]@);
}

} // verus!
