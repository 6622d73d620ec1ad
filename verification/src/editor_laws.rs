//! What an editor is told about the rule at a position, in terms of the rule and
//! of the references to it.

use vstd::prelude::*;

use crate::api::RuleModel;
use crate::diagnostics::similar_ids;
use crate::lookup::{
    better_rule, definition_at, doc_of, found_rule, offset_at, ref_at, rule_at, shown_source,
    AtModel, FileView,
};
use crate::lsp::{
    actions_for, all_places, definition_place, historical_text, hover_previous, ids_with_prefix,
    project_rule, reference_places, rename_edits, rule_column, shown_diff, spec_url, zero_based,
    ProjectModel,
};
use crate::format::path_format;
use crate::refs::RefModel;
use crate::requirement::ReqModel;
use crate::rule_id::{rule_text, writable};
use crate::text::byte_len;
use crate::validation::SourceModel;

verus! {

/// Lines are counted from 1 in rules and references, and from 0 in editors.
pub proof fn law_lines_count_from_zero(line: usize)
    requires
        1 <= line,
        line - 1 <= u32::MAX,
    ensures
        zero_based(line) as int == line - 1,
{
}

/// Every reference is shown, in order, in its file and on its line.
pub proof fn law_every_reference_is_shown(refs: Seq<(Seq<char>, usize)>)
    requires
        forall|i: int| 0 <= i < refs.len() ==> 1 <= (#[trigger] refs[i]).1 <= u32::MAX,
    ensures
        reference_places(refs).len() == refs.len(),
        forall|i: int|
            0 <= i < refs.len() ==> (#[trigger] reference_places(refs)[i]).0 == refs[i].0
                && reference_places(refs)[i].1 as int == refs[i].1 - 1 && reference_places(
                refs,
            )[i].2 == 0,
{
}

/// Finding references gives the definition, where it is asked for and known, then
/// all implementations, all verifications and all dependencies.
pub proof fn law_all_references_are_found(r: RuleModel, include_declaration: bool)
    ensures
        ({
            let out = all_places(r, include_declaration);
            let d = if include_declaration && r.source_file is Some && r.source_line is Some {
                1int
            } else {
                0int
            };
            let a = r.impl_refs.len();
            let b = r.verify_refs.len();
            let c = r.depends_refs.len();
            &&& out.len() == d + a + b + c
            &&& (d == 1 ==> out[0] == ((r.source_file->0), zero_based(r.source_line->0), rule_column(
                r.source_column,
            )))
            &&& forall|i: int|
                0 <= i < a ==> out[d + i] == ((#[trigger] r.impl_refs[i]).0, zero_based(
                    r.impl_refs[i].1,
                ), 0u32)
            &&& forall|i: int|
                0 <= i < b ==> out[d + a + i] == ((#[trigger] r.verify_refs[i]).0, zero_based(
                    r.verify_refs[i].1,
                ), 0u32)
            &&& forall|i: int|
                0 <= i < c ==> out[d + a + b + i] == ((#[trigger] r.depends_refs[i]).0, zero_based(
                    r.depends_refs[i].1,
                ), 0u32)
        }),
{
    let out = all_places(r, include_declaration);
    let first = if include_declaration {
        definition_place(r)
    } else {
        Seq::empty()
    };
    let d = first.len() as int;
    let x = reference_places(r.impl_refs);
    let y = reference_places(r.verify_refs);
    let z = reference_places(r.depends_refs);
    assert(out == first + x + y + z);
    assert forall|i: int| 0 <= i < r.impl_refs.len() implies out[d + i] == ((
    #[trigger] r.impl_refs[i]).0, zero_based(r.impl_refs[i].1), 0u32) by {
        assert(out[d + i] == x[i]);
    }
    assert forall|i: int| 0 <= i < r.verify_refs.len() implies out[d + r.impl_refs.len() + i] == ((
    #[trigger] r.verify_refs[i]).0, zero_based(r.verify_refs[i].1), 0u32) by {
        assert(out[d + r.impl_refs.len() + i] == y[i]);
    }
    assert forall|i: int| 0 <= i < r.depends_refs.len() implies out[d + r.impl_refs.len()
        + r.verify_refs.len() + i] == ((#[trigger] r.depends_refs[i]).0, zero_based(
        r.depends_refs[i].1,
    ), 0u32) by {
        assert(out[d + r.impl_refs.len() + r.verify_refs.len() + i] == z[i]);
    }
}

/// A rule is defined in its file, on its line and in its column; where either is
/// not known, nowhere.
pub proof fn law_definition_is_shown(r: RuleModel)
    ensures
        r.source_file is None || r.source_line is None ==> definition_place(r).len() == 0,
        r.source_file is Some && r.source_line is Some ==> {
            let out = definition_place(r);
            &&& out.len() == 1
            &&& out[0].0 == r.source_file->0
            &&& (1 <= r.source_line->0 <= u32::MAX ==> out[0].1 as int == r.source_line->0 - 1)
            &&& (r.source_column is Some && r.source_column->0 <= u32::MAX ==> out[0].2 as int
                == r.source_column->0)
            &&& (r.source_column is None ==> out[0].2 == 0)
        },
{
}

/// Renaming a rule changes its definition and every place that implements it, all
/// to the new name, and nothing else.
pub proof fn law_rename_changes_all_places(
    r: RuleModel,
    reference: (Seq<char>, u32),
    new_name: Seq<char>,
)
    ensures
        ({
            let out = rename_edits(r, reference, new_name);
            let d = if r.source_file is Some && r.source_line is Some {
                1int
            } else {
                0int
            };
            &&& out.len() == d + r.impl_refs.len()
            &&& forall|i: int| 0 <= i < out.len() ==> (#[trigger] out[i]).2 == new_name
            &&& (d == 1 ==> out[0].0 == r.source_file->0 && out[0].1.0 == zero_based(
                r.source_line->0,
            ) && out[0].1.1 == rule_column(r.source_column) && out[0].1.2 == out[0].1.0)
            &&& (d == 1 && r.source_column is Some && r.source_column->0 + byte_len(
                rule_text(reference),
            ) <= u32::MAX ==> out[0].1.3 as int == r.source_column->0 + byte_len(
                rule_text(reference),
            ))
            &&& forall|i: int|
                0 <= i < r.impl_refs.len() ==> out[d + i].0 == (#[trigger] r.impl_refs[i]).0
                    && out[d + i].1.0 == zero_based(r.impl_refs[i].1) && out[d + i].1.2
                    == zero_based(r.impl_refs[i].1)
        }),
{
    let out = rename_edits(r, reference, new_name);
    let d = if r.source_file is Some && r.source_line is Some {
        1int
    } else {
        0int
    };
    let more = r.impl_refs.map_values(
        |x: (Seq<char>, usize)| (x.0, (zero_based(x.1), 0u32, zero_based(x.1), 0u32), new_name),
    );
    assert(out.skip(d) =~= more);
    assert forall|i: int| 0 <= i < r.impl_refs.len() implies out[d + i].0 == (
    #[trigger] r.impl_refs[i]).0 && out[d + i].1.0 == zero_based(r.impl_refs[i].1) && out[d
        + i].1.2 == zero_based(r.impl_refs[i].1) by {
        assert(out[d + i] == more[i]);
    }
    assert forall|i: int| 0 <= i < out.len() implies (#[trigger] out[i]).2 == new_name by {
        if i >= d {
            assert(out[i] == more[i - d]);
        }
    }
}

/// For a rule that is known the dashboard is offered. For one that is not, its
/// creation is offered, and before that its replacement by a known rule where one
/// with the same prefix is similar.
pub proof fn law_actions_by_knowledge(p: ProjectModel, at: AtModel)
    ensures
        ({
            let out = actions_for(p, at);
            let id = rule_text(at.req_id);
            let known = exists|i: int, j: int|
                0 <= i < p.forward.len() && 0 <= j < p.forward[i].1.len() && (
                #[trigger] p.forward[i].1[j]).id.0 == at.req_id.0;
            &&& (known ==> out.len() == 1 && out[0].command == "tracey.openDashboard"@
                && out[0].arguments == seq![id])
            &&& (!known ==> 1 <= out.len() <= 2 && out.last().command
                == "tracey.createRequirement"@ && out.last().arguments == seq![id])
            &&& (!known && out.len() == 2 ==> out[0].command
                == "tracey.renameUnknownRequirement"@ && out[0].is_preferred
                && out[0].arguments.len() == 2 && out[0].arguments[0] == id)
            &&& (!known && at.prefix is None ==> out.len() == 1)
            &&& (!known && at.prefix is Some ==> (out.len() == 2 <==> similar_ids(
                at.req_id,
                ids_with_prefix(p, at.prefix->0, p.forward.len() as int),
                1,
            ).len() > 0))
        }),
{
    crate::lookup::law_found_is_latest(p.forward, at.req_id.0);
    law_found_rule_is_known(p, at.req_id);
}

/// The rule that is shown for an id is one that some implementation has, with the
/// base of the id, and with the name of its spec; where any has one, one is
/// shown.
pub proof fn law_found_rule_is_known(p: ProjectModel, id: (Seq<char>, u32))
    ensures
        match project_rule(p, id) {
            Some((name, rule)) => exists|i: int, j: int|
                0 <= i < p.forward.len() && 0 <= j < p.forward[i].1.len() && (
                #[trigger] p.forward[i].1[j]) == rule && (p.forward[i].0).0 == name && rule.id.0
                    == id.0,
            None => forall|i: int, j: int|
                0 <= i < p.forward.len() && 0 <= j < p.forward[i].1.len() ==> (
                #[trigger] p.forward[i].1[j]).id.0 != id.0,
        },
{
    crate::lookup::law_found_is_latest(p.forward, id.0);
    lemma_found_is_from(p.forward, p.forward.len() as int, id.0);
}

proof fn lemma_better_is_from(
    name: Seq<char>,
    rules: Seq<RuleModel>,
    n: int,
    base: Seq<char>,
    before: Option<(Seq<char>, RuleModel)>,
)
    requires
        0 <= n <= rules.len(),
    ensures
        match better_rule(name, rules, n, base, before) {
            Some(b) => before == Some(b) || exists|j: int|
                0 <= j < n && (#[trigger] rules[j]) == b.1 && b.0 == name && b.1.id.0 == base,
            None => before is None,
        },
    decreases n,
{
    if n > 0 {
        lemma_better_is_from(name, rules, n - 1, base, before);
        assert(rules[n - 1] == rules[n - 1]);
    }
}

proof fn lemma_found_is_from(
    forward: Seq<((Seq<char>, Seq<char>), Seq<RuleModel>)>,
    n: int,
    base: Seq<char>,
)
    requires
        0 <= n <= forward.len(),
    ensures
        found_rule(forward, n, base) matches Some(b) ==> exists|i: int, j: int|
            0 <= i < n && 0 <= j < forward[i].1.len() && (#[trigger] forward[i].1[j]) == b.1 && (
            forward[i].0).0 == b.0 && b.1.id.0 == base,
    decreases n,
{
    if n > 0 {
        lemma_found_is_from(forward, n - 1, base);
        let f = forward[n - 1];
        let before = found_rule(forward, n - 1, base);
        lemma_better_is_from((f.0).0, f.1, f.1.len() as int, base, before);
        if let Some(b) = found_rule(forward, n, base) {
            if before != Some(b) {
                let j = choose|j: int|
                    0 <= j < f.1.len() && (#[trigger] f.1[j]) == b.1 && b.0 == (f.0).0 && b.1.id.0
                        == base;
                assert(forward[n - 1].1[j] == b.1);
            }
        }
    }
}

proof fn lemma_ref_at(refs: Seq<RefModel>, o: int, i: int)
    requires
        0 <= i,
    ensures
        match ref_at(refs, o, i) {
            Some(k) => i <= k < refs.len() && refs[k].span.offset <= o < refs[k].span.offset
                + refs[k].span.length && forall|j: int|
                i <= j < k ==> !((#[trigger] refs[j]).span.offset <= o < refs[j].span.offset
                    + refs[j].span.length),
            None => forall|j: int|
                i <= j < refs.len() ==> !((#[trigger] refs[j]).span.offset <= o
                    < refs[j].span.offset + refs[j].span.length),
        },
    decreases refs.len() - i,
{
    if i < refs.len()
        && !(refs[i].span.offset <= o < refs[i].span.offset + refs[i].span.length) {
        lemma_ref_at(refs, o, i + 1);
    }
}

/// In a source file, what is found at a position is a reference of the file whose
/// marker holds the position; nothing is found only where no marker does.
pub proof fn law_reference_at_position(
    files: Seq<SourceModel>,
    v: FileView,
    line: u32,
    character: u32,
)
    requires
        path_format(v.path@) is None,
        shown_source(files, v) is Some,
        offset_at(v.content@, line, character) is Some,
    ensures
        ({
            let refs = files[shown_source(files, v)->0].reqs.references;
            let o = offset_at(v.content@, line, character)->0;
            match rule_at(files, v, line, character) {
                Some(at) => exists|k: int|
                    0 <= k < refs.len() && (#[trigger] refs[k]).span.offset <= o
                        < refs[k].span.offset + refs[k].span.length && at.req_id == refs[k].req_id
                        && at.prefix == Some(refs[k].prefix) && at.span == refs[k].span
                        && forall|j: int|
                        0 <= j < k ==> !((#[trigger] refs[j]).span.offset <= o < refs[j].span.offset
                            + refs[j].span.length),
                None => forall|j: int|
                    0 <= j < refs.len() ==> !((#[trigger] refs[j]).span.offset <= o
                        < refs[j].span.offset + refs[j].span.length),
            }
        }),
{
    let refs = files[shown_source(files, v)->0].reqs.references;
    let o = offset_at(v.content@, line, character)->0;
    lemma_ref_at(refs, o, 0);
    if let Some(k) = ref_at(refs, o, 0) {
        assert(refs[k].span.offset <= o);
    }
}

proof fn lemma_definition_at(reqs: Seq<ReqModel>, o: int, i: int)
    requires
        0 <= i,
        forall|j: int| 0 <= j < reqs.len() ==> writable((#[trigger] reqs[j]).id),
    ensures
        match definition_at(reqs, o, i) {
            Some(at) => exists|k: int|
                i <= k < reqs.len() && (#[trigger] reqs[k]).span.offset <= o < reqs[k].span.offset
                    + reqs[k].span.length && at.req_id == reqs[k].id && at.prefix is None && at.span
                    == reqs[k].span,
            None => forall|j: int|
                i <= j < reqs.len() ==> !((#[trigger] reqs[j]).span.offset <= o
                    < reqs[j].span.offset + reqs[j].span.length),
        },
    decreases reqs.len() - i,
{
    if i < reqs.len() {
        assert(writable(reqs[i].id));
        crate::rule_id::law_rule_text_roundtrip(reqs[i].id);
        if !(reqs[i].span.offset <= o < reqs[i].span.offset + reqs[i].span.length) {
            lemma_definition_at(reqs, o, i + 1);
        }
    }
}

/// In a spec document, a position inside a requirement is that requirement.
pub proof fn law_definition_at_position(
    files: Seq<SourceModel>,
    v: FileView,
    line: u32,
    character: u32,
)
    requires
        path_format(v.path@) is Some,
        v.doc is Some,
        offset_at(v.content@, line, character) is Some,
        forall|j: int|
            0 <= j < (doc_of(v)->0).reqs.len() ==> writable((#[trigger] (doc_of(v)->0).reqs[j]).id),
    ensures
        ({
            let reqs = (doc_of(v)->0).reqs;
            let o = offset_at(v.content@, line, character)->0;
            (exists|j: int|
                0 <= j < reqs.len() && (#[trigger] reqs[j]).span.offset <= o < reqs[j].span.offset
                    + reqs[j].span.length) ==> rule_at(files, v, line, character) is Some && exists|
                k: int,
            |
                0 <= k < reqs.len() && (#[trigger] reqs[k]).span.offset <= o < reqs[k].span.offset
                    + reqs[k].span.length && (rule_at(files, v, line, character)->0).req_id
                    == reqs[k].id && (rule_at(files, v, line, character)->0).span == reqs[k].span
        }),
{
    let reqs = (doc_of(v)->0).reqs;
    let o = offset_at(v.content@, line, character)->0;
    lemma_definition_at(reqs, o, 0);
}

/// A rule of version 2 or more is compared with the version before it, and a
/// stale reference with the version it names; nothing else is compared.
pub proof fn law_compared_version(r: RuleModel, reference: (Seq<char>, u32))
    ensures
        match hover_previous(r, reference) {
            Some((file, id)) => r.source_file == Some(file) && id.0 == r.id.0 && ((reference == r.id
                && id.1 == r.id.1 - 1 && r.id.1 > 1) || (reference.1 < r.id.1 && id == reference)),
            None => r.source_file is None || reference.0 != r.id.0 || reference.1 > r.id.1 || (
            reference == r.id && r.id.1 <= 1),
        },
{
}

/// The URL of a spec is that of the first spec with the name.
pub proof fn law_url_is_of_the_spec(specs: Seq<crate::api::SpecInfoModel>, name: Seq<char>, i: int)
    requires
        0 <= i <= specs.len(),
    ensures
        match spec_url(specs, name, i) {
            Some(u) => exists|k: int|
                i <= k < specs.len() && (#[trigger] specs[k]).name == name && specs[k].source_url
                    == Some(u),
            None => true,
        },
        (exists|k: int| i <= k < specs.len() && (#[trigger] specs[k]).name == name) ==> exists|
            k: int,
        |
            i <= k < specs.len() && (#[trigger] specs[k]).name == name && spec_url(specs, name, i)
                == specs[k].source_url,
    decreases specs.len() - i,
{
    if i < specs.len() && specs[i].name != name {
        law_url_is_of_the_spec(specs, name, i + 1);
    }
}

/// The earlier text of a rule is that of the first requirement with its very id.
pub proof fn law_historical_text(reqs: Seq<ReqModel>, id: (Seq<char>, u32), i: int)
    requires
        0 <= i <= reqs.len(),
    ensures
        match historical_text(reqs, id, i) {
            Some(t) => exists|k: int|
                i <= k < reqs.len() && rule_text((#[trigger] reqs[k]).id) == rule_text(id)
                    && reqs[k].raw == t,
            None => forall|k: int|
                i <= k < reqs.len() ==> rule_text((#[trigger] reqs[k]).id) != rule_text(id),
        },
    decreases reqs.len() - i,
{
    if i < reqs.len() && rule_text(reqs[i].id) != rule_text(id) {
        law_historical_text(reqs, id, i + 1);
    }
}

/// A diff is shown as it is; an empty one shows the current text, and none at all
/// both texts.
pub proof fn law_diff_is_shown(old_text: Seq<char>, current: Seq<char>, d: Seq<char>)
    ensures
        d.len() > 0 ==> shown_diff(Some(d), old_text, current) == d,
        d.len() == 0 ==> shown_diff(Some(d), old_text, current) == current,
        shown_diff(None, old_text, current) == "~~"@ + old_text + "~~\n\n"@ + current,
{
}

} // verus!
