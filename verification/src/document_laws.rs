//! What an editor is told about a whole document, seen from the document.

use vstd::prelude::*;

use crate::api::RuleModel;
use crate::completion::{
    after_first_marker, after_marker, items_for, named_rules, rule_items, verb_item, verb_items,
    ItemModel,
};
use crate::lookup::{doc_of, shown_source, FileView};
use crate::lsp::{project_rule, ProjectModel};
use crate::lsp_document::{
    coverage_title, file_symbols, document_symbols, highlights, hints, lenses, mark_token, query_symbols, shown_marks,
    LensModel, MarkModel,
};
use crate::format::path_format;
use crate::numbers::decimal;
use crate::positions::span_range;
use crate::paths::relative_or_self;
use crate::refs::{verb_word, RefVerb};
use crate::spec_diagnostics::all_rules;
use crate::rule_id::{parsed_rule_id, rule_text};
use crate::bindings::unicode_lowercase;
use crate::text::{byte_len, find_char, find_from, has_prefix, occurs_at, rfind_upto};
use crate::validation::SourceModel;
use crate::api::SpecInfoModel;

verus! {

/// A spec document shows a mark for each of its definitions, and a source file one
/// for each of its references, in order; a definition has no verb.
pub proof fn law_every_mark_is_shown(files: Seq<SourceModel>, v: FileView, i: int)
    requires
        0 <= i < shown_marks(files, v).len(),
    ensures
        ({
            let m = shown_marks(files, v)[i];
            if path_format(v.path@) is Some {
                &&& doc_of(v) is Some
                &&& shown_marks(files, v).len() == doc_of(v)->0.reqs.len()
                &&& m.text == rule_text(doc_of(v)->0.reqs[i].id)
                &&& m.id == parsed_rule_id(m.text)
                &&& m.span == doc_of(v)->0.reqs[i].marker_span
                &&& m.whole == doc_of(v)->0.reqs[i].span
                &&& m.verb is None
            } else {
                &&& shown_source(files, v) is Some
                &&& {
                    let refs = files[shown_source(files, v)->0].reqs.references;
                    &&& shown_marks(files, v).len() == refs.len()
                    &&& m.id == Some(refs[i].req_id)
                    &&& m.text == rule_text(refs[i].req_id)
                    &&& m.span == refs[i].span && m.whole == refs[i].span
                    &&& m.verb == Some(refs[i].verb)
                }
            }
        }),
{
}

/// A token covers its marker. A definition is marked as one; a reference is
/// marked as a declaration exactly where some rule has its id, base and version.
pub proof fn law_token_tells_known_references(p: ProjectModel, content: Seq<char>, m: MarkModel)
    ensures
        ({
            let t = mark_token(p, content, m);
            let defines = m.verb is None || m.verb == Some(RefVerb::Define);
            &&& t.line == span_range(content, m.span.offset, m.span.length).0
            &&& t.start_char == span_range(content, m.span.offset, m.span.length).1
            &&& m.span.length <= u32::MAX ==> t.length == m.span.length
            &&& t.token_type == 2
            &&& (t.modifiers == 1) == defines
            &&& (t.modifiers == 2) == (!defines && exists|i: int, j: int|
                0 <= i < p.forward.len() && 0 <= j < p.forward[i].1.len() && Some(
                    (#[trigger] p.forward[i].1[j]).id,
                ) == m.id)
            &&& t.modifiers == 0 || t.modifiers == 1 || t.modifiers == 2
        }),
{
}

/// A lens sums up the rule: by its first character whether the rule is verified,
/// only implemented, or neither, and then with the numbers of references.
pub proof fn law_title_sums_up(r: RuleModel)
    ensures
        (coverage_title(r)[0] == '🟢') == (r.verify_refs.len() > 0),
        (coverage_title(r)[0] == '🟡') == (r.verify_refs.len() == 0 && r.impl_refs.len() > 0),
        (coverage_title(r)[0] == '⚪') == (r.verify_refs.len() == 0 && r.impl_refs.len() == 0),
        r.verify_refs.len() + r.impl_refs.len() > 0 ==> coverage_title(r).skip(2).take(
            decimal(r.impl_refs.len()).len() as int,
        ) == decimal(r.impl_refs.len()),
        r.verify_refs.len() > 0 ==> coverage_title(r).skip(
            decimal(r.impl_refs.len()).len() as int + 9,
        ) == decimal(r.verify_refs.len()) + " verify"@,
{
    reveal_strlit("⚪ not implemented");
    reveal_strlit("🟡 ");
    reveal_strlit("🟢 ");
    reveal_strlit(" impl, no verify");
    reveal_strlit(" impl, ");
    reveal_strlit(" verify");
    let t = coverage_title(r);
    let d = decimal(r.impl_refs.len());
    if r.verify_refs.len() + r.impl_refs.len() > 0 {
        assert(t.skip(2).take(d.len() as int) =~= d);
    }
    if r.verify_refs.len() > 0 {
        assert(t.skip(d.len() as int + 9) =~= decimal(r.verify_refs.len()) + " verify"@);
    }
}

/// There is one lens for each definition whose rule is known, in order, and none
/// for a reference.
pub proof fn law_definitions_have_lenses(p: ProjectModel, content: Seq<char>, marks: Seq<MarkModel>)
    ensures
        lenses(p, content, marks, marks.len() as int) == marks.filter(
            |m: MarkModel|
                (m.verb is None || m.verb == Some(RefVerb::Define)) && m.id is Some && project_rule(
                    p,
                    m.id->0,
                ) is Some,
        ).map_values(
            |m: MarkModel|
                LensModel {
                    line: span_range(content, m.span.offset, m.span.length).0,
                    start_char: span_range(content, m.span.offset, m.span.length).1,
                    end_char: span_range(content, m.span.offset, m.span.length).3,
                    title: coverage_title((project_rule(p, m.id->0)->0).1),
                    command: "tracey.showReferences"@,
                    arguments: seq![m.text],
                },
        ),
{
    lemma_lenses(p, content, marks, marks.len() as int);
    assert(marks.take(marks.len() as int) =~= marks);
}

proof fn lemma_lenses(p: ProjectModel, content: Seq<char>, marks: Seq<MarkModel>, n: int)
    requires
        0 <= n <= marks.len(),
    ensures
        lenses(p, content, marks, n) == marks.take(n).filter(
            |m: MarkModel|
                (m.verb is None || m.verb == Some(RefVerb::Define)) && m.id is Some && project_rule(
                    p,
                    m.id->0,
                ) is Some,
        ).map_values(
            |m: MarkModel|
                LensModel {
                    line: span_range(content, m.span.offset, m.span.length).0,
                    start_char: span_range(content, m.span.offset, m.span.length).1,
                    end_char: span_range(content, m.span.offset, m.span.length).3,
                    title: coverage_title((project_rule(p, m.id->0)->0).1),
                    command: "tracey.showReferences"@,
                    arguments: seq![m.text],
                },
        ),
    decreases n,
{
    reveal(Seq::filter);
    let keep = |m: MarkModel|
        (m.verb is None || m.verb == Some(RefVerb::Define)) && m.id is Some && project_rule(
            p,
            m.id->0,
        ) is Some;
    let says = |m: MarkModel|
        LensModel {
            line: span_range(content, m.span.offset, m.span.length).0,
            start_char: span_range(content, m.span.offset, m.span.length).1,
            end_char: span_range(content, m.span.offset, m.span.length).3,
            title: coverage_title((project_rule(p, m.id->0)->0).1),
            command: "tracey.showReferences"@,
            arguments: seq![m.text],
        };
    if n > 0 {
        lemma_lenses(p, content, marks, n - 1);
        assert(marks.take(n).drop_last() =~= marks.take(n - 1));
        assert(lenses(p, content, marks, n) =~= marks.take(n).filter(keep).map_values(says));
    } else {
        assert(lenses(p, content, marks, n) =~= marks.take(n).filter(keep).map_values(says));
    }
}

/// There is one hint for each mark in the given lines, both ends counted, whose
/// rule is known; it stands behind the mark and tells both numbers of references.
pub proof fn law_marks_have_hints(
    p: ProjectModel,
    content: Seq<char>,
    marks: Seq<MarkModel>,
    start_line: u32,
    end_line: u32,
)
    ensures
        hints(p, content, marks, marks.len() as int, start_line, end_line) == marks.filter(
            |m: MarkModel|
                m.id is Some && project_rule(p, m.id->0) is Some && start_line <= span_range(
                    content,
                    m.span.offset,
                    m.span.length,
                ).0 <= end_line,
        ).map_values(
            |m: MarkModel|
                (
                    span_range(content, m.span.offset, m.span.length).0,
                    span_range(content, m.span.offset, m.span.length).3,
                    " ["@ + decimal((project_rule(p, m.id->0)->0).1.impl_refs.len()) + " impl, "@
                        + decimal((project_rule(p, m.id->0)->0).1.verify_refs.len()) + " verify]"@,
                ),
        ),
{
    lemma_hints(p, content, marks, marks.len() as int, start_line, end_line);
    assert(marks.take(marks.len() as int) =~= marks);
}

proof fn lemma_hints(
    p: ProjectModel,
    content: Seq<char>,
    marks: Seq<MarkModel>,
    n: int,
    start_line: u32,
    end_line: u32,
)
    requires
        0 <= n <= marks.len(),
    ensures
        hints(p, content, marks, n, start_line, end_line) == marks.take(n).filter(
            |m: MarkModel|
                m.id is Some && project_rule(p, m.id->0) is Some && start_line <= span_range(
                    content,
                    m.span.offset,
                    m.span.length,
                ).0 <= end_line,
        ).map_values(
            |m: MarkModel|
                (
                    span_range(content, m.span.offset, m.span.length).0,
                    span_range(content, m.span.offset, m.span.length).3,
                    " ["@ + decimal((project_rule(p, m.id->0)->0).1.impl_refs.len()) + " impl, "@
                        + decimal((project_rule(p, m.id->0)->0).1.verify_refs.len()) + " verify]"@,
                ),
        ),
    decreases n,
{
    reveal(Seq::filter);
    let keep = |m: MarkModel|
        m.id is Some && project_rule(p, m.id->0) is Some && start_line <= span_range(
            content,
            m.span.offset,
            m.span.length,
        ).0 <= end_line;
    let says = |m: MarkModel|
        (
            span_range(content, m.span.offset, m.span.length).0,
            span_range(content, m.span.offset, m.span.length).3,
            " ["@ + decimal((project_rule(p, m.id->0)->0).1.impl_refs.len()) + " impl, "@ + decimal(
                (project_rule(p, m.id->0)->0).1.verify_refs.len(),
            ) + " verify]"@,
        );
    if n > 0 {
        lemma_hints(p, content, marks, n - 1, start_line, end_line);
        assert(marks.take(n).drop_last() =~= marks.take(n - 1));
    }
    assert(hints(p, content, marks, n, start_line, end_line) =~= marks.take(n).filter(
        keep,
    ).map_values(says));
}

/// All marks of the requirement are highlighted, in order, and no others.
pub proof fn law_all_marks_are_highlighted(
    path: Seq<char>,
    content: Seq<char>,
    marks: Seq<MarkModel>,
    id: (Seq<char>, u32),
)
    ensures
        highlights(path, content, marks, marks.len() as int, id) == marks.filter(
            |m: MarkModel| m.id == Some(id),
        ).map_values(
            |m: MarkModel|
                (
                    path,
                    span_range(content, m.whole.offset, m.whole.length).0,
                    span_range(content, m.whole.offset, m.whole.length).1,
                ),
        ),
{
    lemma_highlights(path, content, marks, marks.len() as int, id);
    assert(marks.take(marks.len() as int) =~= marks);
}

proof fn lemma_highlights(
    path: Seq<char>,
    content: Seq<char>,
    marks: Seq<MarkModel>,
    n: int,
    id: (Seq<char>, u32),
)
    requires
        0 <= n <= marks.len(),
    ensures
        highlights(path, content, marks, n, id) == marks.take(n).filter(
            |m: MarkModel| m.id == Some(id),
        ).map_values(
            |m: MarkModel|
                (
                    path,
                    span_range(content, m.whole.offset, m.whole.length).0,
                    span_range(content, m.whole.offset, m.whole.length).1,
                ),
        ),
    decreases n,
{
    reveal(Seq::filter);
    let keep = |m: MarkModel| m.id == Some(id);
    let says = |m: MarkModel|
        (
            path,
            span_range(content, m.whole.offset, m.whole.length).0,
            span_range(content, m.whole.offset, m.whole.length).1,
        );
    if n > 0 {
        lemma_highlights(path, content, marks, n - 1, id);
        assert(marks.take(n).drop_last() =~= marks.take(n - 1));
    }
    assert(highlights(path, content, marks, n, id) =~= marks.take(n).filter(keep).map_values(says));
}

/// The symbols of a spec document are the rules that are defined in it, in order,
/// each under its id, at its line and column, and as wide as the id.
pub proof fn law_document_lists_its_rules(rules: Seq<RuleModel>, file: Seq<char>)
    requires
        forall|i: int|
            0 <= i < rules.len() ==> ((#[trigger] rules[i]).source_line is Some ==> 1
                <= rules[i].source_line->0 <= u32::MAX) && (rules[i].source_column is Some ==> 1
                <= rules[i].source_column->0 <= u32::MAX),
    ensures
        ({
            let here = rules.filter(|r: RuleModel| r.source_file == Some(file));
            let shown = file_symbols(rules, file);
            &&& shown.len() == here.len()
            &&& forall|i: int|
                0 <= i < here.len() ==> {
                    let s = #[trigger] shown[i];
                    &&& s.name == rule_text(here[i].id)
                    &&& s.kind == "requirement"@
                    &&& s.path == Some(file)
                    &&& here[i].source_line is Some ==> s.range.0 + 1 == here[i].source_line->0
                    &&& here[i].source_line is None ==> s.range.0 == 0
                    &&& here[i].source_column is Some ==> s.range.1 + 1 == here[i].source_column->0
                    &&& here[i].source_column is None ==> s.range.1 == 0
                    &&& s.range.2 == s.range.0
                    &&& s.range.1 + byte_len(rule_text(here[i].id)) <= u32::MAX ==> s.range.3
                        - s.range.1 == byte_len(rule_text(here[i].id))
                }
        }),
    decreases rules.len(),
{
    reveal(Seq::filter);
    if rules.len() > 0 {
        let d = rules.drop_last();
        assert forall|i: int| 0 <= i < d.len() implies ((#[trigger] d[i]).source_line is Some ==> 1
            <= d[i].source_line->0 <= u32::MAX) && (d[i].source_column is Some ==> 1
            <= d[i].source_column->0 <= u32::MAX) by {
            assert(d[i] == rules[i]);
        }
        law_document_lists_its_rules(d, file);
        let r = rules.last();
        assert(r == rules[rules.len() - 1]);
    }
}

/// A search finds the rules whose base holds what is searched for, whatever the
/// case, and no others, in order.
pub proof fn law_search_finds_rules(rules: Seq<RuleModel>, query: Seq<char>)
    ensures
        ({
            let found = rules.filter(
                |r: RuleModel|
                    exists|k: int|
                        #[trigger] occurs_at(
                            unicode_lowercase(r.id.0),
                            unicode_lowercase(query),
                            k,
                        ),
            );
            let shown = query_symbols(rules, query);
            &&& shown.len() == found.len()
            &&& forall|i: int|
                0 <= i < found.len() ==> (#[trigger] shown[i]).name == rule_text(found[i].id)
                    && shown[i].path == found[i].source_file && shown[i].kind == "requirement"@
            &&& forall|i: int|
                0 <= i < found.len() && found[i].source_line is Some && 1
                    <= found[i].source_line->0 <= u32::MAX ==> (#[trigger] shown[i]).range.0 + 1
                    == found[i].source_line->0
        }),
    decreases rules.len(),
{
    reveal(Seq::filter);
    if rules.len() > 0 {
        law_search_finds_rules(rules.drop_last(), query);
        let r = rules.last();
        let s = unicode_lowercase(r.id.0);
        let p = unicode_lowercase(query);
        crate::text::lemma_find_from(s, p, 0);
        if find_from(s, p, 0) is Some {
            assert(occurs_at(s, p, find_from(s, p, 0)->0));
        } else {
            assert forall|k: int| !#[trigger] occurs_at(s, p, k) by {
                if occurs_at(s, p, k) {
                    assert(0 <= k);
                }
            }
        }
    }
}

/// A verb is offered exactly where what was typed begins it, with the space that
/// follows it.
pub proof fn law_verbs_are_offered(typed: Seq<char>, word: Seq<char>)
    requires
        word == "impl"@ || word == "verify"@ || word == "depends"@ || word == "related"@,
    ensures
        (exists|i: int|
            0 <= i < verb_items(typed).len() && (#[trigger] verb_items(typed)[i]).label == word)
            == has_prefix(word + " "@, typed),
        forall|i: int|
            0 <= i < verb_items(typed).len() ==> {
                let x = #[trigger] verb_items(typed)[i];
                &&& x.kind == "verb"@
                &&& x.detail is Some
                &&& x.insert_text == Some(x.label + " "@)
                &&& has_prefix(x.label + " "@, typed)
            },
{
    let a = verb_item("impl"@, "Implementation of a requirement"@, typed);
    let b = verb_item("verify"@, "Test/verification of a requirement"@, typed);
    let c = verb_item("depends"@, "Dependency on another requirement"@, typed);
    let d = verb_item("related"@, "Related requirement"@, typed);
    let all = verb_items(typed);
    assert(all == a + b + c + d);
    if has_prefix(word + " "@, typed) {
        if word == "impl"@ {
            assert(all[0].label == word);
        } else if word == "verify"@ {
            assert(all[a.len() as int].label == word);
        } else if word == "depends"@ {
            assert(all[(a + b).len() as int].label == word);
        } else {
            assert(all[(a + b + c).len() as int].label == word);
        }
    }
}

/// The rules of every implementation can be offered, each with the name of its
/// spec.
pub proof fn law_rules_have_spec_names(forward: Seq<((Seq<char>, Seq<char>), Seq<RuleModel>)>)
    ensures
        forall|x: (Seq<char>, RuleModel)| #[trigger]
            named_rules(forward).contains(x) <==> exists|i: int, j: int|
                0 <= i < forward.len() && 0 <= j < forward[i].1.len() && (#[trigger] forward[i].1[j])
                    == x.1 && (forward[i].0).0 == x.0,
    decreases forward.len(),
{
    if forward.len() > 0 {
        let d = forward.drop_last();
        law_rules_have_spec_names(d);
        let last = forward.len() - 1;
        let more = forward.last().1.map_values(|r: RuleModel| (forward.last().0.0, r));
        assert forall|x: (Seq<char>, RuleModel)| #[trigger]
            named_rules(forward).contains(x) <==> exists|i: int, j: int|
                0 <= i < forward.len() && 0 <= j < forward[i].1.len() && (#[trigger] forward[i].1[j])
                    == x.1 && (forward[i].0).0 == x.0 by {
            crate::query_laws::lemma_in_concat(named_rules(d), more, x);
            if named_rules(d).contains(x) {
                let (i, j) = choose|i: int, j: int|
                    0 <= i < d.len() && 0 <= j < d[i].1.len() && (#[trigger] d[i].1[j]) == x.1 && (
                    d[i].0).0 == x.0;
                assert(forward[i].1[j] == x.1);
            }
            if more.contains(x) {
                let j = more.index_of(x);
                assert(forward[last].1[j] == x.1);
            }
            if exists|i: int, j: int|
                0 <= i < forward.len() && 0 <= j < forward[i].1.len() && (#[trigger] forward[i].1[j])
                    == x.1 && (forward[i].0).0 == x.0 {
                let (i, j) = choose|i: int, j: int|
                    0 <= i < forward.len() && 0 <= j < forward[i].1.len() && (
                    #[trigger] forward[i].1[j]) == x.1 && (forward[i].0).0 == x.0;
                if i < last {
                    assert(d[i].1[j] == x.1);
                } else {
                    assert(more[j] == x);
                }
            }
        }
    }
}

/// A rule is offered exactly where its base begins with what was typed, under its
/// id with the version, with its text and the name of its spec.
pub proof fn law_rules_are_offered(rules: Seq<(Seq<char>, RuleModel)>, typed: Seq<char>)
    ensures
        rule_items(rules, typed) == rules.filter(
            |x: (Seq<char>, RuleModel)| occurs_at(x.1.id.0, typed, 0),
        ).map_values(
            |x: (Seq<char>, RuleModel)|
                ItemModel {
                    label: rule_text(x.1.id),
                    kind: "rule"@,
                    detail: Some(x.0),
                    documentation: Some(x.1.raw),
                    insert_text: None,
                },
        ),
    decreases rules.len(),
{
    reveal(Seq::filter);
    let keep = |x: (Seq<char>, RuleModel)| occurs_at(x.1.id.0, typed, 0);
    let says = |x: (Seq<char>, RuleModel)|
        ItemModel {
            label: rule_text(x.1.id),
            kind: "rule"@,
            detail: Some(x.0),
            documentation: Some(x.1.raw),
            insert_text: None,
        };
    if rules.len() > 0 {
        law_rules_are_offered(rules.drop_last(), typed);
    }
    assert(rule_items(rules, typed) =~= rules.filter(keep).map_values(says));
}

/// In a closed marker nothing is offered. Behind the first space only rules are,
/// by what follows it; before it verbs are too.
pub proof fn law_offer_by_what_was_typed(typed: Seq<char>, rules: Seq<(Seq<char>, RuleModel)>)
    ensures
        typed.contains(']') ==> items_for(typed, rules).len() == 0,
        !typed.contains(']') && !typed.contains(' ') ==> items_for(typed, rules) == verb_items(typed)
            + rule_items(rules, typed),
        forall|word: Seq<char>, rest: Seq<char>|
            !typed.contains(']') && typed == #[trigger] (word + seq![' '] + rest) && !word.contains(
                ' ',
            ) ==> items_for(typed, rules) == rule_items(rules, rest),
{
    crate::text::lemma_find_char(typed, ']', 0);
    crate::text::lemma_find_char(typed, ' ', 0);
    assert forall|word: Seq<char>, rest: Seq<char>|
        !typed.contains(']') && typed == #[trigger] (word + seq![' '] + rest) && !word.contains(
            ' ',
        ) implies items_for(typed, rules) == rule_items(rules, rest) by {
        assert(typed[word.len() as int] == ' ');
        let k = find_char(typed, ' ', 0)->0;
        if k < word.len() {
            assert(word[k] == ' ');
        }
        assert(k == word.len());
        assert(typed.skip(k + 1) =~= rest);
    }
}

/// What was typed is what stands behind the last marker of the first spec that has
/// a marker on the line.
pub proof fn law_typed_is_behind_a_marker(before: Seq<char>, specs: Seq<SpecInfoModel>, k: int, at: int)
    requires
        0 <= k < specs.len(),
        occurs_at(before, specs[k].prefix + "["@, at),
        forall|j: int| at < j ==> !#[trigger] occurs_at(before, specs[k].prefix + "["@, j),
        forall|i: int, j: int|
            0 <= i < k ==> !#[trigger] occurs_at(before, specs[i].prefix + "["@, j),
    ensures
        after_first_marker(before, specs, 0) is Some,
        before == before.take(at) + specs[k].prefix + "["@ + after_first_marker(
            before,
            specs,
            0,
        )->0,
{
    lemma_first_marker(before, specs, 0, k);
    let pattern = specs[k].prefix + "["@;
    crate::text::lemma_rfind_upto(before, pattern, before.len() as int);
    assert(at <= before.len());
    assert(rfind_upto(before, pattern, before.len() as int) == Some(at));
    let typed = before.skip(at + pattern.len());
    assert(after_first_marker(before, specs, 0) == Some(typed));
    assert(before.subrange(at, at + pattern.len()) == pattern);
    assert(before =~= before.take(at) + before.subrange(at, at + pattern.len()) + typed);
    assert(before =~= before.take(at) + specs[k].prefix + "["@ + typed);
}

proof fn lemma_first_marker(before: Seq<char>, specs: Seq<SpecInfoModel>, from: int, k: int)
    requires
        0 <= from <= k < specs.len(),
        forall|i: int, j: int|
            0 <= i < k ==> !#[trigger] occurs_at(before, specs[i].prefix + "["@, j),
    ensures
        after_marker(before, specs[k].prefix) is Some ==> after_first_marker(before, specs, from)
            == after_marker(before, specs[k].prefix),
    decreases k - from,
{
    if from < k {
        lemma_first_marker(before, specs, from + 1, k);
        crate::text::lemma_rfind_upto(
            before,
            specs[from].prefix + "["@,
            before.len() as int,
        );
    }
}

/// Where no spec has a marker on the line, nothing was typed.
pub proof fn law_nothing_without_a_marker(before: Seq<char>, specs: Seq<SpecInfoModel>, from: int)
    requires
        0 <= from,
        forall|i: int, j: int|
            0 <= i < specs.len() ==> !#[trigger] occurs_at(before, specs[i].prefix + "["@, j),
    ensures
        after_first_marker(before, specs, from) is None,
    decreases specs.len() - from,
{
    if from < specs.len() {
        law_nothing_without_a_marker(before, specs, from + 1);
        crate::text::lemma_rfind_upto(
            before,
            specs[from].prefix + "["@,
            before.len() as int,
        );
    }
}

/// A source file lists a symbol for each of its references, in order, under the id
/// and by the verb; a spec document lists the rules that are defined in it.
pub proof fn law_symbols_of_a_document(p: ProjectModel, v: FileView, root: Seq<char>)
    ensures
        path_format(v.path@) is Some ==> document_symbols(p, v, root) == file_symbols(
            all_rules(p.forward),
            relative_or_self(v.path@, root),
        ),
        path_format(v.path@) is None && shown_source(p.files, v) is None ==> document_symbols(
            p,
            v,
            root,
        ).len() == 0,
        path_format(v.path@) is None && shown_source(p.files, v) is Some ==> {
            let refs = p.files[shown_source(p.files, v)->0].reqs.references;
            let shown = document_symbols(p, v, root);
            &&& shown.len() == refs.len()
            &&& forall|i: int|
                0 <= i < refs.len() ==> (#[trigger] shown[i]).name == rule_text(refs[i].req_id)
                    && shown[i].kind == verb_word(refs[i].verb) && shown[i].range == span_range(
                    v.content@,
                    refs[i].span.offset,
                    refs[i].span.length,
                )
        },
{
}

} // verus!
