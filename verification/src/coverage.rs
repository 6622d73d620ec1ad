//! Matching references in source code to rules.

use vstd::prelude::*;

use crate::api::{
    code_refs, extracted_models, file_entries, rule_models, stale_ref_views, ApiCodeRef,
    ApiFileEntry, ApiReverseData, ApiRule, ApiStaleRef, CodeUnit, ExtractedModel, ExtractedRule,
    RuleModel,
};
use crate::order::{
    in_order, key_models, law_sorted, positions, sort_positions, sorted_order, KeyModel, SortKey,
};
use crate::paths::{components, components_of, join_components, joined, relative_path, relative_to};
use crate::refs::{ref_models, RefModel, RefVerb, ReqReference};
use crate::requirement::{copy_opt, level_word, status_word};
use crate::rule_id::{
    classify_reference_for_rule, parse_rule_id, parsed_rule_id, reference_match, rule_text, RuleId,
    RuleIdMatch,
};
use crate::text::{copy_str, str_eq, texts};

verus! {

/// How many components two paths begin with in common, from position `i` on.
pub open spec fn common_from(a: Seq<Seq<char>>, b: Seq<Seq<char>>, i: int) -> int
    decreases a.len() - i,
{
    if 0 <= i < a.len() && i < b.len() && a[i] == b[i] {
        common_from(a, b, i + 1)
    } else {
        i
    }
}

/// `n` steps up.
pub open spec fn steps_up(n: int) -> Seq<Seq<char>> {
    Seq::new(
        if n > 0 {
            n as nat
        } else {
            0
        },
        |i: int| ".."@,
    )
}

/// The components that lead from one path to another.
pub open spec fn steps_between(from: Seq<Seq<char>>, to: Seq<Seq<char>>) -> Seq<Seq<char>> {
    let c = common_from(from, to, 0);
    if c == 0 && to.len() > 0 && to[0] == "/"@ {
        to
    } else {
        steps_up(from.len() - c) + to.skip(c)
    }
}

/// The path from `from` to `to`, with `..` for each step up. An absolute path
/// that shares no root with `from` stays as it is.
pub open spec fn path_between(from: Seq<char>, to: Seq<char>) -> Seq<char> {
    joined(steps_between(components(from), components(to)))
}

/// How a file is shown: relative to the root, leaving it where it must.
pub open spec fn shown_path(root: Seq<char>, path: Seq<char>) -> Seq<char> {
    match relative_to(path, root) {
        Some(r) => r,
        None => path_between(root, path),
    }
}

/// Compute relative path from `from` to `to`, preserving `../` for
/// cross-workspace paths.
pub fn compute_relative_path(from: &str, to: &str) -> (r: String)
    ensures
        r@ == path_between(from@, to@),
{
    let f = components_of(from);
    let t = components_of(to);
    let ghost fs = texts(f@);
    let ghost ts = texts(t@);
    let mut c: usize = 0;
    while c < f.len() && c < t.len() && str_eq(f[c].as_str(), t[c].as_str())
        invariant
            c <= f@.len(),
            c <= t@.len(),
            fs == texts(f@),
            ts == texts(t@),
            common_from(fs, ts, 0) == common_from(fs, ts, c as int),
        decreases f@.len() - c,
    {
        c = c + 1;
    }
    if c == 0 && t.len() > 0 && str_eq(t[0].as_str(), "/") {
        assert(ts.skip(0) =~= ts);
        return join_components(&t, 0);
    }
    let mut out: Vec<String> = Vec::new();
    let mut k: usize = c;
    assert(texts(out@) =~= steps_up(0));
    while k < f.len()
        invariant
            c <= k <= f@.len(),
            texts(out@) == steps_up(k - c),
        decreases f@.len() - k,
    {
        let ghost before = texts(out@);
        out.push(copy_str(".."));
        assert(texts(out@) =~= before.push(".."@));
        assert(steps_up(k + 1 - c) =~= before.push(".."@));
        k = k + 1;
    }
    let mut j: usize = c;
    let ghost ups = texts(out@);
    assert(texts(out@) =~= ups + ts.subrange(c as int, c as int));
    while j < t.len()
        invariant
            c <= j <= t@.len(),
            ts == texts(t@),
            texts(out@) == ups + ts.subrange(c as int, j as int),
        decreases t@.len() - j,
    {
        let ghost before = texts(out@);
        out.push(copy_str(t[j].as_str()));
        assert(texts(out@) =~= before.push(ts[j as int]));
        assert(ts.subrange(c as int, j + 1) =~= ts.subrange(c as int, j as int).push(ts[j as int]));
        assert(texts(out@) =~= ups + ts.subrange(c as int, j + 1));
        j = j + 1;
    }
    assert(ts.subrange(c as int, j as int) =~= ts.skip(c as int));
    assert(texts(out@).skip(0) =~= texts(out@));
    join_components(&out, 0)
}

/// How a file is shown relative to the root.
pub fn show_path(root: &str, path: &str) -> (r: String)
    ensures
        r@ == shown_path(root@, path@),
{
    match relative_path(path, root) {
        Some(r) => r,
        None => compute_relative_path(root, path),
    }
}

/// Which of a rule's lists a reference belongs to.
#[derive(Clone, Copy, PartialEq, Eq, Structural)]
pub enum RefList {
    Impl,
    Verify,
    Depends,
}

/// The list that a verb belongs to: implementing and defining count as
/// implementations, depending and being related as dependencies.
pub open spec fn verb_list(v: RefVerb) -> RefList {
    match v {
        RefVerb::Impl | RefVerb::Define => RefList::Impl,
        RefVerb::Verify => RefList::Verify,
        RefVerb::Depends | RefVerb::Related => RefList::Depends,
    }
}

/// A reference counts for a list of a rule: it names the rule's version, or,
/// for implementations and verifications, an older one.
pub open spec fn counts_for(r: RefModel, prefix: Seq<char>, rule: (Seq<char>, u32), list: RefList) -> bool {
    &&& r.prefix == prefix
    &&& verb_list(r.verb) == list
    &&& match reference_match(rule, r.req_id) {
        RuleIdMatch::Exact => true,
        RuleIdMatch::Stale => list != RefList::Depends,
        RuleIdMatch::NoMatch => false,
    }
}

/// A reference names an older version of a rule that it implements or verifies.
pub open spec fn is_stale_ref(r: RefModel, prefix: Seq<char>, rule: (Seq<char>, u32)) -> bool {
    &&& r.prefix == prefix
    &&& verb_list(r.verb) != RefList::Depends
    &&& reference_match(rule, r.req_id) == RuleIdMatch::Stale
}

/// The places among the first `n` references that count for a list of a rule.
pub open spec fn places(
    refs: Seq<RefModel>,
    n: int,
    root: Seq<char>,
    prefix: Seq<char>,
    rule: (Seq<char>, u32),
    list: RefList,
) -> Seq<(Seq<char>, usize)>
    decreases n,
{
    if n <= 0 {
        Seq::empty()
    } else {
        let before = places(refs, n - 1, root, prefix, rule, list);
        if counts_for(refs[n - 1], prefix, rule, list) {
            before.push((shown_path(root, refs[n - 1].file), refs[n - 1].line))
        } else {
            before
        }
    }
}

/// The stale references to a rule among the first `n` references.
pub open spec fn stale_places(
    refs: Seq<RefModel>,
    n: int,
    root: Seq<char>,
    prefix: Seq<char>,
    rule: (Seq<char>, u32),
) -> Seq<(Seq<char>, usize, (Seq<char>, u32))>
    decreases n,
{
    if n <= 0 {
        Seq::empty()
    } else {
        let before = stale_places(refs, n - 1, root, prefix, rule);
        let r = refs[n - 1];
        if is_stale_ref(r, prefix, rule) {
            before.push((shown_path(root, r.file), r.line, r.req_id))
        } else {
            before
        }
    }
}

/// The rule that an extracted requirement becomes, with the places that refer
/// to it.
pub open spec fn covered_rule(
    e: ExtractedModel,
    id: (Seq<char>, u32),
    refs: Seq<RefModel>,
    root: Seq<char>,
    prefix: Seq<char>,
) -> RuleModel {
    let n = refs.len() as int;
    let stale = stale_places(refs, n, root, prefix, id);
    RuleModel {
        id,
        raw: e.def.raw,
        html: e.def.html,
        status: match e.def.metadata.status {
            Some(s) => Some(status_word(s)),
            None => None,
        },
        level: match e.def.metadata.level {
            Some(l) => Some(level_word(l)),
            None => None,
        },
        source_file: Some(e.source_file),
        format: e.format,
        source_line: Some(e.def.line),
        source_column: e.column,
        section: e.section,
        section_title: e.section_title,
        impl_refs: places(refs, n, root, prefix, id, RefList::Impl),
        verify_refs: places(refs, n, root, prefix, id, RefList::Verify),
        depends_refs: places(refs, n, root, prefix, id, RefList::Depends),
        is_stale: stale.len() > 0,
        stale_refs: stale,
    }
}

/// The rules that extracted requirements become, in document order. One whose
/// id does not read back is left out.
pub open spec fn covered_rules(
    rules: Seq<ExtractedModel>,
    refs: Seq<RefModel>,
    root: Seq<char>,
    prefix: Seq<char>,
) -> Seq<RuleModel>
    decreases rules.len(),
{
    if rules.len() == 0 {
        Seq::empty()
    } else {
        let before = covered_rules(rules.drop_last(), refs, root, prefix);
        match parsed_rule_id(rule_text(rules.last().def.id)) {
            Some(id) => before.push(covered_rule(rules.last(), id, refs, root, prefix)),
            None => before,
        }
    }
}

/// What rules are ordered by: the base, then the version.
pub open spec fn rule_keys(rules: Seq<RuleModel>) -> Seq<KeyModel> {
    rules.map_values(|r: RuleModel| KeyModel { weight: 0, text: r.id.0, number: r.id.1 as int })
}

/// How many of the first `n` units refer to a requirement.
pub open spec fn covered_count(units: Seq<CodeUnit>, n: int) -> nat
    decreases n,
{
    if n <= 0 {
        0
    } else {
        covered_count(units, n - 1) + if units[n - 1].req_refs@.len() > 0 {
            1nat
        } else {
            0nat
        }
    }
}

/// The paths of files, with the units in them.
pub open spec fn unit_models(v: Seq<(String, Vec<CodeUnit>)>) -> Seq<(Seq<char>, Seq<CodeUnit>)> {
    v.map_values(|f: (String, Vec<CodeUnit>)| (f.0@, f.1@))
}

/// The coverage of one file's code.
pub open spec fn unit_entry(root: Seq<char>, f: (Seq<char>, Seq<CodeUnit>)) -> (
    Seq<char>,
    usize,
    usize,
) {
    (
        shown_path(root, f.0),
        f.1.len() as usize,
        covered_count(f.1, f.1.len() as int) as usize,
    )
}

/// A count, or the largest machine number where it is larger.
pub open spec fn at_most_max(n: nat) -> usize {
    if n <= usize::MAX {
        n as usize
    } else {
        usize::MAX
    }
}

/// The coverage of each file's code.
pub open spec fn unit_entries(root: Seq<char>, files: Seq<(Seq<char>, Seq<CodeUnit>)>) -> Seq<
    (Seq<char>, usize, usize),
> {
    files.map_values(|f: (Seq<char>, Seq<CodeUnit>)| unit_entry(root, f))
}

/// What file entries are ordered by.
pub open spec fn entry_keys(v: Seq<(Seq<char>, usize, usize)>) -> Seq<KeyModel> {
    v.map_values(|e: (Seq<char>, usize, usize)| KeyModel { weight: 0, text: e.0, number: 0 })
}

/// Number of units in all files.
pub open spec fn sum_units(v: Seq<(Seq<char>, usize, usize)>) -> nat
    decreases v.len(),
{
    if v.len() == 0 {
        0
    } else {
        sum_units(v.drop_last()) + v.last().1 as nat
    }
}

/// Number of units in all files that refer to a requirement.
pub open spec fn sum_covered(v: Seq<(Seq<char>, usize, usize)>) -> nat
    decreases v.len(),
{
    if v.len() == 0 {
        0
    } else {
        sum_covered(v.drop_last()) + v.last().2 as nat
    }
}

/// A rule as the search index takes it.
#[derive(Debug, Clone, PartialEq, Eq)]
pub struct RuleEntry {
    pub id: String,
    pub raw: String,
    pub format: crate::format::SpecFormat,
}

impl View for RuleEntry {
    type V = (Seq<char>, Seq<char>, crate::format::SpecFormat);

    open spec fn view(&self) -> (Seq<char>, Seq<char>, crate::format::SpecFormat) {
        (self.id@, self.raw@, self.format)
    }
}

pub open spec fn rule_entries(v: Seq<RuleEntry>) -> Seq<
    (Seq<char>, Seq<char>, crate::format::SpecFormat),
> {
    v.map_values(|e: RuleEntry| e@)
}

/// The search entries of extracted rules.
pub open spec fn search_entries(v: Seq<ExtractedModel>) -> Seq<
    (Seq<char>, Seq<char>, crate::format::SpecFormat),
> {
    v.map_values(|e: ExtractedModel| (rule_text(e.def.id), e.def.raw, e.format))
}

/// What is computed for one implementation.
pub struct ImplComputedOutput {
    pub impl_name: String,
    pub api_rules: Vec<ApiRule>,
    pub all_search_rules: Vec<RuleEntry>,
    pub reverse_data: ApiReverseData,
    pub refs_len: usize,
    pub code_files: usize,
}

fn ref_list_of(v: RefVerb) -> (r: RefList)
    ensures
        r == verb_list(v),
{
    match v {
        RefVerb::Impl => RefList::Impl,
        RefVerb::Define => RefList::Impl,
        RefVerb::Verify => RefList::Verify,
        RefVerb::Depends => RefList::Depends,
        RefVerb::Related => RefList::Depends,
    }
}

fn cover_rule(
    e: &ExtractedRule,
    id: RuleId,
    refs: &Vec<ReqReference>,
    root: &str,
    prefix: &str,
) -> (r: ApiRule)
    ensures
        r@ == covered_rule(e@, id@, ref_models(refs@), root@, prefix@),
{
    let ghost rs = ref_models(refs@);
    let mut impl_refs: Vec<ApiCodeRef> = Vec::new();
    let mut verify_refs: Vec<ApiCodeRef> = Vec::new();
    let mut depends_refs: Vec<ApiCodeRef> = Vec::new();
    let mut stale_refs: Vec<ApiStaleRef> = Vec::new();
    let mut i: usize = 0;
    assert(code_refs(impl_refs@) =~= Seq::<(Seq<char>, usize)>::empty());
    assert(stale_ref_views(stale_refs@) =~= Seq::<(Seq<char>, usize, (Seq<char>, u32))>::empty());
    while i < refs.len()
        invariant
            i <= refs@.len(),
            rs == ref_models(refs@),
            code_refs(impl_refs@) == places(rs, i as int, root@, prefix@, id@, RefList::Impl),
            code_refs(verify_refs@) == places(rs, i as int, root@, prefix@, id@, RefList::Verify),
            code_refs(depends_refs@) == places(rs, i as int, root@, prefix@, id@, RefList::Depends),
            stale_ref_views(stale_refs@) == stale_places(rs, i as int, root@, prefix@, id@),
        decreases refs@.len() - i,
    {
        let r = &refs[i];
        assert(rs[i as int] == r@);
        if str_eq(r.prefix.as_str(), prefix) {
            let m = classify_reference_for_rule(&id, &r.req_id);
            let list = ref_list_of(r.verb);
            let counts = match m {
                RuleIdMatch::Exact => true,
                RuleIdMatch::Stale => list != RefList::Depends,
                RuleIdMatch::NoMatch => false,
            };
            if counts {
                let file = show_path(root, r.file.as_str());
                let place = ApiCodeRef { file: copy_str(file.as_str()), line: r.line };
                let ghost a = impl_refs@;
                let ghost b = verify_refs@;
                let ghost c = depends_refs@;
                match list {
                    RefList::Impl => {
                        impl_refs.push(place);
                        assert(code_refs(impl_refs@) =~= code_refs(a).push(place@));
                    },
                    RefList::Verify => {
                        verify_refs.push(place);
                        assert(code_refs(verify_refs@) =~= code_refs(b).push(place@));
                    },
                    RefList::Depends => {
                        depends_refs.push(place);
                        assert(code_refs(depends_refs@) =~= code_refs(c).push(place@));
                    },
                }
                if m == RuleIdMatch::Stale {
                    let ghost before = stale_refs@;
                    let s = ApiStaleRef { file, line: r.line, reference_id: r.req_id.copy() };
                    stale_refs.push(s);
                    assert(stale_ref_views(stale_refs@) =~= stale_ref_views(before).push(s@));
                }
            }
        }
        i = i + 1;
    }
    let status = match e.def.metadata.status {
        Some(s) => Some(copy_str(s.as_str())),
        None => None,
    };
    let level = match e.def.metadata.level {
        Some(l) => Some(copy_str(l.as_str())),
        None => None,
    };
    let is_stale = stale_refs.len() > 0;
    assert(stale_ref_views(stale_refs@).len() == stale_refs@.len());
    ApiRule {
        id,
        raw: copy_str(e.def.raw.as_str()),
        html: copy_str(e.def.html.as_str()),
        status,
        level,
        source_file: Some(copy_str(e.source_file.as_str())),
        format: e.format,
        source_line: Some(e.def.line),
        source_column: e.column,
        section: copy_opt(&e.section),
        section_title: copy_opt(&e.section_title),
        impl_refs,
        verify_refs,
        depends_refs,
        is_stale,
        stale_refs,
    }
}

/// Rules in the order of their ids.
pub fn sort_rules(rules: &Vec<ApiRule>) -> (r: Vec<ApiRule>)
    ensures
        rule_models(r@) == in_order(rule_models(rules@), rule_keys(rule_models(rules@))),
{
    let ghost ms = rule_models(rules@);
    let mut keys: Vec<SortKey> = Vec::new();
    let mut i: usize = 0;
    while i < rules.len()
        invariant
            i <= rules@.len(),
            ms == rule_models(rules@),
            keys@.len() == i,
            forall|k: int| 0 <= k < i ==> (#[trigger] keys@[k])@ == rule_keys(ms)[k],
        decreases rules@.len() - i,
    {
        keys.push(
            SortKey {
                weight: 0,
                text: copy_str(rules[i].id.base.as_str()),
                number: rules[i].id.version,
            },
        );
        i = i + 1;
    }
    assert(key_models(keys@) =~= rule_keys(ms));
    let order = sort_positions(&keys);
    let mut out: Vec<ApiRule> = Vec::new();
    let mut j: usize = 0;
    while j < order.len()
        invariant
            j <= order@.len(),
            ms == rule_models(rules@),
            order@.len() == rules@.len(),
            positions(order@) == sorted_order(rule_keys(ms), ms.len() as int),
            forall|k: int| 0 <= k < order@.len() ==> #[trigger] order@[k] < rules@.len(),
            out@.len() == j,
            forall|k: int| 0 <= k < j ==> (#[trigger] out@[k])@ == ms[positions(order@)[k]],
        decreases order@.len() - j,
    {
        assert(order@[j as int] < rules@.len());
        out.push(rules[order[j]].copy());
        j = j + 1;
    }
    assert(rule_models(out@) =~= in_order(ms, rule_keys(ms)));
    out
}

fn entries_of_units(root: &str, files: &Vec<(String, Vec<CodeUnit>)>) -> (r: Vec<ApiFileEntry>)
    ensures
        file_entries(r@) == unit_entries(root@, unit_models(files@)),
{
    let mut out: Vec<ApiFileEntry> = Vec::new();
    let mut i: usize = 0;
    while i < files.len()
        invariant
            i <= files@.len(),
            out@.len() == i,
            forall|k: int| 0 <= k < i ==> (#[trigger] out@[k])@ == unit_entry(root@, unit_models(files@)[k]),
        decreases files@.len() - i,
    {
        let units = &files[i].1;
        let mut covered: usize = 0;
        let mut j: usize = 0;
        while j < units.len()
            invariant
                j <= units@.len(),
                covered == covered_count(units@, j as int),
                covered <= j,
            decreases units@.len() - j,
        {
            if units[j].req_refs.len() > 0 {
                covered = covered + 1;
            }
            j = j + 1;
        }
        let entry = ApiFileEntry {
            path: show_path(root, files[i].0.as_str()),
            total_units: units.len(),
            covered_units: covered,
        };
        assert(entry@ == unit_entry(root@, unit_models(files@)[i as int]));
        out.push(entry);
        i = i + 1;
    }
    assert(file_entries(out@) =~= unit_entries(root@, unit_models(files@)));
    out
}

fn sort_entries(entries: &Vec<ApiFileEntry>) -> (r: Vec<ApiFileEntry>)
    ensures
        file_entries(r@) == in_order(file_entries(entries@), entry_keys(file_entries(entries@))),
{
    let ghost es = file_entries(entries@);
    let mut keys: Vec<SortKey> = Vec::new();
    let mut i: usize = 0;
    while i < entries.len()
        invariant
            i <= entries@.len(),
            es == file_entries(entries@),
            keys@.len() == i,
            forall|k: int| 0 <= k < i ==> (#[trigger] keys@[k])@ == entry_keys(es)[k],
        decreases entries@.len() - i,
    {
        keys.push(SortKey { weight: 0, text: copy_str(entries[i].path.as_str()), number: 0 });
        i = i + 1;
    }
    assert(key_models(keys@) =~= entry_keys(es));
    let order = sort_positions(&keys);
    let mut out: Vec<ApiFileEntry> = Vec::new();
    let mut j: usize = 0;
    while j < order.len()
        invariant
            j <= order@.len(),
            es == file_entries(entries@),
            order@.len() == entries@.len(),
            positions(order@) == sorted_order(entry_keys(es), es.len() as int),
            forall|k: int| 0 <= k < order@.len() ==> #[trigger] order@[k] < entries@.len(),
            out@.len() == j,
            forall|k: int| 0 <= k < j ==> (#[trigger] out@[k])@ == es[positions(order@)[k]],
        decreases order@.len() - j,
    {
        assert(order@[j as int] < entries@.len());
        let e = &entries[order[j]];
        out.push(
            ApiFileEntry {
                path: copy_str(e.path.as_str()),
                total_units: e.total_units,
                covered_units: e.covered_units,
            },
        );
        j = j + 1;
    }
    assert(file_entries(out@) =~= in_order(es, entry_keys(es)));
    out
}

proof fn lemma_covered_at_most_total(v: Seq<(Seq<char>, usize, usize)>)
    requires
        forall|i: int| 0 <= i < v.len() ==> (#[trigger] v[i]).2 <= v[i].1,
    ensures
        sum_covered(v) <= sum_units(v),
    decreases v.len(),
{
    if v.len() > 0 {
        lemma_covered_at_most_total(v.drop_last());
    }
}

proof fn lemma_covered_count(units: Seq<CodeUnit>, n: int)
    requires
        0 <= n <= units.len(),
    ensures
        covered_count(units, n) <= n,
    decreases n,
{
    if n > 0 {
        lemma_covered_count(units, n - 1);
    }
}

/// No more code is covered than there is.
pub proof fn law_covered_within_total(root: Seq<char>, files: Seq<(Seq<char>, Seq<CodeUnit>)>)
    requires
        forall|i: int| 0 <= i < files.len() ==> (#[trigger] files[i]).1.len() <= usize::MAX,
    ensures
        sum_covered(unit_entries(root, files)) <= sum_units(unit_entries(root, files)),
{
    let v = unit_entries(root, files);
    assert forall|i: int| 0 <= i < v.len() implies (#[trigger] v[i]).2 <= v[i].1 by {
        assert(files[i].1.len() <= usize::MAX);
        lemma_covered_count(files[i].1, files[i].1.len() as int);
    }
    lemma_covered_at_most_total(v);
}

/// Compute the coverage of one implementation: for each rule the places that
/// implement, verify and depend on it, and for each file how many of its units
/// refer to a requirement. References are paths that have been resolved.
pub fn compute_impl_output(
    abs_root: &str,
    impl_name: String,
    inferred_prefix: &str,
    extracted_rules: &Vec<ExtractedRule>,
    refs: &Vec<ReqReference>,
    impl_code_units: &Vec<(String, Vec<CodeUnit>)>,
) -> (r: ImplComputedOutput)
    ensures
        r.impl_name@ == impl_name@,
        ({
            let rules = covered_rules(
                extracted_models(extracted_rules@),
                ref_models(refs@),
                abs_root@,
                inferred_prefix@,
            );
            rule_models(r.api_rules@) == in_order(rules, rule_keys(rules))
        }),
        rule_entries(r.all_search_rules@) == search_entries(extracted_models(extracted_rules@)),
        ({
            let entries = unit_entries(abs_root@, unit_models(impl_code_units@));
            &&& r.reverse_data.total_units == at_most_max(sum_units(entries))
            &&& r.reverse_data.covered_units == at_most_max(sum_covered(entries))
            &&& file_entries(r.reverse_data.files@) == in_order(entries, entry_keys(entries))
        }),
        r.refs_len == refs@.len(),
        r.code_files == impl_code_units@.len(),
{
    let ghost es = extracted_models(extracted_rules@);
    let ghost rs = ref_models(refs@);
    let mut rules: Vec<ApiRule> = Vec::new();
    let mut search: Vec<RuleEntry> = Vec::new();
    let mut i: usize = 0;
    assert(rule_models(rules@) =~= Seq::<RuleModel>::empty());
    while i < extracted_rules.len()
        invariant
            i <= extracted_rules@.len(),
            es == extracted_models(extracted_rules@),
            rs == ref_models(refs@),
            rule_models(rules@) == covered_rules(es.take(i as int), rs, abs_root@, inferred_prefix@),
            search@.len() == i,
            forall|k: int| 0 <= k < i ==> (#[trigger] search@[k])@ == search_entries(es)[k],
        decreases extracted_rules@.len() - i,
    {
        let e = &extracted_rules[i];
        proof {
            assert(es.take(i + 1).drop_last() =~= es.take(i as int));
            assert(es.take(i + 1).last() == e@);
        }
        let text = e.def.id.text();
        match parse_rule_id(text.as_str()) {
            Some(id) => {
                let rule = cover_rule(e, id, refs, abs_root, inferred_prefix);
                let ghost before = rules@;
                rules.push(rule);
                assert(rule_models(rules@) =~= rule_models(before).push(rule@));
            },
            None => {},
        }
        search.push(RuleEntry { id: text, raw: copy_str(e.def.raw.as_str()), format: e.format });
        i = i + 1;
    }
    assert(es.take(i as int) =~= es);
    assert(rule_entries(search@) =~= search_entries(es));
    let api_rules = sort_rules(&rules);
    let entries = entries_of_units(abs_root, impl_code_units);
    let ghost us = unit_entries(abs_root@, unit_models(impl_code_units@));
    let mut total: usize = 0;
    let mut covered: usize = 0;
    let mut j: usize = 0;
    while j < entries.len()
        invariant
            j <= entries@.len(),
            us == file_entries(entries@),
            total == at_most_max(sum_units(us.take(j as int))),
            covered == at_most_max(sum_covered(us.take(j as int))),
        decreases entries@.len() - j,
    {
        proof {
            assert(us.take(j + 1).drop_last() =~= us.take(j as int));
        }
        total = total.saturating_add(entries[j].total_units);
        covered = covered.saturating_add(entries[j].covered_units);
        j = j + 1;
    }
    assert(us.take(j as int) =~= us);
    let files = sort_entries(&entries);
    ImplComputedOutput {
        impl_name,
        api_rules,
        all_search_rules: search,
        reverse_data: ApiReverseData { total_units: total, covered_units: covered, files },
        refs_len: refs.len(),
        code_files: impl_code_units.len(),
    }
}

/// A rule is stale exactly where it has a stale reference, and every stale
/// reference is also counted as implementing or verifying the rule.
pub proof fn law_stale_refs_are_counted(
    refs: Seq<RefModel>,
    n: int,
    root: Seq<char>,
    prefix: Seq<char>,
    rule: (Seq<char>, u32),
)
    requires
        0 <= n <= refs.len(),
    ensures
        stale_places(refs, n, root, prefix, rule).len() <= places(
            refs,
            n,
            root,
            prefix,
            rule,
            RefList::Impl,
        ).len() + places(refs, n, root, prefix, rule, RefList::Verify).len(),
    decreases n,
{
    if n > 0 {
        law_stale_refs_are_counted(refs, n - 1, root, prefix, rule);
    }
}

/// No reference counts for two lists of a rule.
pub proof fn law_reference_counts_once(
    r: RefModel,
    prefix: Seq<char>,
    rule: (Seq<char>, u32),
    a: RefList,
    b: RefList,
)
    requires
        counts_for(r, prefix, rule, a),
        counts_for(r, prefix, rule, b),
    ensures
        a == b,
{
}

/// The rules handed out are ordered by id.
pub proof fn law_rules_sorted(rules: Seq<RuleModel>)
    ensures
        ({
            let sorted = in_order(rules, rule_keys(rules));
            &&& sorted.len() == rules.len()
            &&& forall|i: int, j: int|
                0 <= i < j < sorted.len() ==> crate::order::key_le(
                    #[trigger] rule_keys(sorted)[i],
                    #[trigger] rule_keys(sorted)[j],
                )
        }),
{
    let keys = rule_keys(rules);
    law_sorted(keys, keys.len() as int);
    let order = sorted_order(keys, keys.len() as int);
    let sorted = in_order(rules, keys);
    assert forall|i: int, j: int| 0 <= i < j < sorted.len() implies crate::order::key_le(
        #[trigger] rule_keys(sorted)[i],
        #[trigger] rule_keys(sorted)[j],
    ) by {
        assert(crate::order::key_le(keys[order[i]], keys[order[j]]));
    }
}

} // verus!
