//! Answers to questions about a project.

use vstd::prelude::*;

use crate::api::{
    error_models, spec_infos, ApiConfig, ImplKey, SpecInfoModel, ValidationError, ValidationResult,
};
use crate::lsp::{previous_matches, PreviousVersion};
use crate::requirement::copy_opt;
use crate::rule_id::{id_views, RuleId};
use crate::text::{copy_str, opt_text, str_eq, texts};
use crate::validation::{entry_of, find_entry, keyed};

verus! {

/// The first implementation of the first spec, from the `i`-th on, with the
/// given name; empty where there is none.
pub open spec fn first_impl(specs: Seq<SpecInfoModel>, name: Seq<char>, i: int) -> Seq<char>
    decreases specs.len() - i,
{
    if i < 0 || i >= specs.len() {
        Seq::empty()
    } else if specs[i].name == name {
        if specs[i].implementations.len() > 0 {
            specs[i].implementations[0]
        } else {
            Seq::empty()
        }
    } else {
        first_impl(specs, name, i + 1)
    }
}

/// The spec and the implementation that a question is about: the first spec
/// where none is named, and its first implementation where none is named.
pub open spec fn resolved_pair(
    spec_name: Option<Seq<char>>,
    impl_name: Option<Seq<char>>,
    specs: Seq<SpecInfoModel>,
) -> (Seq<char>, Seq<char>) {
    let s = match spec_name {
        Some(s) => s,
        None => if specs.len() > 0 {
            specs[0].name
        } else {
            Seq::empty()
        },
    };
    let i = match impl_name {
        Some(i) => i,
        None => first_impl(specs, s, 0),
    };
    (s, i)
}

fn first_impl_of(config: &ApiConfig, name: &str) -> (r: String)
    ensures
        r@ == first_impl(spec_infos(config.specs@), name@, 0),
{
    let ghost ss = spec_infos(config.specs@);
    let mut i: usize = 0;
    while i < config.specs.len()
        invariant
            i <= config.specs@.len(),
            ss == spec_infos(config.specs@),
            first_impl(ss, name@, 0) == first_impl(ss, name@, i as int),
        decreases config.specs@.len() - i,
    {
        let s = &config.specs[i];
        assert(ss[i as int] == s@);
        assert(texts(s.implementations@).len() == s.implementations@.len());
        if str_eq(s.name.as_str(), name) {
            if s.implementations.len() > 0 {
                return copy_str(s.implementations[0].as_str());
            }
            let none = String::new();
            assert(none@ =~= Seq::<char>::empty());
            return none;
        }
        i = i + 1;
    }
    let none = String::new();
    assert(none@ =~= Seq::<char>::empty());
    none
}

/// Resolve the spec and the implementation that a question is about.
pub fn resolve_spec_impl(
    spec_name: &Option<String>,
    impl_name: &Option<String>,
    config: &ApiConfig,
) -> (r: ImplKey)
    ensures
        r@ == resolved_pair(opt_text(*spec_name), opt_text(*impl_name), spec_infos(config.specs@)),
{
    assert(spec_infos(config.specs@).len() == config.specs@.len());
    let s = match spec_name {
        Some(s) => copy_str(s.as_str()),
        None => if config.specs.len() > 0 {
            assert(spec_infos(config.specs@)[0] == config.specs@[0]@);
            copy_str(config.specs[0].name.as_str())
        } else {
            let none = String::new();
            assert(none@ =~= Seq::<char>::empty());
            none
        },
    };
    let i = match impl_name {
        Some(i) => copy_str(i.as_str()),
        None => first_impl_of(config, s.as_str()),
    };
    ImplKey { spec_name: s, impl_name: i }
}

/// How the rules of an implementation are covered, as a query found it.
pub struct CoverageStats {
    pub total_rules: usize,
    pub impl_covered: usize,
    pub verify_covered: usize,
    pub stale_covered: usize,
}

/// How the rules of an implementation are covered.
#[derive(Debug, Clone, PartialEq, Eq)]
pub struct ImplStatus {
    pub spec: String,
    pub impl_name: String,
    pub total_rules: usize,
    pub covered_rules: usize,
    pub stale_rules: usize,
    pub verified_rules: usize,
}

/// A status says what the query found of an implementation.
pub open spec fn status_says(s: ImplStatus, found: (ImplKey, CoverageStats)) -> bool {
    &&& (s.spec@, s.impl_name@) == found.0@
    &&& s.total_rules == found.1.total_rules
    &&& s.covered_rules == found.1.impl_covered
    &&& s.stale_rules == found.1.stale_covered
    &&& s.verified_rules == found.1.verify_covered
}

/// The coverage status of all implementations, in order.
pub fn status(stats: Vec<(ImplKey, CoverageStats)>) -> (r: Vec<ImplStatus>)
    ensures
        r@.len() == stats@.len(),
        forall|i: int| 0 <= i < r@.len() ==> status_says(#[trigger] r@[i], stats@[i]),
{
    let ghost all = stats@;
    let mut out: Vec<ImplStatus> = Vec::new();
    for s in it: stats
        invariant
            it.seq() == all,
            out@.len() == it.index(),
            forall|i: int| 0 <= i < out@.len() ==> status_says(#[trigger] out@[i], all[i]),
    {
        out.push(
            ImplStatus {
                spec: s.0.spec_name,
                impl_name: s.0.impl_name,
                total_rules: s.1.total_rules,
                covered_rules: s.1.impl_covered,
                stale_rules: s.1.stale_covered,
                verified_rules: s.1.verify_covered,
            },
        );
    }
    out
}

/// A rule in an answer. Its text is left out.
#[derive(Debug, Clone, PartialEq, Eq)]
pub struct RuleRef {
    pub id: RuleId,
    pub text: Option<String>,
}

/// The rules of a section in an answer.
#[derive(Debug, Clone, PartialEq, Eq)]
pub struct SectionRules {
    pub section: String,
    pub rules: Vec<RuleRef>,
}

/// Rules that lack coverage, as a query found them.
pub struct CoverageQuery {
    pub spec: String,
    pub impl_name: String,
    pub total_rules: usize,
    /// How many rules lack coverage.
    pub lacking: usize,
    pub by_section: Vec<(String, Vec<RuleId>)>,
}

/// An answer about rules that lack coverage.
#[derive(Debug, Clone, PartialEq, Eq)]
pub struct CoverageResponse {
    pub spec: String,
    pub impl_name: String,
    pub total_rules: usize,
    pub count: usize,
    pub by_section: Vec<SectionRules>,
}

/// The sections that a query found.
pub open spec fn found_sections(v: Seq<(String, Vec<RuleId>)>) -> Seq<
    (Seq<char>, Seq<(Seq<char>, u32)>),
> {
    v.map_values(|s: (String, Vec<RuleId>)| (s.0@, id_views(s.1@)))
}

/// The ids of rules in an answer.
pub open spec fn rule_ref_ids(v: Seq<RuleRef>) -> Seq<(Seq<char>, u32)> {
    v.map_values(|r: RuleRef| r.id@)
}

/// The sections of an answer.
pub open spec fn answer_sections(v: Seq<SectionRules>) -> Seq<
    (Seq<char>, Seq<(Seq<char>, u32)>),
> {
    v.map_values(|s: SectionRules| (s.section@, rule_ref_ids(s.rules@)))
}

/// No text is given for any rule.
pub open spec fn no_texts(v: Seq<SectionRules>) -> bool {
    forall|i: int, j: int|
        0 <= i < v.len() && 0 <= j < v[i].rules@.len() ==> (#[trigger] v[i].rules@[j]).text is None
}

fn rule_refs_of(ids: Vec<RuleId>) -> (r: Vec<RuleRef>)
    ensures
        rule_ref_ids(r@) == id_views(ids@),
        forall|j: int| 0 <= j < r@.len() ==> (#[trigger] r@[j]).text is None,
{
    let mut out: Vec<RuleRef> = Vec::new();
    for id in it: ids
        invariant
            it.seq() == ids@,
            out@.len() == it.index(),
            forall|k: int|
                0 <= k < out@.len() ==> (#[trigger] out@[k]).id@ == ids@[k]@ && out@[k].text is None,
    {
        out.push(RuleRef { id, text: None });
    }
    assert(rule_ref_ids(out@) =~= id_views(ids@));
    out
}

/// The answer about rules that lack coverage (of an implementation or of a
/// verification): what the query found, or nothing about the pair asked for.
pub fn coverage_response(query: Option<CoverageQuery>, asked: ImplKey) -> (r: CoverageResponse)
    ensures
        no_texts(r.by_section@),
        match query {
            Some(q) => {
                &&& r.spec@ == q.spec@
                &&& r.impl_name@ == q.impl_name@
                &&& r.total_rules == q.total_rules
                &&& r.count == q.lacking
                &&& answer_sections(r.by_section@) == found_sections(q.by_section@)
            },
            None => {
                &&& (r.spec@, r.impl_name@) == asked@
                &&& r.total_rules == 0
                &&& r.count == 0
                &&& r.by_section@.len() == 0
            },
        },
{
    match query {
        Some(q) => {
            let mut sections: Vec<SectionRules> = Vec::new();
            let ghost want = found_sections(q.by_section@);
            for s in it: q.by_section
                invariant
                    it.seq() == q.by_section@,
                    want == found_sections(q.by_section@),
                    sections@.len() == it.index(),
                    no_texts(sections@),
                    forall|k: int|
                        0 <= k < sections@.len() ==> (
                            (#[trigger] sections@[k]).section@,
                            rule_ref_ids(sections@[k].rules@),
                        ) == want[k],
            {
                let ghost before = sections@;
                let one = SectionRules { section: s.0, rules: rule_refs_of(s.1) };
                sections.push(one);
                assert forall|i: int, j: int|
                    0 <= i < sections@.len() && 0 <= j < sections@[i].rules@.len() implies (
                #[trigger] sections@[i].rules@[j]).text is None by {
                    if i < before.len() {
                        assert(before[i].rules@[j].text is None);
                    }
                }
            }
            assert(answer_sections(sections@) =~= want);
            CoverageResponse {
                spec: q.spec,
                impl_name: q.impl_name,
                total_rules: q.total_rules,
                count: q.lacking,
                by_section: sections,
            }
        },
        None => CoverageResponse {
            spec: asked.spec_name,
            impl_name: asked.impl_name,
            total_rules: 0,
            count: 0,
            by_section: Vec::new(),
        },
    }
}

/// A reference to an older version of a rule in an answer.
#[derive(Debug, Clone, PartialEq, Eq)]
pub struct StaleEntry {
    pub current_id: RuleId,
    pub file: String,
    pub line: usize,
    pub reference_id: RuleId,
}

/// Stale references, as a query found them.
pub struct StaleQuery {
    pub spec: String,
    pub impl_name: String,
    pub total_rules: usize,
    pub entries: Vec<StaleEntry>,
}

/// An answer about stale references.
#[derive(Debug, Clone, PartialEq, Eq)]
pub struct StaleResponse {
    pub spec: String,
    pub impl_name: String,
    pub total_rules: usize,
    pub stale_count: usize,
    pub refs: Vec<StaleEntry>,
}

/// The answer about stale references: what the query found, or nothing about
/// the pair asked for.
pub fn stale_response(query: Option<StaleQuery>, asked: ImplKey) -> (r: StaleResponse)
    ensures
        r.stale_count == r.refs@.len(),
        match query {
            Some(q) => {
                &&& r.spec@ == q.spec@
                &&& r.impl_name@ == q.impl_name@
                &&& r.total_rules == q.total_rules
                &&& r.refs@ == q.entries@
            },
            None => {
                &&& (r.spec@, r.impl_name@) == asked@
                &&& r.total_rules == 0
                &&& r.refs@.len() == 0
            },
        },
{
    match query {
        Some(q) => {
            let stale_count = q.entries.len();
            StaleResponse {
                spec: q.spec,
                impl_name: q.impl_name,
                total_rules: q.total_rules,
                stale_count,
                refs: q.entries,
            }
        },
        None => StaleResponse {
            spec: asked.spec_name,
            impl_name: asked.impl_name,
            total_rules: 0,
            stale_count: 0,
            refs: Vec::new(),
        },
    }
}

/// A directory or file with how much of its code is covered.
pub struct FileTreeNode {
    pub path: String,
    pub is_dir: bool,
    pub total_units: usize,
    pub covered_units: usize,
    pub children: Vec<FileTreeNode>,
}

/// A unit of code in an answer, with whether it is covered.
pub struct UnitDetail {
    pub kind: String,
    pub name: Option<String>,
    pub start_line: usize,
    pub end_line: usize,
    pub is_covered: bool,
}

/// The units of the file asked for.
pub struct FileDetails {
    pub path: String,
    pub units: Vec<UnitDetail>,
}

/// Unmapped code, as a query found it.
pub struct UnmappedQuery {
    pub spec: String,
    pub impl_name: String,
    pub total_units: usize,
    pub covered_units: usize,
    pub tree: Vec<FileTreeNode>,
    pub file_details: Option<FileDetails>,
}

/// A unit of code that refers to no requirement.
#[derive(Debug, Clone, PartialEq, Eq)]
pub struct UnmappedUnit {
    pub kind: String,
    pub name: Option<String>,
    pub start_line: usize,
    pub end_line: usize,
}

impl View for UnmappedUnit {
    type V = (Seq<char>, Option<Seq<char>>, usize, usize);

    open spec fn view(&self) -> (Seq<char>, Option<Seq<char>>, usize, usize) {
        (self.kind@, opt_text(self.name), self.start_line, self.end_line)
    }
}

pub open spec fn unmapped_models(v: Seq<UnmappedUnit>) -> Seq<
    (Seq<char>, Option<Seq<char>>, usize, usize),
> {
    v.map_values(|u: UnmappedUnit| u@)
}

/// A directory or file in an answer about unmapped code.
#[derive(Debug, Clone, PartialEq, Eq)]
pub struct UnmappedEntry {
    pub path: String,
    pub is_dir: bool,
    pub total_units: usize,
    pub unmapped_units: usize,
    pub units: Vec<UnmappedUnit>,
}

/// A directory or file in an answer about unmapped code.
#[verifier::ext_equal]
pub struct UnmappedModel {
    pub path: Seq<char>,
    pub is_dir: bool,
    pub total_units: usize,
    pub unmapped_units: usize,
    pub units: Seq<(Seq<char>, Option<Seq<char>>, usize, usize)>,
}

impl View for UnmappedEntry {
    type V = UnmappedModel;

    open spec fn view(&self) -> UnmappedModel {
        UnmappedModel {
            path: self.path@,
            is_dir: self.is_dir,
            total_units: self.total_units,
            unmapped_units: self.unmapped_units,
            units: unmapped_models(self.units@),
        }
    }
}

pub open spec fn entry_models(v: Seq<UnmappedEntry>) -> Seq<UnmappedModel> {
    v.map_values(|e: UnmappedEntry| e@)
}

/// How much more there is in `a` than in `b`.
pub open spec fn difference(a: usize, b: usize) -> usize {
    if a >= b {
        (a - b) as usize
    } else {
        0
    }
}

/// A node of the tree in an answer, without its units.
pub open spec fn node_entry(n: FileTreeNode) -> UnmappedModel {
    UnmappedModel {
        path: n.path@,
        is_dir: n.is_dir,
        total_units: n.total_units,
        unmapped_units: difference(n.total_units, n.covered_units),
        units: Seq::empty(),
    }
}

/// The nodes of a tree, each before its children.
pub open spec fn flat_node(n: FileTreeNode) -> Seq<UnmappedModel>
    decreases n,
{
    seq![node_entry(n)] + flat_nodes(n.children@, n.children@.len() as int)
}

/// The nodes of the first `n` trees, each before its children.
pub open spec fn flat_nodes(v: Seq<FileTreeNode>, n: int) -> Seq<UnmappedModel>
    decreases v, n,
{
    if n <= 0 || n > v.len() {
        Seq::empty()
    } else {
        flat_nodes(v, n - 1) + flat_node(v[n - 1])
    }
}

fn flatten_tree(n: &FileTreeNode, out: &mut Vec<UnmappedEntry>)
    ensures
        entry_models(final(out)@) == entry_models(old(out)@) + flat_node(*n),
    decreases n,
{
    let ghost start = entry_models(out@);
    let units: Vec<UnmappedUnit> = Vec::new();
    let e = UnmappedEntry {
        path: copy_str(n.path.as_str()),
        is_dir: n.is_dir,
        total_units: n.total_units,
        unmapped_units: n.total_units.saturating_sub(n.covered_units),
        units,
    };
    let ghost before = out@;
    proof {
        assert(unmapped_models(units@) =~= Seq::<
            (Seq<char>, Option<Seq<char>>, usize, usize),
        >::empty());
        assert(e@ =~= node_entry(*n));
    }
    out.push(e);
    assert(entry_models(out@) =~= entry_models(before).push(e@));
    let mut i: usize = 0;
    let ghost head = start + seq![node_entry(*n)];
    assert(entry_models(out@) =~= head + flat_nodes(n.children@, 0));
    while i < n.children.len()
        invariant
            i <= n.children@.len(),
            entry_models(out@) == head + flat_nodes(n.children@, i as int),
        decreases n.children@.len() - i,
    {
        assert(decreases_to!(n => n.children));
        assert(decreases_to!(n.children => n.children@));
        assert(decreases_to!(n.children@ => n.children@[i as int]));
        flatten_tree(&n.children[i], out);
        assert(head + flat_nodes(n.children@, i as int) + flat_node(n.children@[i as int]) =~= head
            + flat_nodes(n.children@, i + 1));
        i = i + 1;
    }
    assert(entry_models(out@) =~= start + flat_node(*n));
}

/// The units of a file that refer to no requirement.
pub open spec fn uncovered_units(v: Seq<UnitDetail>) -> Seq<
    (Seq<char>, Option<Seq<char>>, usize, usize),
>
    decreases v.len(),
{
    if v.len() == 0 {
        Seq::empty()
    } else {
        let before = uncovered_units(v.drop_last());
        let u = v.last();
        if u.is_covered {
            before
        } else {
            before.push((u.kind@, opt_text(u.name), u.start_line, u.end_line))
        }
    }
}

fn uncovered_units_of(v: &Vec<UnitDetail>) -> (r: Vec<UnmappedUnit>)
    ensures
        unmapped_models(r@) == uncovered_units(v@),
{
    let mut out: Vec<UnmappedUnit> = Vec::new();
    let mut i: usize = 0;
    proof {
        assert(v@.take(0) =~= Seq::<UnitDetail>::empty());
        assert(unmapped_models(out@) =~= Seq::<
            (Seq<char>, Option<Seq<char>>, usize, usize),
        >::empty());
    }
    while i < v.len()
        invariant
            i <= v@.len(),
            unmapped_models(out@) == uncovered_units(v@.take(i as int)),
        decreases v@.len() - i,
    {
        let u = &v[i];
        proof {
            assert(v@.take(i + 1).drop_last() =~= v@.take(i as int));
            assert(v@.take(i + 1).last() == *u);
        }
        if !u.is_covered {
            let one = UnmappedUnit {
                kind: copy_str(u.kind.as_str()),
                name: copy_opt(&u.name),
                start_line: u.start_line,
                end_line: u.end_line,
            };
            let ghost before = out@;
            out.push(one);
            assert(unmapped_models(out@) =~= unmapped_models(before).push(one@));
        }
        i = i + 1;
    }
    assert(v@.take(i as int) =~= v@);
    out
}

/// The first entry with the given path.
pub open spec fn entry_with_path(v: Seq<UnmappedModel>, path: Seq<char>, i: int) -> Option<int>
    decreases v.len() - i,
{
    if i < 0 || i >= v.len() {
        None
    } else if v[i].path == path {
        Some(i)
    } else {
        entry_with_path(v, path, i + 1)
    }
}

/// The entries of an answer: the nodes of the tree, and the uncovered units of
/// the file asked for.
pub open spec fn unmapped_entries(q: UnmappedQuery) -> Seq<UnmappedModel> {
    let flat = flat_nodes(q.tree@, q.tree@.len() as int);
    match q.file_details {
        None => flat,
        Some(d) => match entry_with_path(flat, d.path@, 0) {
            None => flat,
            Some(i) => flat.update(
                i,
                UnmappedModel { units: uncovered_units(d.units@), ..flat[i] },
            ),
        },
    }
}

/// An answer about unmapped code.
#[derive(Debug, Clone, PartialEq, Eq)]
pub struct UnmappedResponse {
    pub spec: String,
    pub impl_name: String,
    pub total_units: usize,
    pub unmapped_count: usize,
    pub entries: Vec<UnmappedEntry>,
}

fn add_details(entries: Vec<UnmappedEntry>, d: &FileDetails) -> (r: Vec<UnmappedEntry>)
    ensures
        entry_models(r@) == match entry_with_path(entry_models(entries@), d.path@, 0) {
            None => entry_models(entries@),
            Some(i) => entry_models(entries@).update(
                i,
                UnmappedModel { units: uncovered_units(d.units@), ..entry_models(entries@)[i] },
            ),
        },
{
    let ghost es = entry_models(entries@);
    let mut out = entries;
    let mut i: usize = 0;
    while i < out.len()
        invariant
            i <= out@.len(),
            out@ == entries@,
            es == entry_models(entries@),
            entry_with_path(es, d.path@, 0) == entry_with_path(es, d.path@, i as int),
        decreases out@.len() - i,
    {
        assert(es[i as int] == out@[i as int]@);
        if str_eq(out[i].path.as_str(), d.path.as_str()) {
            let mut e = out.remove(i);
            e.units = uncovered_units_of(&d.units);
            out.insert(i, e);
            proof {
                assert(out@ =~= entries@.update(i as int, e));
                assert(entry_models(out@) =~= es.update(i as int, e@));
            }
            return out;
        }
        i = i + 1;
    }
    out
}

/// The answer about unmapped code: what the query found, or nothing about the
/// pair asked for.
pub fn unmapped_response(query: Option<UnmappedQuery>, asked: ImplKey) -> (r: UnmappedResponse)
    ensures
        match query {
            Some(q) => {
                &&& r.spec@ == q.spec@
                &&& r.impl_name@ == q.impl_name@
                &&& r.total_units == q.total_units
                &&& r.unmapped_count == difference(q.total_units, q.covered_units)
                &&& entry_models(r.entries@) == unmapped_entries(q)
            },
            None => {
                &&& (r.spec@, r.impl_name@) == asked@
                &&& r.total_units == 0
                &&& r.unmapped_count == 0
                &&& r.entries@.len() == 0
            },
        },
{
    match query {
        Some(q) => {
            let mut entries: Vec<UnmappedEntry> = Vec::new();
            let mut i: usize = 0;
            assert(entry_models(entries@) =~= Seq::<UnmappedModel>::empty());
            while i < q.tree.len()
                invariant
                    i <= q.tree@.len(),
                    entry_models(entries@) == flat_nodes(q.tree@, i as int),
                decreases q.tree@.len() - i,
            {
                flatten_tree(&q.tree[i], &mut entries);
                i = i + 1;
            }
            let entries = match &q.file_details {
                Some(d) => add_details(entries, d),
                None => entries,
            };
            UnmappedResponse {
                spec: q.spec,
                impl_name: q.impl_name,
                total_units: q.total_units,
                unmapped_count: q.total_units.saturating_sub(q.covered_units),
                entries,
            }
        },
        None => UnmappedResponse {
            spec: asked.spec_name,
            impl_name: asked.impl_name,
            total_units: 0,
            unmapped_count: 0,
            entries: Vec::new(),
        },
    }
}

/// What a rule is compared with where it is shown on its own: the version before
/// it, where references to it are stale.
pub open spec fn stale_previous(
    is_stale: bool,
    id: (Seq<char>, u32),
    source_file: Option<Seq<char>>,
) -> Option<(Seq<char>, (Seq<char>, u32))> {
    match source_file {
        Some(file) => if is_stale && id.1 > 1 {
            Some((file, (id.0, (id.1 - 1) as u32)))
        } else {
            None
        },
        None => None,
    }
}

/// What a rule is compared with where it is shown on its own.
pub fn previous_for_rule(is_stale: bool, id: &RuleId, source_file: &Option<String>) -> (r: Option<
    PreviousVersion,
>)
    ensures
        previous_matches(r, stale_previous(is_stale, id@, opt_text(*source_file))),
{
    match source_file {
        Some(file) => if is_stale && id.version > 1 {
            Some(
                PreviousVersion {
                    source_file: copy_str(file.as_str()),
                    rule_id: RuleId {
                        base: copy_str(id.base.as_str()),
                        version: id.version - 1,
                    },
                },
            )
        } else {
            None
        },
        None => None,
    }
}

fn copy_error(e: &ValidationError) -> (r: ValidationError)
    ensures
        r@ == e@,
{
    let reference_rule_id = match &e.reference_rule_id {
        Some(id) => Some(id.copy()),
        None => None,
    };
    ValidationError {
        code: e.code,
        message: copy_str(e.message.as_str()),
        file: copy_opt(&e.file),
        line: e.line,
        column: e.column,
        related_rules: crate::rule_id::copy_ids(&e.related_rules),
        reference_rule_id,
        reference_text: copy_opt(&e.reference_text),
    }
}

/// What validation found for the pair asked for; no errors where nothing is
/// known of it.
pub fn validate(validation_by_impl: &Vec<(ImplKey, ValidationResult)>, asked: ImplKey) -> (r:
    ValidationResult)
    ensures
        match entry_of(keyed(validation_by_impl@), asked@) {
            Some(v) => {
                &&& r.spec_name@ == v.spec_name@
                &&& r.impl_name@ == v.impl_name@
                &&& error_models(r.errors@) == error_models(v.errors@)
                &&& r.warning_count == v.warning_count
                &&& r.error_count == v.error_count
            },
            None => {
                &&& (r.spec_name@, r.impl_name@) == asked@
                &&& r.errors@.len() == 0
                &&& r.warning_count == 0
                &&& r.error_count == 0
            },
        },
{
    match find_entry(validation_by_impl, &asked) {
        Some(i) => {
            let v = &validation_by_impl[i].1;
            let mut errors: Vec<ValidationError> = Vec::new();
            let mut j: usize = 0;
            while j < v.errors.len()
                invariant
                    j <= v.errors@.len(),
                    errors@.len() == j,
                    forall|k: int| 0 <= k < j ==> (#[trigger] errors@[k])@ == v.errors@[k]@,
                decreases v.errors@.len() - j,
            {
                errors.push(copy_error(&v.errors[j]));
                j = j + 1;
            }
            assert(error_models(errors@) =~= error_models(v.errors@));
            ValidationResult {
                spec_name: copy_str(v.spec_name.as_str()),
                impl_name: copy_str(v.impl_name.as_str()),
                errors,
                warning_count: v.warning_count,
                error_count: v.error_count,
            }
        },
        None => ValidationResult {
            spec_name: asked.spec_name,
            impl_name: asked.impl_name,
            errors: Vec::new(),
            warning_count: 0,
            error_count: 0,
        },
    }
}

/// What a watcher of the file system says.
#[derive(Debug, Clone, PartialEq, Eq)]
pub struct WatcherStatus {
    pub active: bool,
    pub error: Option<String>,
    pub last_event_ms: Option<u64>,
    pub event_count: u64,
    pub directories: Vec<String>,
}

/// How the daemon is doing.
#[derive(Debug, Clone, PartialEq, Eq)]
pub struct HealthResponse {
    pub version: u64,
    pub watcher: WatcherStatus,
    pub config_error: Option<String>,
    pub uptime_secs: u64,
}

/// How the daemon is doing; without a watcher its part is empty.
pub fn health(
    version: u64,
    uptime_secs: u64,
    config_error: Option<String>,
    watcher: Option<WatcherStatus>,
) -> (r: HealthResponse)
    ensures
        r.version == version,
        r.uptime_secs == uptime_secs,
        r.config_error == config_error,
        match watcher {
            Some(w) => r.watcher == w,
            None => {
                &&& !r.watcher.active
                &&& r.watcher.error is None
                &&& r.watcher.last_event_ms is None
                &&& r.watcher.event_count == 0
                &&& r.watcher.directories@.len() == 0
            },
        },
{
    let watcher = match watcher {
        Some(w) => w,
        None => WatcherStatus {
            active: false,
            error: None,
            last_event_ms: None,
            event_count: 0,
            directories: Vec::new(),
        },
    };
    HealthResponse { version, watcher, config_error, uptime_secs }
}

/// A rule that came to be covered, and where.
#[derive(Debug, Clone, PartialEq, Eq)]
pub struct CoverageChange {
    pub rule_id: RuleId,
    pub file: String,
    pub line: usize,
}

/// What changed for one implementation.
#[derive(Debug, Clone, PartialEq, Eq)]
pub struct ImplDelta {
    pub newly_covered: Vec<CoverageChange>,
    pub newly_uncovered: Vec<RuleId>,
}

/// What changed for all implementations together.
#[derive(Debug, Clone, PartialEq, Eq)]
pub struct DeltaSummary {
    pub newly_covered: Vec<CoverageChange>,
    pub newly_uncovered: Vec<RuleId>,
}

/// The rules that came to be covered, one implementation after the other.
pub open spec fn all_covered(v: Seq<ImplDelta>) -> Seq<CoverageChange>
    decreases v.len(),
{
    if v.len() == 0 {
        Seq::empty()
    } else {
        all_covered(v.drop_last()) + v.last().newly_covered@
    }
}

/// The rules that are no longer covered, one implementation after the other.
pub open spec fn all_uncovered(v: Seq<ImplDelta>) -> Seq<RuleId>
    decreases v.len(),
{
    if v.len() == 0 {
        Seq::empty()
    } else {
        all_uncovered(v.drop_last()) + v.last().newly_uncovered@
    }
}

/// What changed for all implementations together; nothing where nothing changed.
pub fn summarize_delta(by_impl: Vec<ImplDelta>) -> (r: Option<DeltaSummary>)
    ensures
        match r {
            Some(d) => d.newly_covered@ == all_covered(by_impl@) && d.newly_uncovered@
                == all_uncovered(by_impl@) && d.newly_covered@.len() + d.newly_uncovered@.len() > 0,
            None => all_covered(by_impl@).len() == 0 && all_uncovered(by_impl@).len() == 0,
        },
{
    let mut newly_covered: Vec<CoverageChange> = Vec::new();
    let mut newly_uncovered: Vec<RuleId> = Vec::new();
    assert(by_impl@.take(0) =~= Seq::<ImplDelta>::empty());
    for d in it: by_impl
        invariant
            it.seq() == by_impl@,
            newly_covered@ == all_covered(by_impl@.take(it.index())),
            newly_uncovered@ == all_uncovered(by_impl@.take(it.index())),
    {
        let ghost i = it.index();
        proof {
            assert(by_impl@.take(i + 1).drop_last() =~= by_impl@.take(i));
            assert(by_impl@.take(i + 1).last() == d);
        }
        let mut covered = d.newly_covered;
        newly_covered.append(&mut covered);
        let mut uncovered = d.newly_uncovered;
        newly_uncovered.append(&mut uncovered);
    }
    assert(by_impl@.take(by_impl@.len() as int) =~= by_impl@);
    if newly_covered.len() == 0 && newly_uncovered.len() == 0 {
        None
    } else {
        Some(DeltaSummary { newly_covered, newly_uncovered })
    }
}

} // verus!
