//! Building what is known of each specification and implementation from what
//! was read.

use vstd::prelude::*;

use crate::api::{
    extracted_models, file_entries, rule_models, ApiReverseData, ApiRule, ApiSpecInfo, CodeUnit,
    ExtractedModel, ExtractedRule, ImplKey, RuleModel, SpecInfoModel,
};
use crate::config::{Impl, SpecConfig};
use crate::coverage::{
    at_most_max, compute_impl_output, covered_rules, rule_entries, rule_keys, search_entries,
    sum_covered, sum_units, unit_entries, unit_models, RuleEntry,
};
use crate::format::SpecFormat;
use crate::impl_scan::{
    read_models, scan_failures, scan_impl_files, scan_refs, scan_sources, scan_units, FileRead,
    ReadModel,
};
use crate::order::in_order;
use crate::requirement::copy_opt;
use crate::rule_id::rule_text;
use crate::sorted_map::{
    entry_keys, entry_values, last_by_key, last_values, path_key, path_key_of, put_key, sorted_keys,
    SortedMap,
};
use crate::text::{copy_str, opt_text, texts};
use crate::validation::{path_pairs, source_models, text_in, SourceFile, SourceModel};

verus! {

/// The files of an implementation, with what reading them gave, in the order
/// of the directory tree.
pub struct ImplRead {
    pub files: Vec<FileRead>,
    /// The files that the patterns for test files find.
    pub test_files: Vec<FileRead>,
}

/// What was read for a specification.
pub struct SpecRead {
    /// The requirements of each document, or why it could not be read.
    pub docs: Vec<Result<Vec<ExtractedRule>, String>>,
    /// One for each implementation.
    pub impls: Vec<ImplRead>,
}

/// Why nothing can be built.
#[derive(Debug, Clone, PartialEq, Eq)]
pub enum BuildError {
    /// A specification still has a `prefix`.
    DeprecatedPrefix { spec: String, prefix: String },
    /// A specification has no implementation.
    NoImplementations { spec: String },
    /// A document could not be read.
    Unreadable { message: String },
    /// Two requirements have the same id.
    Duplicate { id: String, source_file: String },
    /// A specification has no requirement.
    NoRequirements { spec: String },
    /// The requirements of a specification have several prefixes.
    SeveralPrefixes { spec: String, prefixes: Vec<String> },
}

/// Why nothing can be built.
#[verifier::ext_equal]
pub enum BuildErrorModel {
    DeprecatedPrefix(Seq<char>, Seq<char>),
    NoImplementations(Seq<char>),
    Unreadable(Seq<char>),
    Duplicate(Seq<char>, Seq<char>),
    NoRequirements(Seq<char>),
    SeveralPrefixes(Seq<char>, Seq<Seq<char>>),
}

impl View for BuildError {
    type V = BuildErrorModel;

    open spec fn view(&self) -> BuildErrorModel {
        match self {
            BuildError::DeprecatedPrefix { spec, prefix } => BuildErrorModel::DeprecatedPrefix(
                spec@,
                prefix@,
            ),
            BuildError::NoImplementations { spec } => BuildErrorModel::NoImplementations(spec@),
            BuildError::Unreadable { message } => BuildErrorModel::Unreadable(message@),
            BuildError::Duplicate { id, source_file } => BuildErrorModel::Duplicate(
                id@,
                source_file@,
            ),
            BuildError::NoRequirements { spec } => BuildErrorModel::NoRequirements(spec@),
            BuildError::SeveralPrefixes { spec, prefixes } => BuildErrorModel::SeveralPrefixes(
                spec@,
                texts(prefixes@),
            ),
        }
    }
}

/// Texts with a separator between them.
pub open spec fn joined_by(v: Seq<Seq<char>>, separator: Seq<char>) -> Seq<char>
    decreases v.len(),
{
    if v.len() == 0 {
        Seq::empty()
    } else if v.len() == 1 {
        v[0]
    } else {
        joined_by(v.drop_last(), separator) + separator + v.last()
    }
}

/// Texts with a separator between them.
pub fn join_texts(v: &Vec<String>, separator: &str) -> (r: String)
    ensures
        r@ == joined_by(texts(v@), separator@),
{
    let ghost ts = texts(v@);
    let mut out = String::new();
    let mut i: usize = 0;
    assert(ts.take(0) =~= Seq::<Seq<char>>::empty());
    while i < v.len()
        invariant
            i <= v@.len(),
            ts == texts(v@),
            out@ == joined_by(ts.take(i as int), separator@),
        decreases v@.len() - i,
    {
        proof {
            assert(ts.take(i + 1).drop_last() =~= ts.take(i as int));
            assert(ts.take(i + 1).last() == v@[i as int]@);
        }
        if i > 0 {
            out.append(separator);
        }
        out.append(v[i].as_str());
        if i == 0 {
            assert(out@ =~= v@[0]@);
        }
        i = i + 1;
    }
    assert(ts.take(i as int) =~= ts);
    out
}

/// What is said of a build that failed.
pub open spec fn build_error_text(e: BuildErrorModel) -> Seq<char> {
    match e {
        BuildErrorModel::DeprecatedPrefix(spec, prefix) => "Spec '"@ + spec
            + "' uses deprecated `prefix "@ + prefix
            + "` in config.\n\nRemove the `prefix` field from this spec config. Tracey now infers prefixes directly from requirement markers in spec files (for example `r[...]`)."@,
        BuildErrorModel::NoImplementations(spec) => "Spec '"@ + spec
            + "' has no implementations defined.\n\nAdd at least one impl block to your config:\n\nspec {\n    name \""@
            + spec
            + "\"\n    include \"docs/spec/**/*.{md,typ}\"\n\n    impl {\n        name \"main\"\n        include \"src/**/*.rs\"\n    }\n}"@,
        BuildErrorModel::Unreadable(message) => message,
        BuildErrorModel::Duplicate(id, source_file) => "Duplicate requirement '"@ + id
            + "' found in "@ + source_file,
        BuildErrorModel::NoRequirements(spec) => "Spec '"@ + spec
            + "' has no requirement definitions, so tracey cannot infer its marker prefix."@,
        BuildErrorModel::SeveralPrefixes(spec, prefixes) => "Spec '"@ + spec
            + "' uses multiple requirement marker prefixes ("@ + joined_by(prefixes, ", "@)
            + "). Use a single prefix per spec."@,
    }
}

impl BuildError {
    /// What is said of a build that failed.
    pub fn message(&self) -> (r: String)
        ensures
            r@ == build_error_text(self@),
    {
        match self {
            BuildError::DeprecatedPrefix { spec, prefix } => {
                let mut m = copy_str("Spec '");
                m.append(spec.as_str());
                m.append("' uses deprecated `prefix ");
                m.append(prefix.as_str());
                m.append(
                    "` in config.\n\nRemove the `prefix` field from this spec config. Tracey now infers prefixes directly from requirement markers in spec files (for example `r[...]`).",
                );
                m
            },
            BuildError::NoImplementations { spec } => {
                let mut m = copy_str("Spec '");
                m.append(spec.as_str());
                m.append(
                    "' has no implementations defined.\n\nAdd at least one impl block to your config:\n\nspec {\n    name \"",
                );
                m.append(spec.as_str());
                m.append(
                    "\"\n    include \"docs/spec/**/*.{md,typ}\"\n\n    impl {\n        name \"main\"\n        include \"src/**/*.rs\"\n    }\n}",
                );
                m
            },
            BuildError::Unreadable { message } => copy_str(message.as_str()),
            BuildError::Duplicate { id, source_file } => {
                let mut m = copy_str("Duplicate requirement '");
                m.append(id.as_str());
                m.append("' found in ");
                m.append(source_file.as_str());
                m
            },
            BuildError::NoRequirements { spec } => {
                let mut m = copy_str("Spec '");
                m.append(spec.as_str());
                m.append(
                    "' has no requirement definitions, so tracey cannot infer its marker prefix.",
                );
                m
            },
            BuildError::SeveralPrefixes { spec, prefixes } => {
                let mut m = copy_str("Spec '");
                m.append(spec.as_str());
                m.append("' uses multiple requirement marker prefixes (");
                let all = join_texts(prefixes, ", ");
                m.append(all.as_str());
                m.append("). Use a single prefix per spec.");
                m
            },
        }
    }
}

/// The requirements of documents, or why they could not be read.
pub open spec fn doc_models(v: Seq<Result<Vec<ExtractedRule>, String>>) -> Seq<
    Result<Seq<ExtractedModel>, Seq<char>>,
> {
    v.map_values(
        |d: Result<Vec<ExtractedRule>, String>|
            match d {
                Ok(rules) => Ok(extracted_models(rules@)),
                Err(e) => Err(e@),
            },
    )
}

/// The ids of rules as they are written.
pub open spec fn extracted_ids(v: Seq<ExtractedModel>) -> Seq<Seq<char>> {
    v.map_values(|r: ExtractedModel| rule_text(r.def.id))
}

/// `rules` with the first `n` of `more` behind them, unless an id repeats.
pub open spec fn with_rules(rules: Seq<ExtractedModel>, more: Seq<ExtractedModel>, n: int) -> Result<
    Seq<ExtractedModel>,
    BuildErrorModel,
>
    decreases n,
{
    if n <= 0 {
        Ok(rules)
    } else {
        match with_rules(rules, more, n - 1) {
            Err(e) => Err(e),
            Ok(before) => {
                let r = more[n - 1];
                let id = rule_text(r.def.id);
                if extracted_ids(before).contains(id) {
                    Err(BuildErrorModel::Duplicate(id, r.source_file))
                } else {
                    Ok(before.push(r))
                }
            },
        }
    }
}

/// The requirements of all documents; the first document that cannot be read,
/// or the first id that repeats, is an error.
pub open spec fn merged_rules(docs: Seq<Result<Seq<ExtractedModel>, Seq<char>>>) -> Result<
    Seq<ExtractedModel>,
    BuildErrorModel,
>
    decreases docs.len(),
{
    if docs.len() == 0 {
        Ok(Seq::empty())
    } else {
        match merged_rules(docs.drop_last()) {
            Err(e) => Err(e),
            Ok(before) => match docs.last() {
                Err(m) => Err(BuildErrorModel::Unreadable(m)),
                Ok(rules) => with_rules(before, rules, rules.len() as int),
            },
        }
    }
}

proof fn lemma_with_rules_err(rules: Seq<ExtractedModel>, more: Seq<ExtractedModel>, n: int, m: int)
    requires
        0 <= n <= m,
        with_rules(rules, more, n) is Err,
    ensures
        with_rules(rules, more, m) == with_rules(rules, more, n),
    decreases m - n,
{
    if n < m {
        lemma_with_rules_err(rules, more, n, m - 1);
    }
}

proof fn lemma_merged_err(docs: Seq<Result<Seq<ExtractedModel>, Seq<char>>>, n: int)
    requires
        0 <= n <= docs.len(),
        merged_rules(docs.take(n)) is Err,
    ensures
        merged_rules(docs) == merged_rules(docs.take(n)),
    decreases docs.len() - n,
{
    if n < docs.len() {
        assert(docs.take(n + 1).drop_last() =~= docs.take(n));
        lemma_merged_err(docs, n + 1);
    } else {
        assert(docs.take(n) =~= docs);
    }
}

/// Merge the requirements of the documents of a specification.
pub fn merge_rules(docs: Vec<Result<Vec<ExtractedRule>, String>>) -> (r: Result<
    Vec<ExtractedRule>,
    BuildError,
>)
    ensures
        match (r, merged_rules(doc_models(docs@))) {
            (Ok(a), Ok(b)) => extracted_models(a@) == b,
            (Err(a), Err(b)) => a@ == b,
            _ => false,
        },
{
    let ghost ds = doc_models(docs@);
    let mut out: Vec<ExtractedRule> = Vec::new();
    let mut seen: Vec<String> = Vec::new();
    proof {
        assert(ds.take(0) =~= Seq::<Result<Seq<ExtractedModel>, Seq<char>>>::empty());
        assert(extracted_models(out@) =~= Seq::<ExtractedModel>::empty());
        assert(texts(seen@) =~= extracted_ids(extracted_models(out@)));
    }
    for d in it: docs
        invariant
            it.seq() == docs@,
            ds == doc_models(docs@),
            merged_rules(ds.take(it.index())) == Ok::<Seq<ExtractedModel>, BuildErrorModel>(
                extracted_models(out@),
            ),
            texts(seen@) == extracted_ids(extracted_models(out@)),
    {
        let ghost i = it.index();
        proof {
            assert(ds.take(i + 1).drop_last() =~= ds.take(i));
            assert(ds.take(i + 1).last() == ds[i]);
        }
        match d {
            Err(message) => {
                proof {
                    lemma_merged_err(ds, i + 1);
                }
                return Err(BuildError::Unreadable { message });
            },
            Ok(rules) => {
                let ghost before = extracted_models(out@);
                let ghost rs = extracted_models(rules@);
                for rule in inner: rules
                    invariant
                        inner.seq() == rules@,
                        rs == extracted_models(rules@),
                        ds == doc_models(docs@),
                        0 <= i < ds.len(),
                        merged_rules(ds.take(i + 1)) == with_rules(before, rs, rs.len() as int),
                        with_rules(before, rs, inner.index()) == Ok::<
                            Seq<ExtractedModel>,
                            BuildErrorModel,
                        >(extracted_models(out@)),
                        texts(seen@) == extracted_ids(extracted_models(out@)),
                {
                    let ghost j = inner.index();
                    assert(rs[j] == rule@);
                    let id = rule.def.id.text();
                    if text_in(&seen, id.as_str()) {
                        proof {
                            lemma_with_rules_err(before, rs, j + 1, rs.len() as int);
                            lemma_merged_err(ds, i + 1);
                        }
                        return Err(BuildError::Duplicate { id, source_file: rule.source_file });
                    }
                    let ghost was = out@;
                    let ghost was_seen = seen@;
                    seen.push(id);
                    out.push(rule);
                    proof {
                        assert(extracted_models(out@) =~= extracted_models(was).push(rule@));
                        assert(texts(seen@) =~= texts(was_seen).push(id@));
                        assert(extracted_ids(extracted_models(out@)) =~= extracted_ids(
                            extracted_models(was),
                        ).push(id@));
                    }
                }
            },
        }
    }
    assert(ds.take(ds.len() as int) =~= ds);
    Ok(out)
}

/// No two requirements of a build have the same id.
pub proof fn law_merged_ids_distinct(docs: Seq<Result<Seq<ExtractedModel>, Seq<char>>>)
    ensures
        merged_rules(docs) matches Ok(rules) ==> extracted_ids(rules).no_duplicates(),
    decreases docs.len(),
{
    if docs.len() > 0 {
        law_merged_ids_distinct(docs.drop_last());
        match (merged_rules(docs.drop_last()), docs.last()) {
            (Ok(before), Ok(rules)) => {
                lemma_with_rules_distinct(before, rules, rules.len() as int);
            },
            _ => {},
        }
    }
}

proof fn lemma_with_rules_distinct(rules: Seq<ExtractedModel>, more: Seq<ExtractedModel>, n: int)
    requires
        extracted_ids(rules).no_duplicates(),
    ensures
        with_rules(rules, more, n) matches Ok(all) ==> extracted_ids(all).no_duplicates(),
    decreases n,
{
    if n > 0 {
        lemma_with_rules_distinct(rules, more, n - 1);
        match with_rules(rules, more, n - 1) {
            Ok(before) => {
                let r = more[n - 1];
                let ids = extracted_ids(before);
                let id = rule_text(r.def.id);
                if !ids.contains(id) {
                    let after = extracted_ids(before.push(r));
                    assert(after =~= ids.push(id));
                    assert forall|a: int, b: int|
                        0 <= a < after.len() && 0 <= b < after.len() && a != b implies after[a]
                        != after[b] by {
                        if a == ids.len() {
                            assert(ids[b] != id);
                        } else if b == ids.len() {
                            assert(ids[a] != id);
                        } else {
                            assert(ids[a] != ids[b]);
                        }
                    }
                }
            },
            _ => {},
        }
    }
}

/// The prefixes of rules, each as a key.
pub open spec fn prefix_keys(rules: Seq<ExtractedModel>) -> Seq<Seq<Seq<char>>> {
    rules.map_values(|r: ExtractedModel| seq![r.prefix])
}

/// The prefixes that occur, in order, each once.
pub open spec fn prefixes_of(rules: Seq<ExtractedModel>) -> Seq<Seq<char>> {
    sorted_keys(prefix_keys(rules), rules.len() as int).map_values(|k: Seq<Seq<char>>| k[0])
}

/// The prefix of a specification, where its requirements have exactly one.
pub open spec fn inferred_prefix(spec_name: Seq<char>, rules: Seq<ExtractedModel>) -> Result<
    Seq<char>,
    BuildErrorModel,
> {
    let prefixes = prefixes_of(rules);
    if prefixes.len() == 0 {
        Err(BuildErrorModel::NoRequirements(spec_name))
    } else if prefixes.len() == 1 {
        Ok(prefixes[0])
    } else {
        Err(BuildErrorModel::SeveralPrefixes(spec_name, prefixes))
    }
}

/// The prefix of a specification, inferred from the markers of its
/// requirements.
pub fn infer_prefix(spec_name: &str, rules: &Vec<ExtractedRule>) -> (r: Result<String, BuildError>)
    ensures
        match (r, inferred_prefix(spec_name@, extracted_models(rules@))) {
            (Ok(a), Ok(b)) => a@ == b,
            (Err(a), Err(b)) => a@ == b,
            _ => false,
        },
{
    let ghost ms = extracted_models(rules@);
    let ghost keys = prefix_keys(ms);
    let mut map: SortedMap<()> = SortedMap::new();
    let mut i: usize = 0;
    while i < rules.len()
        invariant
            i <= rules@.len(),
            ms == extracted_models(rules@),
            keys == prefix_keys(ms),
            map.wf(),
            crate::sorted_map::key_views(map.keys@) == sorted_keys(keys, i as int),
            forall|k: int| 0 <= k < i ==> (#[trigger] keys[k]).len() == 1,
        decreases rules@.len() - i,
    {
        let mut k: Vec<String> = Vec::new();
        k.push(copy_str(rules[i].prefix.as_str()));
        proof {
            assert(ms[i as int] == rules@[i as int]@);
            assert(texts(k@) =~= keys[i as int]);
        }
        map.put_new(k, ());
        i = i + 1;
    }
    let ghost sorted = sorted_keys(keys, rules@.len() as int);
    proof {
        lemma_sorted_keys_len_one(keys, rules@.len() as int);
    }
    let mut prefixes: Vec<String> = Vec::new();
    let mut j: usize = 0;
    while j < map.keys.len()
        invariant
            j <= map.keys@.len(),
            crate::sorted_map::key_views(map.keys@) == sorted,
            forall|k: int| 0 <= k < sorted.len() ==> (#[trigger] sorted[k]).len() == 1,
            prefixes@.len() == j,
            forall|k: int| 0 <= k < j ==> (#[trigger] prefixes@[k])@ == sorted[k][0],
        decreases map.keys@.len() - j,
    {
        proof {
            assert(sorted[j as int] == texts(map.keys@[j as int]@));
            assert(texts(map.keys@[j as int]@).len() == map.keys@[j as int]@.len());
        }
        prefixes.push(copy_str(map.keys[j][0].as_str()));
        j = j + 1;
    }
    assert(texts(prefixes@) =~= prefixes_of(ms));
    if prefixes.len() == 0 {
        Err(BuildError::NoRequirements { spec: copy_str(spec_name) })
    } else if prefixes.len() == 1 {
        Ok(copy_str(prefixes[0].as_str()))
    } else {
        Err(BuildError::SeveralPrefixes { spec: copy_str(spec_name), prefixes })
    }
}

proof fn lemma_sorted_keys_len_one(keys: Seq<Seq<Seq<char>>>, n: int)
    requires
        0 <= n <= keys.len(),
        forall|k: int| 0 <= k < n ==> (#[trigger] keys[k]).len() == 1,
    ensures
        forall|k: int|
            0 <= k < sorted_keys(keys, n).len() ==> (#[trigger] sorted_keys(keys, n)[k]).len() == 1,
    decreases n,
{
    if n > 0 {
        lemma_sorted_keys_len_one(keys, n - 1);
        let before = sorted_keys(keys, n - 1);
        let after = put_key(before, keys[n - 1]);
        crate::sorted_map::lemma_slot_bounds(before, keys[n - 1]);
        assert(keys[n - 1].len() == 1);
        assert forall|k: int| 0 <= k < after.len() implies (#[trigger] after[k]).len() == 1 by {
            let p = crate::sorted_map::slot(before, keys[n - 1]);
            if !crate::sorted_map::holds(before, keys[n - 1]) {
                if k < p {
                    assert(after[k] == before[k]);
                } else if k > p {
                    assert(after[k] == before[k - 1]);
                }
            }
        }
    }
}

/// What is known of an implementation.
#[verifier::ext_equal]
pub struct ImplModel {
    pub key: (Seq<char>, Seq<char>),
    pub rules: Seq<RuleModel>,
    pub total_units: usize,
    pub covered_units: usize,
    pub entries: Seq<(Seq<char>, usize, usize)>,
    pub units: Seq<(Seq<char>, Seq<CodeUnit>)>,
    pub sources: Seq<SourceModel>,
    pub failures: Seq<(Seq<char>, Seq<char>)>,
    pub search: Seq<(Seq<char>, Seq<char>, SpecFormat)>,
}

/// What is known of an implementation.
pub struct ImplBuilt {
    pub key: ImplKey,
    pub rules: Vec<ApiRule>,
    pub reverse: ApiReverseData,
    pub units: Vec<(String, Vec<CodeUnit>)>,
    pub sources: Vec<SourceFile>,
    pub failures: Vec<(String, String)>,
    pub search: Vec<RuleEntry>,
}

impl View for ImplBuilt {
    type V = ImplModel;

    open spec fn view(&self) -> ImplModel {
        ImplModel {
            key: self.key@,
            rules: rule_models(self.rules@),
            total_units: self.reverse.total_units,
            covered_units: self.reverse.covered_units,
            entries: file_entries(self.reverse.files@),
            units: unit_models(self.units@),
            sources: source_models(self.sources@),
            failures: path_pairs(self.failures@),
            search: rule_entries(self.search@),
        }
    }
}

pub open spec fn impl_models(v: Seq<ImplBuilt>) -> Seq<ImplModel> {
    v.map_values(|b: ImplBuilt| b@)
}

/// The files of an implementation: those that its patterns find, then those
/// that its patterns for test files find, where it has any.
pub open spec fn impl_reads(c: Impl, read: ImplRead) -> Seq<ReadModel> {
    if c.test_include@.len() > 0 {
        read_models(read.files@) + read_models(read.test_files@)
    } else {
        read_models(read.files@)
    }
}

/// The paths of files as keys.
pub open spec fn unit_path_keys(v: Seq<(Seq<char>, Seq<CodeUnit>)>) -> Seq<Seq<Seq<char>>> {
    v.map_values(|e: (Seq<char>, Seq<CodeUnit>)| path_key(e.0))
}

/// The units of files in the order of the directory tree; of a file that occurs
/// twice the last.
pub open spec fn units_by_path(v: Seq<(Seq<char>, Seq<CodeUnit>)>) -> Seq<
    (Seq<char>, Seq<CodeUnit>),
> {
    last_values(unit_path_keys(v), v, v.len() as int)
}

/// What is known of an implementation, given the rules of its specification.
pub open spec fn impl_model(
    spec_name: Seq<char>,
    c: Impl,
    prefix: Seq<char>,
    rules: Seq<ExtractedModel>,
    read: ImplRead,
    root: Seq<char>,
) -> ImplModel {
    let reads = impl_reads(c, read);
    let covered = covered_rules(rules, scan_refs(reads), root, prefix);
    let units = units_by_path(scan_units(reads));
    let entries = unit_entries(root, units);
    ImplModel {
        key: (spec_name, c.name@),
        rules: in_order(covered, rule_keys(covered)),
        total_units: at_most_max(sum_units(entries)),
        covered_units: at_most_max(sum_covered(entries)),
        entries: in_order(entries, crate::coverage::entry_keys(entries)),
        units,
        sources: scan_sources(reads),
        failures: scan_failures(reads),
        search: search_entries(rules),
    }
}

fn sort_units(v: Vec<(String, Vec<CodeUnit>)>) -> (r: Vec<(String, Vec<CodeUnit>)>)
    ensures
        unit_models(r@) == units_by_path(unit_models(v@)),
{
    let ghost us = unit_models(v@);
    let ghost keys = unit_path_keys(us);
    let ghost f = |u: (String, Vec<CodeUnit>)| (u.0@, u.1@);
    let mut entries: Vec<(Vec<String>, (String, Vec<CodeUnit>))> = Vec::new();
    for u in it: v
        invariant
            it.seq() == v@,
            us == unit_models(v@),
            keys == unit_path_keys(us),
            entries@.len() == it.index(),
            forall|k: int|
                0 <= k < entries@.len() ==> texts((#[trigger] entries@[k]).0@) == keys[k]
                    && entries@[k].1 == v@[k],
    {
        let key = path_key_of(u.0.as_str());
        assert(us[it.index()] == (u.0@, u.1@));
        entries.push((key, u));
    }
    proof {
        assert(entry_keys(entries@) =~= keys);
        assert(entry_values(entries@) =~= v@);
        crate::sorted_map::lemma_values_mapped(keys, v@, f, v@.len() as int);
        assert(v@.map_values(f) =~= us);
    }
    let r = last_by_key(entries);
    assert(unit_models(r@) =~= r@.map_values(f));
    r
}

/// Build what is known of an implementation.
pub fn build_impl(
    spec_name: &str,
    c: &Impl,
    prefix: &str,
    rules: &Vec<ExtractedRule>,
    read: ImplRead,
    root: &str,
) -> (r: ImplBuilt)
    ensures
        r@ == impl_model(spec_name@, *c, prefix@, extracted_models(rules@), read, root@),
{
    let ghost reads = impl_reads(*c, read);
    let mut files = read.files;
    if c.test_include.len() > 0 {
        let mut more = read.test_files;
        files.append(&mut more);
    }
    assert(read_models(files@) =~= reads);
    let scan = scan_impl_files(files);
    let units = sort_units(scan.code_units);
    let out = compute_impl_output(root, copy_str(c.name.as_str()), prefix, rules, &scan.refs, &units);
    ImplBuilt {
        key: ImplKey { spec_name: copy_str(spec_name), impl_name: copy_str(c.name.as_str()) },
        rules: out.api_rules,
        reverse: out.reverse_data,
        units,
        sources: scan.sources,
        failures: scan.failures,
        search: out.all_search_rules,
    }
}

/// What is known of a specification.
#[verifier::ext_equal]
pub struct SpecModel {
    pub info: SpecInfoModel,
    pub impls: Seq<ImplModel>,
}

/// What is known of a specification.
pub struct SpecBuilt {
    pub info: ApiSpecInfo,
    pub impls: Vec<ImplBuilt>,
}

impl View for SpecBuilt {
    type V = SpecModel;

    open spec fn view(&self) -> SpecModel {
        SpecModel { info: self.info@, impls: impl_models(self.impls@) }
    }
}

pub open spec fn spec_models(v: Seq<SpecBuilt>) -> Seq<SpecModel> {
    v.map_values(|b: SpecBuilt| b@)
}

/// The names of implementations.
pub open spec fn impl_names(v: Seq<Impl>) -> Seq<Seq<char>> {
    v.map_values(|i: Impl| i.name@)
}

/// Why the configuration of a specification is refused before anything is read:
/// it sets a prefix, or names no implementation.
pub open spec fn config_refusal(c: SpecConfig) -> Option<BuildErrorModel> {
    match c.prefix {
        Some(p) => Some(BuildErrorModel::DeprecatedPrefix(c.name@, p@)),
        None => if c.impls@.len() == 0 {
            Some(BuildErrorModel::NoImplementations(c.name@))
        } else {
            None
        },
    }
}

/// Check the configuration of a specification.
pub fn check_spec_config(c: &SpecConfig) -> (r: Result<(), BuildError>)
    ensures
        match (r, config_refusal(*c)) {
            (Ok(_), None) => true,
            (Err(a), Some(b)) => a@ == b,
            _ => false,
        },
{
    match &c.prefix {
        Some(p) => {
            return Err(
                BuildError::DeprecatedPrefix {
                    spec: copy_str(c.name.as_str()),
                    prefix: copy_str(p.as_str()),
                },
            );
        },
        None => {},
    }
    if c.impls.len() == 0 {
        return Err(BuildError::NoImplementations { spec: copy_str(c.name.as_str()) });
    }
    Ok(())
}

/// What is known of a specification, or why it cannot be used.
pub open spec fn spec_model(c: SpecConfig, read: SpecRead, root: Seq<char>) -> Result<
    SpecModel,
    BuildErrorModel,
> {
    match config_refusal(c) {
        Some(e) => Err(e),
        None => match merged_rules(doc_models(read.docs@)) {
            Err(e) => Err(e),
            Ok(rules) => match inferred_prefix(c.name@, rules) {
                Err(e) => Err(e),
                Ok(prefix) => Ok(
                    SpecModel {
                        info: SpecInfoModel {
                            name: c.name@,
                            prefix,
                            source: Some(joined_by(texts(c.include_patterns@), ", "@)),
                            source_url: opt_text(c.source_url),
                            implementations: impl_names(c.impls@),
                        },
                        impls: Seq::new(
                            c.impls@.len(),
                            |i: int|
                                impl_model(
                                    c.name@,
                                    c.impls@[i],
                                    prefix,
                                    rules,
                                    read.impls@[i],
                                    root,
                                ),
                        ),
                    },
                ),
            },
        },
    }
}

fn names_of(v: &Vec<Impl>) -> (r: Vec<String>)
    ensures
        texts(r@) == impl_names(v@),
{
    let mut out: Vec<String> = Vec::new();
    let mut i: usize = 0;
    while i < v.len()
        invariant
            i <= v@.len(),
            out@.len() == i,
            forall|k: int| 0 <= k < i ==> (#[trigger] out@[k])@ == v@[k].name@,
        decreases v@.len() - i,
    {
        out.push(copy_str(v[i].name.as_str()));
        i = i + 1;
    }
    assert(texts(out@) =~= impl_names(v@));
    out
}

/// Build what is known of a specification.
pub fn build_spec(c: &SpecConfig, read: SpecRead, root: &str) -> (r: Result<SpecBuilt, BuildError>)
    requires
        c.impls@.len() == read.impls@.len(),
    ensures
        match (r, spec_model(*c, read, root@)) {
            (Ok(a), Ok(b)) => a@ == b,
            (Err(a), Err(b)) => a@ == b,
            _ => false,
        },
{
    match check_spec_config(c) {
        Ok(_) => {},
        Err(e) => {
            return Err(e);
        },
    }
    let rules = match merge_rules(read.docs) {
        Ok(rules) => rules,
        Err(e) => {
            return Err(e);
        },
    };
    let prefix = match infer_prefix(c.name.as_str(), &rules) {
        Ok(p) => p,
        Err(e) => {
            return Err(e);
        },
    };
    let ghost rs = extracted_models(rules@);
    let ghost model = spec_model(*c, read, root@)->Ok_0;
    let mut impls: Vec<ImplBuilt> = Vec::new();
    let mut j: usize = 0;
    let n: usize = c.impls.len();
    for one in it: read.impls
        invariant
            it.seq() == read.impls@,
            n == c.impls@.len(),
            read.impls@.len() == n,
            j == it.index(),
            impls@.len() == j,
            rs == extracted_models(rules@),
            forall|k: int|
                0 <= k < j ==> (#[trigger] impls@[k])@ == impl_model(
                    c.name@,
                    c.impls@[k],
                    prefix@,
                    rs,
                    read.impls@[k],
                    root@,
                ),
    {
        let built = build_impl(
            c.name.as_str(),
            &c.impls[j],
            prefix.as_str(),
            &rules,
            one,
            root,
        );
        impls.push(built);
        j = j + 1;
    }
    assert(impl_models(impls@) =~= model.impls);
    let info = ApiSpecInfo {
        name: copy_str(c.name.as_str()),
        prefix,
        source: Some(join_texts(&c.include_patterns, ", ")),
        source_url: copy_opt(&c.source_url),
        implementations: names_of(&c.impls),
    };
    assert(info@ =~= model.info);
    Ok(SpecBuilt { info, impls })
}

/// What is known of the first `n` specifications; the first that cannot be used
/// is an error.
pub open spec fn specs_model(configs: Seq<SpecConfig>, reads: Seq<SpecRead>, n: int, root: Seq<char>) -> Result<
    Seq<SpecModel>,
    BuildErrorModel,
>
    decreases n,
{
    if n <= 0 {
        Ok(Seq::empty())
    } else {
        match specs_model(configs, reads, n - 1, root) {
            Err(e) => Err(e),
            Ok(before) => match spec_model(configs[n - 1], reads[n - 1], root) {
                Err(e) => Err(e),
                Ok(m) => Ok(before.push(m)),
            },
        }
    }
}

/// One read for each implementation of each specification.
pub open spec fn reads_fit(configs: Seq<SpecConfig>, reads: Seq<SpecRead>) -> bool {
    configs.len() == reads.len() && forall|i: int|
        0 <= i < configs.len() ==> (#[trigger] configs[i]).impls@.len() == reads[i].impls@.len()
}

proof fn lemma_specs_err(configs: Seq<SpecConfig>, reads: Seq<SpecRead>, n: int, m: int, root: Seq<char>)
    requires
        0 <= n <= m,
        specs_model(configs, reads, n, root) is Err,
    ensures
        specs_model(configs, reads, m, root) == specs_model(configs, reads, n, root),
    decreases m - n,
{
    if n < m {
        lemma_specs_err(configs, reads, n, m - 1, root);
    }
}

/// Build what is known of all specifications.
pub fn build_specs(configs: &Vec<SpecConfig>, reads: Vec<SpecRead>, root: &str) -> (r: Result<
    Vec<SpecBuilt>,
    BuildError,
>)
    requires
        reads_fit(configs@, reads@),
    ensures
        match (r, specs_model(configs@, reads@, configs@.len() as int, root@)) {
            (Ok(a), Ok(b)) => spec_models(a@) == b,
            (Err(a), Err(b)) => a@ == b,
            _ => false,
        },
{
    let mut out: Vec<SpecBuilt> = Vec::new();
    let mut i: usize = 0;
    let n: usize = configs.len();
    assert(spec_models(out@) =~= Seq::<SpecModel>::empty());
    for one in it: reads
        invariant
            it.seq() == reads@,
            n == configs@.len(),
            reads_fit(configs@, reads@),
            i == it.index(),
            specs_model(configs@, reads@, i as int, root@) == Ok::<Seq<SpecModel>, BuildErrorModel>(
                spec_models(out@),
            ),
    {
        assert(configs@[i as int].impls@.len() == reads@[i as int].impls@.len());
        match build_spec(&configs[i], one, root) {
            Ok(b) => {
                let ghost before = out@;
                out.push(b);
                assert(spec_models(out@) =~= spec_models(before).push(b@));
            },
            Err(e) => {
                proof {
                    lemma_specs_err(configs@, reads@, i + 1, configs@.len() as int, root@);
                }
                return Err(e);
            },
        }
        i = i + 1;
    }
    Ok(out)
}

} // verus!
