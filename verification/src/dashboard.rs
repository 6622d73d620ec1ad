//! The dashboard: everything that is known of a project, put together from what
//! was read.

use vstd::prelude::*;

use crate::api::{
    error_models, file_diagnostics, file_entries, forward_models, rule_models, spec_infos,
    ApiConfig, ApiReverseData, ApiSpecForward, ApiSpecInfo, CodeUnit, ImplKey, LspFileDiagnostics,
    ValidationResult,
};
use crate::assembly::{
    build_specs, impl_models, reads_fit, spec_models, specs_model, BuildError, ImplBuilt, ImplModel,
    SpecBuilt, SpecModel, SpecRead,
};
use crate::cache::{simple_hash, text_hash};
use crate::config::{Config, FormatConfig, SpecConfig, TypstFormatConfig};
use crate::coverage::{rule_entries, unit_models, RuleEntry};
use crate::diagnostics::context_model;
use crate::format::SpecFormat;
use crate::order::in_order;
use crate::requirement::{copy_opt, copy_strings};
use crate::sorted_map::{
    entry_keys, entry_values, first_by_key, first_values, impl_key, impl_key_of, last_by_key,
    last_values, lemma_values_len, lemma_values_mapped, path_key, path_key_of, sorted_keys,
};
use crate::spec_diagnostics::{
    compute_workspace_diagnostics, path_keys, spec_file_models, workspace_parts, SpecFile,
    WorkspaceInput, WorkspaceModel,
};
use crate::text::{copy_str, opt_text, texts};
use crate::validation::{
    compute_validation_by_impl, failure_models, impl_errors, path_pairs, reverse_models,
    source_models, SetModel, SourceFile, SourceModel, SourceSet, ValidationInput, ValidationModel,
};
use crate::refs::Reqs;

verus! {

/// The options of a specification.
#[derive(Debug, Clone)]
pub struct SpecOptions {
    pub name: String,
    pub include_patterns: Vec<String>,
    pub format: FormatConfig,
    pub syntax: Option<String>,
}

/// The options of a specification.
#[verifier::ext_equal]
pub struct OptionsModel {
    pub name: Seq<char>,
    pub include_patterns: Seq<Seq<char>>,
    pub package_path: Option<Seq<char>>,
    pub syntax: Option<Seq<char>>,
}

impl View for SpecOptions {
    type V = OptionsModel;

    open spec fn view(&self) -> OptionsModel {
        OptionsModel {
            name: self.name@,
            include_patterns: texts(self.include_patterns@),
            package_path: opt_text(self.format.typst.package_path),
            syntax: opt_text(self.syntax),
        }
    }
}

pub open spec fn option_models(v: Seq<SpecOptions>) -> Seq<OptionsModel> {
    v.map_values(|o: SpecOptions| o@)
}

/// The options that a configuration gives a specification.
pub open spec fn config_options(c: SpecConfig) -> OptionsModel {
    OptionsModel {
        name: c.name@,
        include_patterns: texts(c.include_patterns@),
        package_path: opt_text(c.format.typst.package_path),
        syntax: opt_text(c.syntax),
    }
}

/// The options of all specifications, in the order of their names; of two with
/// the same name the last.
pub open spec fn options_by_name(specs: Seq<SpecConfig>) -> Seq<OptionsModel> {
    let options = specs.map_values(|c: SpecConfig| config_options(c));
    last_values(
        options.map_values(|o: OptionsModel| seq![o.name]),
        options,
        options.len() as int,
    )
}

/// Everything that is known of a project. It is built anew when files change.
pub struct DashboardData {
    pub config: ApiConfig,
    /// The rules of each implementation, in the order of the keys.
    pub forward_by_impl: Vec<(ImplKey, ApiSpecForward)>,
    /// The coverage of each implementation's files, in the order of the keys.
    pub reverse_by_impl: Vec<(ImplKey, ApiReverseData)>,
    /// The code units of each implementation, in the order of the keys.
    pub code_units_by_impl: Vec<(ImplKey, Vec<(String, Vec<CodeUnit>)>)>,
    /// The options of each specification, in the order of the names.
    pub options_by_spec: Vec<SpecOptions>,
    /// All source files in the order of the directory tree, and which of them
    /// only verify.
    pub sources: SourceSet,
    /// Rules for full-text search, in the order of their ids.
    pub search_rules: Vec<RuleEntry>,
    pub validation_by_impl: Vec<(ImplKey, ValidationResult)>,
    pub workspace_diagnostics: Vec<LspFileDiagnostics>,
    /// Version number, incremented only when content actually changes.
    pub version: u64,
    /// Hash of what is shown, for change detection.
    pub content_hash: u64,
}

/// The implementations of all specifications, one after the other.
pub open spec fn all_impls(specs: Seq<SpecModel>) -> Seq<ImplModel>
    decreases specs.len(),
{
    if specs.len() == 0 {
        Seq::empty()
    } else {
        all_impls(specs.drop_last()) + specs.last().impls
    }
}

/// The source files of all implementations, one after the other.
pub open spec fn all_sources(impls: Seq<ImplModel>) -> Seq<SourceModel>
    decreases impls.len(),
{
    if impls.len() == 0 {
        Seq::empty()
    } else {
        all_sources(impls.drop_last()) + impls.last().sources
    }
}

/// The files of all implementations that cannot be used, one after the other.
pub open spec fn all_failures(impls: Seq<ImplModel>) -> Seq<(Seq<char>, Seq<char>)>
    decreases impls.len(),
{
    if impls.len() == 0 {
        Seq::empty()
    } else {
        all_failures(impls.drop_last()) + impls.last().failures
    }
}

/// The search entries of all implementations, one after the other.
pub open spec fn all_search(impls: Seq<ImplModel>) -> Seq<(Seq<char>, Seq<char>, SpecFormat)>
    decreases impls.len(),
{
    if impls.len() == 0 {
        Seq::empty()
    } else {
        all_search(impls.drop_last()) + impls.last().search
    }
}

/// The files of one key that cannot be used, one after the other.
pub open spec fn key_failures(impls: Seq<ImplModel>, key: (Seq<char>, Seq<char>)) -> Seq<
    (Seq<char>, Seq<char>),
>
    decreases impls.len(),
{
    if impls.len() == 0 {
        Seq::empty()
    } else if impls.last().key == key {
        key_failures(impls.drop_last(), key) + impls.last().failures
    } else {
        key_failures(impls.drop_last(), key)
    }
}

/// The keys of implementations.
pub open spec fn keys_of_impls(impls: Seq<ImplModel>) -> Seq<Seq<Seq<char>>> {
    impls.map_values(|m: ImplModel| impl_key(m.key))
}

/// One thing known of each implementation, in the order of the keys; of two
/// implementations with the same key the last.
pub open spec fn by_impl<T>(impls: Seq<ImplModel>, f: spec_fn(ImplModel) -> T) -> Seq<T> {
    last_values(keys_of_impls(impls), impls.map_values(f), impls.len() as int)
}

/// Files that cannot be used, in the order of the directory tree; of two reasons
/// the first.
pub open spec fn failures_by_path(v: Seq<(Seq<char>, Seq<char>)>) -> Seq<(Seq<char>, Seq<char>)> {
    first_values(
        v.map_values(|f: (Seq<char>, Seq<char>)| path_key(f.0)),
        v,
        v.len() as int,
    )
}

/// The paths of source files as keys.
pub open spec fn source_keys(v: Seq<SourceModel>) -> Seq<Seq<Seq<char>>> {
    v.map_values(|f: SourceModel| path_key(f.path))
}

/// Source files in the order of the directory tree; of a file that occurs twice
/// the last content and what was first extracted.
pub open spec fn sources_by_path(v: Seq<SourceModel>) -> Seq<SourceModel> {
    let keys = source_keys(v);
    let n = v.len() as int;
    let paths = first_values(keys, v.map_values(|f: SourceModel| f.path), n);
    let contents = last_values(keys, v.map_values(|f: SourceModel| f.content), n);
    let reqs = first_values(keys, v.map_values(|f: SourceModel| f.reqs), n);
    Seq::new(
        sorted_keys(keys, n).len(),
        |i: int| SourceModel { path: paths[i], content: contents[i], reqs: reqs[i] },
    )
}

/// Search entries in the order of their ids, each id once.
pub open spec fn search_by_id(v: Seq<(Seq<char>, Seq<char>, SpecFormat)>) -> Seq<
    (Seq<char>, Seq<char>, SpecFormat),
> {
    first_values(
        v.map_values(|e: (Seq<char>, Seq<char>, SpecFormat)| seq![e.0]),
        v,
        v.len() as int,
    )
}

/// The names under which the rules of implementations are kept.
pub open spec fn forward_names(v: Seq<(ImplKey, ApiSpecForward)>) -> Seq<
    ((Seq<char>, Seq<char>), Seq<char>),
> {
    v.map_values(|f: (ImplKey, ApiSpecForward)| (f.0@, f.1.name@))
}

/// How many units each implementation has, and how many of them are covered.
pub open spec fn reverse_totals(v: Seq<(ImplKey, ApiReverseData)>) -> Seq<
    ((Seq<char>, Seq<char>), usize, usize),
> {
    v.map_values(
        |r: (ImplKey, ApiReverseData)| (r.0@, r.1.total_units, r.1.covered_units),
    )
}

/// The units of each implementation.
pub open spec fn impl_units(v: Seq<(ImplKey, Vec<(String, Vec<CodeUnit>)>)>) -> Seq<
    ((Seq<char>, Seq<char>), Seq<(Seq<char>, Seq<CodeUnit>)>),
> {
    v.map_values(
        |u: (ImplKey, Vec<(String, Vec<CodeUnit>)>)| (u.0@, unit_models(u.1@)),
    )
}

/// Where a project is, and what was read of it besides specifications and
/// implementations.
pub struct ProjectInput {
    /// The resolved root of the project.
    pub root: String,
    pub config_path: String,
    /// Paths with what they resolve to, where that differs.
    pub resolved_paths: Vec<(String, String)>,
    /// Files that only verify.
    pub test_files: Vec<String>,
    /// Parsed spec documents in the order of the directory tree.
    pub spec_files: Vec<SpecFile>,
    pub version: u64,
}

/// The set of source files that a dashboard is to hold.
pub open spec fn dashboard_sources(impls: Seq<ImplModel>, input: ProjectInput) -> SetModel {
    SetModel {
        files: sources_by_path(all_sources(impls)),
        resolved_paths: path_pairs(input.resolved_paths@),
        test_files: texts(input.test_files@),
    }
}

/// What validation of a dashboard is done on.
pub open spec fn dashboard_validation(impls: Seq<ImplModel>, input: ProjectInput) -> ValidationModel {
    ValidationModel {
        root: input.root@,
        config_path: input.config_path@,
        reverse: by_impl(impls, |m: ImplModel| (m.key, m.entries)),
        sources: dashboard_sources(impls, input),
        failures: impls.map_values(
            |m: ImplModel| (m.key, failures_by_path(key_failures(impls, m.key))),
        ),
    }
}

/// What the workspace diagnostics of a dashboard are computed from.
pub open spec fn dashboard_workspace(impls: Seq<ImplModel>, input: ProjectInput) -> WorkspaceModel {
    WorkspaceModel {
        root: input.root@,
        config_path: input.config_path@,
        sources: dashboard_sources(impls, input),
        spec_files: spec_file_models(input.spec_files@),
        failures: failures_by_path(all_failures(impls)),
    }
}

/// What a dashboard holds, given what is known of each specification.
pub open spec fn dashboard_holds(
    d: DashboardData,
    configs: Seq<SpecConfig>,
    specs: Seq<SpecModel>,
    input: ProjectInput,
) -> bool {
    let impls = all_impls(specs);
    let infos = specs.map_values(|s: SpecModel| s.info);
    let forward = by_impl(impls, |m: ImplModel| (m.key, m.rules));
    let ctx = context_model(infos, forward);
    let parts = workspace_parts(dashboard_workspace(impls, input), forward, ctx);
    &&& d.config.project_root@ == input.root@
    &&& spec_infos(d.config.specs@) == infos
    &&& forward_models(d.forward_by_impl@) == forward
    &&& forward_names(d.forward_by_impl@) == by_impl(impls, |m: ImplModel| (m.key, m.key.0))
    &&& reverse_models(d.reverse_by_impl@) == by_impl(impls, |m: ImplModel| (m.key, m.entries))
    &&& reverse_totals(d.reverse_by_impl@) == by_impl(
        impls,
        |m: ImplModel| (m.key, m.total_units, m.covered_units),
    )
    &&& impl_units(d.code_units_by_impl@) == by_impl(impls, |m: ImplModel| (m.key, m.units))
    &&& option_models(d.options_by_spec@) == options_by_name(configs)
    &&& d.sources@ == dashboard_sources(impls, input)
    &&& rule_entries(d.search_rules@) == search_by_id(all_search(impls))
    &&& d.validation_by_impl@.len() == forward.len()
    &&& forall|i: int|
        0 <= i < forward.len() ==> ({
            let v = (#[trigger] d.validation_by_impl@[i]).1;
            &&& d.validation_by_impl@[i].0@ == forward[i].0
            &&& v.spec_name@ == forward[i].0.0
            &&& v.impl_name@ == forward[i].0.1
            &&& error_models(v.errors@) == impl_errors(
                forward[i].0,
                forward[i].1,
                dashboard_validation(impls, input),
                ctx,
            )
            &&& v.warning_count == 0
            &&& v.error_count == v.errors@.len()
        })
    &&& file_diagnostics(d.workspace_diagnostics@) == in_order(parts, path_keys(parts))
    &&& d.version == input.version
    &&& d.content_hash == 0
}

fn copy_format(f: &FormatConfig) -> (r: FormatConfig)
    ensures
        opt_text(r.typst.package_path) == opt_text(f.typst.package_path),
{
    FormatConfig { typst: TypstFormatConfig { package_path: copy_opt(&f.typst.package_path) } }
}

fn collect_options(configs: &Vec<SpecConfig>) -> (r: Vec<SpecOptions>)
    ensures
        option_models(r@) == options_by_name(configs@),
{
    let ghost options = configs@.map_values(|c: SpecConfig| config_options(c));
    let ghost keys = options.map_values(|o: OptionsModel| seq![o.name]);
    let ghost f = |o: SpecOptions| o@;
    let mut entries: Vec<(Vec<String>, SpecOptions)> = Vec::new();
    let mut i: usize = 0;
    while i < configs.len()
        invariant
            i <= configs@.len(),
            options == configs@.map_values(|c: SpecConfig| config_options(c)),
            keys == options.map_values(|o: OptionsModel| seq![o.name]),
            entries@.len() == i,
            forall|k: int|
                0 <= k < i ==> texts((#[trigger] entries@[k]).0@) == keys[k] && entries@[k].1@
                    == options[k],
        decreases configs@.len() - i,
    {
        let c = &configs[i];
        let o = SpecOptions {
            name: copy_str(c.name.as_str()),
            include_patterns: copy_strings(&c.include_patterns),
            format: copy_format(&c.format),
            syntax: copy_opt(&c.syntax),
        };
        let mut key: Vec<String> = Vec::new();
        key.push(copy_str(c.name.as_str()));
        assert(texts(key@) =~= keys[i as int]);
        assert(o@ =~= options[i as int]);
        entries.push((key, o));
        i = i + 1;
    }
    proof {
        assert(entry_keys(entries@) =~= keys);
        lemma_values_mapped(keys, entry_values(entries@), f, entries@.len() as int);
        assert(entry_values(entries@).map_values(f) =~= options);
    }
    let r = last_by_key(entries);
    assert(option_models(r@) =~= r@.map_values(f));
    r
}

fn flatten(specs: Vec<SpecBuilt>) -> (r: (Vec<ApiSpecInfo>, Vec<ImplBuilt>))
    ensures
        spec_infos(r.0@) == spec_models(specs@).map_values(|s: SpecModel| s.info),
        impl_models(r.1@) == all_impls(spec_models(specs@)),
{
    let ghost ss = spec_models(specs@);
    let ghost infos = ss.map_values(|s: SpecModel| s.info);
    let mut out: Vec<ApiSpecInfo> = Vec::new();
    let mut impls: Vec<ImplBuilt> = Vec::new();
    proof {
        assert(ss.take(0) =~= Seq::<SpecModel>::empty());
        assert(impl_models(impls@) =~= Seq::<ImplModel>::empty());
    }
    for s in it: specs
        invariant
            it.seq() == specs@,
            ss == spec_models(specs@),
            infos == ss.map_values(|s: SpecModel| s.info),
            out@.len() == it.index(),
            forall|k: int| 0 <= k < out@.len() ==> (#[trigger] out@[k])@ == infos[k],
            impl_models(impls@) == all_impls(ss.take(it.index())),
    {
        let ghost i = it.index();
        proof {
            assert(ss.take(i + 1).drop_last() =~= ss.take(i));
            assert(ss.take(i + 1).last() == s@);
        }
        out.push(s.info);
        let ghost before = impls@;
        let mut more = s.impls;
        impls.append(&mut more);
        assert(impl_models(impls@) =~= impl_models(before) + impl_models(s.impls@));
    }
    assert(ss.take(ss.len() as int) =~= ss);
    assert(spec_infos(out@) =~= infos);
    (out, impls)
}

fn sort_failures(v: Vec<(String, String)>) -> (r: Vec<(String, String)>)
    ensures
        path_pairs(r@) == failures_by_path(path_pairs(v@)),
{
    let ghost ps = path_pairs(v@);
    let ghost keys = ps.map_values(|f: (Seq<char>, Seq<char>)| path_key(f.0));
    let ghost f = |p: (String, String)| (p.0@, p.1@);
    let mut entries: Vec<(Vec<String>, (String, String))> = Vec::new();
    for e in it: v
        invariant
            it.seq() == v@,
            ps == path_pairs(v@),
            keys == ps.map_values(|f: (Seq<char>, Seq<char>)| path_key(f.0)),
            entries@.len() == it.index(),
            forall|k: int|
                0 <= k < entries@.len() ==> texts((#[trigger] entries@[k]).0@) == keys[k]
                    && entries@[k].1 == v@[k],
    {
        let key = path_key_of(e.0.as_str());
        assert(ps[it.index()] == (e.0@, e.1@));
        entries.push((key, e));
    }
    proof {
        assert(entry_keys(entries@) =~= keys);
        assert(entry_values(entries@) =~= v@);
        lemma_values_mapped(keys, v@, f, v@.len() as int);
        assert(v@.map_values(f) =~= ps);
    }
    let r = first_by_key(entries);
    assert(path_pairs(r@) =~= r@.map_values(f));
    r
}

fn copy_pairs(v: &Vec<(String, String)>, out: &mut Vec<(String, String)>)
    ensures
        path_pairs(final(out)@) == path_pairs(old(out)@) + path_pairs(v@),
{
    let ghost start = path_pairs(out@);
    let ghost ps = path_pairs(v@);
    let mut i: usize = 0;
    assert(start + ps.take(0) =~= start);
    while i < v.len()
        invariant
            i <= v@.len(),
            ps == path_pairs(v@),
            path_pairs(out@) == start + ps.take(i as int),
        decreases v@.len() - i,
    {
        let ghost before = out@;
        let pair = (copy_str(v[i].0.as_str()), copy_str(v[i].1.as_str()));
        out.push(pair);
        proof {
            assert(path_pairs(out@) =~= path_pairs(before).push(ps[i as int]));
            assert(ps.take(i + 1) =~= ps.take(i as int).push(ps[i as int]));
            assert(path_pairs(out@) =~= start + ps.take(i + 1));
        }
        i = i + 1;
    }
    assert(ps.take(i as int) =~= ps);
}

fn failures_of_all(impls: &Vec<ImplBuilt>) -> (r: Vec<(String, String)>)
    ensures
        path_pairs(r@) == failures_by_path(all_failures(impl_models(impls@))),
{
    let ghost ms = impl_models(impls@);
    let mut all: Vec<(String, String)> = Vec::new();
    let mut i: usize = 0;
    assert(path_pairs(all@) =~= Seq::<(Seq<char>, Seq<char>)>::empty());
    assert(ms.take(0) =~= Seq::<ImplModel>::empty());
    while i < impls.len()
        invariant
            i <= impls@.len(),
            ms == impl_models(impls@),
            path_pairs(all@) == all_failures(ms.take(i as int)),
        decreases impls@.len() - i,
    {
        proof {
            assert(ms.take(i + 1).drop_last() =~= ms.take(i as int));
            assert(ms.take(i + 1).last() == impls@[i as int]@);
        }
        copy_pairs(&impls[i].failures, &mut all);
        i = i + 1;
    }
    assert(ms.take(i as int) =~= ms);
    sort_failures(all)
}

fn failures_of_key(impls: &Vec<ImplBuilt>, key: &ImplKey) -> (r: Vec<(String, String)>)
    ensures
        path_pairs(r@) == failures_by_path(key_failures(impl_models(impls@), key@)),
{
    let ghost ms = impl_models(impls@);
    let mut all: Vec<(String, String)> = Vec::new();
    let mut i: usize = 0;
    assert(path_pairs(all@) =~= Seq::<(Seq<char>, Seq<char>)>::empty());
    assert(ms.take(0) =~= Seq::<ImplModel>::empty());
    while i < impls.len()
        invariant
            i <= impls@.len(),
            ms == impl_models(impls@),
            path_pairs(all@) == key_failures(ms.take(i as int), key@),
        decreases impls@.len() - i,
    {
        proof {
            assert(ms.take(i + 1).drop_last() =~= ms.take(i as int));
            assert(ms.take(i + 1).last() == impls@[i as int]@);
        }
        if crate::text::str_eq(impls[i].key.spec_name.as_str(), key.spec_name.as_str())
            && crate::text::str_eq(impls[i].key.impl_name.as_str(), key.impl_name.as_str()) {
            copy_pairs(&impls[i].failures, &mut all);
        }
        i = i + 1;
    }
    assert(ms.take(i as int) =~= ms);
    sort_failures(all)
}

fn failures_by_key(impls: &Vec<ImplBuilt>) -> (r: Vec<(ImplKey, Vec<(String, String)>)>)
    ensures
        failure_models(r@) == impl_models(impls@).map_values(
            |m: ImplModel|
                (m.key, failures_by_path(key_failures(impl_models(impls@), m.key))),
        ),
{
    let ghost ms = impl_models(impls@);
    let ghost want = ms.map_values(
        |m: ImplModel| (m.key, failures_by_path(key_failures(ms, m.key))),
    );
    let mut out: Vec<(ImplKey, Vec<(String, String)>)> = Vec::new();
    let mut i: usize = 0;
    while i < impls.len()
        invariant
            i <= impls@.len(),
            ms == impl_models(impls@),
            want == ms.map_values(
                |m: ImplModel| (m.key, failures_by_path(key_failures(ms, m.key))),
            ),
            out@.len() == i,
            forall|k: int|
                0 <= k < i ==> ((#[trigger] out@[k]).0@, path_pairs(out@[k].1@)) == want[k],
        decreases impls@.len() - i,
    {
        assert(ms[i as int] == impls@[i as int]@);
        let f = failures_of_key(impls, &impls[i].key);
        out.push((impls[i].key.copy(), f));
        i = i + 1;
    }
    assert(failure_models(out@) =~= want);
    out
}

/// What is kept of all implementations.
struct Parts {
    forward: Vec<(Vec<String>, (ImplKey, ApiSpecForward))>,
    reverse: Vec<(Vec<String>, (ImplKey, ApiReverseData))>,
    units: Vec<(Vec<String>, (ImplKey, Vec<(String, Vec<CodeUnit>)>))>,
    sources: Vec<SourceFile>,
    search: Vec<RuleEntry>,
}

spec fn forward_part(e: (Vec<String>, (ImplKey, ApiSpecForward)), m: ImplModel) -> bool {
    texts(e.0@) == impl_key(m.key) && e.1.0@ == m.key && e.1.1.name@ == m.key.0 && rule_models(
        e.1.1.rules@,
    ) == m.rules
}

spec fn reverse_part(e: (Vec<String>, (ImplKey, ApiReverseData)), m: ImplModel) -> bool {
    texts(e.0@) == impl_key(m.key) && e.1.0@ == m.key && e.1.1.total_units == m.total_units
        && e.1.1.covered_units == m.covered_units && file_entries(e.1.1.files@) == m.entries
}

spec fn units_part(
    e: (Vec<String>, (ImplKey, Vec<(String, Vec<CodeUnit>)>)),
    m: ImplModel,
) -> bool {
    texts(e.0@) == impl_key(m.key) && e.1.0@ == m.key && unit_models(e.1.1@) == m.units
}

fn take_apart(impls: Vec<ImplBuilt>) -> (r: Parts)
    ensures
        r.forward@.len() == impls@.len(),
        r.reverse@.len() == impls@.len(),
        r.units@.len() == impls@.len(),
        forall|k: int|
            0 <= k < impls@.len() ==> forward_part(
                #[trigger] r.forward@[k],
                impl_models(impls@)[k],
            ),
        forall|k: int|
            0 <= k < impls@.len() ==> reverse_part(
                #[trigger] r.reverse@[k],
                impl_models(impls@)[k],
            ),
        forall|k: int|
            0 <= k < impls@.len() ==> units_part(#[trigger] r.units@[k], impl_models(impls@)[k]),
        source_models(r.sources@) == all_sources(impl_models(impls@)),
        rule_entries(r.search@) == all_search(impl_models(impls@)),
{
    let ghost ms = impl_models(impls@);
    let mut forward: Vec<(Vec<String>, (ImplKey, ApiSpecForward))> = Vec::new();
    let mut reverse: Vec<(Vec<String>, (ImplKey, ApiReverseData))> = Vec::new();
    let mut units: Vec<(Vec<String>, (ImplKey, Vec<(String, Vec<CodeUnit>)>))> = Vec::new();
    let mut sources: Vec<SourceFile> = Vec::new();
    let mut search: Vec<RuleEntry> = Vec::new();
    proof {
        assert(ms.take(0) =~= Seq::<ImplModel>::empty());
        assert(source_models(sources@) =~= Seq::<SourceModel>::empty());
        assert(rule_entries(search@) =~= Seq::<(Seq<char>, Seq<char>, SpecFormat)>::empty());
    }
    for b in it: impls
        invariant
            it.seq() == impls@,
            ms == impl_models(impls@),
            forward@.len() == it.index(),
            reverse@.len() == it.index(),
            units@.len() == it.index(),
            forall|k: int|
                0 <= k < it.index() ==> forward_part(#[trigger] forward@[k], ms[k]),
            forall|k: int|
                0 <= k < it.index() ==> reverse_part(#[trigger] reverse@[k], ms[k]),
            forall|k: int| 0 <= k < it.index() ==> units_part(#[trigger] units@[k], ms[k]),
            source_models(sources@) == all_sources(ms.take(it.index())),
            rule_entries(search@) == all_search(ms.take(it.index())),
    {
        let ghost i = it.index();
        proof {
            assert(ms.take(i + 1).drop_last() =~= ms.take(i));
            assert(ms.take(i + 1).last() == b@);
            assert(ms[i] == b@);
        }
        let spec_name = copy_str(b.key.spec_name.as_str());
        forward.push(
            (
                impl_key_of(&b.key),
                (b.key.copy(), ApiSpecForward { name: spec_name, rules: b.rules }),
            ),
        );
        reverse.push((impl_key_of(&b.key), (b.key.copy(), b.reverse)));
        units.push((impl_key_of(&b.key), (b.key.copy(), b.units)));
        let ghost before = sources@;
        let mut more = b.sources;
        sources.append(&mut more);
        assert(source_models(sources@) =~= source_models(before) + source_models(b.sources@));
        let ghost before_search = search@;
        let mut more_search = b.search;
        search.append(&mut more_search);
        assert(rule_entries(search@) =~= rule_entries(before_search) + rule_entries(b.search@));
    }
    assert(ms.take(ms.len() as int) =~= ms);
    Parts { forward, reverse, units, sources, search }
}

fn sort_forward(
    v: Vec<(Vec<String>, (ImplKey, ApiSpecForward))>,
    Ghost(ms): Ghost<Seq<ImplModel>>,
) -> (r: Vec<(ImplKey, ApiSpecForward)>)
    requires
        v@.len() == ms.len(),
        forall|k: int| 0 <= k < v@.len() ==> forward_part(#[trigger] v@[k], ms[k]),
    ensures
        forward_models(r@) == by_impl(ms, |m: ImplModel| (m.key, m.rules)),
        forward_names(r@) == by_impl(ms, |m: ImplModel| (m.key, m.key.0)),
{
    let ghost vs = entry_values(v@);
    let ghost keys = keys_of_impls(ms);
    let ghost f = |e: (ImplKey, ApiSpecForward)| (e.0@, rule_models(e.1.rules@));
    let ghost g = |e: (ImplKey, ApiSpecForward)| (e.0@, e.1.name@);
    proof {
        assert forall|k: int| 0 <= k < ms.len() implies entry_keys(v@)[k] == keys[k] && f(vs[k])
            == (ms[k].key, ms[k].rules) && g(vs[k]) == (ms[k].key, ms[k].key.0) by {
            assert(forward_part(v@[k], ms[k]));
        }
        assert(entry_keys(v@) =~= keys);
        lemma_values_mapped(keys, vs, f, ms.len() as int);
        lemma_values_mapped(keys, vs, g, ms.len() as int);
        assert(vs.map_values(f) =~= ms.map_values(|m: ImplModel| (m.key, m.rules)));
        assert(vs.map_values(g) =~= ms.map_values(|m: ImplModel| (m.key, m.key.0)));
    }
    let r = last_by_key(v);
    proof {
        assert(forward_models(r@) =~= r@.map_values(f));
        assert(forward_names(r@) =~= r@.map_values(g));
    }
    r
}

fn sort_reverse(
    v: Vec<(Vec<String>, (ImplKey, ApiReverseData))>,
    Ghost(ms): Ghost<Seq<ImplModel>>,
) -> (r: Vec<(ImplKey, ApiReverseData)>)
    requires
        v@.len() == ms.len(),
        forall|k: int| 0 <= k < v@.len() ==> reverse_part(#[trigger] v@[k], ms[k]),
    ensures
        reverse_models(r@) == by_impl(ms, |m: ImplModel| (m.key, m.entries)),
        reverse_totals(r@) == by_impl(
            ms,
            |m: ImplModel| (m.key, m.total_units, m.covered_units),
        ),
{
    let ghost vs = entry_values(v@);
    let ghost keys = keys_of_impls(ms);
    let ghost f = |e: (ImplKey, ApiReverseData)| (e.0@, file_entries(e.1.files@));
    let ghost g = |e: (ImplKey, ApiReverseData)| (e.0@, e.1.total_units, e.1.covered_units);
    proof {
        assert forall|k: int| 0 <= k < ms.len() implies entry_keys(v@)[k] == keys[k] && f(vs[k])
            == (ms[k].key, ms[k].entries) && g(vs[k]) == (
            ms[k].key,
            ms[k].total_units,
            ms[k].covered_units,
        ) by {
            assert(reverse_part(v@[k], ms[k]));
        }
        assert(entry_keys(v@) =~= keys);
        lemma_values_mapped(keys, vs, f, ms.len() as int);
        lemma_values_mapped(keys, vs, g, ms.len() as int);
        assert(vs.map_values(f) =~= ms.map_values(|m: ImplModel| (m.key, m.entries)));
        assert(vs.map_values(g) =~= ms.map_values(
            |m: ImplModel| (m.key, m.total_units, m.covered_units),
        ));
    }
    let r = last_by_key(v);
    proof {
        assert(reverse_models(r@) =~= r@.map_values(f));
        assert(reverse_totals(r@) =~= r@.map_values(g));
    }
    r
}

fn sort_impl_units(
    v: Vec<(Vec<String>, (ImplKey, Vec<(String, Vec<CodeUnit>)>))>,
    Ghost(ms): Ghost<Seq<ImplModel>>,
) -> (r: Vec<(ImplKey, Vec<(String, Vec<CodeUnit>)>)>)
    requires
        v@.len() == ms.len(),
        forall|k: int| 0 <= k < v@.len() ==> units_part(#[trigger] v@[k], ms[k]),
    ensures
        impl_units(r@) == by_impl(ms, |m: ImplModel| (m.key, m.units)),
{
    let ghost vs = entry_values(v@);
    let ghost keys = keys_of_impls(ms);
    let ghost f = |e: (ImplKey, Vec<(String, Vec<CodeUnit>)>)| (e.0@, unit_models(e.1@));
    proof {
        assert forall|k: int| 0 <= k < ms.len() implies entry_keys(v@)[k] == keys[k] && f(vs[k])
            == (ms[k].key, ms[k].units) by {
            assert(units_part(v@[k], ms[k]));
        }
        assert(entry_keys(v@) =~= keys);
        lemma_values_mapped(keys, vs, f, ms.len() as int);
        assert(vs.map_values(f) =~= ms.map_values(|m: ImplModel| (m.key, m.units)));
    }
    let r = last_by_key(v);
    assert(impl_units(r@) =~= r@.map_values(f));
    r
}

fn sort_sources(v: Vec<SourceFile>) -> (r: Vec<SourceFile>)
    ensures
        source_models(r@) == sources_by_path(source_models(v@)),
{
    let ghost ms = source_models(v@);
    let ghost keys = source_keys(ms);
    let ghost n = ms.len() as int;
    let ghost text = |s: String| s@;
    let ghost said = |q: Reqs| q@;
    let mut paths: Vec<(Vec<String>, String)> = Vec::new();
    let mut contents: Vec<(Vec<String>, String)> = Vec::new();
    let mut reqs: Vec<(Vec<String>, Reqs)> = Vec::new();
    for f in it: v
        invariant
            it.seq() == v@,
            ms == source_models(v@),
            keys == source_keys(ms),
            paths@.len() == it.index(),
            contents@.len() == it.index(),
            reqs@.len() == it.index(),
            forall|k: int|
                0 <= k < it.index() ==> texts((#[trigger] paths@[k]).0@) == keys[k] && paths@[k].1@
                    == ms[k].path,
            forall|k: int|
                0 <= k < it.index() ==> texts((#[trigger] contents@[k]).0@) == keys[k]
                    && contents@[k].1@ == ms[k].content,
            forall|k: int|
                0 <= k < it.index() ==> texts((#[trigger] reqs@[k]).0@) == keys[k] && reqs@[k].1@
                    == ms[k].reqs,
    {
        assert(ms[it.index()] == f@);
        contents.push((path_key_of(f.path.as_str()), f.content));
        reqs.push((path_key_of(f.path.as_str()), f.reqs));
        paths.push((path_key_of(f.path.as_str()), f.path));
    }
    proof {
        assert(entry_keys(paths@) =~= keys);
        assert(entry_keys(contents@) =~= keys);
        assert(entry_keys(reqs@) =~= keys);
        let p = entry_values(paths@);
        let c = entry_values(contents@);
        let q = entry_values(reqs@);
        lemma_values_mapped(keys, p, text, n);
        lemma_values_mapped(keys, c, text, n);
        lemma_values_mapped(keys, q, said, n);
        assert(p.map_values(text) =~= ms.map_values(|f: SourceModel| f.path));
        assert(c.map_values(text) =~= ms.map_values(|f: SourceModel| f.content));
        assert(q.map_values(said) =~= ms.map_values(|f: SourceModel| f.reqs));
        lemma_values_len(keys, p, n);
        lemma_values_len(keys, c, n);
        lemma_values_len(keys, q, n);
    }
    let first_paths = first_by_key(paths);
    let last_contents = last_by_key(contents);
    let first_reqs = first_by_key(reqs);
    join_sources(first_paths, last_contents, first_reqs, Ghost(sources_by_path(ms)))
}

fn join_sources(
    paths: Vec<String>,
    contents: Vec<String>,
    reqs: Vec<Reqs>,
    Ghost(want): Ghost<Seq<SourceModel>>,
) -> (r: Vec<SourceFile>)
    requires
        paths@.len() == want.len(),
        contents@.len() == want.len(),
        reqs@.len() == want.len(),
        forall|k: int|
            0 <= k < want.len() ==> (#[trigger] want[k]) == (SourceModel {
                path: paths@[k]@,
                content: contents@[k]@,
                reqs: reqs@[k]@,
            }),
    ensures
        source_models(r@) == want,
{
    let mut ps = paths;
    let mut cs = contents;
    let mut qs = reqs;
    let mut back: Vec<SourceFile> = Vec::new();
    while ps.len() > 0
        invariant
            ps@.len() <= want.len(),
            ps@ == paths@.take(ps@.len() as int),
            cs@ == contents@.take(ps@.len() as int),
            qs@ == reqs@.take(ps@.len() as int),
            paths@.len() == want.len(),
            contents@.len() == want.len(),
            reqs@.len() == want.len(),
            back@.len() == want.len() - ps@.len(),
            forall|k: int|
                0 <= k < want.len() ==> (#[trigger] want[k]) == (SourceModel {
                    path: paths@[k]@,
                    content: contents@[k]@,
                    reqs: reqs@[k]@,
                }),
            forall|k: int|
                0 <= k < back@.len() ==> (#[trigger] back@[k])@ == want[want.len() - 1 - k],
        decreases ps@.len(),
    {
        let ghost n = ps@.len() as int;
        assert(cs@.len() == n && qs@.len() == n);
        let p = ps.pop();
        let c = cs.pop();
        let q = qs.pop();
        proof {
            assert(paths@.take(n).drop_last() =~= paths@.take(n - 1));
            assert(contents@.take(n).drop_last() =~= contents@.take(n - 1));
            assert(reqs@.take(n).drop_last() =~= reqs@.take(n - 1));
            assert(want[n - 1].path == paths@[n - 1]@);
        }
        match (p, c, q) {
            (Some(path), Some(content), Some(reqs)) => {
                back.push(SourceFile { path, content, reqs });
            },
            _ => {},
        }
    }
    let mut out: Vec<SourceFile> = Vec::new();
    while back.len() > 0
        invariant
            back@.len() + out@.len() == want.len(),
            forall|k: int|
                0 <= k < back@.len() ==> (#[trigger] back@[k])@ == want[want.len() - 1 - k],
            forall|k: int| 0 <= k < out@.len() ==> (#[trigger] out@[k])@ == want[k],
        decreases back@.len(),
    {
        let ghost n = back@.len() as int;
        let ghost was = back@;
        match back.pop() {
            Some(f) => {
                assert(f == was[n - 1]);
                out.push(f);
            },
            None => {},
        }
    }
    assert(source_models(out@) =~= want);
    out
}

fn sort_search(v: Vec<RuleEntry>) -> (r: Vec<RuleEntry>)
    ensures
        rule_entries(r@) == search_by_id(rule_entries(v@)),
{
    let ghost es = rule_entries(v@);
    let ghost keys = es.map_values(|e: (Seq<char>, Seq<char>, SpecFormat)| seq![e.0]);
    let ghost f = |e: RuleEntry| e@;
    let mut entries: Vec<(Vec<String>, RuleEntry)> = Vec::new();
    for e in it: v
        invariant
            it.seq() == v@,
            es == rule_entries(v@),
            keys == es.map_values(|e: (Seq<char>, Seq<char>, SpecFormat)| seq![e.0]),
            entries@.len() == it.index(),
            forall|k: int|
                0 <= k < entries@.len() ==> texts((#[trigger] entries@[k]).0@) == keys[k]
                    && entries@[k].1 == v@[k],
    {
        let mut key: Vec<String> = Vec::new();
        key.push(copy_str(e.id.as_str()));
        proof {
            assert(es[it.index()] == e@);
            assert(texts(key@) =~= keys[it.index()]);
        }
        entries.push((key, e));
    }
    proof {
        assert(entry_keys(entries@) =~= keys);
        assert(entry_values(entries@) =~= v@);
        lemma_values_mapped(keys, v@, f, v@.len() as int);
        assert(v@.map_values(f) =~= es);
    }
    let r = first_by_key(entries);
    assert(rule_entries(r@) =~= r@.map_values(f));
    r
}

fn assemble(specs: Vec<SpecBuilt>, configs: &Vec<SpecConfig>, input: ProjectInput) -> (r: DashboardData)
    ensures
        dashboard_holds(r, configs@, spec_models(specs@), input),
{
    let ghost models = spec_models(specs@);
    let ghost ms = all_impls(models);
    let (infos, impls) = flatten(specs);
    let failures = failures_of_all(&impls);
    let failures_by_impl = failures_by_key(&impls);
    let parts = take_apart(impls);
    let forward_by_impl = sort_forward(parts.forward, Ghost(ms));
    let reverse_by_impl = sort_reverse(parts.reverse, Ghost(ms));
    let code_units_by_impl = sort_impl_units(parts.units, Ghost(ms));
    let search_rules = sort_search(parts.search);
    let sources = SourceSet {
        files: sort_sources(parts.sources),
        resolved_paths: input.resolved_paths,
        test_files: input.test_files,
    };
    let config = ApiConfig { project_root: copy_str(input.root.as_str()), specs: infos };
    let validation_input = ValidationInput {
        root: input.root.as_str(),
        config_path: input.config_path.as_str(),
        reverse: &reverse_by_impl,
        sources: &sources,
        failures: &failures_by_impl,
    };
    assert(validation_input@ =~= dashboard_validation(ms, input));
    let validation_by_impl = compute_validation_by_impl(
        &config,
        &forward_by_impl,
        &validation_input,
    );
    let workspace_input = WorkspaceInput {
        root: input.root.as_str(),
        config_path: input.config_path.as_str(),
        sources: &sources,
        spec_files: &input.spec_files,
        failures: &failures,
    };
    assert(workspace_input@ =~= dashboard_workspace(ms, input));
    let workspace_diagnostics = compute_workspace_diagnostics(
        &config,
        &forward_by_impl,
        &workspace_input,
    );
    let options_by_spec = collect_options(configs);
    proof {
        let forward = forward_models(forward_by_impl@);
        assert(forward.len() == forward_by_impl@.len());
        assert forall|i: int| 0 <= i < forward.len() implies #[trigger] forward[i] == (
            forward_by_impl@[i].0@,
            rule_models(forward_by_impl@[i].1.rules@),
        ) by {}
    }
    DashboardData {
        config,
        forward_by_impl,
        reverse_by_impl,
        code_units_by_impl,
        options_by_spec,
        sources,
        search_rules,
        validation_by_impl,
        workspace_diagnostics,
        version: input.version,
        content_hash: 0,
    }
}

/// Build a dashboard from what was read: `reads` holds what was read for each
/// specification.
pub fn build_dashboard_data(config: &Config, reads: Vec<SpecRead>, input: ProjectInput) -> (r: Result<
    DashboardData,
    BuildError,
>)
    requires
        reads_fit(config.specs@, reads@),
    ensures
        match (r, specs_model(config.specs@, reads@, config.specs@.len() as int, input.root@)) {
            (Ok(d), Ok(specs)) => dashboard_holds(d, config.specs@, specs, input),
            (Err(a), Err(b)) => a@ == b,
            _ => false,
        },
{
    match build_specs(&config.specs, reads, input.root.as_str()) {
        Ok(specs) => Ok(assemble(specs, &config.specs, input)),
        Err(e) => Err(e),
    }
}

/// The hashes of the first `n` texts, combined.
pub open spec fn combined_hash(v: Seq<Seq<char>>, n: int) -> u64
    decreases n,
{
    if n <= 0 {
        0
    } else {
        combined_hash(v, n - 1) ^ text_hash(v[n - 1])
    }
}

impl DashboardData {
    /// Sets the hash for change detection. `shown` holds what is shown of each
    /// implementation, as text.
    pub fn set_content_hash(&mut self, shown: &Vec<String>)
        ensures
            *final(self) == (DashboardData {
                content_hash: combined_hash(texts(shown@), shown@.len() as int),
                ..*old(self)
            }),
    {
        let ghost ts = texts(shown@);
        let mut hash: u64 = 0;
        let mut i: usize = 0;
        while i < shown.len()
            invariant
                i <= shown@.len(),
                ts == texts(shown@),
                hash == combined_hash(ts, i as int),
            decreases shown@.len() - i,
        {
            assert(ts[i as int] == shown@[i as int]@);
            hash = hash ^ simple_hash(shown[i].as_str());
            i = i + 1;
        }
        self.content_hash = hash;
    }
}

} // verus!
