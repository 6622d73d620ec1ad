//! What a dashboard holds of what was built.

use vstd::prelude::*;

use crate::assembly::{ImplModel, SpecModel};
use crate::build_laws::{law_path_key, lemma_flat};
use crate::cache::{
    hash_matches, overlay_content, overlay_for, spec_hit, stamp_matches, text_hash, CachedModel,
    CachedSpecModel, FileStamp, SpecHit,
};
use crate::config::SpecConfig;
use crate::api::{forward_models, spec_infos};
use crate::dashboard::{
    dashboard_holds, impl_units, reverse_totals, DashboardData, ProjectInput,
    all_failures, all_impls, all_search, all_sources, by_impl, combined_hash, config_options,
    failures_by_path, key_failures, keys_of_impls, options_by_name, search_by_id, source_keys,
    sources_by_path, OptionsModel,
};
use crate::format::SpecFormat;
use crate::order_laws::{
    is_first, is_last, law_first_value_is_kept, law_last_value_is_kept, law_map_holds_keys,
};
use crate::paths::components;
use crate::sorted_map::{impl_key, path_key, sorted_keys};
use crate::validation::{reverse_models, SourceModel};

verus! {

/// The implementations of a project are those of all its specifications, in order.
pub proof fn law_all_implementations(specs: Seq<SpecModel>)
    ensures
        all_impls(specs) == specs.map_values(|s: SpecModel| s.impls).flatten(),
    decreases specs.len(),
{
    let f = |s: SpecModel| s.impls;
    let parts = specs.map_values(f);
    if specs.len() > 0 {
        law_all_implementations(specs.drop_last());
        assert(parts.drop_last() =~= specs.drop_last().map_values(f));
        lemma_flat(parts);
    } else {
        assert(parts =~= Seq::<Seq<ImplModel>>::empty());
        assert(parts.flatten() =~= Seq::<ImplModel>::empty());
    }
}

/// The source files, the unusable files and the search entries of a project are
/// those of all its implementations, in order.
pub proof fn law_all_of_implementations(impls: Seq<ImplModel>)
    ensures
        all_sources(impls) == impls.map_values(|m: ImplModel| m.sources).flatten(),
        all_failures(impls) == impls.map_values(|m: ImplModel| m.failures).flatten(),
        all_search(impls) == impls.map_values(|m: ImplModel| m.search).flatten(),
    decreases impls.len(),
{
    let f = |m: ImplModel| m.sources;
    let g = |m: ImplModel| m.failures;
    let h = |m: ImplModel| m.search;
    let a = impls.map_values(f);
    let b = impls.map_values(g);
    let c = impls.map_values(h);
    if impls.len() > 0 {
        let d = impls.drop_last();
        law_all_of_implementations(d);
        assert(a.drop_last() =~= d.map_values(f));
        assert(b.drop_last() =~= d.map_values(g));
        assert(c.drop_last() =~= d.map_values(h));
        lemma_flat(a);
        lemma_flat(b);
        lemma_flat(c);
    } else {
        assert(a =~= Seq::<Seq<SourceModel>>::empty());
        assert(b =~= Seq::<Seq<(Seq<char>, Seq<char>)>>::empty());
        assert(c =~= Seq::<Seq<(Seq<char>, Seq<char>, SpecFormat)>>::empty());
        assert(a.flatten() =~= Seq::<SourceModel>::empty());
        assert(b.flatten() =~= Seq::<(Seq<char>, Seq<char>)>::empty());
        assert(c.flatten() =~= Seq::<(Seq<char>, Seq<char>, SpecFormat)>::empty());
    }
}

/// The unusable files of an implementation are those found under its key.
pub proof fn law_failures_of_an_implementation(impls: Seq<ImplModel>, key: (Seq<char>, Seq<char>))
    ensures
        key_failures(impls, key) == impls.filter(|m: ImplModel| m.key == key).map_values(
            |m: ImplModel| m.failures,
        ).flatten(),
    decreases impls.len(),
{
    reveal(Seq::filter);
    let keep = |m: ImplModel| m.key == key;
    let says = |m: ImplModel| m.failures;
    let parts = impls.filter(keep).map_values(says);
    if impls.len() > 0 {
        let d = impls.drop_last();
        law_failures_of_an_implementation(d, key);
        let before = d.filter(keep).map_values(says);
        if keep(impls.last()) {
            assert(parts.drop_last() =~= before);
            assert(parts.last() == says(impls.last()));
            lemma_flat(parts);
        } else {
            assert(parts =~= before);
        }
    } else {
        assert(parts =~= Seq::<Seq<(Seq<char>, Seq<char>)>>::empty());
        assert(parts.flatten() =~= Seq::<(Seq<char>, Seq<char>)>::empty());
    }
}

/// What is known of an implementation is kept, unless a later one has the same
/// key.
pub proof fn law_every_implementation_is_kept<T>(
    impls: Seq<ImplModel>,
    f: spec_fn(ImplModel) -> T,
    i: int,
)
    requires
        0 <= i < impls.len(),
        forall|j: int| i < j < impls.len() ==> (#[trigger] impls[j]).key != impls[i].key,
    ensures
        by_impl(impls, f).contains(f(impls[i])),
{
    let keys = keys_of_impls(impls);
    let n = impls.len() as int;
    let values = impls.map_values(f);
    law_map_holds_keys(keys, n);
    law_last_value_is_kept(keys, values, n);
    assert(keys[i] == impl_key(impls[i].key));
    assert(sorted_keys(keys, n).contains(keys[i]));
    let x = sorted_keys(keys, n).index_of(keys[i]);
    assert(is_last(keys, n, i, sorted_keys(keys, n)[x])) by {
        assert forall|j: int| i < j < n implies #[trigger] keys[j] != keys[i] by {
            assert(keys[j] == impl_key(impls[j].key));
            lemma_impl_key(impls[j].key, impls[i].key);
        }
    }
    assert(by_impl(impls, f)[x] == f(impls[i]));
}

proof fn lemma_impl_key(a: (Seq<char>, Seq<char>), b: (Seq<char>, Seq<char>))
    ensures
        impl_key(a) == impl_key(b) <==> a == b,
{
    if impl_key(a) == impl_key(b) {
        assert(impl_key(a)[0] == impl_key(b)[0]);
        assert(impl_key(a)[1] == impl_key(b)[1]);
    }
}

/// There are as many entries as there are different keys of implementations: one
/// for each.
pub proof fn law_one_entry_for_each_key<T>(impls: Seq<ImplModel>, f: spec_fn(ImplModel) -> T)
    ensures
        by_impl(impls, f).len() == sorted_keys(keys_of_impls(impls), impls.len() as int).len(),
        forall|x: int|
            0 <= x < by_impl(impls, f).len() ==> exists|i: int|
                0 <= i < impls.len() && #[trigger] by_impl(impls, f)[x] == f(#[trigger] impls[i]),
{
    let keys = keys_of_impls(impls);
    let n = impls.len() as int;
    let values = impls.map_values(f);
    law_map_holds_keys(keys, n);
    law_last_value_is_kept(keys, values, n);
    let sorted = sorted_keys(keys, n);
    assert forall|x: int| 0 <= x < by_impl(impls, f).len() implies exists|i: int|
        0 <= i < impls.len() && #[trigger] by_impl(impls, f)[x] == f(#[trigger] impls[i]) by {
        assert(sorted.contains(sorted[x]));
        lemma_some_last(keys, n, sorted[x]);
        let i = choose|i: int| is_last(keys, n, i, sorted[x]);
        assert(by_impl(impls, f)[x] == values[i]);
        assert(values[i] == f(impls[i]));
    }
}

proof fn lemma_some_last(keys: Seq<Seq<Seq<char>>>, n: int, k: Seq<Seq<char>>)
    requires
        0 <= n <= keys.len(),
        exists|i: int| 0 <= i < n && #[trigger] keys[i] == k,
    ensures
        exists|i: int| is_last(keys, n, i, k),
    decreases n,
{
    if keys[n - 1] == k {
        assert(is_last(keys, n, n - 1, k));
    } else {
        let i = choose|i: int| 0 <= i < n && #[trigger] keys[i] == k;
        assert(keys[i] == k && i < n - 1);
        lemma_some_last(keys, n - 1, k);
        let m = n - 1;
        let j = choose|j: int| is_last(keys, m, j, k);
        assert(is_last(keys, n, j, k));
    }
}

/// The options of every specification are kept, unless a later one has its name.
pub proof fn law_options_of_every_spec(specs: Seq<SpecConfig>, i: int)
    requires
        0 <= i < specs.len(),
        forall|j: int| i < j < specs.len() ==> (#[trigger] specs[j]).name@ != specs[i].name@,
    ensures
        exists|x: int|
            0 <= x < options_by_name(specs).len() && {
                let o = #[trigger] options_by_name(specs)[x];
                &&& o.name == specs[i].name@
                &&& o.include_patterns == crate::text::texts(specs[i].include_patterns@)
                &&& o.package_path == crate::text::opt_text(specs[i].format.typst.package_path)
                &&& o.syntax == crate::text::opt_text(specs[i].syntax)
            },
{
    let options = specs.map_values(|c: SpecConfig| config_options(c));
    let keys = options.map_values(|o: OptionsModel| seq![o.name]);
    let n = options.len() as int;
    law_map_holds_keys(keys, n);
    law_last_value_is_kept(keys, options, n);
    assert(keys[i] == seq![specs[i].name@]);
    assert(sorted_keys(keys, n).contains(keys[i]));
    let x = sorted_keys(keys, n).index_of(keys[i]);
    assert(is_last(keys, n, i, sorted_keys(keys, n)[x])) by {
        assert forall|j: int| i < j < n implies #[trigger] keys[j] != keys[i] by {
            assert(keys[j] == seq![specs[j].name@]);
            assert(keys[j][0] != keys[i][0]);
        }
    }
    assert(options_by_name(specs)[x] == config_options(specs[i]));
}

/// Of the reasons why a file cannot be used the first is kept.
pub proof fn law_first_failure_is_kept(v: Seq<(Seq<char>, Seq<char>)>, i: int)
    requires
        0 <= i < v.len(),
        forall|j: int| 0 <= j < i ==> components((#[trigger] v[j]).0) != components(v[i].0),
    ensures
        failures_by_path(v).contains(v[i]),
{
    let keys = v.map_values(|f: (Seq<char>, Seq<char>)| path_key(f.0));
    let n = v.len() as int;
    law_map_holds_keys(keys, n);
    law_first_value_is_kept(keys, v, n);
    assert(keys[i] == path_key(v[i].0));
    assert(sorted_keys(keys, n).contains(keys[i]));
    let x = sorted_keys(keys, n).index_of(keys[i]);
    assert(is_first(keys, i, sorted_keys(keys, n)[x])) by {
        assert forall|j: int| 0 <= j < i implies #[trigger] keys[j] != keys[i] by {
            assert(keys[j] == path_key(v[j].0));
            law_path_key(v[j].0, v[i].0);
        }
    }
    assert(failures_by_path(v)[x] == v[i]);
}

/// Each id can be searched for once, with what was first said of it.
pub proof fn law_first_search_entry_is_kept(v: Seq<(Seq<char>, Seq<char>, SpecFormat)>, i: int)
    requires
        0 <= i < v.len(),
        forall|j: int| 0 <= j < i ==> (#[trigger] v[j]).0 != v[i].0,
    ensures
        search_by_id(v).contains(v[i]),
{
    let keys = v.map_values(|e: (Seq<char>, Seq<char>, SpecFormat)| seq![e.0]);
    let n = v.len() as int;
    law_map_holds_keys(keys, n);
    law_first_value_is_kept(keys, v, n);
    assert(keys[i] == seq![v[i].0]);
    assert(sorted_keys(keys, n).contains(keys[i]));
    let x = sorted_keys(keys, n).index_of(keys[i]);
    assert(is_first(keys, i, sorted_keys(keys, n)[x])) by {
        assert forall|j: int| 0 <= j < i implies #[trigger] keys[j] != keys[i] by {
            assert(keys[j] == seq![v[j].0]);
            assert(keys[j][0] != keys[i][0]);
        }
    }
    assert(search_by_id(v)[x] == v[i]);
}

/// A source file is kept once: under the path that was first seen, with the content
/// that was read last and with what was first found in it.
pub proof fn law_every_source_is_kept(v: Seq<SourceModel>, first: int, last: int)
    requires
        0 <= first <= last < v.len(),
        components(v[first].path) == components(v[last].path),
        forall|j: int|
            0 <= j < first ==> components((#[trigger] v[j]).path) != components(v[first].path),
        forall|j: int|
            last < j < v.len() ==> components((#[trigger] v[j]).path) != components(v[first].path),
    ensures
        sources_by_path(v).contains(
            SourceModel {
                path: v[first].path,
                content: v[last].content,
                reqs: v[first].reqs,
            },
        ),
{
    let keys = source_keys(v);
    let n = v.len() as int;
    let paths = v.map_values(|f: SourceModel| f.path);
    let contents = v.map_values(|f: SourceModel| f.content);
    let reqs = v.map_values(|f: SourceModel| f.reqs);
    law_map_holds_keys(keys, n);
    law_first_value_is_kept(keys, paths, n);
    law_last_value_is_kept(keys, contents, n);
    law_first_value_is_kept(keys, reqs, n);
    law_path_key(v[first].path, v[last].path);
    let k = keys[first];
    assert(k == path_key(v[first].path));
    assert(keys[last] == k);
    assert(sorted_keys(keys, n).contains(k));
    let x = sorted_keys(keys, n).index_of(k);
    assert(is_first(keys, first, sorted_keys(keys, n)[x])) by {
        assert forall|j: int| 0 <= j < first implies #[trigger] keys[j] != k by {
            assert(keys[j] == path_key(v[j].path));
            law_path_key(v[j].path, v[first].path);
        }
    }
    assert(is_last(keys, n, last, sorted_keys(keys, n)[x])) by {
        assert forall|j: int| last < j < n implies #[trigger] keys[j] != k by {
            assert(keys[j] == path_key(v[j].path));
            law_path_key(v[j].path, v[first].path);
        }
    }
    assert(sources_by_path(v)[x] == (SourceModel {
        path: v[first].path,
        content: v[last].content,
        reqs: v[first].reqs,
    }));
}

/// The combined hash tells whether one text changed: with another text in place of
/// one, it stays the same exactly where the two texts have the same hash.
pub proof fn law_change_is_noticed(v: Seq<Seq<char>>, i: int, text: Seq<char>, n: int)
    requires
        0 <= i < n <= v.len(),
    ensures
        combined_hash(v, n) == combined_hash(v.update(i, text), n) <==> text_hash(v[i])
            == text_hash(text),
    decreases n,
{
    let w = v.update(i, text);
    let a = combined_hash(v, n - 1);
    let b = combined_hash(w, n - 1);
    let x = text_hash(v[n - 1]);
    let y = text_hash(w[n - 1]);
    if i < n - 1 {
        law_change_is_noticed(v, i, text, n - 1);
        assert(x == y);
        assert((a ^ x == b ^ x) <==> a == b) by (bit_vector);
    } else {
        lemma_same_before(v, w, n - 1);
        assert((a ^ x == a ^ y) <==> x == y) by (bit_vector);
    }
}

proof fn lemma_same_before(v: Seq<Seq<char>>, w: Seq<Seq<char>>, n: int)
    requires
        0 <= n <= v.len(),
        v.len() == w.len(),
        forall|i: int| 0 <= i < n ==> #[trigger] v[i] == w[i],
    ensures
        combined_hash(v, n) == combined_hash(w, n),
    decreases n,
{
    if n > 0 {
        lemma_same_before(v, w, n - 1);
    }
}

/// What an editor last put in for a path is what the overlay holds for it, however
/// the path is written; without that it holds nothing.
pub proof fn law_overlay_holds_last(files: Seq<(String, String)>, path: Seq<char>)
    ensures
        forall|i: int|
            0 <= i < files.len() && components((#[trigger] files[i]).0@) == components(path) && (
            forall|j: int|
                i < j < files.len() ==> components((#[trigger] files[j]).0@) != components(path))
                ==> overlay_content(files, path) == Some(files[i].1@),
        overlay_content(files, path) is None <==> forall|i: int|
            0 <= i < files.len() ==> components((#[trigger] files[i]).0@) != components(path),
    decreases files.len(),
{
    if files.len() > 0 {
        let d = files.drop_last();
        law_overlay_holds_last(d, path);
        let n = files.len() - 1;
        assert(files.last() == files[n]);
        assert(forall|i: int| 0 <= i < d.len() ==> #[trigger] d[i] == files[i]);
        assert forall|i: int|
            0 <= i < files.len() && components((#[trigger] files[i]).0@) == components(path) && (
            forall|j: int|
                i < j < files.len() ==> components((#[trigger] files[j]).0@) != components(
                    path,
                )) implies overlay_content(files, path) == Some(files[i].1@) by {
            if i < n {
                assert(components(files[n].0@) != components(path));
                assert(d[i] == files[i]);
            }
        }
        if components(files[n].0@) != components(path) {
            if overlay_content(d, path) is Some {
                let i = choose|i: int|
                    0 <= i < d.len() && components((#[trigger] d[i]).0@) == components(path);
                assert(components(files[i].0@) == components(path));
            } else {
                assert forall|i: int| 0 <= i < files.len() implies components(
                    (#[trigger] files[i]).0@,
                ) != components(path) by {
                    if i < n {
                        assert(components(d[i].0@) != components(path));
                    }
                }
            }
        }
    }
}

/// The overlay answers for a path itself before it answers for what the path
/// resolves to.
pub proof fn law_overlay_prefers_the_path(
    files: Seq<(String, String)>,
    path: Seq<char>,
    canonical: Seq<char>,
)
    ensures
        overlay_content(files, path) is Some ==> overlay_for(files, path, canonical)
            == overlay_content(files, path),
        overlay_content(files, path) is None ==> overlay_for(files, path, canonical)
            == overlay_content(files, canonical),
{
}

/// A cached file is taken for unchanged only where it is cached: by its metadata
/// where length and time are those that were seen, by its content where the hash
/// is.
pub proof fn law_unchanged_source(
    m: Map<Seq<char>, CachedModel>,
    path: Seq<char>,
    stamp: FileStamp,
    content: Seq<char>,
)
    ensures
        !m.dom().contains(path) ==> !stamp_matches(m, path, stamp) && !hash_matches(
            m,
            path,
            content,
        ),
        m.dom().contains(path) ==> (stamp_matches(m, path, stamp) <==> m[path].stamp.file_len
            == stamp.file_len && m[path].stamp.modified_nanos == stamp.modified_nanos),
        m.dom().contains(path) ==> (hash_matches(m, path, content) <==> m[path].content_hash
            == text_hash(content)),
{
}

/// A cached spec document that an editor holds is never taken for unchanged by its
/// metadata; and one whose content has another hash than that which was parsed
/// only by its metadata.
pub proof fn law_unchanged_spec(
    m: Map<Seq<char>, CachedSpecModel>,
    path: Seq<char>,
    content: Seq<char>,
    stamp: FileStamp,
    in_editor: bool,
)
    ensures
        ({
            let hit = spec_hit(m, path, content, stamp, in_editor);
            &&& hit != SpecHit::Miss ==> m.dom().contains(path)
            &&& hit == SpecHit::Metadata <==> m.dom().contains(path) && !in_editor
                && m[path].stamp == stamp
            &&& hit == SpecHit::Hash ==> m[path].content_hash == text_hash(content)
            &&& m.dom().contains(path) && m[path].content_hash == text_hash(content) ==> hit
                != SpecHit::Miss
        }),
{
}

/// A dashboard holds the configuration of every specification, and the rules, the
/// files, the units and the validation of every implementation, unless a later one
/// has the same key.
pub proof fn law_dashboard_holds_all(
    d: DashboardData,
    configs: Seq<SpecConfig>,
    specs: Seq<SpecModel>,
    input: ProjectInput,
    s: int,
    i: int,
)
    requires
        dashboard_holds(d, configs, specs, input),
        0 <= s < specs.len(),
        0 <= i < specs[s].impls.len(),
        forall|t: int, j: int|
            0 <= t < specs.len() && 0 <= j < specs[t].impls.len() && (t != s || j != i) ==> (
            #[trigger] specs[t].impls[j]).key != specs[s].impls[i].key,
    ensures
        ({
            let m = specs[s].impls[i];
            &&& d.version == input.version
            &&& d.config.project_root@ == input.root@
            &&& spec_infos(d.config.specs@).len() == specs.len()
            &&& spec_infos(d.config.specs@)[s] == specs[s].info
            &&& forward_models(d.forward_by_impl@).contains((m.key, m.rules))
            &&& reverse_models(d.reverse_by_impl@).contains((m.key, m.entries))
            &&& reverse_totals(d.reverse_by_impl@).contains(
                (m.key, m.total_units, m.covered_units),
            )
            &&& impl_units(d.code_units_by_impl@).contains((m.key, m.units))
            &&& exists|x: int|
                0 <= x < d.validation_by_impl@.len() && (#[trigger] d.validation_by_impl@[x]).0@
                    == m.key && d.validation_by_impl@[x].1.error_count
                    == d.validation_by_impl@[x].1.errors@.len()
        }),
{
    let impls = all_impls(specs);
    let m = specs[s].impls[i];
    lemma_impl_at(specs, s, i);
    let k = impl_position(specs, s, i);
    assert forall|j: int| k < j < impls.len() implies (#[trigger] impls[j]).key != impls[k].key by {
        lemma_impl_from(specs, j);
        let (t, x) = choose|t: int, x: int|
            0 <= t < specs.len() && 0 <= x < specs[t].impls.len() && impl_position(specs, t, x) == j
                && #[trigger] specs[t].impls[x] == impls[j];
        assert(specs[t].impls[x] == impls[j]);
        assert(t != s || x != i);
    }
    let rules = |m: ImplModel| (m.key, m.rules);
    let entries = |m: ImplModel| (m.key, m.entries);
    let totals = |m: ImplModel| (m.key, m.total_units, m.covered_units);
    let units = |m: ImplModel| (m.key, m.units);
    law_every_implementation_is_kept(impls, rules, k);
    law_every_implementation_is_kept(impls, entries, k);
    law_every_implementation_is_kept(impls, totals, k);
    law_every_implementation_is_kept(impls, units, k);
    let infos = specs.map_values(|x: SpecModel| x.info);
    assert(infos.len() == specs.len() && infos[s] == specs[s].info);
    let forward = by_impl(impls, rules);
    let x = forward.index_of((m.key, m.rules));
    assert(forward[x].0 == m.key);
    assert(d.validation_by_impl@[x].0@ == forward[x].0);
}

/// Where an implementation stands among those of all specifications.
spec fn impl_position(specs: Seq<SpecModel>, s: int, i: int) -> int {
    all_impls(specs.take(s)).len() + i
}

proof fn lemma_impl_at(specs: Seq<SpecModel>, s: int, i: int)
    requires
        0 <= s < specs.len(),
        0 <= i < specs[s].impls.len(),
    ensures
        0 <= impl_position(specs, s, i) < all_impls(specs).len(),
        all_impls(specs)[impl_position(specs, s, i)] == specs[s].impls[i],
    decreases specs.len(),
{
    let d = specs.drop_last();
    if s < d.len() {
        lemma_impl_at(d, s, i);
        assert(d.take(s) =~= specs.take(s));
    } else {
        assert(specs.take(s) =~= d);
    }
}

proof fn lemma_impl_from(specs: Seq<SpecModel>, j: int)
    requires
        0 <= j < all_impls(specs).len(),
    ensures
        exists|t: int, x: int|
            0 <= t < specs.len() && 0 <= x < specs[t].impls.len() && impl_position(specs, t, x) == j
                && #[trigger] specs[t].impls[x] == all_impls(specs)[j],
    decreases specs.len(),
{
    if specs.len() > 0 {
        let d = specs.drop_last();
        let n = d.len() as int;
        if j < all_impls(d).len() {
            lemma_impl_from(d, j);
            let (t, x) = choose|t: int, x: int|
                0 <= t < d.len() && 0 <= x < d[t].impls.len() && impl_position(d, t, x) == j
                    && #[trigger] d[t].impls[x] == all_impls(d)[j];
            assert(d.take(t) =~= specs.take(t));
            assert(specs[t].impls[x] == all_impls(specs)[j]);
        } else {
            let x = j - all_impls(d).len();
            assert(specs.take(n) =~= d);
            assert(specs[n].impls[x] == all_impls(specs)[j]);
        }
    }
}

} // verus!
