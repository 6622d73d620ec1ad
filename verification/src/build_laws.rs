//! What a build takes in, and what it refuses.

use vstd::prelude::*;

use crate::api::{CodeUnit, ExtractedModel};
use crate::assembly::{
    config_refusal, extracted_ids, impl_model, impl_reads, inferred_prefix, merged_rules,
    prefix_keys, prefixes_of, spec_model, specs_model, unit_path_keys, units_by_path, with_rules,
    BuildErrorModel, ImplRead, SpecModel, SpecRead,
};
use crate::config::{
    config_with_pattern, effective_patterns, named_impl, named_spec, resolved_option, Config, Impl, PatternList,
    SpecConfig,
};
use crate::coverage::{sum_covered, sum_units, unit_entries};
use crate::impl_scan::{read_models, scan_failures, scan_sources, scan_units};
use crate::order_laws::{is_last, law_last_value_is_kept, law_map_holds_keys};
use crate::rule_id::rule_text;
use crate::sorted_map::{component_key, path_key, sorted_keys};
use crate::path_laws::{is_name, law_join};
use crate::paths::components;


verus! {

/// Flattening adds the last part at the end.
pub proof fn lemma_flat<A>(v: Seq<Seq<A>>)
    requires
        v.len() > 0,
    ensures
        v.flatten() == v.drop_last().flatten() + v.last(),
{
    assert(v.drop_last().push(v.last()) =~= v);
    v.drop_last().lemma_flatten_push(v.last());
}

/// The documents of a specification merge exactly where each could be read and no
/// id stands twice; the rules are then those of all documents, in order.
pub proof fn law_documents_merge(docs: Seq<Result<Seq<ExtractedModel>, Seq<char>>>)
    ensures
        ({
            let all = docs.map_values(
                |d: Result<Seq<ExtractedModel>, Seq<char>>| d->Ok_0,
            ).flatten();
            let readable = forall|i: int| 0 <= i < docs.len() ==> (#[trigger] docs[i]) is Ok;
            &&& merged_rules(docs) is Ok <==> readable && ids_differ(all)
            &&& merged_rules(docs) is Ok ==> merged_rules(docs)->Ok_0 == all
        }),
    decreases docs.len(),
{
    let f = |d: Result<Seq<ExtractedModel>, Seq<char>>| d->Ok_0;
    let parts = docs.map_values(f);
    if docs.len() == 0 {
        assert(parts =~= Seq::<Seq<ExtractedModel>>::empty());
        assert(parts.flatten() =~= Seq::<ExtractedModel>::empty());
    } else {
        let d = docs.drop_last();
        law_documents_merge(d);
        assert(parts.drop_last() =~= d.map_values(f));
        lemma_flat(parts);
        let before = d.map_values(f).flatten();
        let more = docs.last()->Ok_0;
        assert(docs.last() == docs[docs.len() - 1]);
        assert(forall|i: int| 0 <= i < d.len() ==> #[trigger] d[i] == docs[i]);
        if forall|i: int| 0 <= i < docs.len() ==> (#[trigger] docs[i]) is Ok {
            assert(forall|i: int| 0 <= i < d.len() ==> (#[trigger] d[i]) is Ok);
        }
        if ids_differ(before + more) {
            lemma_prefix_differs(before, more);
        }
        if merged_rules(d) is Ok && docs.last() is Ok {
            lemma_with_rules(before, more, more.len() as int);
            assert(more.take(more.len() as int) =~= more);
        }
        if merged_rules(docs) is Ok {
            assert forall|i: int| 0 <= i < docs.len() implies (#[trigger] docs[i]) is Ok by {
                if i < d.len() {
                    assert(d[i] is Ok);
                }
            }
        }
    }
}

/// No two rules have the same id.
pub open spec fn ids_differ(rules: Seq<ExtractedModel>) -> bool {
    forall|i: int, j: int|
        0 <= i < j < rules.len() ==> rule_text((#[trigger] rules[i]).def.id) != rule_text(
            (#[trigger] rules[j]).def.id,
        )
}

proof fn lemma_prefix_differs(before: Seq<ExtractedModel>, more: Seq<ExtractedModel>)
    requires
        ids_differ(before + more),
    ensures
        ids_differ(before),
{
    let all = before + more;
    assert forall|i: int, j: int| 0 <= i < j < before.len() implies rule_text(
        (#[trigger] before[i]).def.id,
    ) != rule_text((#[trigger] before[j]).def.id) by {
        assert(all[i] == before[i] && all[j] == before[j]);
    }
}

proof fn lemma_with_rules(before: Seq<ExtractedModel>, more: Seq<ExtractedModel>, n: int)
    requires
        0 <= n <= more.len(),
        ids_differ(before),
    ensures
        with_rules(before, more, n) is Ok <==> ids_differ(before + more.take(n)),
        with_rules(before, more, n) is Ok ==> with_rules(before, more, n)->Ok_0 == before
            + more.take(n),
    decreases n,
{
    if n == 0 {
        assert(before + more.take(0) =~= before);
    } else {
        lemma_with_rules(before, more, n - 1);
        let less = before + more.take(n - 1);
        let all = before + more.take(n);
        let r = more[n - 1];
        assert(all =~= less.push(r));
        let ids = extracted_ids(less);
        if ids_differ(all) {
            assert forall|i: int, j: int| 0 <= i < j < less.len() implies rule_text(
                (#[trigger] less[i]).def.id,
            ) != rule_text((#[trigger] less[j]).def.id) by {
                assert(all[i] == less[i] && all[j] == less[j]);
            }
            if ids.contains(rule_text(r.def.id)) {
                let i = ids.index_of(rule_text(r.def.id));
                assert(rule_text(all[i].def.id) == rule_text(all[less.len() as int].def.id));
            }
        }
        if with_rules(before, more, n) is Ok {
            assert forall|i: int, j: int| 0 <= i < j < all.len() implies rule_text(
                (#[trigger] all[i]).def.id,
            ) != rule_text((#[trigger] all[j]).def.id) by {
                if j < less.len() {
                    assert(all[i] == less[i] && all[j] == less[j]);
                } else {
                    assert(ids[i] == rule_text(all[i].def.id));
                    if rule_text(all[i].def.id) == rule_text(r.def.id) {
                        assert(ids.contains(rule_text(r.def.id)));
                    }
                }
            }
        }
    }
}

/// A document that cannot be read fails the build with what was said of it, unless
/// an earlier document fails it.
pub proof fn law_unreadable_document_fails(docs: Seq<Result<Seq<ExtractedModel>, Seq<char>>>, m: Seq<char>)
    ensures
        merged_rules(docs) is Ok ==> merged_rules(docs.push(Err(m))) == Err::<
            Seq<ExtractedModel>,
            BuildErrorModel,
        >(BuildErrorModel::Unreadable(m)),
        merged_rules(docs) is Err ==> merged_rules(docs.push(Err(m))) == merged_rules(docs),
{
    assert(docs.push(Err(m)).drop_last() =~= docs);
}

/// A build is refused for an id only where two of its rules have it, and the one
/// named is the file of the second.
pub proof fn law_duplicate_is_named(docs: Seq<Result<Seq<ExtractedModel>, Seq<char>>>)
    ensures
        merged_rules(docs) is Err ==> match merged_rules(docs)->Err_0 {
            BuildErrorModel::Duplicate(id, file) => exists|i: int, j: int|
                0 <= i < docs.len() && docs[i] is Ok && 0 <= j < (docs[i]->Ok_0).len() && rule_text(
                    (#[trigger] (docs[i]->Ok_0)[j]).def.id,
                ) == id && (docs[i]->Ok_0)[j].source_file == file,
            BuildErrorModel::Unreadable(m) => exists|i: int|
                0 <= i < docs.len() && (#[trigger] docs[i]) == Err::<
                    Seq<ExtractedModel>,
                    Seq<char>,
                >(m),
            _ => false,
        },
    decreases docs.len(),
{
    if docs.len() > 0 {
        let d = docs.drop_last();
        law_duplicate_is_named(d);
        let n = docs.len() - 1;
        assert(docs.last() == docs[n]);
        if merged_rules(d) is Err {
            match merged_rules(d)->Err_0 {
                BuildErrorModel::Duplicate(id, file) => {
                    let (i, j) = choose|i: int, j: int|
                        0 <= i < d.len() && d[i] is Ok && 0 <= j < (d[i]->Ok_0).len() && rule_text(
                            (#[trigger] (d[i]->Ok_0)[j]).def.id,
                        ) == id && (d[i]->Ok_0)[j].source_file == file;
                    assert(rule_text((docs[i]->Ok_0)[j].def.id) == id);
                },
                BuildErrorModel::Unreadable(m) => {
                    let i = choose|i: int|
                        0 <= i < d.len() && (#[trigger] d[i]) == Err::<
                            Seq<ExtractedModel>,
                            Seq<char>,
                        >(m);
                    assert(docs[i] == d[i]);
                },
                _ => {},
            }
        } else if docs[n] is Ok {
            lemma_duplicate(merged_rules(d)->Ok_0, docs[n]->Ok_0, (docs[n]->Ok_0).len() as int);
        }
    }
}

proof fn lemma_duplicate(rules: Seq<ExtractedModel>, more: Seq<ExtractedModel>, n: int)
    requires
        0 <= n <= more.len(),
    ensures
        with_rules(rules, more, n) is Err ==> match with_rules(rules, more, n)->Err_0 {
            BuildErrorModel::Duplicate(id, file) => exists|j: int|
                0 <= j < n && rule_text((#[trigger] more[j]).def.id) == id && more[j].source_file
                    == file,
            _ => false,
        },
    decreases n,
{
    if n > 0 {
        lemma_duplicate(rules, more, n - 1);
        assert(more[n - 1] == more[n - 1]);
    }
}

/// The prefix of a specification is the one that all its markers have. Without a
/// marker there is none; with several the build is refused, and all are named,
/// each once.
pub proof fn law_prefix_is_of_all_markers(name: Seq<char>, rules: Seq<ExtractedModel>, p: Seq<char>)
    ensures
        inferred_prefix(name, rules) == Ok::<Seq<char>, BuildErrorModel>(p) <==> rules.len() > 0 && (
        forall|i: int| 0 <= i < rules.len() ==> (#[trigger] rules[i]).prefix == p),
        rules.len() == 0 ==> inferred_prefix(name, rules) == Err::<Seq<char>, BuildErrorModel>(
            BuildErrorModel::NoRequirements(name),
        ),
        rules.len() > 0 && inferred_prefix(name, rules) is Err ==> {
            &&& inferred_prefix(name, rules)->Err_0 is SeveralPrefixes
            &&& inferred_prefix(name, rules)->Err_0->SeveralPrefixes_0 == name
            &&& inferred_prefix(name, rules)->Err_0->SeveralPrefixes_1.no_duplicates()
            &&& inferred_prefix(name, rules)->Err_0->SeveralPrefixes_1.contains(p) <==> exists|
                i: int,
            |
                0 <= i < rules.len() && (#[trigger] rules[i]).prefix == p
        },
{
    let n = rules.len() as int;
    let keys = prefix_keys(rules);
    law_map_holds_keys(keys, n);
    let sorted = sorted_keys(keys, n);
    let found = prefixes_of(rules);
    assert forall|x: int| 0 <= x < sorted.len() implies (#[trigger] sorted[x]) == seq![found[x]]
        by {
        assert(sorted.contains(sorted[x]));
        let i = choose|i: int| 0 <= i < n && #[trigger] keys[i] == sorted[x];
        assert(sorted[x] == seq![rules[i].prefix]);
        assert(found[x] == sorted[x][0]);
    }
    assert forall|q: Seq<char>| #[trigger] found.contains(q) <==> exists|i: int|
        0 <= i < n && (#[trigger] rules[i]).prefix == q by {
        if found.contains(q) {
            let x = found.index_of(q);
            assert(sorted.contains(sorted[x]));
            let i = choose|i: int| 0 <= i < n && #[trigger] keys[i] == sorted[x];
            assert(keys[i] == seq![rules[i].prefix]);
            assert(seq![found[x]][0] == seq![rules[i].prefix][0]);
            assert(rules[i].prefix == q);
        }
        if exists|i: int| 0 <= i < n && (#[trigger] rules[i]).prefix == q {
            let i = choose|i: int| 0 <= i < n && (#[trigger] rules[i]).prefix == q;
            assert(keys[i] == seq![q]);
            assert(sorted.contains(keys[i]));
            let x = sorted.index_of(keys[i]);
            assert(seq![found[x]][0] == seq![q][0]);
            assert(found[x] == q);
        }
    }
    assert(found.no_duplicates()) by {
        assert forall|a: int, b: int|
            0 <= a < found.len() && 0 <= b < found.len() && a != b implies found[a] != found[b] by {
            assert(sorted[a] != sorted[b]);
            assert(sorted[a] == seq![found[a]]);
            assert(sorted[b] == seq![found[b]]);
        }
    }
    if n > 0 {
        assert(rules[0].prefix == rules[0].prefix);
        assert(found.contains(rules[0].prefix));
    }
    if found.len() > 0 {
        assert(found.contains(found[0]));
    }
    if found.len() == 1 {
        assert forall|i: int| 0 <= i < n implies (#[trigger] rules[i]).prefix == found[0] by {
            assert(found.contains(rules[i].prefix));
        }
    }
    if found.len() > 1 {
        assert(found.contains(found[1]));
        assert(found[0] != found[1]);
    }
}

/// A specification is refused for its configuration exactly where it sets a prefix
/// or has no implementation; and the prefix is named first.
pub proof fn law_config_is_refused(c: SpecConfig)
    ensures
        config_refusal(c) is None <==> c.prefix is None && c.impls@.len() > 0,
        c.prefix is Some ==> config_refusal(c) == Some(
            BuildErrorModel::DeprecatedPrefix(c.name@, c.prefix->0@),
        ),
        c.prefix is None && c.impls@.len() == 0 ==> config_refusal(c) == Some(
            BuildErrorModel::NoImplementations(c.name@),
        ),
{
}

/// A specification that is built has the prefix of its markers, and all its
/// implementations, in order, each under its own name and from its own files.
pub proof fn law_spec_has_all_implementations(
    c: SpecConfig,
    read: SpecRead,
    root: Seq<char>,
    i: int,
)
    requires
        spec_model(c, read, root) is Ok,
        0 <= i < c.impls@.len(),
    ensures
        ({
            let m = spec_model(c, read, root)->Ok_0;
            let all = crate::assembly::doc_models(read.docs@).map_values(
                |d: Result<Seq<ExtractedModel>, Seq<char>>| d->Ok_0,
            ).flatten();
            &&& c.prefix is None
            &&& m.info.name == c.name@
            &&& all.len() > 0
            &&& forall|k: int| 0 <= k < all.len() ==> (#[trigger] all[k]).prefix == m.info.prefix
            &&& m.impls.len() == c.impls@.len()
            &&& m.info.implementations.len() == c.impls@.len()
            &&& m.info.implementations[i] == c.impls@[i].name@
            &&& m.impls[i].key == (c.name@, c.impls@[i].name@)
            &&& m.impls[i] == impl_model(
                c.name@,
                c.impls@[i],
                m.info.prefix,
                all,
                read.impls@[i],
                root,
            )
        }),
{
    let docs = crate::assembly::doc_models(read.docs@);
    law_documents_merge(docs);
    let rules = merged_rules(docs)->Ok_0;
    let m = spec_model(c, read, root)->Ok_0;
    law_prefix_is_of_all_markers(c.name@, rules, m.info.prefix);
}

/// A build takes every specification, in order; it fails exactly where one of them
/// does, with what is wrong with the first that does.
pub proof fn law_every_spec_is_built(
    configs: Seq<SpecConfig>,
    reads: Seq<SpecRead>,
    n: int,
    root: Seq<char>,
)
    requires
        0 <= n,
    ensures
        specs_model(configs, reads, n, root) is Ok <==> forall|i: int|
            0 <= i < n ==> spec_model(#[trigger] configs[i], reads[i], root) is Ok,
        specs_model(configs, reads, n, root) is Ok ==> {
            let v = specs_model(configs, reads, n, root)->Ok_0;
            &&& v.len() == n
            &&& forall|i: int|
                0 <= i < n ==> #[trigger] v[i] == spec_model(configs[i], reads[i], root)->Ok_0
        },
        forall|k: int|
            0 <= k < n && spec_model(#[trigger] configs[k], reads[k], root) is Err && (forall|i: int|
                0 <= i < k ==> spec_model(#[trigger] configs[i], reads[i], root) is Ok)
                ==> specs_model(configs, reads, n, root) == Err::<Seq<SpecModel>, BuildErrorModel>(
                spec_model(configs[k], reads[k], root)->Err_0,
            ),
    decreases n,
{
    if n > 0 {
        law_every_spec_is_built(configs, reads, n - 1, root);
        assert(configs[n - 1] == configs[n - 1]);
        if specs_model(configs, reads, n, root) is Ok {
            assert forall|i: int| 0 <= i < n implies spec_model(
                #[trigger] configs[i],
                reads[i],
                root,
            ) is Ok by {
                if i < n - 1 {
                    assert(spec_model(configs[i], reads[i], root) is Ok);
                }
            }
        }
    }
}

/// Files found by the patterns for tests count only where there are such patterns.
pub proof fn law_test_files_by_pattern(c: Impl, read: ImplRead)
    ensures
        c.test_include@.len() == 0 ==> impl_reads(c, read) == read_models(read.files@),
        c.test_include@.len() > 0 ==> impl_reads(c, read) == read_models(
            read.files@,
        ) + read_models(read.test_files@),
{
}

/// Paths have the same key exactly where they have the same components.
pub proof fn law_path_key(p: Seq<char>, q: Seq<char>)
    ensures
        path_key(p) == path_key(q) <==> components(p) == components(q),
{
    let a = components(p);
    let b = components(q);
    if path_key(p) == path_key(q) {
        assert(path_key(p).len() == a.len() && path_key(q).len() == b.len());
        assert forall|i: int| 0 <= i < a.len() implies a[i] == b[i] by {
            assert(path_key(p)[i] == component_key(a[i]));
            assert(path_key(q)[i] == component_key(b[i]));
            lemma_component_key(a[i], b[i]);
        }
        assert(a =~= b);
    }
}

proof fn lemma_component_key(c: Seq<char>, d: Seq<char>)
    requires
        component_key(c) == component_key(d),
    ensures
        c == d,
{
    reveal_strlit("0");
    reveal_strlit("1");
    reveal_strlit("2");
    reveal_strlit("3");
    let x = component_key(c);
    let y = component_key(d);
    assert(x[0] == y[0]);
    if x[0] == '3' {
        assert(x == "3"@ + c && y == "3"@ + d);
        assert(("3"@ + c).skip(1) =~= c);
        assert(("3"@ + d).skip(1) =~= d);
    }
}

/// The units of every file are known; of a file that was read twice those read
/// last.
pub proof fn law_units_of_every_file(v: Seq<(Seq<char>, Seq<CodeUnit>)>, i: int)
    requires
        0 <= i < v.len(),
        forall|j: int| i < j < v.len() ==> components((#[trigger] v[j]).0) != components(v[i].0),
    ensures
        units_by_path(v).contains(v[i]),
{
    let keys = unit_path_keys(v);
    let n = v.len() as int;
    law_map_holds_keys(keys, n);
    law_last_value_is_kept(keys, v, n);
    assert(keys[i] == path_key(v[i].0));
    assert(sorted_keys(keys, n).contains(keys[i]));
    let x = sorted_keys(keys, n).index_of(keys[i]);
    assert(is_last(keys, n, i, sorted_keys(keys, n)[x])) by {
        assert forall|j: int| i < j < n implies #[trigger] keys[j] != keys[i] by {
            assert(keys[j] == path_key(v[j].0));
            law_path_key(v[j].0, v[i].0);
        }
    }
    assert(units_by_path(v)[x] == v[i]);
}

/// An implementation without patterns has those for Rust sources, any other its
/// own.
pub proof fn law_own_patterns_count(patterns: Seq<Seq<char>>)
    ensures
        patterns.len() > 0 ==> effective_patterns(patterns) == patterns,
        patterns.len() == 0 ==> effective_patterns(patterns) == seq!["**/*.rs"@],
{
}

/// A name stands for the first spec that has it.
pub proof fn law_name_of_a_spec(specs: Seq<SpecConfig>, name: Seq<char>, k: int, from: int)
    requires
        0 <= from <= k < specs.len(),
        specs[k].name@ == name,
        forall|j: int| from <= j < k ==> (#[trigger] specs[j]).name@ != name,
    ensures
        named_spec(specs, name, from) == Some(k),
    decreases k - from,
{
    if from < k {
        assert(specs[from].name@ != name);
        law_name_of_a_spec(specs, name, k, from + 1);
    }
}

/// A name that no spec has stands for none.
pub proof fn law_name_of_no_spec(specs: Seq<SpecConfig>, name: Seq<char>, from: int)
    requires
        0 <= from,
        forall|j: int| 0 <= j < specs.len() ==> (#[trigger] specs[j]).name@ != name,
    ensures
        named_spec(specs, name, from) is None,
    decreases specs.len() - from,
{
    if from < specs.len() {
        law_name_of_no_spec(specs, name, from + 1);
    }
}

/// A name stands for the first implementation that has it.
pub proof fn law_name_of_an_implementation(impls: Seq<Impl>, name: Seq<char>, k: int, from: int)
    requires
        0 <= from <= k < impls.len(),
        impls[k].name@ == name,
        forall|j: int| from <= j < k ==> (#[trigger] impls[j]).name@ != name,
    ensures
        named_impl(impls, name, from) == Some(k),
    decreases k - from,
{
    if from < k {
        assert(impls[from].name@ != name);
        law_name_of_an_implementation(impls, name, k, from + 1);
    }
}

/// A name that no implementation has stands for none.
pub proof fn law_name_of_no_implementation(impls: Seq<Impl>, name: Seq<char>, from: int)
    requires
        0 <= from,
        forall|j: int| 0 <= j < impls.len() ==> (#[trigger] impls[j]).name@ != name,
    ensures
        named_impl(impls, name, from) is None,
    decreases impls.len() - from,
{
    if from < impls.len() {
        law_name_of_no_implementation(impls, name, from + 1);
    }
}

/// A pattern is added at the end of its own list; the other list, and all other
/// implementations, stay as they were.
pub proof fn law_pattern_is_added(
    a: Config,
    b: Config,
    s: int,
    i: int,
    pattern: String,
    list: PatternList,
)
    requires
        0 <= s < a.specs@.len(),
        0 <= i < a.specs@[s].impls@.len(),
        config_with_pattern(a, b, s, i, pattern, list),
    ensures
        ({
            let before = a.specs@[s].impls@[i];
            let after = b.specs@[s].impls@[i];
            &&& after.name@ == before.name@
            &&& after.test_include@ == before.test_include@
            &&& list is Included ==> after.include_patterns@ == before.include_patterns@.push(
                pattern,
            ) && after.exclude@ == before.exclude@
            &&& list is Excluded ==> after.exclude@ == before.exclude@.push(pattern)
                && after.include_patterns@ == before.include_patterns@
            &&& b.specs@[s].name@ == a.specs@[s].name@
            &&& b.specs@.len() == a.specs@.len()
            &&& forall|t: int, k: int|
                0 <= t < a.specs@.len() && 0 <= k < a.specs@[t].impls@.len() && (t != s || k != i)
                    ==> #[trigger] b.specs@[t].impls@[k] == a.specs@[t].impls@[k]
        }),
{
}

/// A configured path is looked for under the root; without one there is none.
pub proof fn law_option_is_resolved(root: Seq<char>, name: Seq<char>)
    requires
        root.len() > 0,
        root.last() != '/',
    ensures
        resolved_option(None, root) is None,
        resolved_option(Some(seq!['/'] + name), root) == Some(seq!['/'] + name),
        is_name(name) ==> resolved_option(Some(name), root) is Some && components(
            resolved_option(Some(name), root)->0,
        ) == components(root).push(name),
{
    law_join(root, name);
}

/// What is counted for an implementation is counted over its files: all their units,
/// and those of them that refer to a requirement.
pub proof fn law_implementation_counts(
    spec_name: Seq<char>,
    c: Impl,
    prefix: Seq<char>,
    rules: Seq<ExtractedModel>,
    read: ImplRead,
    root: Seq<char>,
)
    ensures
        ({
            let m = impl_model(spec_name, c, prefix, rules, read, root);
            let reads = impl_reads(c, read);
            let entries = unit_entries(root, units_by_path(scan_units(reads)));
            &&& m.key == (spec_name, c.name@)
            &&& m.units == units_by_path(scan_units(reads))
            &&& m.sources == scan_sources(reads)
            &&& m.failures == scan_failures(reads)
            &&& m.entries.len() == entries.len()
            &&& forall|i: int| 0 <= i < entries.len() ==> m.entries.contains(#[trigger] entries[i])
            &&& sum_units(entries) <= usize::MAX ==> m.total_units == sum_units(entries)
            &&& sum_covered(entries) <= usize::MAX ==> m.covered_units == sum_covered(entries)
        }),
{
    let reads = impl_reads(c, read);
    let entries = unit_entries(root, units_by_path(scan_units(reads)));
    let keys = crate::coverage::entry_keys(entries);
    crate::order::law_sorted(keys, keys.len() as int);
    assert forall|i: int| 0 <= i < entries.len() implies impl_model(
        spec_name,
        c,
        prefix,
        rules,
        read,
        root,
    ).entries.contains(#[trigger] entries[i]) by {
        crate::spec_diagnostic_laws::lemma_kept(entries, keys, i);
    }
}

} // verus!
