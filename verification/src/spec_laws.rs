//! What is taken from the documents of a specification.

use vstd::prelude::*;

use crate::api::{ExtractedModel, RuleModel};
use crate::build_laws::{law_path_key, lemma_flat};
use crate::cache::text_hash;
use crate::bindings::glob_match;
use crate::format::{named_format, path_format, SpecFormat};
use crate::globs::any_glob;
use crate::markers::{doc_weight, marker_at, marker_prefix};
use crate::order::{in_order, law_sorted, sorted_order, text_le};
use crate::order_laws::{is_first, law_first_value_is_kept, law_map_holds_keys};
use crate::outline::direct_entries;
use crate::paths::{components, relative_or_self, relative_to};
use crate::positions::line_col;
use crate::adoc_backend::SectionModel;
use crate::document::ElementModel;
use crate::sorted_map::{path_key, sorted_keys};
use crate::spec_content::{
    all_sections, content_holds, distinct_by_hash, document_keys, first_error, named_override,
    relative_dependencies, rendered_runs, runs_of, section_elements, section_injections,
    selected_files, spec_sections, weighed, ApiSpecData, DocumentModel, ReadDocument,
};
use crate::spec_docs::{
    column_at, extracted_rules, heading_before, spec_format, texts_by_path,
};
use crate::text::{byte_len, texts};

verus! {

/// A format that is named counts before the one of the extension, and a name that
/// is no format is refused; without a name the extension counts, and without that
/// a spec document is Markdown.
pub proof fn law_named_format_counts(path: Seq<char>, syntax: Option<Seq<char>>)
    ensures
        syntax is Some ==> spec_format(path, syntax) == named_format(syntax->0),
        syntax is None && path_format(path) is Some ==> spec_format(path, syntax) == path_format(
            path,
        ),
        syntax is None && path_format(path) is None ==> spec_format(path, syntax) == Some(
            SpecFormat::Markdown,
        ),
        named_override(syntax) is None <==> syntax is Some && named_format(syntax->0) is None,
        named_override(syntax) is Some ==> (named_override(syntax)->0 is Some <==> syntax is Some),
        named_override(syntax) is Some && syntax is Some ==> named_override(syntax)->0
            == named_format(syntax->0),
{
}

/// A listed file belongs to a specification exactly where one of its patterns
/// matches the path seen from the root, and its format is named or known by the
/// extension.
pub proof fn law_files_by_pattern(
    listing: Seq<Seq<char>>,
    root: Seq<char>,
    patterns: Seq<Seq<char>>,
    named: Option<SpecFormat>,
)
    ensures
        selected_files(listing, root, patterns, named) == listing.filter(
            |p: Seq<char>|
                (named is Some || path_format(p) is Some) && exists|k: int|
                    0 <= k < patterns.len() && glob_match(
                        #[trigger] patterns[k],
                        relative_or_self(p, root),
                    ) == Some(true),
        ).map_values(
            |p: Seq<char>|
                (
                    p,
                    relative_or_self(p, root),
                    if named is Some {
                        named->0
                    } else {
                        path_format(p)->0
                    },
                ),
        ),
    decreases listing.len(),
{
    reveal(Seq::filter);
    let keep = |p: Seq<char>|
        (named is Some || path_format(p) is Some) && exists|k: int|
            0 <= k < patterns.len() && glob_match(#[trigger] patterns[k], relative_or_self(p, root))
                == Some(true);
    let says = |p: Seq<char>|
        (
            p,
            relative_or_self(p, root),
            if named is Some {
                named->0
            } else {
                path_format(p)->0
            },
        );
    if listing.len() > 0 {
        law_files_by_pattern(listing.drop_last(), root, patterns, named);
        let p = listing.last();
        assert(any_glob(patterns, relative_or_self(p, root)) == exists|k: int|
            0 <= k < patterns.len() && glob_match(#[trigger] patterns[k], relative_or_self(p, root))
                == Some(true));
    }
    assert(selected_files(listing, root, patterns, named) =~= listing.filter(keep).map_values(
        says,
    ));
}

/// The documents of a specification are all the files, each once, with the smaller
/// weight first and, with equal weights, the smaller path.
pub proof fn law_documents_by_weight(files: Seq<ReadDocument>)
    ensures
        ({
            let shown = in_order(weighed(files), document_keys(weighed(files)));
            &&& shown.len() == files.len()
            &&& forall|i: int|
                0 <= i < files.len() ==> shown.contains(
                    DocumentModel {
                        path: (#[trigger] files[i]).relative@,
                        content: files[i].content@,
                        weight: doc_weight(files[i].format, files[i].content@),
                        format: files[i].format,
                    },
                )
            &&& forall|i: int, j: int|
                0 <= i < j < shown.len() ==> (#[trigger] shown[i]).weight < (
                #[trigger] shown[j]).weight || (shown[i].weight == shown[j].weight && text_le(
                    shown[i].path,
                    shown[j].path,
                    0,
                ))
        }),
{
    let ds = weighed(files);
    let keys = document_keys(ds);
    let n = keys.len() as int;
    law_sorted(keys, n);
    let order = sorted_order(keys, n);
    let shown = in_order(ds, keys);
    assert forall|i: int| 0 <= i < files.len() implies shown.contains(
        DocumentModel {
            path: (#[trigger] files[i]).relative@,
            content: files[i].content@,
            weight: doc_weight(files[i].format, files[i].content@),
            format: files[i].format,
        },
    ) by {
        crate::spec_diagnostic_laws::lemma_kept(ds, keys, i);
        assert(ds[i].path == files[i].relative@);
    }
    assert forall|i: int, j: int| 0 <= i < j < shown.len() implies (#[trigger] shown[i]).weight < (
    #[trigger] shown[j]).weight || (shown[i].weight == shown[j].weight && text_le(
        shown[i].path,
        shown[j].path,
        0,
    )) by {
        assert(crate::order::key_le(keys[order[i]], keys[order[j]]));
        assert(shown[i] == ds[order[i]] && shown[j] == ds[order[j]]);
        crate::order::lemma_text_le_total(shown[i].path, shown[j].path, 0);
    }
}

/// Runs are as long as they can be: neighbouring runs have different formats.
pub proof fn law_runs_are_longest(formats: Seq<SpecFormat>, i: int)
    requires
        0 <= i < runs_of(formats).len() - 1,
    ensures
        formats[runs_of(formats)[i].1 - 1] != formats[runs_of(formats)[i + 1].0],
{
    lemma_runs_differ(formats);
    assert(runs_differ(formats, runs_of(formats), i));
}

spec fn runs_differ(formats: Seq<SpecFormat>, runs: Seq<(int, int)>, i: int) -> bool {
    formats[runs[i].1 - 1] != formats[runs[i + 1].0]
}

proof fn lemma_runs_differ(formats: Seq<SpecFormat>)
    ensures
        forall|i: int|
            0 <= i < runs_of(formats).len() - 1 ==> #[trigger] runs_differ(
                formats,
                runs_of(formats),
                i,
            ),
        forall|i: int|
            0 <= i < runs_of(formats).len() ==> 0 <= (#[trigger] runs_of(formats)[i]).0
                < runs_of(formats)[i].1 <= formats.len(),
        formats.len() > 0 ==> runs_of(formats).len() > 0 && runs_of(formats).last().1
            == formats.len(),
    decreases formats.len(),
{
    let n = formats.len() as int;
    if n > 0 {
        let front = formats.drop_last();
        lemma_runs_differ(front);
        let before = runs_of(front);
        let runs = runs_of(formats);
        assert forall|i: int| 0 <= i < runs.len() - 1 implies #[trigger] runs_differ(
            formats,
            runs,
            i,
        ) by {
            if i < before.len() - 1 {
                assert(runs_differ(front, before, i));
                assert(runs[i] == before[i]);
                assert(runs[i + 1].0 == before[i + 1].0);
                assert(before[i].1 <= front.len());
                assert(before[i + 1].0 < front.len());
            } else {
                assert(runs[i] == before[i]);
                assert(before.last().1 == n - 1);
            }
        }
        assert forall|i: int| 0 <= i < runs.len() implies 0 <= (#[trigger] runs[i]).0 < runs[i].1
            <= n by {
            if i < before.len() {
                assert(before[i].0 >= 0);
                assert(runs[i].0 == before[i].0);
            }
        }
    }
}

/// Rendering fails exactly where a run does, with what is said of the first that
/// does.
pub proof fn law_first_error_counts(v: Seq<Result<Seq<SectionModel>, Seq<char>>>)
    ensures
        first_error(v) is None <==> forall|i: int| 0 <= i < v.len() ==> (#[trigger] v[i]) is Ok,
        forall|i: int|
            0 <= i < v.len() && (#[trigger] v[i]) is Err && (forall|j: int|
                0 <= j < i ==> (#[trigger] v[j]) is Ok) ==> first_error(v) == Some(v[i]->Err_0),
    decreases v.len(),
{
    if v.len() > 0 {
        let d = v.drop_last();
        law_first_error_counts(d);
        let n = v.len() - 1;
        assert(v.last() == v[n]);
        assert(forall|i: int| 0 <= i < d.len() ==> #[trigger] d[i] == v[i]);
        if first_error(d) is None {
            assert forall|i: int| 0 <= i < d.len() implies (#[trigger] v[i]) is Ok by {
                assert(d[i] is Ok);
            }
        } else {
            let i = choose|i: int| 0 <= i < d.len() && !((#[trigger] d[i]) is Ok);
            assert(!(v[i] is Ok));
        }
        assert forall|i: int|
            0 <= i < v.len() && (#[trigger] v[i]) is Err && (forall|j: int|
                0 <= j < i ==> (#[trigger] v[j]) is Ok) implies first_error(v) == Some(
            v[i]->Err_0,
        ) by {
            if i < n {
                assert(d[i] is Err);
                assert forall|j: int| 0 <= j < i implies (#[trigger] d[j]) is Ok by {
                    assert(v[j] is Ok);
                }
            } else {
                assert forall|j: int| 0 <= j < d.len() implies (#[trigger] d[j]) is Ok by {
                    assert(v[j] is Ok);
                }
            }
        }
    }
}

/// The content of a specification has a section for each section of each run, in
/// order, with the path and the weight of the document that it comes from.
pub proof fn law_every_section_is_shown(
    documents: Seq<DocumentModel>,
    runs: Seq<(int, int)>,
    outputs: Seq<Result<Seq<SectionModel>, Seq<char>>>,
)
    requires
        forall|i: int| 0 <= i < outputs.len() ==> (#[trigger] outputs[i]) is Ok,
    ensures
        all_sections(documents, runs, outputs) == Seq::new(
            outputs.len(),
            |i: int|
                Seq::new(
                    outputs[i]->Ok_0.len(),
                    |k: int|
                        (
                            documents[runs[i].0 + outputs[i]->Ok_0[k].source_idx].path,
                            outputs[i]->Ok_0[k].html,
                            documents[runs[i].0 + outputs[i]->Ok_0[k].source_idx].weight,
                        ),
                ),
        ).flatten(),
        rendered_runs(outputs) == outputs.map_values(
            |o: Result<Seq<SectionModel>, Seq<char>>| o->Ok_0,
        ).flatten(),
    decreases outputs.len(),
{
    let parts = Seq::new(
        outputs.len(),
        |i: int|
            Seq::new(
                outputs[i]->Ok_0.len(),
                |k: int|
                    (
                        documents[runs[i].0 + outputs[i]->Ok_0[k].source_idx].path,
                        outputs[i]->Ok_0[k].html,
                        documents[runs[i].0 + outputs[i]->Ok_0[k].source_idx].weight,
                    ),
            ),
    );
    let f = |o: Result<Seq<SectionModel>, Seq<char>>| o->Ok_0;
    let rendered = outputs.map_values(f);
    if outputs.len() > 0 {
        let d = outputs.drop_last();
        assert forall|i: int| 0 <= i < d.len() implies (#[trigger] d[i]) is Ok by {
            assert(d[i] == outputs[i]);
        }
        law_every_section_is_shown(documents, runs, d);
        let less = Seq::new(
            d.len(),
            |i: int|
                Seq::new(
                    d[i]->Ok_0.len(),
                    |k: int|
                        (
                            documents[runs[i].0 + d[i]->Ok_0[k].source_idx].path,
                            d[i]->Ok_0[k].html,
                            documents[runs[i].0 + d[i]->Ok_0[k].source_idx].weight,
                        ),
                ),
        );
        assert(parts.drop_last() =~= less) by {
            assert forall|i: int| 0 <= i < less.len() implies parts.drop_last()[i] == less[i] by {
                assert(parts[i] =~= less[i]);
            }
        }
        lemma_flat(parts);
        let n = outputs.len() - 1;
        assert(outputs[n] is Ok);
        assert(parts.last() =~= crate::spec_content::run_sections(
            documents,
            runs[n].0,
            outputs[n]->Ok_0,
        ));
        assert(rendered.drop_last() =~= d.map_values(f));
        lemma_flat(rendered);
    } else {
        assert(parts.flatten() =~= Seq::<(Seq<char>, Seq<char>, int)>::empty());
        assert(rendered.flatten() =~= Seq::<SectionModel>::empty());
    }
}

/// The outline and the head of a page are made from all sections, in order.
pub proof fn law_sections_give_all(v: Seq<SectionModel>)
    ensures
        section_elements(v) == v.map_values(|s: SectionModel| s.elements).flatten(),
        section_injections(v) == v.map_values(|s: SectionModel| s.head_injections).flatten(),
    decreases v.len(),
{
    let f = |s: SectionModel| s.elements;
    let g = |s: SectionModel| s.head_injections;
    let a = v.map_values(f);
    let b = v.map_values(g);
    if v.len() > 0 {
        law_sections_give_all(v.drop_last());
        assert(a.drop_last() =~= v.drop_last().map_values(f));
        assert(b.drop_last() =~= v.drop_last().map_values(g));
        lemma_flat(a);
        lemma_flat(b);
    } else {
        assert(a =~= Seq::<Seq<ElementModel>>::empty());
        assert(b =~= Seq::<Seq<Seq<char>>>::empty());
        assert(a.flatten() =~= Seq::<ElementModel>::empty());
        assert(b.flatten() =~= Seq::<Seq<char>>::empty());
    }
}

/// Of the texts with one hash the first is kept.
pub proof fn law_first_of_a_hash_is_kept(v: Seq<Seq<char>>, i: int)
    requires
        0 <= i < v.len(),
        forall|j: int| 0 <= j < i ==> text_hash(#[trigger] v[j]) != text_hash(v[i]),
    ensures
        distinct_by_hash(v).contains(v[i]),
    decreases v.len(),
{
    let d = v.drop_last();
    let before = distinct_by_hash(d);
    if i < d.len() {
        law_first_of_a_hash_is_kept(d, i);
        let x = before.index_of(v[i]);
        assert(distinct_by_hash(v)[x] == v[i]);
    } else {
        assert(distinct_by_hash(v)[before.len() as int] == v[i]);
    }
}

/// The dependencies under the root, or under what it resolves to, are told as seen
/// from there; others are left out.
pub proof fn law_dependencies_under_the_root(
    deps: Seq<Seq<char>>,
    root: Seq<char>,
    canonical_root: Seq<char>,
)
    ensures
        relative_dependencies(deps, root, canonical_root) == deps.filter(
            |p: Seq<char>|
                relative_to(p, root) is Some || relative_to(p, canonical_root) is Some,
        ).map_values(
            |p: Seq<char>|
                if relative_to(p, root) is Some {
                    relative_to(p, root)->0
                } else {
                    relative_to(p, canonical_root)->0
                },
        ),
    decreases deps.len(),
{
    reveal(Seq::filter);
    let keep = |p: Seq<char>|
        relative_to(p, root) is Some || relative_to(p, canonical_root) is Some;
    let says = |p: Seq<char>|
        if relative_to(p, root) is Some {
            relative_to(p, root)->0
        } else {
            relative_to(p, canonical_root)->0
        };
    if deps.len() > 0 {
        law_dependencies_under_the_root(deps.drop_last(), root, canonical_root);
    }
    assert(relative_dependencies(deps, root, canonical_root) =~= deps.filter(keep).map_values(
        says,
    ));
}

/// A requirement stands under the last heading before it.
pub proof fn law_heading_before(elements: Seq<ElementModel>, n: int)
    requires
        0 <= n <= elements.len(),
    ensures
        forall|k: int|
            0 <= k < n && (#[trigger] elements[k]) is Heading && (forall|j: int|
                k < j < n ==> !((#[trigger] elements[j]) is Heading)) ==> heading_before(
                elements,
                n,
            ) == Some(elements[k]->Heading_0),
        (forall|k: int| 0 <= k < n ==> !((#[trigger] elements[k]) is Heading)) ==> heading_before(
            elements,
            n,
        ) is None,
    decreases n,
{
    if n > 0 {
        law_heading_before(elements, n - 1);
        assert(elements[n - 1] == elements[n - 1]);
    }
}

/// Every requirement of a document becomes a rule, in order, with the text and
/// prefix of its marker, the file it stands in, and the heading it stands under.
pub proof fn law_every_requirement_becomes_a_rule(
    elements: Seq<ElementModel>,
    content: Seq<char>,
    format: SpecFormat,
    source_file: Seq<char>,
    k: int,
)
    requires
        0 <= k < elements.len(),
        elements[k] is Req,
    ensures
        ({
            let n = elements.len() as int;
            let out = extracted_rules(elements, n, content, format, source_file);
            let req = elements[k]->Req_0;
            let at = elements.take(k).filter(|e: ElementModel| e is Req).len() as int;
            let h = heading_before(elements, k);
            out is Ok ==> {
                &&& out->Ok_0.len() == elements.filter(|e: ElementModel| e is Req).len()
                &&& at < out->Ok_0.len()
                &&& marker_at(content, req.marker_span) is Some
                &&& marker_prefix(format, marker_at(content, req.marker_span)->0) == Some(
                    out->Ok_0[at].prefix,
                )
                &&& out->Ok_0[at].def == req
                &&& out->Ok_0[at].source_file == source_file
                &&& out->Ok_0[at].format == format
                &&& (h is Some ==> out->Ok_0[at].section == Some(h->0.id)
                    && out->Ok_0[at].section_title == Some(h->0.title))
                &&& (h is None ==> out->Ok_0[at].section is None
                    && out->Ok_0[at].section_title is None)
                &&& out->Ok_0[at].column == column_at(content, req.marker_span.offset as int)
            }
        }),
{
    lemma_rules(elements, elements.len() as int, content, format, source_file, k);
    assert(elements.take(elements.len() as int) =~= elements);
}

proof fn lemma_rules(
    elements: Seq<ElementModel>,
    n: int,
    content: Seq<char>,
    format: SpecFormat,
    source_file: Seq<char>,
    k: int,
)
    requires
        0 <= n <= elements.len(),
        0 <= k < elements.len(),
        elements[k] is Req,
    ensures
        ({
            let out = extracted_rules(elements, n, content, format, source_file);
            let req = elements[k]->Req_0;
            let at = elements.take(k).filter(|e: ElementModel| e is Req).len() as int;
            let m = marker_at(content, req.marker_span);
            out is Ok ==> {
                &&& out->Ok_0.len() == elements.take(n).filter(|e: ElementModel| e is Req).len()
                &&& k < n ==> {
                    &&& at < out->Ok_0.len()
                    &&& m is Some && marker_prefix(format, m->0) is Some
                    &&& out->Ok_0[at] == crate::spec_docs::extracted_rule(
                        req,
                        heading_before(elements, k),
                        marker_prefix(format, m->0)->0,
                        content,
                        format,
                        source_file,
                    )
                }
            }
        }),
    decreases n,
{
    reveal(Seq::filter);
    let p = |e: ElementModel| e is Req;
    if n > 0 {
        lemma_rules(elements, n - 1, content, format, source_file, k);
        assert(elements.take(n).drop_last() =~= elements.take(n - 1));
        assert(elements.take(n).last() == elements[n - 1]);
        assert(elements.take(n).filter(p) == if p(elements[n - 1]) {
            elements.take(n - 1).filter(p).push(elements[n - 1])
        } else {
            elements.take(n - 1).filter(p)
        });
    } else {
        assert(elements.take(0).filter(p) =~= Seq::<ElementModel>::empty());
    }
}

/// Extraction fails exactly where the marker of some requirement has no prefix,
/// and names the first such requirement.
pub proof fn law_first_bad_marker_is_named(
    elements: Seq<ElementModel>,
    n: int,
    content: Seq<char>,
    format: SpecFormat,
    source_file: Seq<char>,
)
    requires
        0 <= n <= elements.len(),
    ensures
        extracted_rules(elements, n, content, format, source_file) is Ok <==> forall|i: int|
            0 <= i < n ==> !bad_marker(#[trigger] elements[i], content, format),
        forall|i: int|
            0 <= i < n && bad_marker(#[trigger] elements[i], content, format) && (forall|j: int|
                0 <= j < i ==> !bad_marker(#[trigger] elements[j], content, format))
                ==> extracted_rules(elements, n, content, format, source_file) == Err::<
                Seq<ExtractedModel>,
                (Seq<char>, u32),
            >(elements[i]->Req_0.id),
    decreases n,
{
    if n > 0 {
        law_first_bad_marker_is_named(elements, n - 1, content, format, source_file);
        assert(elements[n - 1] == elements[n - 1]);
        let before = extracted_rules(elements, n - 1, content, format, source_file);
        if before is Ok {
            assert forall|i: int| 0 <= i < n - 1 implies !bad_marker(
                #[trigger] elements[i],
                content,
                format,
            ) by {}
        } else {
            let i = choose|i: int|
                0 <= i < n - 1 && bad_marker(#[trigger] elements[i], content, format);
            assert(bad_marker(elements[i], content, format));
        }
    }
}

/// The element is a requirement whose marker has no prefix.
pub open spec fn bad_marker(e: ElementModel, content: Seq<char>, format: SpecFormat) -> bool {
    e is Req && (marker_at(content, e->Req_0.marker_span) is None || marker_prefix(
        format,
        marker_at(content, e->Req_0.marker_span)->0,
    ) is None)
}

/// The column of a marker counts the characters of its line before it, from 1.
pub proof fn law_column_counts_from_one(content: Seq<char>, k: int)
    requires
        0 <= k <= content.len(),
        line_col(content, k).1 < u32::MAX,
    ensures
        column_at(content, byte_len(content.take(k)) as int) is Some,
        column_at(content, byte_len(content.take(k)) as int)->0 == line_col(content, k).1 + 1,
{
    crate::text::lemma_char_position(content, k);
}

/// Each spec document is searched once; of a document that belongs to two specs
/// the first is kept.
pub proof fn law_first_text_is_kept(v: Seq<(Seq<char>, Seq<char>, Option<Seq<char>>)>, i: int)
    requires
        0 <= i < v.len(),
        forall|j: int| 0 <= j < i ==> components((#[trigger] v[j]).0) != components(v[i].0),
    ensures
        texts_by_path(v).contains(v[i]),
{
    let keys = v.map_values(|t: (Seq<char>, Seq<char>, Option<Seq<char>>)| path_key(t.0));
    let n = v.len() as int;
    law_map_holds_keys(keys, n);
    law_first_value_is_kept(keys, v, n);
    assert(keys[i] == path_key(v[i].0));
    assert(sorted_keys(keys, n).contains(keys[i]));
    let x = sorted_keys(keys, n).index_of(keys[i]);
    assert(is_first(keys, i, sorted_keys(keys, n)[x])) by {
        assert forall|j: int| 0 <= j < i implies #[trigger] keys[j] != keys[i] by {
            assert(keys[j] == path_key(v[j].0));
            law_path_key(v[j].0, v[i].0);
        }
    }
    assert(texts_by_path(v)[x] == v[i]);
}

/// The content of a specification has its name, one section for each section of
/// each run, and one outline entry for each heading of them.
pub proof fn law_content_is_whole(
    d: ApiSpecData,
    spec_name: Seq<char>,
    documents: Seq<DocumentModel>,
    runs: Seq<(int, int)>,
    outputs: Seq<Result<Seq<SectionModel>, Seq<char>>>,
    rules: Seq<RuleModel>,
)
    requires
        content_holds(d, spec_name, documents, runs, outputs, rules),
        forall|i: int| 0 <= i < outputs.len() ==> (#[trigger] outputs[i]) is Ok,
    ensures
        ({
            let sections = outputs.map_values(
                |o: Result<Seq<SectionModel>, Seq<char>>| o->Ok_0,
            ).flatten();
            let elements = sections.map_values(|s: SectionModel| s.elements).flatten();
            &&& d.name@ == spec_name
            &&& spec_sections(d.sections@) == all_sections(documents, runs, outputs)
            &&& d.outline@.len() == elements.filter(|e: ElementModel| e is Heading).len()
            &&& texts(d.head_injections@) == distinct_by_hash(
                sections.map_values(|s: SectionModel| s.head_injections).flatten(),
            )
        }),
{
    law_every_section_is_shown(documents, runs, outputs);
    law_sections_give_all(rendered_runs(outputs));
    lemma_entries_are_headings(section_elements(rendered_runs(outputs)), rules);
}

proof fn lemma_entries_are_headings(elements: Seq<ElementModel>, rules: Seq<RuleModel>)
    ensures
        direct_entries(elements, rules).len() == elements.filter(
            |e: ElementModel| e is Heading,
        ).len(),
    decreases elements.len(),
{
    reveal(Seq::filter);
    if elements.len() > 0 {
        lemma_entries_are_headings(elements.drop_last(), rules);
    }
}

} // verus!
