//! The rendered content of a specification.
//!
//! The caller lists and reads files and renders runs of documents; which files
//! belong to a specification, their order, the runs, and what the rendered
//! sections make together is decided here.

use vstd::prelude::*;

use crate::adoc_backend::{section_models, RenderOutput, SectionModel};
use crate::api::{rule_models, ApiRule, RuleModel};
use crate::cache::{simple_hash, text_hash};
use crate::document::{element_models, DocElement, ElementModel};
use crate::format::{named_format, path_format, SpecFormat};
use crate::globs::{any_glob, matches_any};
use crate::markers::{doc_weight, parse_weight};
use crate::order::{in_order, key_models, positions, sort_positions, sorted_order, KeyModel, SortKey};
use crate::outline::{build_outline, direct_entries, entry_is, OutlineEntry};
use crate::paths::{relative_or_self, relative_path, relative_path_or_self, relative_to};
use crate::spec_docs::UnknownSyntax;
use crate::text::{concat3, copy_str, opt_text, texts};

verus! {

/// The format that a spec's `syntax` names for all its files, if it names one.
pub open spec fn named_override(syntax: Option<Seq<char>>) -> Option<Option<SpecFormat>> {
    match syntax {
        None => Some(None),
        Some(name) => match named_format(name) {
            Some(f) => Some(Some(f)),
            None => None,
        },
    }
}

/// The format that a spec's `syntax` names for all its files, if it names one.
pub fn resolve_override(spec_name: &str, syntax: &Option<String>) -> (r: Result<
    Option<SpecFormat>,
    UnknownSyntax,
>)
    ensures
        match (r, named_override(opt_text(*syntax))) {
            (Ok(a), Some(b)) => a == b,
            (Err(e), None) => Some(e.name@) == opt_text(*syntax) && e.subject@ == "spec '"@
                + spec_name@ + "'"@,
            _ => false,
        },
{
    match syntax {
        None => Ok(None),
        Some(name) => match SpecFormat::from_name(name.as_str()) {
            Some(f) => Ok(Some(f)),
            None => Err(
                UnknownSyntax {
                    name: copy_str(name.as_str()),
                    subject: concat3("spec '", spec_name, "'"),
                },
            ),
        },
    }
}

/// A file that belongs to a specification.
#[derive(Debug, Clone, PartialEq, Eq)]
pub struct SelectedFile {
    pub path: String,
    /// The path seen from the project root.
    pub relative: String,
    pub format: SpecFormat,
}

impl View for SelectedFile {
    type V = (Seq<char>, Seq<char>, SpecFormat);

    open spec fn view(&self) -> (Seq<char>, Seq<char>, SpecFormat) {
        (self.path@, self.relative@, self.format)
    }
}

pub open spec fn selected_views(v: Seq<SelectedFile>) -> Seq<(Seq<char>, Seq<char>, SpecFormat)> {
    v.map_values(|f: SelectedFile| f@)
}

/// The format of a file, where it belongs to a specification.
pub open spec fn selected_format(
    path: Seq<char>,
    root: Seq<char>,
    patterns: Seq<Seq<char>>,
    named: Option<SpecFormat>,
) -> Option<SpecFormat> {
    if !any_glob(patterns, relative_or_self(path, root)) {
        None
    } else {
        match named {
            Some(f) => Some(f),
            None => path_format(path),
        }
    }
}

/// The listed files that belong to a specification.
pub open spec fn selected_files(
    listing: Seq<Seq<char>>,
    root: Seq<char>,
    patterns: Seq<Seq<char>>,
    named: Option<SpecFormat>,
) -> Seq<(Seq<char>, Seq<char>, SpecFormat)>
    decreases listing.len(),
{
    if listing.len() == 0 {
        Seq::empty()
    } else {
        let before = selected_files(listing.drop_last(), root, patterns, named);
        match selected_format(listing.last(), root, patterns, named) {
            Some(f) => before.push((listing.last(), relative_or_self(listing.last(), root), f)),
            None => before,
        }
    }
}

/// The listed files that belong to a specification: those that a pattern
/// matches and whose format is known.
pub fn select_spec_files(
    root: &str,
    listing: &Vec<String>,
    patterns: &Vec<String>,
    named: Option<SpecFormat>,
) -> (r: Vec<SelectedFile>)
    ensures
        selected_views(r@) == selected_files(texts(listing@), root@, texts(patterns@), named),
{
    let ghost ls = texts(listing@);
    let ghost ps = texts(patterns@);
    let mut out: Vec<SelectedFile> = Vec::new();
    let mut i: usize = 0;
    assert(selected_views(out@) =~= Seq::<(Seq<char>, Seq<char>, SpecFormat)>::empty());
    assert(ls.take(0) =~= Seq::<Seq<char>>::empty());
    while i < listing.len()
        invariant
            i <= listing@.len(),
            ls == texts(listing@),
            ps == texts(patterns@),
            selected_views(out@) == selected_files(ls.take(i as int), root@, ps, named),
        decreases listing@.len() - i,
    {
        let p = listing[i].as_str();
        proof {
            assert(ls.take(i + 1).drop_last() =~= ls.take(i as int));
            assert(ls.take(i + 1).last() == p@);
        }
        let relative = relative_path_or_self(p, root);
        if matches_any(patterns, relative.as_str()) {
            let format = match named {
                Some(f) => Some(f),
                None => SpecFormat::from_path(p),
            };
            match format {
                Some(f) => {
                    let ghost before = out@;
                    let one = SelectedFile { path: copy_str(p), relative, format: f };
                    out.push(one);
                    assert(selected_views(out@) =~= selected_views(before).push(one@));
                },
                None => {},
            }
        }
        i = i + 1;
    }
    assert(ls.take(i as int) =~= ls);
    out
}

/// A document of a specification.
#[derive(Debug, Clone, PartialEq, Eq)]
pub struct SpecDocument {
    /// The path seen from the project root.
    pub path: String,
    pub content: String,
    pub weight: i32,
    pub format: SpecFormat,
}

/// What a document of a specification says.
#[verifier::ext_equal]
pub struct DocumentModel {
    pub path: Seq<char>,
    pub content: Seq<char>,
    pub weight: int,
    pub format: SpecFormat,
}

impl View for SpecDocument {
    type V = DocumentModel;

    open spec fn view(&self) -> DocumentModel {
        DocumentModel {
            path: self.path@,
            content: self.content@,
            weight: self.weight as int,
            format: self.format,
        }
    }
}

pub open spec fn document_models(v: Seq<SpecDocument>) -> Seq<DocumentModel> {
    v.map_values(|d: SpecDocument| d@)
}

/// A file that was read: its path seen from the project root, its content and
/// its format.
pub struct ReadDocument {
    pub relative: String,
    pub content: String,
    pub format: SpecFormat,
}

/// Files with the weight that each declares.
pub open spec fn weighed(v: Seq<ReadDocument>) -> Seq<DocumentModel> {
    v.map_values(
        |d: ReadDocument|
            DocumentModel {
                path: d.relative@,
                content: d.content@,
                weight: doc_weight(d.format, d.content@),
                format: d.format,
            },
    )
}

/// What documents are ordered by: the weight, then the path.
pub open spec fn document_keys(v: Seq<DocumentModel>) -> Seq<KeyModel> {
    v.map_values(
        |d: DocumentModel| KeyModel { weight: d.weight, text: d.path, number: 0 },
    )
}

/// The documents of a specification by weight first, then by path.
pub fn order_documents(files: &Vec<ReadDocument>) -> (r: Vec<SpecDocument>)
    ensures
        document_models(r@) == in_order(weighed(files@), document_keys(weighed(files@))),
{
    let ghost ds = weighed(files@);
    let mut keys: Vec<SortKey> = Vec::new();
    let mut weights: Vec<i32> = Vec::new();
    let mut i: usize = 0;
    while i < files.len()
        invariant
            i <= files@.len(),
            ds == weighed(files@),
            keys@.len() == i,
            weights@.len() == i,
            forall|k: int| 0 <= k < i ==> (#[trigger] keys@[k])@ == document_keys(ds)[k],
            forall|k: int| 0 <= k < i ==> #[trigger] weights@[k] == ds[k].weight,
        decreases files@.len() - i,
    {
        let w = parse_weight(files[i].format, files[i].content.as_str());
        keys.push(SortKey { weight: w as i64, text: copy_str(files[i].relative.as_str()), number: 0 });
        weights.push(w);
        i = i + 1;
    }
    assert(key_models(keys@) =~= document_keys(ds));
    let order = sort_positions(&keys);
    let mut out: Vec<SpecDocument> = Vec::new();
    let mut j: usize = 0;
    while j < order.len()
        invariant
            j <= order@.len(),
            ds == weighed(files@),
            order@.len() == files@.len(),
            weights@.len() == files@.len(),
            positions(order@) == sorted_order(document_keys(ds), ds.len() as int),
            forall|k: int| 0 <= k < order@.len() ==> #[trigger] order@[k] < files@.len(),
            forall|k: int| 0 <= k < weights@.len() ==> #[trigger] weights@[k] == ds[k].weight,
            out@.len() == j,
            forall|k: int| 0 <= k < j ==> (#[trigger] out@[k])@ == ds[positions(order@)[k]],
        decreases order@.len() - j,
    {
        let at = order[j];
        assert(order@[j as int] < files@.len());
        assert(weights@[at as int] == ds[at as int].weight);
        let f = &files[at];
        out.push(
            SpecDocument {
                path: copy_str(f.relative.as_str()),
                content: copy_str(f.content.as_str()),
                weight: weights[at],
                format: f.format,
            },
        );
        j = j + 1;
    }
    assert(document_models(out@) =~= in_order(ds, document_keys(ds)));
    out
}

/// The runs of consecutive documents with the same format, each as the
/// positions of its first document and behind its last.
pub open spec fn runs_of(formats: Seq<SpecFormat>) -> Seq<(int, int)>
    decreases formats.len(),
{
    let n = formats.len() as int;
    if n == 0 {
        Seq::empty()
    } else {
        let before = runs_of(formats.drop_last());
        if n >= 2 && formats[n - 1] == formats[n - 2] {
            before.drop_last().push((before.last().0, n))
        } else {
            before.push((n - 1, n))
        }
    }
}

/// The formats of documents.
pub open spec fn formats_of(v: Seq<SpecDocument>) -> Seq<SpecFormat> {
    v.map_values(|d: SpecDocument| d.format)
}

/// The runs that executable code found.
pub open spec fn run_views(v: Seq<(usize, usize)>) -> Seq<(int, int)> {
    v.map_values(|r: (usize, usize)| (r.0 as int, r.1 as int))
}

proof fn lemma_runs(formats: Seq<SpecFormat>)
    ensures
        formats.len() > 0 ==> runs_of(formats).len() > 0 && runs_of(formats).last().1
            == formats.len(),
        forall|i: int|
            0 <= i < runs_of(formats).len() ==> 0 <= (#[trigger] runs_of(formats)[i]).0
                < runs_of(formats)[i].1 <= formats.len(),
    decreases formats.len(),
{
    if formats.len() > 0 {
        let front = formats.drop_last();
        lemma_runs(front);
        let before = runs_of(front);
        let runs = runs_of(formats);
        assert forall|i: int| 0 <= i < runs.len() implies 0 <= (#[trigger] runs[i]).0 < runs[i].1
            <= formats.len() by {
            if i < runs.len() - 1 {
                assert(runs[i] == before[i]);
            } else if before.len() > 0 {
                assert(0 <= before[before.len() - 1].0 < before[before.len() - 1].1);
            }
        }
    }
}

/// The runs of consecutive documents with the same format.
pub fn format_runs(documents: &Vec<SpecDocument>) -> (r: Vec<(usize, usize)>)
    ensures
        run_views(r@) == runs_of(formats_of(documents@)),
{
    let ghost fs = formats_of(documents@);
    let mut out: Vec<(usize, usize)> = Vec::new();
    let mut i: usize = 0;
    assert(fs.take(0) =~= Seq::<SpecFormat>::empty());
    assert(run_views(out@) =~= Seq::<(int, int)>::empty());
    while i < documents.len()
        invariant
            i <= documents@.len(),
            fs == formats_of(documents@),
            run_views(out@) == runs_of(fs.take(i as int)),
        decreases documents@.len() - i,
    {
        let ghost before = out@;
        proof {
            assert(fs.take(i + 1).drop_last() =~= fs.take(i as int));
            lemma_runs(fs.take(i as int));
            assert(run_views(out@).len() == out@.len());
        }
        if i > 0 && documents[i].format == documents[i - 1].format {
            let last = out.pop();
            match last {
                Some(run) => {
                    out.push((run.0, i + 1));
                    assert(run_views(out@) =~= run_views(before).drop_last().push(
                        (run.0 as int, i + 1),
                    ));
                },
                None => {},
            }
        } else {
            out.push((i, i + 1));
            assert(run_views(out@) =~= run_views(before).push((i as int, i + 1)));
        }
        i = i + 1;
    }
    assert(fs.take(i as int) =~= fs);
    out
}

/// A run ends where the next one begins.
pub open spec fn run_joins(runs: Seq<(int, int)>, i: int) -> bool {
    runs[i].1 == runs[i + 1].0
}

/// All documents of a run have the same format.
pub open spec fn run_uniform(formats: Seq<SpecFormat>, run: (int, int)) -> bool {
    forall|k: int| run.0 <= k < run.1 ==> #[trigger] formats[k] == formats[run.0]
}

proof fn lemma_runs_join(formats: Seq<SpecFormat>)
    ensures
        formats.len() > 0 ==> runs_of(formats)[0].0 == 0,
        forall|i: int|
            0 <= i < runs_of(formats).len() - 1 ==> #[trigger] run_joins(runs_of(formats), i),
    decreases formats.len(),
{
    if formats.len() > 0 {
        let front = formats.drop_last();
        lemma_runs_join(front);
        lemma_runs(front);
        let before = runs_of(front);
        let runs = runs_of(formats);
        assert forall|i: int| 0 <= i < runs.len() - 1 implies #[trigger] run_joins(runs, i) by {
            assert(runs[i] == before[i]);
            if i + 1 < before.len() {
                assert(run_joins(before, i));
            }
        }
    }
}

proof fn lemma_runs_uniform(formats: Seq<SpecFormat>)
    ensures
        forall|i: int|
            0 <= i < runs_of(formats).len() ==> run_uniform(formats, #[trigger] runs_of(formats)[i]),
    decreases formats.len(),
{
    let n = formats.len() as int;
    if n > 0 {
        let front = formats.drop_last();
        lemma_runs_uniform(front);
        lemma_runs(front);
        let before = runs_of(front);
        let runs = runs_of(formats);
        assert forall|i: int| 0 <= i < runs.len() implies run_uniform(
            formats,
            #[trigger] runs[i],
        ) by {
            let run = runs[i];
            let m = before.len() - 1;
            if i < before.len() {
                assert(run_uniform(front, before[i]));
                assert(run.0 == before[i].0);
                assert(0 <= before[i].0 < before[i].1 <= front.len());
            }
            assert forall|k: int| run.0 <= k < run.1 implies #[trigger] formats[k]
                == formats[run.0] by {
                if k < n - 1 {
                    assert(formats[k] == front[k]);
                    assert(formats[run.0] == front[run.0]);
                } else if run.0 < n - 1 {
                    assert(i == m);
                    assert(formats[n - 2] == front[n - 2]);
                    assert(formats[run.0] == front[run.0]);
                }
            }
        }
    }
}

/// Every document lies in a run, and all documents of a run have the same
/// format.
pub proof fn law_runs_cover(formats: Seq<SpecFormat>)
    ensures
        formats.len() > 0 ==> runs_of(formats).len() > 0 && runs_of(formats)[0].0 == 0 && runs_of(
            formats,
        ).last().1 == formats.len(),
        forall|i: int|
            0 <= i < runs_of(formats).len() - 1 ==> #[trigger] run_joins(runs_of(formats), i),
        forall|i: int|
            0 <= i < runs_of(formats).len() ==> run_uniform(formats, #[trigger] runs_of(formats)[i]),
{
    lemma_runs(formats);
    lemma_runs_join(formats);
    lemma_runs_uniform(formats);
}

/// One rendered document of a specification.
#[derive(Debug, Clone, PartialEq, Eq)]
pub struct SpecSection {
    pub source_file: String,
    pub html: String,
    pub weight: i32,
}

impl View for SpecSection {
    type V = (Seq<char>, Seq<char>, int);

    open spec fn view(&self) -> (Seq<char>, Seq<char>, int) {
        (self.source_file@, self.html@, self.weight as int)
    }
}

pub open spec fn spec_sections(v: Seq<SpecSection>) -> Seq<(Seq<char>, Seq<char>, int)> {
    v.map_values(|s: SpecSection| s@)
}

/// The rendered content of a specification.
#[derive(Debug)]
pub struct ApiSpecData {
    pub name: String,
    pub sections: Vec<SpecSection>,
    pub outline: Vec<OutlineEntry>,
    pub head_injections: Vec<String>,
}

/// What rendering a run gave.
pub open spec fn output_models(v: Seq<Result<RenderOutput, String>>) -> Seq<
    Result<Seq<SectionModel>, Seq<char>>,
> {
    v.map_values(
        |o: Result<RenderOutput, String>|
            match o {
                Ok(r) => Ok(section_models(r.sections@)),
                Err(e) => Err(e@),
            },
    )
}

/// The first error of a list of outputs.
pub open spec fn first_error(v: Seq<Result<Seq<SectionModel>, Seq<char>>>) -> Option<Seq<char>>
    decreases v.len(),
{
    if v.len() == 0 {
        None
    } else {
        match first_error(v.drop_last()) {
            Some(e) => Some(e),
            None => match v.last() {
                Ok(_) => None,
                Err(e) => Some(e),
            },
        }
    }
}

/// The sections of a run, with the files they come from.
pub open spec fn run_sections(
    documents: Seq<DocumentModel>,
    start: int,
    sections: Seq<SectionModel>,
) -> Seq<(Seq<char>, Seq<char>, int)> {
    sections.map_values(
        |s: SectionModel|
            (
                documents[start + s.source_idx].path,
                s.html,
                documents[start + s.source_idx].weight,
            ),
    )
}

/// The sections of all runs.
pub open spec fn all_sections(
    documents: Seq<DocumentModel>,
    runs: Seq<(int, int)>,
    outputs: Seq<Result<Seq<SectionModel>, Seq<char>>>,
) -> Seq<(Seq<char>, Seq<char>, int)>
    decreases outputs.len(),
{
    if outputs.len() == 0 {
        Seq::empty()
    } else {
        let before = all_sections(documents, runs, outputs.drop_last());
        match outputs.last() {
            Ok(s) => before + run_sections(documents, runs[outputs.len() - 1].0, s),
            Err(_) => before,
        }
    }
}

/// The elements of sections, one after the other.
pub open spec fn section_elements(v: Seq<SectionModel>) -> Seq<ElementModel>
    decreases v.len(),
{
    if v.len() == 0 {
        Seq::empty()
    } else {
        section_elements(v.drop_last()) + v.last().elements
    }
}

/// What sections put into the head of a page, one after the other.
pub open spec fn section_injections(v: Seq<SectionModel>) -> Seq<Seq<char>>
    decreases v.len(),
{
    if v.len() == 0 {
        Seq::empty()
    } else {
        section_injections(v.drop_last()) + v.last().head_injections
    }
}

/// The sections of all runs as they were rendered.
pub open spec fn rendered_runs(outputs: Seq<Result<Seq<SectionModel>, Seq<char>>>) -> Seq<SectionModel>
    decreases outputs.len(),
{
    if outputs.len() == 0 {
        Seq::empty()
    } else {
        match outputs.last() {
            Ok(s) => rendered_runs(outputs.drop_last()) + s,
            Err(_) => rendered_runs(outputs.drop_last()),
        }
    }
}

/// The texts without those whose hash an earlier one has.
pub open spec fn distinct_by_hash(v: Seq<Seq<char>>) -> Seq<Seq<char>>
    decreases v.len(),
{
    if v.len() == 0 {
        Seq::empty()
    } else {
        let before = distinct_by_hash(v.drop_last());
        if exists|i: int|
            0 <= i < v.len() - 1 && text_hash(#[trigger] v[i]) == text_hash(v.last()) {
            before
        } else {
            before.push(v.last())
        }
    }
}

/// The texts without those whose hash an earlier one has.
pub fn dedup_by_hash(v: Vec<String>) -> (r: Vec<String>)
    ensures
        texts(r@) == distinct_by_hash(texts(v@)),
{
    let ghost ts = texts(v@);
    let mut out: Vec<String> = Vec::new();
    let mut seen: Vec<u64> = Vec::new();
    proof {
        assert(ts.take(0) =~= Seq::<Seq<char>>::empty());
        assert(texts(out@) =~= Seq::<Seq<char>>::empty());
    }
    for s in it: v
        invariant
            it.seq() == v@,
            ts == texts(v@),
            seen@.len() == it.index(),
            forall|k: int| 0 <= k < it.index() ==> #[trigger] seen@[k] == text_hash(ts[k]),
            texts(out@) == distinct_by_hash(ts.take(it.index())),
    {
        let ghost i = it.index();
        let hash = simple_hash(s.as_str());
        proof {
            assert(ts[i] == s@);
            assert(ts.take(i + 1).drop_last() =~= ts.take(i));
            assert(ts.take(i + 1).last() == s@);
        }
        let mut known = false;
        let mut j: usize = 0;
        while j < seen.len()
            invariant
                j <= seen@.len(),
                seen@.len() == i,
                i < ts.len(),
                hash == text_hash(ts[i]),
                forall|k: int| 0 <= k < i ==> #[trigger] seen@[k] == text_hash(ts[k]),
                known == exists|k: int|
                    0 <= k < j && text_hash(#[trigger] ts.take(i + 1)[k]) == hash,
            decreases seen@.len() - j,
        {
            assert(seen@[j as int] == text_hash(ts[j as int]));
            assert(ts.take(i + 1)[j as int] == ts[j as int]);
            if seen[j] == hash {
                known = true;
            }
            j = j + 1;
        }
        seen.push(hash);
        if !known {
            let ghost before = out@;
            out.push(s);
            assert(texts(out@) =~= texts(before).push(s@));
        }
    }
    assert(ts.take(ts.len() as int) =~= ts);
    out
}

/// What is kept occurs among the texts, and no two of what is kept have the same
/// hash.
pub proof fn law_distinct_hashes(v: Seq<Seq<char>>)
    ensures
        ({
            let kept = distinct_by_hash(v);
            &&& forall|i: int| 0 <= i < kept.len() ==> v.contains(#[trigger] kept[i])
            &&& forall|i: int, j: int|
                0 <= i < j < kept.len() ==> text_hash(#[trigger] kept[i]) != text_hash(
                    #[trigger] kept[j],
                )
        }),
    decreases v.len(),
{
    if v.len() > 0 {
        let front = v.drop_last();
        law_distinct_hashes(front);
        let before = distinct_by_hash(front);
        let kept = distinct_by_hash(v);
        assert forall|i: int| 0 <= i < kept.len() implies v.contains(#[trigger] kept[i]) by {
            if i < before.len() {
                assert(front.contains(before[i]));
                let k = choose|k: int| 0 <= k < front.len() && front[k] == before[i];
                assert(v[k] == kept[i]);
            } else {
                assert(v[v.len() - 1] == kept[i]);
            }
        }
        assert forall|i: int, j: int| 0 <= i < j < kept.len() implies text_hash(
            #[trigger] kept[i],
        ) != text_hash(#[trigger] kept[j]) by {
            if j == before.len() {
                assert(front.contains(before[i]));
                let k = choose|k: int| 0 <= k < front.len() && front[k] == before[i];
                assert(v[k] == kept[i]);
            } else {
                assert(text_hash(before[i]) != text_hash(before[j]));
            }
        }
    }
}

/// Why there is no content.
#[derive(Debug, Clone, PartialEq, Eq)]
pub enum SpecContentError {
    /// A run could not be rendered.
    Render(String),
    /// No document was rendered.
    NotFound { spec: String, impl_name: String },
}

impl SpecContentError {
    /// What is said of it.
    pub fn message(&self) -> (r: String)
        ensures
            match self {
                SpecContentError::Render(e) => r@ == e@,
                SpecContentError::NotFound { spec, impl_name } => r@
                    == "Spec content not found for "@ + spec@ + "/"@ + impl_name@,
            },
    {
        match self {
            SpecContentError::Render(e) => copy_str(e.as_str()),
            SpecContentError::NotFound { spec, impl_name } => {
                let mut m = concat3("Spec content not found for ", spec.as_str(), "/");
                m.append(impl_name.as_str());
                m
            },
        }
    }
}

/// Each section of a run comes from a document of that run.
pub open spec fn outputs_fit(
    runs: Seq<(int, int)>,
    outputs: Seq<Result<Seq<SectionModel>, Seq<char>>>,
) -> bool {
    outputs.len() == runs.len() && forall|i: int, k: int|
        0 <= i < outputs.len() && outputs[i] is Ok && 0 <= k < (outputs[i]->Ok_0).len()
            ==> runs[i].0 + (#[trigger] (outputs[i]->Ok_0)[k]).source_idx < runs[i].1
}

/// What the content of a specification holds.
pub open spec fn content_holds(
    d: ApiSpecData,
    spec_name: Seq<char>,
    documents: Seq<DocumentModel>,
    runs: Seq<(int, int)>,
    outputs: Seq<Result<Seq<SectionModel>, Seq<char>>>,
    rules: Seq<RuleModel>,
) -> bool {
    let rendered = rendered_runs(outputs);
    let entries = direct_entries(section_elements(rendered), rules);
    &&& d.name@ == spec_name
    &&& spec_sections(d.sections@) == all_sections(documents, runs, outputs)
    &&& texts(d.head_injections@) == distinct_by_hash(section_injections(rendered))
    &&& d.outline@.len() == entries.len()
    &&& forall|i: int| 0 <= i < entries.len() ==> entry_is(#[trigger] d.outline@[i], entries, i)
}

proof fn lemma_section_elements_push(v: Seq<SectionModel>, s: SectionModel)
    ensures
        section_elements(v.push(s)) == section_elements(v) + s.elements,
        section_injections(v.push(s)) == section_injections(v) + s.head_injections,
{
    assert(v.push(s).drop_last() =~= v);
}

struct Gathered {
    sections: Vec<SpecSection>,
    elements: Vec<DocElement>,
    injections: Vec<String>,
}

fn gather_run(
    documents: &Vec<SpecDocument>,
    run: (usize, usize),
    out: RenderOutput,
    g: &mut Gathered,
    Ghost(rendered): Ghost<Seq<SectionModel>>,
)
    requires
        run.1 <= documents@.len(),
        forall|k: int|
            0 <= k < out.sections@.len() ==> run.0 + (#[trigger] out.sections@[k]).source_idx
                < run.1,
        element_models(old(g).elements@) == section_elements(rendered),
        texts(old(g).injections@) == section_injections(rendered),
    ensures
        spec_sections(final(g).sections@) == spec_sections(old(g).sections@) + run_sections(
            document_models(documents@),
            run.0 as int,
            section_models(out.sections@),
        ),
        element_models(final(g).elements@) == section_elements(
            rendered + section_models(out.sections@),
        ),
        texts(final(g).injections@) == section_injections(
            rendered + section_models(out.sections@),
        ),
{
    let ghost ds = document_models(documents@);
    let ghost ss = section_models(out.sections@);
    let ghost start = spec_sections(g.sections@);
    let ghost more = run_sections(ds, run.0 as int, ss);
    proof {
        assert(start + more.take(0) =~= start);
        assert(rendered + ss.take(0) =~= rendered);
    }
    for s in it: out.sections
        invariant
            it.seq() == out.sections@,
            ds == document_models(documents@),
            ss == section_models(out.sections@),
            more == run_sections(ds, run.0 as int, ss),
            run.1 <= documents@.len(),
            forall|k: int|
                0 <= k < out.sections@.len() ==> run.0 + (#[trigger] out.sections@[k]).source_idx
                    < run.1,
            spec_sections(g.sections@) == start + more.take(it.index()),
            element_models(g.elements@) == section_elements(rendered + ss.take(it.index())),
            texts(g.injections@) == section_injections(rendered + ss.take(it.index())),
    {
        let ghost i = it.index();
        assert(run.0 + out.sections@[i].source_idx < run.1);
        let d = &documents[run.0 + s.source_idx];
        let section = SpecSection {
            source_file: copy_str(d.path.as_str()),
            html: s.html,
            weight: d.weight,
        };
        let ghost before = g.sections@;
        let ghost before_elements = g.elements@;
        let ghost before_injections = g.injections@;
        g.sections.push(section);
        let mut elements = s.elements;
        g.elements.append(&mut elements);
        let mut injections = s.head_injections;
        g.injections.append(&mut injections);
        proof {
            assert(ss[i] == s@);
            assert(ds[run.0 + s.source_idx] == d@);
            assert(section@ == more[i]);
            assert(spec_sections(g.sections@) =~= spec_sections(before).push(section@));
            assert(more.take(i + 1) =~= more.take(i).push(more[i]));
            assert(spec_sections(g.sections@) =~= start + more.take(i + 1));
            assert(rendered + ss.take(i + 1) =~= (rendered + ss.take(i)).push(ss[i]));
            lemma_section_elements_push(rendered + ss.take(i), ss[i]);
            assert(element_models(g.elements@) =~= element_models(before_elements)
                + element_models(s.elements@));
            assert(texts(g.injections@) =~= texts(before_injections) + texts(s.head_injections@));
        }
    }
    assert(more.take(more.len() as int) =~= more);
    assert(ss.take(ss.len() as int) =~= ss);
}

/// Put together what rendering each run gave. The first error among the runs is
/// reported only after all runs were rendered.
pub fn finish_spec_content(
    spec_name: &str,
    impl_name: &str,
    documents: &Vec<SpecDocument>,
    runs: &Vec<(usize, usize)>,
    outputs: Vec<Result<RenderOutput, String>>,
    rules: &Vec<ApiRule>,
) -> (r: Result<ApiSpecData, SpecContentError>)
    requires
        run_views(runs@) == runs_of(formats_of(documents@)),
        outputs_fit(run_views(runs@), output_models(outputs@)),
    ensures
        ({
            let ds = document_models(documents@);
            let os = output_models(outputs@);
            let rs = run_views(runs@);
            match r {
                Err(SpecContentError::Render(e)) => first_error(os) == Some(e@),
                Err(SpecContentError::NotFound { spec, impl_name: name }) => first_error(os) is None
                    && all_sections(ds, rs, os).len() == 0 && spec@ == spec_name@ && name@
                    == impl_name@,
                Ok(d) => first_error(os) is None && all_sections(ds, rs, os).len() > 0
                    && content_holds(d, spec_name@, ds, rs, os, rule_models(rules@)),
            }
        }),
{
    let ghost ds = document_models(documents@);
    let ghost os = output_models(outputs@);
    let ghost rs = run_views(runs@);
    let mut g = Gathered { sections: Vec::new(), elements: Vec::new(), injections: Vec::new() };
    let mut error: Option<String> = None;
    let mut j: usize = 0;
    let n: usize = runs.len();
    proof {
        assert(os.take(0) =~= Seq::<Result<Seq<SectionModel>, Seq<char>>>::empty());
        assert(spec_sections(g.sections@) =~= Seq::<(Seq<char>, Seq<char>, int)>::empty());
        assert(element_models(g.elements@) =~= Seq::<ElementModel>::empty());
        assert(texts(g.injections@) =~= Seq::<Seq<char>>::empty());
        lemma_runs(formats_of(documents@));
    }
    for o in it: outputs
        invariant
            it.seq() == outputs@,
            ds == document_models(documents@),
            os == output_models(outputs@),
            rs == run_views(runs@),
            rs == runs_of(formats_of(documents@)),
            outputs_fit(rs, os),
            n == runs@.len(),
            j == it.index(),
            opt_text(error) == first_error(os.take(it.index())),
            spec_sections(g.sections@) == all_sections(ds, rs, os.take(it.index())),
            element_models(g.elements@) == section_elements(rendered_runs(os.take(it.index()))),
            texts(g.injections@) == section_injections(rendered_runs(os.take(it.index()))),
    {
        let ghost i = it.index();
        proof {
            assert(os.take(i + 1).drop_last() =~= os.take(i));
            assert(os.take(i + 1).last() == os[i]);
            lemma_runs(formats_of(documents@));
            assert(rs[i] == (runs@[i].0 as int, runs@[i].1 as int));
            assert(formats_of(documents@).len() == documents@.len());
        }
        match o {
            Ok(out) => {
                assert forall|k: int|
                    0 <= k < out.sections@.len() implies runs@[i].0 + (
                #[trigger] out.sections@[k]).source_idx < runs@[i].1 by {
                    assert(os[i]->Ok_0 == section_models(out.sections@));
                    assert(section_models(out.sections@)[k] == out.sections@[k]@);
                    assert(rs[i].0 + (os[i]->Ok_0)[k].source_idx < rs[i].1);
                }
                gather_run(documents, runs[j], out, &mut g, Ghost(rendered_runs(os.take(i))));
            },
            Err(e) => {
                if error.is_none() {
                    error = Some(e);
                }
            },
        }
        j = j + 1;
    }
    assert(os.take(os.len() as int) =~= os);
    match error {
        Some(e) => {
            return Err(SpecContentError::Render(e));
        },
        None => {},
    }
    assert(spec_sections(g.sections@).len() == g.sections@.len());
    if g.sections.len() == 0 {
        return Err(
            SpecContentError::NotFound {
                spec: copy_str(spec_name),
                impl_name: copy_str(impl_name),
            },
        );
    }
    let outline = build_outline(&g.elements, rules);
    let head_injections = dedup_by_hash(g.injections);
    Ok(ApiSpecData { name: copy_str(spec_name), sections: g.sections, outline, head_injections })
}

/// The paths of dependencies seen from the project root; those elsewhere are
/// left out.
pub open spec fn relative_dependencies(
    deps: Seq<Seq<char>>,
    root: Seq<char>,
    canonical_root: Seq<char>,
) -> Seq<Seq<char>>
    decreases deps.len(),
{
    if deps.len() == 0 {
        Seq::empty()
    } else {
        let before = relative_dependencies(deps.drop_last(), root, canonical_root);
        match relative_to(deps.last(), root) {
            Some(p) => before.push(p),
            None => match relative_to(deps.last(), canonical_root) {
                Some(p) => before.push(p),
                None => before,
            },
        }
    }
}

/// The paths of dependencies seen from the project root; those elsewhere are
/// left out.
pub fn relativize_dependencies(deps: &Vec<String>, root: &str, canonical_root: &str) -> (r: Vec<
    String,
>)
    ensures
        texts(r@) == relative_dependencies(texts(deps@), root@, canonical_root@),
{
    let ghost ds = texts(deps@);
    let mut out: Vec<String> = Vec::new();
    let mut i: usize = 0;
    assert(texts(out@) =~= Seq::<Seq<char>>::empty());
    assert(ds.take(0) =~= Seq::<Seq<char>>::empty());
    while i < deps.len()
        invariant
            i <= deps@.len(),
            ds == texts(deps@),
            texts(out@) == relative_dependencies(ds.take(i as int), root@, canonical_root@),
        decreases deps@.len() - i,
    {
        let p = deps[i].as_str();
        proof {
            assert(ds.take(i + 1).drop_last() =~= ds.take(i as int));
            assert(ds.take(i + 1).last() == p@);
        }
        let relative = match relative_path(p, root) {
            Some(r) => Some(r),
            None => relative_path(p, canonical_root),
        };
        match relative {
            Some(r) => {
                let ghost before = out@;
                out.push(r);
                assert(texts(out@) =~= texts(before).push(r@));
            },
            None => {},
        }
        i = i + 1;
    }
    assert(ds.take(i as int) =~= ds);
    out
}

} // verus!
