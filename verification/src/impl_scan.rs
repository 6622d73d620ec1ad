//! What is found in the files that a configuration names.

use vstd::prelude::*;

use crate::api::CodeUnit;
use crate::cache::FileOverlay;
use crate::config::{Config, SpecConfig};
use crate::coverage::unit_models;
use crate::globs::{any_glob, matches_any};
use crate::languages::{is_supported_extension, language};
use crate::paths::{extension, extension_of, relative_path, relative_to};
use crate::refs::{ref_models, RefModel, ReqReference, Reqs, ReqsModel};
use crate::scan::{
    matches_excludes, matches_some_root, passes, passes_filter, path_matches_any_root,
    path_matches_excludes, root_views, PathSet, ScanFilter, ScanRootPattern,
};
use crate::sorted_map::{entry_keys, entry_values, first_by_key, first_values, path_key, path_key_of};
use crate::text::{concat2, concat3, copy_str, texts};
use crate::validation::{path_pairs, source_models, SourceFile, SourceModel};

verus! {

/// The paths of files that an editor holds.
pub open spec fn overlay_paths(files: Seq<(String, String)>) -> Seq<Seq<char>> {
    files.map_values(|f: (String, String)| f.0@)
}

/// A file that an editor holds belongs to a scan.
pub open spec fn overlay_admits(
    path: Seq<char>,
    roots: Seq<(Seq<char>, Seq<char>)>,
    filter: ScanFilter,
    exclude: Seq<Seq<char>>,
) -> bool {
    passes(path, filter) && matches_some_root(path, roots) && !matches_excludes(
        path,
        roots,
        exclude,
    )
}

/// Those of the first `n` files that an editor holds that belong to a scan.
pub open spec fn overlay_admitted(
    paths: Seq<Seq<char>>,
    n: int,
    roots: Seq<(Seq<char>, Seq<char>)>,
    filter: ScanFilter,
    exclude: Seq<Seq<char>>,
) -> Set<Seq<char>>
    decreases n,
{
    if n <= 0 {
        Set::empty()
    } else {
        let before = overlay_admitted(paths, n - 1, roots, filter, exclude);
        if overlay_admits(paths[n - 1], roots, filter, exclude) {
            before.insert(paths[n - 1])
        } else {
            before
        }
    }
}

/// Add the files that an editor holds to the files of a scan they belong to.
pub fn add_overlay_paths(
    files: &mut PathSet,
    overlay: &FileOverlay,
    roots: &Vec<ScanRootPattern>,
    filter: ScanFilter,
    exclude: &Vec<String>,
)
    requires
        old(files).wf(),
    ensures
        final(files).wf(),
        final(files).set() == old(files).set().union(
            overlay_admitted(
                overlay_paths(overlay.files@),
                overlay.files@.len() as int,
                root_views(roots@),
                filter,
                texts(exclude@),
            ),
        ),
{
    let ghost start = files.set();
    let ghost ps = overlay_paths(overlay.files@);
    let ghost rs = root_views(roots@);
    let ghost ex = texts(exclude@);
    let mut i: usize = 0;
    assert(start.union(Set::<Seq<char>>::empty()) =~= start);
    while i < overlay.files.len()
        invariant
            i <= overlay.files@.len(),
            ps == overlay_paths(overlay.files@),
            rs == root_views(roots@),
            ex == texts(exclude@),
            files.wf(),
            files.set() == start.union(overlay_admitted(ps, i as int, rs, filter, ex)),
        decreases overlay.files@.len() - i,
    {
        let p = overlay.files[i].0.as_str();
        assert(ps[i as int] == p@);
        if passes_filter(p, filter) && path_matches_any_root(p, roots) && !path_matches_excludes(
            p,
            roots,
            exclude,
        ) {
            files.insert(p);
        }
        i = i + 1;
        assert(files.set() =~= start.union(overlay_admitted(ps, i as int, rs, filter, ex)));
    }
}

/// Paths in the order of the directory tree, each once.
pub open spec fn paths_in_order(paths: Seq<Seq<char>>) -> Seq<Seq<char>> {
    first_values(
        paths.map_values(|p: Seq<char>| path_key(p)),
        paths,
        paths.len() as int,
    )
}

/// The paths of a scan in the order of the directory tree.
pub fn ordered_paths(files: &PathSet) -> (r: Vec<String>)
    ensures
        texts(r@) == paths_in_order(texts(files.paths@)),
{
    let ghost ps = texts(files.paths@);
    let ghost keys = ps.map_values(|p: Seq<char>| path_key(p));
    let mut entries: Vec<(Vec<String>, String)> = Vec::new();
    let mut i: usize = 0;
    while i < files.paths.len()
        invariant
            i <= files.paths@.len(),
            ps == texts(files.paths@),
            keys == ps.map_values(|p: Seq<char>| path_key(p)),
            entries@.len() == i,
            forall|k: int|
                0 <= k < i ==> texts((#[trigger] entries@[k]).0@) == keys[k] && entries@[k].1@
                    == ps[k],
        decreases files.paths@.len() - i,
    {
        let p = files.paths[i].as_str();
        entries.push((path_key_of(p), copy_str(p)));
        i = i + 1;
    }
    proof {
        assert(entry_keys(entries@) =~= keys);
        let f = |s: String| s@;
        crate::sorted_map::lemma_values_mapped(
            keys,
            entry_values(entries@),
            f,
            entries@.len() as int,
        );
        assert(entry_values(entries@).map_values(f) =~= ps);
    }
    let r = first_by_key(entries);
    assert(texts(r@) =~= r@.map_values(|s: String| s@));
    r
}

/// What parsing a source file gave.
pub struct ParsedSource {
    pub content: String,
    pub reqs: Reqs,
    pub code_units: Vec<CodeUnit>,
}

/// A file that the patterns find, with what reading it gave.
pub struct FileRead {
    pub path: String,
    pub parsed: Result<ParsedSource, String>,
}

/// What a parsed source file says.
#[verifier::ext_equal]
pub struct ParsedModel {
    pub content: Seq<char>,
    pub reqs: ReqsModel,
    pub code_units: Seq<CodeUnit>,
}

/// A file that the patterns find, with what reading it gave.
#[verifier::ext_equal]
pub struct ReadModel {
    pub path: Seq<char>,
    pub parsed: Result<ParsedModel, Seq<char>>,
}

impl View for FileRead {
    type V = ReadModel;

    open spec fn view(&self) -> ReadModel {
        ReadModel {
            path: self.path@,
            parsed: match self.parsed {
                Ok(p) => Ok(
                    ParsedModel { content: p.content@, reqs: p.reqs@, code_units: p.code_units@ },
                ),
                Err(e) => Err(e@),
            },
        }
    }
}

pub open spec fn read_models(v: Seq<FileRead>) -> Seq<ReadModel> {
    v.map_values(|f: FileRead| f@)
}

/// Why a file that the patterns find cannot be used.
pub open spec fn read_failure(f: ReadModel) -> Option<Seq<char>> {
    match extension(f.path) {
        None => Some("file has no extension"@),
        Some(ext) => if language(ext) is None {
            Some("unsupported file extension '."@ + ext + "'"@)
        } else {
            match f.parsed {
                Ok(_) => None,
                Err(e) => Some("failed to read/parse file: "@ + e),
            }
        },
    }
}

/// What the files say, one after the other.
pub open spec fn scan_refs(reads: Seq<ReadModel>) -> Seq<RefModel>
    decreases reads.len(),
{
    if reads.len() == 0 {
        Seq::empty()
    } else {
        let before = scan_refs(reads.drop_last());
        match reads.last().parsed {
            Ok(p) if read_failure(reads.last()) is None => before + p.reqs.references,
            _ => before,
        }
    }
}

/// The files that cannot be used, with the reason.
pub open spec fn scan_failures(reads: Seq<ReadModel>) -> Seq<(Seq<char>, Seq<char>)>
    decreases reads.len(),
{
    if reads.len() == 0 {
        Seq::empty()
    } else {
        let before = scan_failures(reads.drop_last());
        match read_failure(reads.last()) {
            Some(e) => before.push((reads.last().path, e)),
            None => before,
        }
    }
}

/// The files with code units in them.
pub open spec fn scan_units(reads: Seq<ReadModel>) -> Seq<(Seq<char>, Seq<CodeUnit>)>
    decreases reads.len(),
{
    if reads.len() == 0 {
        Seq::empty()
    } else {
        let before = scan_units(reads.drop_last());
        match reads.last().parsed {
            Ok(p) if read_failure(reads.last()) is None && p.code_units.len() > 0 => before.push(
                (reads.last().path, p.code_units),
            ),
            _ => before,
        }
    }
}

/// The files that were parsed.
pub open spec fn scan_sources(reads: Seq<ReadModel>) -> Seq<SourceModel>
    decreases reads.len(),
{
    if reads.len() == 0 {
        Seq::empty()
    } else {
        let before = scan_sources(reads.drop_last());
        match reads.last().parsed {
            Ok(p) if read_failure(reads.last()) is None => before.push(
                SourceModel { path: reads.last().path, content: p.content, reqs: p.reqs },
            ),
            _ => before,
        }
    }
}

/// What the files of an implementation say.
pub struct ImplScan {
    pub refs: Vec<ReqReference>,
    pub failures: Vec<(String, String)>,
    pub code_units: Vec<(String, Vec<CodeUnit>)>,
    pub sources: Vec<SourceFile>,
}

fn failure_of(f: &FileRead) -> (r: Option<String>)
    ensures
        crate::text::opt_text(r) == read_failure(f@),
{
    match extension_of(f.path.as_str()) {
        None => Some(copy_str("file has no extension")),
        Some(ext) => if !is_supported_extension(ext.as_str()) {
            Some(concat3("unsupported file extension '.", ext.as_str(), "'"))
        } else {
            match &f.parsed {
                Ok(_) => None,
                Err(e) => Some(concat2("failed to read/parse file: ", e.as_str())),
            }
        },
    }
}

fn push_refs(out: &mut Vec<ReqReference>, more: &Vec<ReqReference>)
    ensures
        ref_models(final(out)@) == ref_models(old(out)@) + ref_models(more@),
{
    let ghost start = ref_models(out@);
    let ghost ms = ref_models(more@);
    let mut i: usize = 0;
    assert(start + ms.take(0) =~= start);
    while i < more.len()
        invariant
            i <= more@.len(),
            ms == ref_models(more@),
            ref_models(out@) == start + ms.take(i as int),
        decreases more@.len() - i,
    {
        let ghost before = out@;
        let r = more[i].copy();
        out.push(r);
        proof {
            assert(ref_models(out@) =~= ref_models(before).push(r@));
            assert(ms[i as int] == more@[i as int]@);
            assert(ms.take(i + 1) =~= ms.take(i as int).push(ms[i as int]));
            assert(ref_models(out@) =~= start + ms.take(i + 1));
        }
        i = i + 1;
    }
    assert(ms.take(i as int) =~= ms);
}

/// Gather what the files that the patterns find say. A file in no source
/// language, or one that cannot be read, is a failure with its reason.
pub fn scan_impl_files(reads: Vec<FileRead>) -> (r: ImplScan)
    ensures
        ref_models(r.refs@) == scan_refs(read_models(reads@)),
        path_pairs(r.failures@) == scan_failures(read_models(reads@)),
        unit_models(r.code_units@) == scan_units(read_models(reads@)),
        source_models(r.sources@) == scan_sources(read_models(reads@)),
{
    let ghost rs = read_models(reads@);
    let mut refs: Vec<ReqReference> = Vec::new();
    let mut failures: Vec<(String, String)> = Vec::new();
    let mut code_units: Vec<(String, Vec<CodeUnit>)> = Vec::new();
    let mut sources: Vec<SourceFile> = Vec::new();
    proof {
        assert(ref_models(refs@) =~= Seq::<RefModel>::empty());
        assert(path_pairs(failures@) =~= Seq::<(Seq<char>, Seq<char>)>::empty());
        assert(unit_models(code_units@) =~= Seq::<(Seq<char>, Seq<CodeUnit>)>::empty());
        assert(source_models(sources@) =~= Seq::<SourceModel>::empty());
        assert(rs.take(0) =~= Seq::<ReadModel>::empty());
    }
    for f in it: reads
        invariant
            it.seq() == reads@,
            rs == read_models(reads@),
            ref_models(refs@) == scan_refs(rs.take(it.index())),
            path_pairs(failures@) == scan_failures(rs.take(it.index())),
            unit_models(code_units@) == scan_units(rs.take(it.index())),
            source_models(sources@) == scan_sources(rs.take(it.index())),
    {
        let ghost i = it.index();
        proof {
            assert(rs.take(i + 1).drop_last() =~= rs.take(i));
            assert(rs.take(i + 1).last() == f@);
        }
        let ghost before_failures = failures@;
        let ghost before_units = code_units@;
        let ghost before_sources = sources@;
        match failure_of(&f) {
            Some(e) => {
                failures.push((f.path, e));
                assert(path_pairs(failures@) =~= path_pairs(before_failures).push((f.path@, e@)));
            },
            None => match f.parsed {
                Ok(p) => {
                    push_refs(&mut refs, &p.reqs.references);
                    if p.code_units.len() > 0 {
                        code_units.push((copy_str(f.path.as_str()), p.code_units));
                        assert(unit_models(code_units@) =~= unit_models(before_units).push(
                            (f.path@, p.code_units@),
                        ));
                    }
                    let source = SourceFile { path: f.path, content: p.content, reqs: p.reqs };
                    sources.push(source);
                    assert(source_models(sources@) =~= source_models(before_sources).push(source@));
                },
                Err(_) => {},
            },
        }
    }
    assert(rs.take(rs.len() as int) =~= rs);
    ImplScan { refs, failures, code_units, sources }
}

/// A pattern for test files of some implementation matches the path.
pub open spec fn is_test_path(relative: Seq<char>, specs: Seq<SpecConfig>) -> bool {
    exists|s: int, i: int|
        0 <= s < specs.len() && 0 <= i < specs[s].impls@.len() && any_glob(
            texts((#[trigger] specs[s].impls@[i]).test_include@),
            relative,
        )
}

/// The files of the project that some pattern for test files matches.
pub open spec fn test_paths(listing: Seq<Seq<char>>, root: Seq<char>, specs: Seq<SpecConfig>) -> Seq<
    Seq<char>,
>
    decreases listing.len(),
{
    if listing.len() == 0 {
        Seq::empty()
    } else {
        let before = test_paths(listing.drop_last(), root, specs);
        match relative_to(listing.last(), root) {
            Some(r) if is_test_path(r, specs) => before.push(listing.last()),
            _ => before,
        }
    }
}

fn matches_test_pattern(relative: &str, specs: &Vec<SpecConfig>) -> (r: bool)
    ensures
        r == is_test_path(relative@, specs@),
{
    let mut s: usize = 0;
    while s < specs.len()
        invariant
            s <= specs@.len(),
            forall|a: int, b: int|
                0 <= a < s && 0 <= b < specs@[a].impls@.len() ==> !any_glob(
                    texts((#[trigger] specs@[a].impls@[b]).test_include@),
                    relative@,
                ),
        decreases specs@.len() - s,
    {
        let impls = &specs[s].impls;
        let mut i: usize = 0;
        while i < impls.len()
            invariant
                s < specs@.len(),
                impls == specs@[s as int].impls,
                i <= impls@.len(),
                forall|b: int|
                    0 <= b < i ==> !any_glob(
                        texts((#[trigger] impls@[b]).test_include@),
                        relative@,
                    ),
            decreases impls@.len() - i,
        {
            if matches_any(&impls[i].test_include, relative) {
                assert(any_glob(
                    texts(specs@[s as int].impls@[i as int].test_include@),
                    relative@,
                ));
                return true;
            }
            i = i + 1;
        }
        assert forall|a: int, b: int|
            0 <= a < s + 1 && 0 <= b < specs@[a].impls@.len() implies !any_glob(
            texts((#[trigger] specs@[a].impls@[b]).test_include@),
            relative@,
        ) by {
            if a == s {
                assert(specs@[a].impls@[b] == impls@[b]);
            }
        }
        s = s + 1;
    }
    false
}

/// The files that only verify: those of the project that some pattern for test
/// files matches, seen from the root.
pub fn select_test_files(root: &str, listing: &Vec<String>, config: &Config) -> (r: Vec<String>)
    ensures
        texts(r@) == test_paths(texts(listing@), root@, config.specs@),
{
    let ghost ls = texts(listing@);
    let mut out: Vec<String> = Vec::new();
    let mut i: usize = 0;
    assert(texts(out@) =~= Seq::<Seq<char>>::empty());
    while i < listing.len()
        invariant
            i <= listing@.len(),
            ls == texts(listing@),
            texts(out@) == test_paths(ls.take(i as int), root@, config.specs@),
        decreases listing@.len() - i,
    {
        let p = listing[i].as_str();
        proof {
            assert(ls.take(i + 1).drop_last() =~= ls.take(i as int));
            assert(ls.take(i + 1).last() == p@);
        }
        match relative_path(p, root) {
            Some(relative) => {
                if matches_test_pattern(relative.as_str(), &config.specs) {
                    let ghost before = out@;
                    out.push(copy_str(p));
                    assert(texts(out@) =~= texts(before).push(p@));
                }
            },
            None => {},
        }
        i = i + 1;
    }
    assert(ls.take(i as int) =~= ls);
    out
}

} // verus!
