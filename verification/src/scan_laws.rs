//! Which files belong to a build, and what is taken from them.

use vstd::prelude::*;

use crate::build_laws::{lemma_flat, law_path_key};
use crate::config::SpecConfig;
use crate::globs::{any_glob, glob_split};
use crate::bindings::{glob_error, glob_match};
use crate::impl_scan::{
    is_test_path, overlay_admitted, overlay_admits, paths_in_order, read_failure, scan_failures,
    scan_refs, scan_sources, scan_units, test_paths, ReadModel,
};
use crate::languages::language;
use crate::order_laws::{is_first, law_first_value_is_kept, law_map_holds_keys};
use crate::paths::{components, extension, file_name, relative_to};
use crate::refs::RefModel;
use crate::scan::{
    admitted, admitted_all, change_admits, found_views, matches_excludes, parent, passes,
    pattern_root, pattern_scan, scan_roots, scan_warnings, updated_scan, walk_admits, ChangedFile,
    FoundFile, PathKind, ScanFilter,
};
use crate::sorted_map::{path_key, sorted_keys};
use crate::text::texts;
use crate::validation::SourceModel;

verus! {

/// A file can be used exactly where its extension is that of a source language and
/// it could be parsed; else the reason says which of these fails.
pub proof fn law_usable_file(f: ReadModel)
    ensures
        read_failure(f) is None <==> extension(f.path) is Some && language(extension(f.path)->0)
            is Some && f.parsed is Ok,
        extension(f.path) is None ==> read_failure(f) == Some("file has no extension"@),
        extension(f.path) is Some && language(extension(f.path)->0) is None ==> read_failure(f)
            == Some("unsupported file extension '."@ + extension(f.path)->0 + "'"@),
        extension(f.path) is Some && language(extension(f.path)->0) is Some && f.parsed is Err
            ==> read_failure(f) == Some("failed to read/parse file: "@ + f.parsed->Err_0),
{
}

/// All references of all usable files count, in order.
pub proof fn law_references_of_all_files(reads: Seq<ReadModel>)
    ensures
        scan_refs(reads) == reads.filter(|f: ReadModel| read_failure(f) is None).map_values(
            |f: ReadModel| f.parsed->Ok_0.reqs.references,
        ).flatten(),
    decreases reads.len(),
{
    reveal(Seq::filter);
    let keep = |f: ReadModel| read_failure(f) is None;
    let says = |f: ReadModel| f.parsed->Ok_0.reqs.references;
    let parts = reads.filter(keep).map_values(says);
    if reads.len() > 0 {
        let d = reads.drop_last();
        law_references_of_all_files(d);
        let before = d.filter(keep).map_values(says);
        if keep(reads.last()) {
            assert(parts.drop_last() =~= before);
            assert(parts.last() == says(reads.last()));
            lemma_flat(parts);
        } else {
            assert(parts =~= before);
        }
    } else {
        assert(parts =~= Seq::<Seq<RefModel>>::empty());
        assert(parts.flatten() =~= Seq::<RefModel>::empty());
    }
}

/// Every file that cannot be used is told, with the reason, and no other.
pub proof fn law_failures_of_all_files(reads: Seq<ReadModel>)
    ensures
        scan_failures(reads) == reads.filter(|f: ReadModel| read_failure(f) is Some).map_values(
            |f: ReadModel| (f.path, read_failure(f)->0),
        ),
    decreases reads.len(),
{
    reveal(Seq::filter);
    let keep = |f: ReadModel| read_failure(f) is Some;
    let says = |f: ReadModel| (f.path, read_failure(f)->0);
    if reads.len() > 0 {
        law_failures_of_all_files(reads.drop_last());
    }
    assert(scan_failures(reads) =~= reads.filter(keep).map_values(says));
}

/// The units of every usable file that has any are known.
pub proof fn law_units_of_all_files(reads: Seq<ReadModel>)
    ensures
        scan_units(reads) == reads.filter(
            |f: ReadModel| read_failure(f) is None && f.parsed->Ok_0.code_units.len() > 0,
        ).map_values(|f: ReadModel| (f.path, f.parsed->Ok_0.code_units)),
    decreases reads.len(),
{
    reveal(Seq::filter);
    let keep = |f: ReadModel| read_failure(f) is None && f.parsed->Ok_0.code_units.len() > 0;
    let says = |f: ReadModel| (f.path, f.parsed->Ok_0.code_units);
    if reads.len() > 0 {
        law_units_of_all_files(reads.drop_last());
    }
    assert(scan_units(reads) =~= reads.filter(keep).map_values(says));
}

/// Every usable file is a source of the build, with its content and what it says.
pub proof fn law_sources_of_all_files(reads: Seq<ReadModel>)
    ensures
        scan_sources(reads) == reads.filter(|f: ReadModel| read_failure(f) is None).map_values(
            |f: ReadModel|
                SourceModel {
                    path: f.path,
                    content: f.parsed->Ok_0.content,
                    reqs: f.parsed->Ok_0.reqs,
                },
        ),
    decreases reads.len(),
{
    reveal(Seq::filter);
    let keep = |f: ReadModel| read_failure(f) is None;
    let says = |f: ReadModel|
        SourceModel {
            path: f.path,
            content: f.parsed->Ok_0.content,
            reqs: f.parsed->Ok_0.reqs,
        };
    if reads.len() > 0 {
        law_sources_of_all_files(reads.drop_last());
    }
    assert(scan_sources(reads) =~= reads.filter(keep).map_values(says));
}

/// The test files are those under the root that a pattern for test files of any
/// implementation matches.
pub proof fn law_test_files(listing: Seq<Seq<char>>, root: Seq<char>, specs: Seq<SpecConfig>)
    ensures
        test_paths(listing, root, specs) == listing.filter(
            |p: Seq<char>|
                relative_to(p, root) is Some && exists|s: int, i: int, k: int|
                    0 <= s < specs.len() && 0 <= i < specs[s].impls@.len() && 0 <= k
                        < specs[s].impls@[i].test_include@.len() && glob_match(
                        (#[trigger] specs[s].impls@[i].test_include@[k])@,
                        relative_to(p, root)->0,
                    ) == Some(true),
        ),
    decreases listing.len(),
{
    reveal(Seq::filter);
    let keep = |p: Seq<char>|
        relative_to(p, root) is Some && exists|s: int, i: int, k: int|
            0 <= s < specs.len() && 0 <= i < specs[s].impls@.len() && 0 <= k
                < specs[s].impls@[i].test_include@.len() && glob_match(
                (#[trigger] specs[s].impls@[i].test_include@[k])@,
                relative_to(p, root)->0,
            ) == Some(true);
    if listing.len() > 0 {
        law_test_files(listing.drop_last(), root, specs);
        let p = listing.last();
        if relative_to(p, root) is Some {
            let rel = relative_to(p, root)->0;
            if is_test_path(rel, specs) {
                let (s, i) = choose|s: int, i: int|
                    0 <= s < specs.len() && 0 <= i < specs[s].impls@.len() && any_glob(
                        texts((#[trigger] specs[s].impls@[i]).test_include@),
                        rel,
                    );
                let patterns = texts(specs[s].impls@[i].test_include@);
                let k = choose|k: int|
                    0 <= k < patterns.len() && glob_match(#[trigger] patterns[k], rel) == Some(true);
                assert(patterns[k] == specs[s].impls@[i].test_include@[k]@);
                assert(keep(p));
            }
            if keep(p) {
                let (s, i, k) = choose|s: int, i: int, k: int|
                    0 <= s < specs.len() && 0 <= i < specs[s].impls@.len() && 0 <= k
                        < specs[s].impls@[i].test_include@.len() && glob_match(
                        (#[trigger] specs[s].impls@[i].test_include@[k])@,
                        rel,
                    ) == Some(true);
                let patterns = texts(specs[s].impls@[i].test_include@);
                assert(glob_match(patterns[k], rel) == Some(true));
                assert(any_glob(texts(specs[s].impls@[i].test_include@), rel));
                assert(is_test_path(rel, specs));
            }
        }
    }
    assert(test_paths(listing, root, specs) =~= listing.filter(keep));
}

/// Putting paths in order keeps the first of those with the same components.
pub proof fn law_paths_are_kept(paths: Seq<Seq<char>>, i: int)
    requires
        0 <= i < paths.len(),
        forall|j: int| 0 <= j < i ==> components(#[trigger] paths[j]) != components(paths[i]),
    ensures
        paths_in_order(paths).contains(paths[i]),
{
    let keys = paths.map_values(|p: Seq<char>| path_key(p));
    let n = paths.len() as int;
    law_map_holds_keys(keys, n);
    law_first_value_is_kept(keys, paths, n);
    assert(keys[i] == path_key(paths[i]));
    assert(sorted_keys(keys, n).contains(keys[i]));
    let x = sorted_keys(keys, n).index_of(keys[i]);
    assert(is_first(keys, i, sorted_keys(keys, n)[x])) by {
        assert forall|j: int| 0 <= j < i implies #[trigger] keys[j] != keys[i] by {
            assert(keys[j] == path_key(paths[j]));
            law_path_key(paths[j], paths[i]);
        }
    }
    assert(paths_in_order(paths)[x] == paths[i]);
}

/// Every pattern gives a root or a warning, in order, and nothing else gives one.
pub proof fn law_every_pattern_counts(
    project_root: Seq<char>,
    patterns: Seq<Seq<char>>,
    kinds: Seq<PathKind>,
    n: int,
)
    requires
        0 <= n <= patterns.len(),
        patterns.len() == kinds.len(),
    ensures
        scan_roots(project_root, patterns, kinds, n).len() + scan_warnings(
            project_root,
            patterns,
            kinds,
            n,
        ).len() == n,
        forall|i: int|
            0 <= i < n ==> match pattern_scan(project_root, #[trigger] patterns[i], kinds[i]) {
                Ok(r) => scan_roots(project_root, patterns, kinds, n).contains(r),
                Err(w) => scan_warnings(project_root, patterns, kinds, n).contains(w),
            },
        forall|x: int|
            0 <= x < scan_roots(project_root, patterns, kinds, n).len() ==> exists|i: int|
                0 <= i < n && pattern_scan(project_root, #[trigger] patterns[i], kinds[i]) == Ok::<
                    (Seq<char>, Seq<char>),
                    Seq<char>,
                >(#[trigger] scan_roots(project_root, patterns, kinds, n)[x]),
    decreases n,
{
    if n > 0 {
        law_every_pattern_counts(project_root, patterns, kinds, n - 1);
        let a = scan_roots(project_root, patterns, kinds, n - 1);
        let b = scan_warnings(project_root, patterns, kinds, n - 1);
        let a2 = scan_roots(project_root, patterns, kinds, n);
        let b2 = scan_warnings(project_root, patterns, kinds, n);
        let found = pattern_scan(project_root, patterns[n - 1], kinds[n - 1]);
        assert forall|i: int| 0 <= i < n implies match pattern_scan(
            project_root,
            #[trigger] patterns[i],
            kinds[i],
        ) {
            Ok(r) => a2.contains(r),
            Err(w) => b2.contains(w),
        } by {
            match pattern_scan(project_root, patterns[i], kinds[i]) {
                Ok(r) => {
                    if i < n - 1 {
                        let x = a.index_of(r);
                        assert(a2[x] == r);
                    } else {
                        assert(a2[a.len() as int] == r);
                    }
                },
                Err(w) => {
                    if i < n - 1 {
                        let x = b.index_of(w);
                        assert(b2[x] == w);
                    } else {
                        assert(b2[b.len() as int] == w);
                    }
                },
            }
        }
        assert forall|x: int| 0 <= x < a2.len() implies exists|i: int|
            0 <= i < n && pattern_scan(project_root, #[trigger] patterns[i], kinds[i]) == Ok::<
                (Seq<char>, Seq<char>),
                Seq<char>,
            >(#[trigger] a2[x]) by {
            if x < a.len() {
                assert(a2[x] == a[x]);
                let i = choose|i: int|
                    0 <= i < n - 1 && pattern_scan(project_root, #[trigger] patterns[i], kinds[i])
                        == Ok::<(Seq<char>, Seq<char>), Seq<char>>(a[x]);
                assert(pattern_scan(project_root, patterns[i], kinds[i]) == Ok::<
                    (Seq<char>, Seq<char>),
                    Seq<char>,
                >(a2[x]));
            } else {
                assert(pattern_scan(project_root, patterns[n - 1], kinds[n - 1]) == Ok::<
                    (Seq<char>, Seq<char>),
                    Seq<char>,
                >(a2[x]));
            }
        }
    }
}

/// A pattern with a directory prefix that is not there leads nowhere. One that
/// names a file finds that name in the directory of the file; one that names
/// a directory finds all under it; any other is looked for by what follows its
/// directory prefix, under that prefix.
pub proof fn law_pattern_leads_to(project_root: Seq<char>, pattern: Seq<char>, kind: PathKind)
    ensures
        ({
            let base = pattern.take(glob_split(pattern).0);
            let suffix = pattern.skip(glob_split(pattern).1);
            let root = pattern_root(project_root, pattern);
            let found = pattern_scan(project_root, pattern, kind);
            &&& base.len() == 0 ==> root == project_root
            &&& base.len() > 0 && kind == PathKind::Missing ==> found is Err
            &&& found is Ok ==> glob_error((found->Ok_0).1) is None
            &&& found is Ok && suffix.len() == 0 && kind == PathKind::File ==> file_name(root)
                == Some((found->Ok_0).1) && parent(root) == Some((found->Ok_0).0)
            &&& found is Ok && suffix.len() == 0 && kind != PathKind::File ==> found->Ok_0 == (
                root,
                "**/*"@,
            )
            &&& found is Ok && suffix.len() > 0 ==> found->Ok_0 == (root, suffix)
            &&& kind != PathKind::Missing && suffix.len() > 0 && glob_error(suffix) is None
                ==> found is Ok
            &&& kind == PathKind::Directory && suffix.len() == 0 && glob_error("**/*"@) is None
                ==> found is Ok
        }),
{
}

/// A file is found by a scan exactly where it is listed under a root, passes the
/// filter, matches the glob of that root seen from it, and no exclude pattern
/// matches it seen from any root.
pub proof fn law_scan_finds(
    listings: Seq<Vec<FoundFile>>,
    n: int,
    roots: Seq<(Seq<char>, Seq<char>)>,
    filter: ScanFilter,
    exclude: Seq<Seq<char>>,
    p: Seq<char>,
)
    requires
        0 <= n <= listings.len(),
        listings.len() == roots.len(),
    ensures
        admitted_all(listings, n, roots, filter, exclude).contains(p) <==> exists|i: int, j: int|
            0 <= i < n && 0 <= j < listings[i]@.len() && (#[trigger] listings[i]@[j]).canonical@
                == p && belongs(listings[i]@[j].path@, roots[i], roots, filter, exclude),
    decreases n,
{
    if n > 0 {
        law_scan_finds(listings, n - 1, roots, filter, exclude, p);
        let files = found_views(listings[n - 1]@);
        lemma_admitted(files, files.len() as int, roots[n - 1], roots, filter, exclude, p);
        if admitted_all(listings, n - 1, roots, filter, exclude).contains(p) {
            let (i, j) = choose|i: int, j: int|
                0 <= i < n - 1 && 0 <= j < listings[i]@.len() && (
                #[trigger] listings[i]@[j]).canonical@ == p && belongs(
                    listings[i]@[j].path@,
                    roots[i],
                    roots,
                    filter,
                    exclude,
                );
            assert(listings[i]@[j].canonical@ == p);
        }
        if admitted(files, files.len() as int, roots[n - 1], roots, filter, exclude).contains(p) {
            let j = choose|j: int|
                0 <= j < files.len() && (#[trigger] files[j]).1 == p && belongs(
                    files[j].0,
                    roots[n - 1],
                    roots,
                    filter,
                    exclude,
                );
            assert(listings[n - 1]@[j].canonical@ == p);
        }
        if exists|i: int, j: int|
            0 <= i < n && 0 <= j < listings[i]@.len() && (#[trigger] listings[i]@[j]).canonical@
                == p && belongs(listings[i]@[j].path@, roots[i], roots, filter, exclude) {
            let (i, j) = choose|i: int, j: int|
                0 <= i < n && 0 <= j < listings[i]@.len() && (#[trigger] listings[i]@[j]).canonical@
                    == p && belongs(listings[i]@[j].path@, roots[i], roots, filter, exclude);
            if i == n - 1 {
                assert(files[j].1 == p && files[j].0 == listings[i]@[j].path@);
            }
        }
    }
}

/// A file that a filter lets pass lies under a root, matches its glob there, and
/// matches no exclude pattern, seen from any root that it lies under.
pub open spec fn belongs(
    path: Seq<char>,
    root: (Seq<char>, Seq<char>),
    roots: Seq<(Seq<char>, Seq<char>)>,
    filter: ScanFilter,
    exclude: Seq<Seq<char>>,
) -> bool {
    &&& passes(path, filter)
    &&& relative_to(path, root.0) is Some
    &&& glob_match(root.1, relative_to(path, root.0)->0) == Some(true)
    &&& !barred(path, roots, exclude)
}

/// An exclude pattern matches a path, seen from some root that it lies under.
pub open spec fn barred(
    path: Seq<char>,
    roots: Seq<(Seq<char>, Seq<char>)>,
    exclude: Seq<Seq<char>>,
) -> bool {
    exists|i: int, k: int|
        0 <= i < roots.len() && 0 <= k < exclude.len() && relative_to(
            path,
            (#[trigger] roots[i]).0,
        ) is Some && glob_match(#[trigger] exclude[k], relative_to(path, roots[i].0)->0) == Some(
            true,
        )
}

/// A path is excluded exactly where a pattern matches it, seen from some root that
/// it lies under.
pub proof fn law_exclude_patterns(
    path: Seq<char>,
    roots: Seq<(Seq<char>, Seq<char>)>,
    exclude: Seq<Seq<char>>,
)
    ensures
        matches_excludes(path, roots, exclude) == barred(path, roots, exclude),
{
    if matches_excludes(path, roots, exclude) {
        let i = choose|i: int|
            0 <= i < roots.len() && crate::scan::excluded_under(path, #[trigger] roots[i], exclude);
        let rel = relative_to(path, roots[i].0)->0;
        let k = choose|k: int|
            0 <= k < exclude.len() && glob_match(#[trigger] exclude[k], rel) == Some(true);
        assert(glob_match(exclude[k], relative_to(path, roots[i].0)->0) == Some(true));
    }
    if barred(path, roots, exclude) {
        let (i, k) = choose|i: int, k: int|
            0 <= i < roots.len() && 0 <= k < exclude.len() && relative_to(
                path,
                (#[trigger] roots[i]).0,
            ) is Some && glob_match(#[trigger] exclude[k], relative_to(path, roots[i].0)->0)
                == Some(true);
        assert(any_glob(exclude, relative_to(path, roots[i].0)->0));
        assert(crate::scan::excluded_under(path, roots[i], exclude));
    }
}

proof fn lemma_admitted(
    files: Seq<(Seq<char>, Seq<char>)>,
    n: int,
    root: (Seq<char>, Seq<char>),
    roots: Seq<(Seq<char>, Seq<char>)>,
    filter: ScanFilter,
    exclude: Seq<Seq<char>>,
    p: Seq<char>,
)
    requires
        0 <= n <= files.len(),
    ensures
        admitted(files, n, root, roots, filter, exclude).contains(p) <==> exists|j: int|
            0 <= j < n && (#[trigger] files[j]).1 == p && belongs(
                files[j].0,
                root,
                roots,
                filter,
                exclude,
            ),
    decreases n,
{
    if n > 0 {
        lemma_admitted(files, n - 1, root, roots, filter, exclude, p);
        law_exclude_patterns(files[n - 1].0, roots, exclude);
        assert(walk_admits(files[n - 1].0, root, roots, filter, exclude) == belongs(
            files[n - 1].0,
            root,
            roots,
            filter,
            exclude,
        ));
        if admitted(files, n - 1, root, roots, filter, exclude).contains(p) {
            let j = choose|j: int|
                0 <= j < n - 1 && (#[trigger] files[j]).1 == p && belongs(
                    files[j].0,
                    root,
                    roots,
                    filter,
                    exclude,
                );
            assert(files[j].1 == p);
        }
    }
}

/// What passes a filter: with `Any` everything, with `Source` what has the
/// extension of a source language, with `Spec` what is a spec document.
pub proof fn law_filter_passes(path: Seq<char>)
    ensures
        passes(path, ScanFilter::Any),
        passes(path, ScanFilter::Source) <==> extension(path) is Some && language(
            extension(path)->0,
        ) is Some,
        passes(path, ScanFilter::Spec) <==> crate::format::path_format(path) is Some,
{
}

/// The last change of a file decides whether it belongs to a scan: it does where
/// the file still exists, passes the filter, matches some root and is not
/// excluded.
pub proof fn law_last_change_decides(
    scan: Set<Seq<char>>,
    changed: Seq<ChangedFile>,
    n: int,
    roots: Seq<(Seq<char>, Seq<char>)>,
    filter: ScanFilter,
    exclude: Seq<Seq<char>>,
    k: int,
)
    requires
        0 <= k < n <= changed.len(),
        forall|i: int|
            k < i < n ==> (#[trigger] changed[i]).canonical@ != changed[k].canonical@,
    ensures
        updated_scan(scan, changed, n, roots, filter, exclude).contains(changed[k].canonical@) <==> {
            &&& changed[k].exists
            &&& exists|i: int|
                0 <= i < roots.len() && belongs(
                    changed[k].path@,
                    #[trigger] roots[i],
                    roots,
                    filter,
                    exclude,
                )
        },
    decreases n,
{
    if k < n - 1 {
        law_last_change_decides(scan, changed, n - 1, roots, filter, exclude, k);
        assert(changed[n - 1].canonical@ != changed[k].canonical@);
    } else {
        let f = changed[k];
        law_exclude_patterns(f.path@, roots, exclude);
        if change_admits(f, roots, filter, exclude) {
            let i = choose|i: int|
                0 <= i < roots.len() && crate::scan::matches_root(f.path@, #[trigger] roots[i]);
            assert(belongs(f.path@, roots[i], roots, filter, exclude));
        }
        if exists|i: int|
            0 <= i < roots.len() && belongs(f.path@, #[trigger] roots[i], roots, filter, exclude) {
            let i = choose|i: int|
                0 <= i < roots.len() && belongs(
                    f.path@,
                    #[trigger] roots[i],
                    roots,
                    filter,
                    exclude,
                );
            assert(crate::scan::matches_root(f.path@, roots[i]));
        }
    }
}

/// A file that an editor holds belongs to a scan exactly where it would if it stood
/// on disk.
pub proof fn law_held_files_belong(
    paths: Seq<Seq<char>>,
    n: int,
    roots: Seq<(Seq<char>, Seq<char>)>,
    filter: ScanFilter,
    exclude: Seq<Seq<char>>,
    p: Seq<char>,
)
    requires
        0 <= n <= paths.len(),
    ensures
        overlay_admitted(paths, n, roots, filter, exclude).contains(p) <==> {
            &&& exists|i: int| 0 <= i < n && #[trigger] paths[i] == p
            &&& exists|i: int|
                0 <= i < roots.len() && belongs(p, #[trigger] roots[i], roots, filter, exclude)
        },
    decreases n,
{
    if n > 0 {
        law_held_files_belong(paths, n - 1, roots, filter, exclude, p);
        law_exclude_patterns(p, roots, exclude);
        assert(paths[n - 1] == paths[n - 1]);
        if overlay_admits(p, roots, filter, exclude) {
            let i = choose|i: int|
                0 <= i < roots.len() && crate::scan::matches_root(p, #[trigger] roots[i]);
            assert(belongs(p, roots[i], roots, filter, exclude));
        }
        if exists|i: int|
            0 <= i < roots.len() && belongs(p, #[trigger] roots[i], roots, filter, exclude) {
            let i = choose|i: int|
                0 <= i < roots.len() && belongs(p, #[trigger] roots[i], roots, filter, exclude);
            assert(crate::scan::matches_root(p, roots[i]));
            assert(overlay_admits(p, roots, filter, exclude));
        }
    }
}

} // verus!
