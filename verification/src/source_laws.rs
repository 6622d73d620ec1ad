//! What is found in the source files of a project.

use vstd::prelude::*;

use crate::build_laws::lemma_flat;
use crate::bindings::glob_match;
use crate::languages::language;
use crate::lexer::file_reqs;
use crate::paths::{extension, relative_or_self};
use crate::refs::{RefModel, ReqsModel};
use crate::sources::{
    all_walked, cross_step, cross_steps, files_reqs, found_at_ref, found_in_read, listing_files,
    local_patterns, scanned, selected_paths, walk_steps, walked_reqs, BlobRead, StepModel,
    WalkListing,
};
use crate::text::{has_prefix, trim};

verus! {

/// Files say what each of them says, one after the other.
pub proof fn law_files_say_all(files: Seq<(Seq<char>, Seq<char>)>)
    ensures
        files_reqs(files).references == files.map_values(
            |f: (Seq<char>, Seq<char>)| file_reqs(f.0, f.1).references,
        ).flatten(),
    decreases files.len(),
{
    let f = |f: (Seq<char>, Seq<char>)| file_reqs(f.0, f.1).references;
    let parts = files.map_values(f);
    if files.len() > 0 {
        law_files_say_all(files.drop_last());
        assert(parts.drop_last() =~= files.drop_last().map_values(f));
        lemma_flat(parts);
    } else {
        assert(parts =~= Seq::<Seq<RefModel>>::empty());
        assert(parts.flatten() =~= Seq::<RefModel>::empty());
    }
}

/// A file in no source language says nothing.
pub proof fn law_other_files_say_nothing(path: Seq<char>, content: Seq<char>)
    requires
        extension(path) is None || language(extension(path)->0) is None,
    ensures
        file_reqs(path, content).references.len() == 0,
        file_reqs(path, content).warnings.len() == 0,
{
}

/// Reading fails exactly where a file could not be read, with what was said of the
/// first such file; else all files say what each says.
pub proof fn law_read_files_say_all(
    paths: Seq<Seq<char>>,
    contents: Seq<Result<Seq<char>, Seq<char>>>,
)
    requires
        paths.len() == contents.len(),
    ensures
        found_in_read(paths, contents) is Ok <==> forall|i: int|
            0 <= i < contents.len() ==> (#[trigger] contents[i]) is Ok,
        found_in_read(paths, contents) is Ok ==> found_in_read(paths, contents)->Ok_0.references
            == Seq::new(
            paths.len(),
            |i: int| file_reqs(paths[i], contents[i]->Ok_0).references,
        ).flatten(),
        forall|i: int|
            0 <= i < contents.len() && (#[trigger] contents[i]) is Err && (forall|j: int|
                0 <= j < i ==> (#[trigger] contents[j]) is Ok) ==> found_in_read(paths, contents)
                == Err::<ReqsModel, Seq<char>>(contents[i]->Err_0),
    decreases paths.len(),
{
    let parts = Seq::new(
        paths.len(),
        |i: int| file_reqs(paths[i], contents[i]->Ok_0).references,
    );
    if paths.len() == 0 {
        assert(parts.flatten() =~= Seq::<RefModel>::empty());
    } else {
        let ps = paths.drop_last();
        let cs = contents.drop_last();
        law_read_files_say_all(ps, cs);
        let less = Seq::new(ps.len(), |i: int| file_reqs(ps[i], cs[i]->Ok_0).references);
        assert(parts.drop_last() =~= less);
        lemma_flat(parts);
        let n = paths.len() - 1;
        assert(contents.last() == contents[n]);
        assert(forall|i: int| 0 <= i < cs.len() ==> #[trigger] cs[i] == contents[i]);
        if found_in_read(ps, cs) is Ok {
            assert forall|i: int| 0 <= i < n implies (#[trigger] contents[i]) is Ok by {
                assert(cs[i] is Ok);
            }
        } else {
            let i = choose|i: int| 0 <= i < cs.len() && !((#[trigger] cs[i]) is Ok);
            assert(!(contents[i] is Ok));
        }
        assert forall|i: int|
            0 <= i < contents.len() && (#[trigger] contents[i]) is Err && (forall|j: int|
                0 <= j < i ==> (#[trigger] contents[j]) is Ok) implies found_in_read(
            paths,
            contents,
        ) == Err::<ReqsModel, Seq<char>>(contents[i]->Err_0) by {
            if i < n {
                assert(cs[i] is Err);
                assert forall|j: int| 0 <= j < i implies (#[trigger] cs[j]) is Ok by {
                    assert(contents[j] is Ok);
                }
            } else {
                assert forall|j: int| 0 <= j < cs.len() implies (#[trigger] cs[j]) is Ok by {
                    assert(contents[j] is Ok);
                }
            }
        }
    }
}

/// A file is scanned exactly where it is in a source language, a pattern takes it
/// in where there are any, and no pattern leaves it out.
pub proof fn law_scanned_file(
    path: Seq<char>,
    root: Seq<char>,
    include_patterns: Seq<Seq<char>>,
    exclude_patterns: Seq<Seq<char>>,
)
    ensures
        scanned(path, root, include_patterns, exclude_patterns) <==> {
            &&& extension(path) is Some && language(extension(path)->0) is Some
            &&& include_patterns.len() == 0 || exists|i: int|
                0 <= i < include_patterns.len() && glob_match(
                    #[trigger] include_patterns[i],
                    relative_or_self(path, root),
                ) == Some(true)
            &&& forall|i: int|
                0 <= i < exclude_patterns.len() ==> glob_match(
                    #[trigger] exclude_patterns[i],
                    relative_or_self(path, root),
                ) != Some(true)
        },
{
}

/// A pattern that begins with `../` is walked for on its own; all others are looked
/// for in the workspace, which is walked for where there is one, or no pattern.
pub proof fn law_walks(root: Seq<char>, patterns: Seq<Seq<char>>)
    ensures
        local_patterns(patterns) == patterns.filter(|p: Seq<char>| !has_prefix(p, "../"@)),
        cross_steps(root, patterns) == patterns.filter(
            |p: Seq<char>| has_prefix(p, "../"@),
        ).map_values(|p: Seq<char>| cross_step(root, p)),
        ({
            let local = patterns.filter(|p: Seq<char>| !has_prefix(p, "../"@));
            let steps = walk_steps(root, patterns);
            let home = local.len() > 0 || patterns.len() == 0;
            &&& home ==> steps.len() == 1 + cross_steps(root, patterns).len() && steps[0].root
                == root && steps[0].include_patterns == local && steps[0].cross is None
            &&& !home ==> steps == cross_steps(root, patterns)
        }),
    decreases patterns.len(),
{
    reveal(Seq::filter);
    let stays = |p: Seq<char>| !has_prefix(p, "../"@);
    let leaves = |p: Seq<char>| has_prefix(p, "../"@);
    let step = |p: Seq<char>| cross_step(root, p);
    if patterns.len() > 0 {
        law_walks(root, patterns.drop_last());
    }
    assert(local_patterns(patterns) =~= patterns.filter(stays));
    assert(cross_steps(root, patterns) =~= patterns.filter(leaves).map_values(step));
}

/// A walk finds what all its scanned files say that could be read.
pub proof fn law_walk_finds_all(
    files: Seq<(Seq<char>, Option<Seq<char>>)>,
    step: StepModel,
    exclude_patterns: Seq<Seq<char>>,
)
    ensures
        walked_reqs(files, step, exclude_patterns).references == files.filter(
            |f: (Seq<char>, Option<Seq<char>>)|
                f.1 is Some && scanned(f.0, step.root, step.include_patterns, exclude_patterns),
        ).map_values(
            |f: (Seq<char>, Option<Seq<char>>)| file_reqs(f.0, f.1->0).references,
        ).flatten(),
    decreases files.len(),
{
    reveal(Seq::filter);
    let keep = |f: (Seq<char>, Option<Seq<char>>)|
        f.1 is Some && scanned(f.0, step.root, step.include_patterns, exclude_patterns);
    let says = |f: (Seq<char>, Option<Seq<char>>)| file_reqs(f.0, f.1->0).references;
    let parts = files.filter(keep).map_values(says);
    if files.len() > 0 {
        let d = files.drop_last();
        law_walk_finds_all(d, step, exclude_patterns);
        let before = d.filter(keep).map_values(says);
        if keep(files.last()) {
            assert(parts.drop_last() =~= before);
            assert(parts.last() == says(files.last()));
            lemma_flat(parts);
        } else {
            assert(parts =~= before);
        }
    } else {
        assert(parts =~= Seq::<Seq<RefModel>>::empty());
        assert(parts.flatten() =~= Seq::<RefModel>::empty());
    }
}

/// All walks count, one after the other; a directory out of the workspace that does
/// not exist gives a warning in place of references.
pub proof fn law_all_walks_count(
    steps: Seq<StepModel>,
    listings: Seq<WalkListing>,
    step: StepModel,
    listing: WalkListing,
    exclude_patterns: Seq<Seq<char>>,
)
    requires
        steps.len() == listings.len(),
    ensures
        ({
            let before = all_walked(steps, listings, exclude_patterns);
            let after = all_walked(steps.push(step), listings.push(listing), exclude_patterns);
            let missing = step.cross is Some && !listing.exists;
            &&& missing ==> after.0.references == before.0.references && after.1
                == before.1.push(
                "Warning: Cross-workspace path not found: "@ + (step.cross->0).0 + "\n  Pattern: "@
                    + (step.cross->0).1,
            )
            &&& !missing ==> after.1 == before.1 && after.0.references == before.0.references
                + walked_reqs(listing_files(listing.files@), step, exclude_patterns).references
        }),
        steps.len() == 0 ==> all_walked(steps, listings, exclude_patterns).0.references.len() == 0,
        steps.len() == 0 ==> all_walked(steps, listings, exclude_patterns).1.len() == 0,
{
    assert(steps.push(step).drop_last() =~= steps);
    assert(listings.push(listing).drop_last() =~= listings);
}

/// The paths of a listing that are scanned are selected, in order.
pub proof fn law_selected_paths(
    listed: Seq<Seq<char>>,
    include_patterns: Seq<Seq<char>>,
    exclude_patterns: Seq<Seq<char>>,
)
    ensures
        selected_paths(listed, include_patterns, exclude_patterns) == listed.filter(
            |p: Seq<char>| scanned(p, ""@, include_patterns, exclude_patterns),
        ),
    decreases listed.len(),
{
    reveal(Seq::filter);
    let keep = |p: Seq<char>| scanned(p, ""@, include_patterns, exclude_patterns);
    if listed.len() > 0 {
        law_selected_paths(listed.drop_last(), include_patterns, exclude_patterns);
    }
    assert(selected_paths(listed, include_patterns, exclude_patterns) =~= listed.filter(keep));
}

/// Every file at a ref either says what it says or gives a warning that names it.
pub proof fn law_files_at_ref(
    paths: Seq<Seq<char>>,
    blobs: Seq<BlobRead>,
    path: Seq<char>,
    blob: BlobRead,
    at: Seq<char>,
)
    requires
        paths.len() == blobs.len(),
    ensures
        ({
            let before = found_at_ref(paths, blobs, at);
            let after = found_at_ref(paths.push(path), blobs.push(blob), at);
            &&& blob is Content ==> after.1 == before.1 && after.0.references
                == before.0.references + file_reqs(path, blob->Content_0@).references
            &&& blob is Failed ==> after.0 == before.0 && after.1 == before.1.push(
                "Warning: failed to read "@ + path + " at "@ + at + ": "@ + trim(blob->Failed_0@),
            )
            &&& blob is NotUtf8 ==> after.0 == before.0 && after.1 == before.1.push(
                "Warning: "@ + path + " at "@ + at + " is not valid UTF-8"@,
            )
        }),
        paths.len() == 0 ==> found_at_ref(paths, blobs, at).0.references.len() == 0,
        paths.len() == 0 ==> found_at_ref(paths, blobs, at).1.len() == 0,
{
    assert(paths.push(path).drop_last() =~= paths);
    assert(blobs.push(blob).drop_last() =~= blobs);
}

} // verus!
