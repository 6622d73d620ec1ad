//! Source providers for requirement extraction.
//!
//! What a provider decides (which files count, what is said of missing ones,
//! what is extracted) is decided here; reading files and running `git` is left
//! to the caller, who hands over what was read.

use vstd::prelude::*;

use crate::globs::{
    adjust_pattern_for_root, adjusted_pattern, base_split, excluded, extract_cross_workspace_base,
    included, is_excluded, is_included,
};
use crate::languages::{is_supported_extension, language};
use crate::lexer::{extract_from_content, file_reqs};
use crate::paths::{extension, extension_of, join_paths, path_join};
use crate::refs::{joined_reqs, no_reqs, Reqs, ReqsModel};
use crate::split::{lines, lines_of};
use crate::text::{chars_of, concat3, copy_str, has_prefix, starts_with_str, texts, trim, trimmed};

verus! {

/// Result of extracting requirements, including any warnings about missing files.
#[derive(Debug)]
pub struct ExtractionResult {
    pub reqs: Reqs,
    pub warnings: Vec<String>,
}

/// A source could not be read.
#[derive(Debug, Clone, PartialEq, Eq)]
pub struct ReadError {
    pub message: String,
}

/// Trait for providing source files to extract requirements from.
pub trait Sources: Sized {
    /// What extraction is to find.
    spec fn found(&self) -> Result<(ReqsModel, Seq<Seq<char>>), Seq<char>>;

    /// Extract requirements from all sources.
    fn extract(self) -> (r: Result<ExtractionResult, ReadError>)
        ensures
            extraction_matches(r, self.found()),
    ;
}

/// An extraction found what the model says.
pub open spec fn extraction_matches(
    r: Result<ExtractionResult, ReadError>,
    found: Result<(ReqsModel, Seq<Seq<char>>), Seq<char>>,
) -> bool {
    match (r, found) {
        (Ok(x), Ok(m)) => x.reqs@ == m.0 && texts(x.warnings@) == m.1,
        (Err(e), Err(m)) => e.message@ == m,
        _ => false,
    }
}

/// The paths and contents of files.
pub open spec fn file_pairs(v: Seq<(String, String)>) -> Seq<(Seq<char>, Seq<char>)> {
    v.map_values(|f: (String, String)| (f.0@, f.1@))
}

/// What the comments of files say, one file after the other.
pub open spec fn files_reqs(files: Seq<(Seq<char>, Seq<char>)>) -> ReqsModel
    decreases files.len(),
{
    if files.len() == 0 {
        no_reqs()
    } else {
        joined_reqs(files_reqs(files.drop_last()), file_reqs(files.last().0, files.last().1))
    }
}

/// Extract the references of files, one file after the other.
pub fn extract_files(files: &Vec<(String, String)>) -> (r: Reqs)
    ensures
        r@ == files_reqs(file_pairs(files@)),
{
    let ghost all = file_pairs(files@);
    let mut out = Reqs::new();
    let mut i: usize = 0;
    while i < files.len()
        invariant
            i <= files@.len(),
            all == file_pairs(files@),
            out@ == files_reqs(all.take(i as int)),
        decreases files@.len() - i,
    {
        let one = extract_from_content(files[i].0.as_str(), files[i].1.as_str());
        proof {
            assert(all.take(i + 1).drop_last() =~= all.take(i as int));
            assert(all.take(i + 1).last() == (files@[i as int].0@, files@[i as int].1@));
        }
        out.extend(one);
        i = i + 1;
    }
    assert(all.take(i as int) =~= all);
    out
}

/// In-memory sources.
pub struct MemorySources {
    files: Vec<(String, String)>,
}

impl MemorySources {
    /// The files, in the order in which they were added.
    pub closed spec fn files_view(&self) -> Seq<(Seq<char>, Seq<char>)> {
        file_pairs(self.files@)
    }

    /// Create empty memory sources.
    pub fn new() -> (r: MemorySources)
        ensures
            r.files_view() == Seq::<(Seq<char>, Seq<char>)>::empty(),
    {
        let r = MemorySources { files: Vec::new() };
        assert(r.files_view() =~= Seq::<(Seq<char>, Seq<char>)>::empty());
        r
    }

    /// Add a file with content.
    pub fn add(self, path: &str, content: &str) -> (r: MemorySources)
        ensures
            r.files_view() == self.files_view().push((path@, content@)),
    {
        let mut files = self.files;
        files.push((copy_str(path), copy_str(content)));
        let r = MemorySources { files };
        assert(r.files_view() =~= self.files_view().push((path@, content@)));
        r
    }
}

impl Default for MemorySources {
    fn default() -> (r: MemorySources)
        ensures
            r.files_view() == Seq::<(Seq<char>, Seq<char>)>::empty(),
    {
        MemorySources::new()
    }
}

impl Sources for MemorySources {
    open spec fn found(&self) -> Result<(ReqsModel, Seq<Seq<char>>), Seq<char>> {
        Ok((files_reqs(self.files_view()), Seq::empty()))
    }

    fn extract(self) -> (r: Result<ExtractionResult, ReadError>) {
        let reqs = extract_files(&self.files);
        let warnings: Vec<String> = Vec::new();
        assert(texts(warnings@) =~= Seq::<Seq<char>>::empty());
        Ok(ExtractionResult { reqs, warnings })
    }
}

impl Reqs {
    /// Extract requirements from a source provider.
    pub fn extract<S: Sources>(sources: S) -> (r: Result<ExtractionResult, ReadError>)
        ensures
            extraction_matches(r, sources.found()),
    {
        sources.extract()
    }
}

/// Sources from an explicit list of file paths.
pub struct PathSources {
    paths: Vec<String>,
}

impl PathSources {
    pub closed spec fn paths_view(&self) -> Seq<Seq<char>> {
        texts(self.paths@)
    }

    /// Create from a list of paths.
    pub fn new(paths: Vec<String>) -> (r: PathSources)
        ensures
            r.paths_view() == texts(paths@),
    {
        PathSources { paths }
    }

    /// The paths, in order.
    pub fn paths(&self) -> (r: &Vec<String>)
        ensures
            texts(r@) == self.paths_view(),
    {
        &self.paths
    }

    /// The paths together with what was read from each: its content, or the
    /// message of the error.
    pub fn with_contents(self, contents: Vec<Result<String, String>>) -> (r: ReadPaths)
        requires
            contents@.len() == self.paths_view().len(),
        ensures
            r.paths_view() == self.paths_view(),
            r.contents_view() == contents_read(contents@),
    {
        ReadPaths { paths: self.paths, contents }
    }
}

/// What was read from each file: its content, or the message of the error.
pub open spec fn contents_read(v: Seq<Result<String, String>>) -> Seq<Result<Seq<char>, Seq<char>>> {
    v.map_values(
        |c: Result<String, String>|
            match c {
                Ok(t) => Ok(t@),
                Err(e) => Err(e@),
            },
    )
}

/// Paths that have been read.
pub struct ReadPaths {
    paths: Vec<String>,
    contents: Vec<Result<String, String>>,
}

/// What is found in files that were read: the first one that could not be read
/// is an error.
pub open spec fn found_in_read(
    paths: Seq<Seq<char>>,
    contents: Seq<Result<Seq<char>, Seq<char>>>,
) -> Result<ReqsModel, Seq<char>>
    decreases paths.len(),
{
    if paths.len() == 0 || contents.len() != paths.len() {
        Ok(no_reqs())
    } else {
        match found_in_read(paths.drop_last(), contents.drop_last()) {
            Err(e) => Err(e),
            Ok(before) => match contents.last() {
                Ok(c) => Ok(joined_reqs(before, file_reqs(paths.last(), c))),
                Err(e) => Err(e),
            },
        }
    }
}

impl ReadPaths {
    #[verifier::type_invariant]
    spec fn one_content_per_path(&self) -> bool {
        self.paths@.len() == self.contents@.len()
    }

    pub closed spec fn paths_view(&self) -> Seq<Seq<char>> {
        texts(self.paths@)
    }

    pub closed spec fn contents_view(&self) -> Seq<Result<Seq<char>, Seq<char>>> {
        contents_read(self.contents@)
    }
}

proof fn lemma_read_err(
    paths: Seq<Seq<char>>,
    contents: Seq<Result<Seq<char>, Seq<char>>>,
    i: int,
)
    requires
        contents.len() == paths.len(),
        0 <= i <= paths.len(),
        found_in_read(paths.take(i), contents.take(i)) is Err,
    ensures
        found_in_read(paths, contents) == found_in_read(paths.take(i), contents.take(i)),
    decreases paths.len() - i,
{
    if i < paths.len() {
        assert(paths.take(i + 1).drop_last() =~= paths.take(i));
        assert(contents.take(i + 1).drop_last() =~= contents.take(i));
        lemma_read_err(paths, contents, i + 1);
    } else {
        assert(paths.take(i) =~= paths);
        assert(contents.take(i) =~= contents);
    }
}

impl Sources for ReadPaths {
    open spec fn found(&self) -> Result<(ReqsModel, Seq<Seq<char>>), Seq<char>> {
        match found_in_read(self.paths_view(), self.contents_view()) {
            Ok(m) => Ok((m, Seq::empty())),
            Err(e) => Err(e),
        }
    }

    fn extract(self) -> (r: Result<ExtractionResult, ReadError>) {
        proof {
            use_type_invariant(&self);
        }
        let ghost ps = self.paths_view();
        let ghost cs = self.contents_view();
        let mut reqs = Reqs::new();
        let mut i: usize = 0;
        while i < self.paths.len()
            invariant
                i <= self.paths@.len(),
                ps == texts(self.paths@),
                cs == contents_read(self.contents@),
                ps.len() == cs.len(),
                found_in_read(ps.take(i as int), cs.take(i as int)) == Ok::<ReqsModel, Seq<char>>(
                    reqs@,
                ),
            decreases self.paths@.len() - i,
        {
            proof {
                assert(ps.take(i + 1).drop_last() =~= ps.take(i as int));
                assert(cs.take(i + 1).drop_last() =~= cs.take(i as int));
                assert(ps.take(i + 1).last() == self.paths@[i as int]@);
                assert(cs.take(i + 1).last() == cs[i as int]);
            }
            match &self.contents[i] {
                Ok(content) => {
                    let one = extract_from_content(self.paths[i].as_str(), content.as_str());
                    reqs.extend(one);
                },
                Err(e) => {
                    proof {
                        lemma_read_err(ps, cs, i + 1);
                    }
                    return Err(ReadError { message: copy_str(e.as_str()) });
                },
            }
            i = i + 1;
        }
        proof {
            assert(ps.take(i as int) =~= ps);
            assert(cs.take(i as int) =~= cs);
        }
        let warnings: Vec<String> = Vec::new();
        assert(texts(warnings@) =~= Seq::<Seq<char>>::empty());
        Ok(ExtractionResult { reqs, warnings })
    }
}

/// A file is scanned: its extension is supported, and the patterns admit it.
pub open spec fn scanned(
    path: Seq<char>,
    root: Seq<char>,
    include_patterns: Seq<Seq<char>>,
    exclude_patterns: Seq<Seq<char>>,
) -> bool {
    &&& extension(path) is Some
    &&& language(extension(path)->0) is Some
    &&& included(path, root, include_patterns)
    &&& !excluded(path, root, exclude_patterns)
}

/// Whether a file is scanned.
pub fn is_scanned(
    path: &str,
    root: &str,
    include_patterns: &Vec<String>,
    exclude_patterns: &Vec<String>,
) -> (r: bool)
    ensures
        r == scanned(path@, root@, texts(include_patterns@), texts(exclude_patterns@)),
{
    let supported = match extension_of(path) {
        Some(ext) => is_supported_extension(ext.as_str()),
        None => false,
    };
    supported && is_included(path, root, include_patterns) && !is_excluded(
        path,
        root,
        exclude_patterns,
    )
}

/// A pattern leaves the workspace.
pub open spec fn is_cross_workspace(pattern: Seq<char>) -> bool {
    has_prefix(pattern, "../"@)
}

/// One directory walk.
#[derive(Debug, Clone, PartialEq, Eq)]
pub struct WalkStep {
    /// The directory to walk.
    pub root: String,
    /// The include patterns, relative to that directory.
    pub include_patterns: Vec<String>,
    /// For a pattern that leaves the workspace: its base as written, and the
    /// pattern as written.
    pub cross: Option<(String, String)>,
}

/// What a walk step says.
#[verifier::ext_equal]
pub struct StepModel {
    pub root: Seq<char>,
    pub include_patterns: Seq<Seq<char>>,
    pub cross: Option<(Seq<char>, Seq<char>)>,
}

impl View for WalkStep {
    type V = StepModel;

    open spec fn view(&self) -> StepModel {
        StepModel {
            root: self.root@,
            include_patterns: texts(self.include_patterns@),
            cross: match self.cross {
                Some((a, b)) => Some((a@, b@)),
                None => None,
            },
        }
    }
}

pub open spec fn step_models(v: Seq<WalkStep>) -> Seq<StepModel> {
    v.map_values(|s: WalkStep| s@)
}

/// The patterns that stay in the workspace.
pub open spec fn local_patterns(patterns: Seq<Seq<char>>) -> Seq<Seq<char>>
    decreases patterns.len(),
{
    if patterns.len() == 0 {
        Seq::empty()
    } else if is_cross_workspace(patterns.last()) {
        local_patterns(patterns.drop_last())
    } else {
        local_patterns(patterns.drop_last()).push(patterns.last())
    }
}

/// The walk for a pattern that leaves the workspace.
pub open spec fn cross_step(root: Seq<char>, pattern: Seq<char>) -> StepModel {
    let base = pattern.take(base_split(pattern).0);
    StepModel {
        root: path_join(root, base),
        include_patterns: seq![adjusted_pattern(pattern, base)],
        cross: Some((base, pattern)),
    }
}

/// The walks for the patterns that leave the workspace.
pub open spec fn cross_steps(root: Seq<char>, patterns: Seq<Seq<char>>) -> Seq<StepModel>
    decreases patterns.len(),
{
    if patterns.len() == 0 {
        Seq::empty()
    } else if is_cross_workspace(patterns.last()) {
        cross_steps(root, patterns.drop_last()).push(cross_step(root, patterns.last()))
    } else {
        cross_steps(root, patterns.drop_last())
    }
}

/// All walks: the workspace itself where a pattern stays in it or there is no
/// pattern at all, then one for each pattern that leaves it.
pub open spec fn walk_steps(root: Seq<char>, patterns: Seq<Seq<char>>) -> Seq<StepModel> {
    let local = local_patterns(patterns);
    if local.len() > 0 || patterns.len() == 0 {
        seq![StepModel { root, include_patterns: local, cross: None }] + cross_steps(root, patterns)
    } else {
        cross_steps(root, patterns)
    }
}

/// What a walk found: nothing where the directory does not exist, else the
/// paths of its files, each with its content where that could be read.
pub struct WalkListing {
    pub exists: bool,
    pub files: Vec<(String, Option<String>)>,
}

/// The paths and contents that a walk found.
pub open spec fn listing_files(v: Seq<(String, Option<String>)>) -> Seq<
    (Seq<char>, Option<Seq<char>>),
> {
    v.map_values(|f: (String, Option<String>)| (f.0@, crate::text::opt_text(f.1)))
}

/// What the scanned files of a walk say. Files that could not be read say
/// nothing.
pub open spec fn walked_reqs(
    files: Seq<(Seq<char>, Option<Seq<char>>)>,
    step: StepModel,
    exclude_patterns: Seq<Seq<char>>,
) -> ReqsModel
    decreases files.len(),
{
    if files.len() == 0 {
        no_reqs()
    } else {
        let before = walked_reqs(files.drop_last(), step, exclude_patterns);
        match files.last().1 {
            Some(c) => if scanned(
                files.last().0,
                step.root,
                step.include_patterns,
                exclude_patterns,
            ) {
                joined_reqs(before, file_reqs(files.last().0, c))
            } else {
                before
            },
            None => before,
        }
    }
}

/// What is said of a cross-workspace directory that does not exist.
pub open spec fn missing_path_warning(cross: (Seq<char>, Seq<char>)) -> Seq<char> {
    "Warning: Cross-workspace path not found: "@ + cross.0 + "\n  Pattern: "@ + cross.1
}

/// What all walks found.
pub open spec fn all_walked(
    steps: Seq<StepModel>,
    listings: Seq<WalkListing>,
    exclude_patterns: Seq<Seq<char>>,
) -> (ReqsModel, Seq<Seq<char>>)
    decreases steps.len(),
{
    if steps.len() == 0 || listings.len() != steps.len() {
        (no_reqs(), Seq::empty())
    } else {
        let (reqs, warnings) = all_walked(
            steps.drop_last(),
            listings.drop_last(),
            exclude_patterns,
        );
        let step = steps.last();
        let listing = listings.last();
        if step.cross is Some && !listing.exists {
            (reqs, warnings.push(missing_path_warning(step.cross->0)))
        } else {
            (
                joined_reqs(reqs, walked_reqs(listing_files(listing.files@), step, exclude_patterns)),
                warnings,
            )
        }
    }
}

/// Gitignore-aware directory walker.
pub struct WalkSources {
    root: String,
    include_patterns: Vec<String>,
    exclude_patterns: Vec<String>,
}

pub fn append_all(v: Vec<String>, more: Vec<String>) -> (r: Vec<String>)
    ensures
        texts(r@) == texts(v@) + texts(more@),
{
    let mut out = v;
    let mut m = more;
    out.append(&mut m);
    assert(texts(out@) =~= texts(v@) + texts(more@));
    out
}

impl WalkSources {
    pub closed spec fn root_view(&self) -> Seq<char> {
        self.root@
    }

    pub closed spec fn include_view(&self) -> Seq<Seq<char>> {
        texts(self.include_patterns@)
    }

    pub closed spec fn exclude_view(&self) -> Seq<Seq<char>> {
        texts(self.exclude_patterns@)
    }

    /// Create a walker for the given root directory.
    pub fn new(root: &str) -> (r: WalkSources)
        ensures
            r.root_view() == root@,
            r.include_view() == Seq::<Seq<char>>::empty(),
            r.exclude_view() == Seq::<Seq<char>>::empty(),
    {
        let r = WalkSources {
            root: copy_str(root),
            include_patterns: Vec::new(),
            exclude_patterns: Vec::new(),
        };
        assert(r.include_view() =~= Seq::<Seq<char>>::empty());
        assert(r.exclude_view() =~= Seq::<Seq<char>>::empty());
        r
    }

    /// Add patterns of files to scan (e.g. `["**/*.rs"]`).
    pub fn include_all(self, patterns: Vec<String>) -> (r: WalkSources)
        ensures
            r.root_view() == self.root_view(),
            r.include_view() == self.include_view() + texts(patterns@),
            r.exclude_view() == self.exclude_view(),
    {
        WalkSources {
            root: self.root,
            include_patterns: append_all(self.include_patterns, patterns),
            exclude_patterns: self.exclude_patterns,
        }
    }

    /// Add patterns of files to leave out (e.g. `["target/**"]`).
    pub fn exclude(self, patterns: Vec<String>) -> (r: WalkSources)
        ensures
            r.root_view() == self.root_view(),
            r.include_view() == self.include_view(),
            r.exclude_view() == self.exclude_view() + texts(patterns@),
    {
        WalkSources {
            root: self.root,
            include_patterns: self.include_patterns,
            exclude_patterns: append_all(self.exclude_patterns, patterns),
        }
    }

    /// The directory walks that the patterns call for.
    pub fn steps(&self) -> (r: Vec<WalkStep>)
        ensures
            step_models(r@) == walk_steps(self.root_view(), self.include_view()),
    {
        let ghost pats = self.include_view();
        let mut local: Vec<String> = Vec::new();
        let mut cross: Vec<WalkStep> = Vec::new();
        let mut i: usize = 0;
        assert(texts(local@) =~= Seq::<Seq<char>>::empty());
        assert(step_models(cross@) =~= Seq::<StepModel>::empty());
        assert(pats.take(0) =~= Seq::<Seq<char>>::empty());
        while i < self.include_patterns.len()
            invariant
                i <= self.include_patterns@.len(),
                pats == texts(self.include_patterns@),
                texts(local@) == local_patterns(pats.take(i as int)),
                step_models(cross@) == cross_steps(self.root@, pats.take(i as int)),
            decreases self.include_patterns@.len() - i,
        {
            let p = self.include_patterns[i].as_str();
            proof {
                assert(pats.take(i + 1).drop_last() =~= pats.take(i as int));
                assert(pats.take(i + 1).last() == p@);
            }
            let pc = chars_of(p);
            if starts_with_str(&pc, "../") {
                let base = extract_cross_workspace_base(p);
                let adjusted = adjust_pattern_for_root(p, base.as_str());
                let mut one: Vec<String> = Vec::new();
                one.push(adjusted);
                let step = WalkStep {
                    root: join_paths(self.root.as_str(), base.as_str()),
                    include_patterns: one,
                    cross: Some((base, copy_str(p))),
                };
                assert(texts(one@) =~= seq![one@[0]@]);
                assert(step@ =~= cross_step(self.root@, p@));
                let ghost before = cross@;
                cross.push(step);
                assert(step_models(cross@) =~= step_models(before).push(step@));
            } else {
                let ghost before = local@;
                local.push(copy_str(p));
                assert(texts(local@) =~= texts(before).push(p@));
            }
            i = i + 1;
        }
        assert(pats.take(i as int) =~= pats);
        if local.len() > 0 || self.include_patterns.len() == 0 {
            let first = WalkStep {
                root: copy_str(self.root.as_str()),
                include_patterns: local,
                cross: None,
            };
            let mut out: Vec<WalkStep> = Vec::new();
            let ghost rest = cross@;
            out.push(first);
            out.append(&mut cross);
            assert(texts(local@).len() == local@.len());
            assert(step_models(out@) =~= seq![first@] + step_models(rest));
            out
        } else {
            assert(texts(local@).len() == 0);
            cross
        }
    }

    /// Extract requirements from what the walks found. `listings` holds what
    /// the walk of each step found.
    pub fn extract_listed(&self, listings: &Vec<WalkListing>) -> (r: ExtractionResult)
        requires
            listings@.len() == walk_steps(self.root_view(), self.include_view()).len(),
        ensures
            (r.reqs@, texts(r.warnings@)) == all_walked(
                walk_steps(self.root_view(), self.include_view()),
                listings@,
                self.exclude_view(),
            ),
    {
        let steps = self.steps();
        let ghost ss = step_models(steps@);
        let ghost ex = self.exclude_view();
        let mut reqs = Reqs::new();
        let mut warnings: Vec<String> = Vec::new();
        let mut i: usize = 0;
        assert(texts(warnings@) =~= Seq::<Seq<char>>::empty());
        while i < steps.len()
            invariant
                i <= steps@.len(),
                ss == step_models(steps@),
                ex == texts(self.exclude_patterns@),
                steps@.len() == listings@.len(),
                (reqs@, texts(warnings@)) == all_walked(
                    ss.take(i as int),
                    listings@.take(i as int),
                    ex,
                ),
            decreases steps@.len() - i,
        {
            let step = &steps[i];
            let listing = &listings[i];
            proof {
                assert(ss.take(i + 1).drop_last() =~= ss.take(i as int));
                assert(listings@.take(i + 1).drop_last() =~= listings@.take(i as int));
                assert(ss.take(i + 1).last() == step@);
                assert(listings@.take(i + 1).last() == *listing);
            }
            let missing = match &step.cross {
                Some(_) => !listing.exists,
                None => false,
            };
            if missing {
                if let Some((base, pattern)) = &step.cross {
                    let mut w = copy_str("Warning: Cross-workspace path not found: ");
                    w.append(base.as_str());
                    w.append("\n  Pattern: ");
                    w.append(pattern.as_str());
                    let ghost before = warnings@;
                    warnings.push(w);
                    assert(texts(warnings@) =~= texts(before).push(w@));
                }
            } else {
                let one = self.reqs_of_listing(&listing.files, step);
                reqs.extend(one);
            }
            i = i + 1;
        }
        proof {
            assert(ss.take(i as int) =~= ss);
            assert(listings@.take(i as int) =~= listings@);
        }
        ExtractionResult { reqs, warnings }
    }

    fn reqs_of_listing(&self, files: &Vec<(String, Option<String>)>, step: &WalkStep) -> (r: Reqs)
        ensures
            r@ == walked_reqs(listing_files(files@), step@, self.exclude_view()),
    {
        let ghost all = listing_files(files@);
        let mut out = Reqs::new();
        let mut i: usize = 0;
        while i < files.len()
            invariant
                i <= files@.len(),
                all == listing_files(files@),
                out@ == walked_reqs(all.take(i as int), step@, texts(self.exclude_patterns@)),
            decreases files@.len() - i,
        {
            proof {
                assert(all.take(i + 1).drop_last() =~= all.take(i as int));
                assert(all.take(i + 1).last() == all[i as int]);
            }
            let path = files[i].0.as_str();
            match &files[i].1 {
                Some(content) => if is_scanned(
                    path,
                    step.root.as_str(),
                    &step.include_patterns,
                    &self.exclude_patterns,
                ) {
                    let one = extract_from_content(path, content.as_str());
                    out.extend(one);
                },
                None => {},
            }
            i = i + 1;
        }
        assert(all.take(i as int) =~= all);
        out
    }
}

/// Sources resolved from a pinned git ref instead of the working tree.
///
/// Given a ref (branch, tag, or SHA, resolved at read time, so a floating
/// branch name is re-resolved on every call rather than locked), files at that
/// ref are listed and each matched file's content is read from the object
/// store.
pub struct GitRefSources {
    repo_root: String,
    git_ref: String,
    include_patterns: Vec<String>,
    exclude_patterns: Vec<String>,
}

/// What reading a file at a ref gave.
#[derive(Debug, Clone, PartialEq, Eq)]
pub enum BlobRead {
    Content(String),
    /// `git` failed, with this message.
    Failed(String),
    NotUtf8,
}

/// The listed paths that are scanned, in order.
pub open spec fn selected_paths(
    listed: Seq<Seq<char>>,
    include_patterns: Seq<Seq<char>>,
    exclude_patterns: Seq<Seq<char>>,
) -> Seq<Seq<char>>
    decreases listed.len(),
{
    if listed.len() == 0 {
        Seq::empty()
    } else {
        let before = selected_paths(listed.drop_last(), include_patterns, exclude_patterns);
        if scanned(listed.last(), ""@, include_patterns, exclude_patterns) {
            before.push(listed.last())
        } else {
            before
        }
    }
}

/// What the files at a ref say; one that cannot be read gives a warning.
pub open spec fn found_at_ref(paths: Seq<Seq<char>>, blobs: Seq<BlobRead>, at: Seq<char>) -> (
    ReqsModel,
    Seq<Seq<char>>,
)
    decreases paths.len(),
{
    if paths.len() == 0 || blobs.len() != paths.len() {
        (no_reqs(), Seq::empty())
    } else {
        let (reqs, warnings) = found_at_ref(paths.drop_last(), blobs.drop_last(), at);
        let path = paths.last();
        match blobs.last() {
            BlobRead::Content(c) => (joined_reqs(reqs, file_reqs(path, c@)), warnings),
            BlobRead::Failed(e) => (
                reqs,
                warnings.push(
                    "Warning: failed to read "@ + path + " at "@ + at + ": "@ + trim(e@),
                ),
            ),
            BlobRead::NotUtf8 => (
                reqs,
                warnings.push("Warning: "@ + path + " at "@ + at + " is not valid UTF-8"@),
            ),
        }
    }
}

impl GitRefSources {
    pub closed spec fn repo_view(&self) -> Seq<char> {
        self.repo_root@
    }

    pub closed spec fn ref_view(&self) -> Seq<char> {
        self.git_ref@
    }

    pub closed spec fn include_view(&self) -> Seq<Seq<char>> {
        texts(self.include_patterns@)
    }

    pub closed spec fn exclude_view(&self) -> Seq<Seq<char>> {
        texts(self.exclude_patterns@)
    }

    /// Create sources rooted at `repo_root`'s git repository, reading files
    /// as they exist at `git_ref`.
    pub fn new(repo_root: &str, git_ref: &str) -> (r: GitRefSources)
        ensures
            r.repo_view() == repo_root@,
            r.ref_view() == git_ref@,
            r.include_view() == Seq::<Seq<char>>::empty(),
            r.exclude_view() == Seq::<Seq<char>>::empty(),
    {
        let r = GitRefSources {
            repo_root: copy_str(repo_root),
            git_ref: copy_str(git_ref),
            include_patterns: Vec::new(),
            exclude_patterns: Vec::new(),
        };
        assert(r.include_view() =~= Seq::<Seq<char>>::empty());
        assert(r.exclude_view() =~= Seq::<Seq<char>>::empty());
        r
    }

    /// Add patterns of files to scan (e.g. `["**/*.rs"]`).
    pub fn include_all(self, patterns: Vec<String>) -> (r: GitRefSources)
        ensures
            r.repo_view() == self.repo_view(),
            r.ref_view() == self.ref_view(),
            r.include_view() == self.include_view() + texts(patterns@),
            r.exclude_view() == self.exclude_view(),
    {
        GitRefSources {
            repo_root: self.repo_root,
            git_ref: self.git_ref,
            include_patterns: append_all(self.include_patterns, patterns),
            exclude_patterns: self.exclude_patterns,
        }
    }

    /// Add patterns of files to leave out (e.g. `["target/**"]`).
    pub fn exclude(self, patterns: Vec<String>) -> (r: GitRefSources)
        ensures
            r.repo_view() == self.repo_view(),
            r.ref_view() == self.ref_view(),
            r.include_view() == self.include_view(),
            r.exclude_view() == self.exclude_view() + texts(patterns@),
    {
        GitRefSources {
            repo_root: self.repo_root,
            git_ref: self.git_ref,
            include_patterns: self.include_patterns,
            exclude_patterns: append_all(self.exclude_patterns, patterns),
        }
    }

    /// The repository to run `git` in.
    pub fn repo_root(&self) -> (r: &str)
        ensures
            r@ == self.repo_view(),
    {
        self.repo_root.as_str()
    }

    /// The ref to resolve.
    pub fn git_ref(&self) -> (r: &str)
        ensures
            r@ == self.ref_view(),
    {
        self.git_ref.as_str()
    }

    /// The paths to read, given the listing of all files at the ref, one per
    /// line.
    pub fn select(&self, listing: &str) -> (r: Vec<String>)
        ensures
            texts(r@) == selected_paths(lines(listing@), self.include_view(), self.exclude_view()),
    {
        let all = lines_of(listing);
        let ghost ls = lines(listing@);
        let mut out: Vec<String> = Vec::new();
        let mut i: usize = 0;
        assert(texts(out@) =~= Seq::<Seq<char>>::empty());
        while i < all.len()
            invariant
                i <= all@.len(),
                ls == texts(all@),
                texts(out@) == selected_paths(
                    ls.take(i as int),
                    texts(self.include_patterns@),
                    texts(self.exclude_patterns@),
                ),
            decreases all@.len() - i,
        {
            proof {
                assert(ls.take(i + 1).drop_last() =~= ls.take(i as int));
                assert(ls.take(i + 1).last() == all@[i as int]@);
            }
            if is_scanned(all[i].as_str(), "", &self.include_patterns, &self.exclude_patterns) {
                let ghost before = out@;
                out.push(copy_str(all[i].as_str()));
                assert(texts(out@) =~= texts(before).push(all@[i as int]@));
            }
            i = i + 1;
        }
        assert(ls.take(i as int) =~= ls);
        out
    }

    /// Extract requirements from the files at the resolved ref. `blobs` holds
    /// what reading each of the selected paths gave.
    pub fn extract_read(
        &self,
        resolved_ref: &str,
        paths: &Vec<String>,
        blobs: &Vec<BlobRead>,
    ) -> (r: ExtractionResult)
        requires
            paths@.len() == blobs@.len(),
        ensures
            (r.reqs@, texts(r.warnings@)) == found_at_ref(texts(paths@), blobs@, resolved_ref@),
    {
        let ghost ps = texts(paths@);
        let mut reqs = Reqs::new();
        let mut warnings: Vec<String> = Vec::new();
        let mut i: usize = 0;
        assert(texts(warnings@) =~= Seq::<Seq<char>>::empty());
        while i < paths.len()
            invariant
                i <= paths@.len(),
                paths@.len() == blobs@.len(),
                ps == texts(paths@),
                (reqs@, texts(warnings@)) == found_at_ref(
                    ps.take(i as int),
                    blobs@.take(i as int),
                    resolved_ref@,
                ),
            decreases paths@.len() - i,
        {
            let path = paths[i].as_str();
            proof {
                assert(ps.take(i + 1).drop_last() =~= ps.take(i as int));
                assert(blobs@.take(i + 1).drop_last() =~= blobs@.take(i as int));
                assert(ps.take(i + 1).last() == path@);
                assert(blobs@.take(i + 1).last() == blobs@[i as int]);
            }
            let ghost before = warnings@;
            match &blobs[i] {
                BlobRead::Content(c) => {
                    let one = extract_from_content(path, c.as_str());
                    reqs.extend(one);
                },
                BlobRead::Failed(e) => {
                    let mut w = concat3("Warning: failed to read ", path, " at ");
                    w.append(resolved_ref);
                    w.append(": ");
                    let t = trimmed(e.as_str());
                    w.append(t.as_str());
                    warnings.push(w);
                    assert(texts(warnings@) =~= texts(before).push(w@));
                },
                BlobRead::NotUtf8 => {
                    let mut w = concat3("Warning: ", path, " at ");
                    w.append(resolved_ref);
                    w.append(" is not valid UTF-8");
                    warnings.push(w);
                    assert(texts(warnings@) =~= texts(before).push(w@));
                },
            }
            i = i + 1;
        }
        proof {
            assert(ps.take(i as int) =~= ps);
            assert(blobs@.take(i as int) =~= blobs@);
        }
        ExtractionResult { reqs, warnings }
    }
}

/// What files say does not depend on how the list of them is cut in two.
pub proof fn law_files_reqs_concat(
    a: Seq<(Seq<char>, Seq<char>)>,
    b: Seq<(Seq<char>, Seq<char>)>,
)
    ensures
        files_reqs(a + b) == joined_reqs(files_reqs(a), files_reqs(b)),
    decreases b.len(),
{
    if b.len() == 0 {
        assert(a + b =~= a);
        assert(joined_reqs(files_reqs(a), no_reqs()) =~= files_reqs(a));
    } else {
        assert((a + b).drop_last() =~= a + b.drop_last());
        law_files_reqs_concat(a, b.drop_last());
        let x = file_reqs(b.last().0, b.last().1);
        assert(joined_reqs(joined_reqs(files_reqs(a), files_reqs(b.drop_last())), x) =~= joined_reqs(
            files_reqs(a),
            joined_reqs(files_reqs(b.drop_last()), x),
        ));
    }
}

} // verus!
