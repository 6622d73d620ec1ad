//! Which files of a project are scanned.

use vstd::prelude::*;

use crate::bindings::{glob_error, glob_error_message, glob_match, glob_matches};
use crate::format::{is_spec_file, is_spec_path};
use crate::globs::{any_glob, glob_split, matches_any, split_glob_prefix};
use crate::languages::{is_supported_extension, language};
use crate::paths::{
    components, components_of, extension, extension_of, file_name, file_name_of, join_components,
    join_paths, joined, path_join, relative_path, relative_to,
};
use crate::text::{concat3, copy_str, opt_text, str_eq, texts};

verus! {

/// A directory to walk and the glob that files in it must match.
#[derive(Debug, Clone, PartialEq, Eq)]
pub struct ScanRootPattern {
    pub root: String,
    pub pattern: String,
}

impl View for ScanRootPattern {
    type V = (Seq<char>, Seq<char>);

    open spec fn view(&self) -> (Seq<char>, Seq<char>) {
        (self.root@, self.pattern@)
    }
}

pub open spec fn root_views(v: Seq<ScanRootPattern>) -> Seq<(Seq<char>, Seq<char>)> {
    v.map_values(|r: ScanRootPattern| r@)
}

/// What stands at a path.
#[derive(Debug, Clone, Copy, PartialEq, Eq, Structural)]
pub enum PathKind {
    Missing,
    File,
    Directory,
}

/// The directory that a path lies in.
pub open spec fn parent(p: Seq<char>) -> Option<Seq<char>> {
    let c = components(p);
    if c.len() == 0 || c.last() == "/"@ {
        None
    } else {
        Some(joined(c.drop_last()))
    }
}

/// The directory that a path lies in.
pub fn parent_of(p: &str) -> (r: Option<String>)
    ensures
        opt_text(r) == parent(p@),
{
    let c = components_of(p);
    assert(texts(c@).len() == c@.len());
    if c.len() == 0 {
        return None;
    }
    assert(texts(c@).last() == c@[c@.len() - 1]@);
    if str_eq(c[c.len() - 1].as_str(), "/") {
        return None;
    }
    let mut front: Vec<String> = Vec::new();
    let mut i: usize = 0;
    while i < c.len() - 1
        invariant
            i <= c@.len() - 1,
            front@.len() == i,
            forall|k: int| 0 <= k < i ==> (#[trigger] front@[k])@ == c@[k]@,
        decreases c@.len() - i,
    {
        front.push(copy_str(c[i].as_str()));
        i = i + 1;
    }
    assert(texts(front@).skip(0) =~= texts(c@).drop_last());
    Some(join_components(&front, 0))
}

/// The path that a pattern's directory prefix stands for.
pub open spec fn pattern_root(project_root: Seq<char>, pattern: Seq<char>) -> Seq<char> {
    let base = pattern.take(glob_split(pattern).0);
    if base.len() == 0 {
        project_root
    } else {
        path_join(project_root, base)
    }
}

/// The path that a pattern's directory prefix stands for.
pub fn resolve_pattern_root(project_root: &str, pattern: &str) -> (r: String)
    ensures
        r@ == pattern_root(project_root@, pattern@),
{
    let (base, _) = split_glob_prefix(pattern);
    if base.as_str().is_empty() {
        copy_str(project_root)
    } else {
        join_paths(project_root, base.as_str())
    }
}

/// What a pattern becomes: a root with a glob, or a warning. An exact file is
/// looked for by its name in its directory; an exact directory takes in
/// everything under it.
pub open spec fn pattern_scan(
    project_root: Seq<char>,
    pattern: Seq<char>,
    kind: PathKind,
) -> Result<(Seq<char>, Seq<char>), Seq<char>> {
    let (b, d) = glob_split(pattern);
    let base = pattern.take(b);
    let suffix = pattern.skip(d);
    let root = pattern_root(project_root, pattern);
    if base.len() > 0 && kind == PathKind::Missing {
        Err("Warning: Path not found: "@ + root + "\n  Pattern: "@ + pattern)
    } else if suffix.len() == 0 && kind == PathKind::File {
        match (file_name(root), parent(root)) {
            (None, _) => Err(
                "Warning: Could not determine file name for include path '"@ + pattern + "'"@,
            ),
            (Some(_), None) => Err(
                "Warning: Could not determine parent directory for include path '"@ + pattern
                    + "'"@,
            ),
            (Some(name), Some(dir)) => checked_glob(dir, name, pattern),
        }
    } else if suffix.len() == 0 {
        checked_glob(root, "**/*"@, pattern)
    } else {
        checked_glob(root, suffix, pattern)
    }
}

/// A root with its glob, or a warning where the glob is not valid.
pub open spec fn checked_glob(root: Seq<char>, glob: Seq<char>, pattern: Seq<char>) -> Result<
    (Seq<char>, Seq<char>),
    Seq<char>,
> {
    match glob_error(glob) {
        Some(e) => Err("Warning: Invalid glob pattern '"@ + pattern + "': "@ + e),
        None => Ok((root, glob)),
    }
}

/// The roots that the first `n` patterns become.
pub open spec fn scan_roots(
    project_root: Seq<char>,
    patterns: Seq<Seq<char>>,
    kinds: Seq<PathKind>,
    n: int,
) -> Seq<(Seq<char>, Seq<char>)>
    decreases n,
{
    if n <= 0 {
        Seq::empty()
    } else {
        let before = scan_roots(project_root, patterns, kinds, n - 1);
        match pattern_scan(project_root, patterns[n - 1], kinds[n - 1]) {
            Ok(r) => before.push(r),
            Err(_) => before,
        }
    }
}

/// The warnings that the first `n` patterns give.
pub open spec fn scan_warnings(
    project_root: Seq<char>,
    patterns: Seq<Seq<char>>,
    kinds: Seq<PathKind>,
    n: int,
) -> Seq<Seq<char>>
    decreases n,
{
    if n <= 0 {
        Seq::empty()
    } else {
        let before = scan_warnings(project_root, patterns, kinds, n - 1);
        match pattern_scan(project_root, patterns[n - 1], kinds[n - 1]) {
            Ok(_) => before,
            Err(w) => before.push(w),
        }
    }
}

fn check_glob(root: String, glob: String, pattern: &str) -> (r: Result<ScanRootPattern, String>)
    ensures
        match (r, checked_glob(root@, glob@, pattern@)) {
            (Ok(a), Ok(b)) => a@ == b,
            (Err(a), Err(b)) => a@ == b,
            _ => false,
        },
{
    match glob_error_message(glob.as_str()) {
        Some(e) => {
            let mut w = concat3("Warning: Invalid glob pattern '", pattern, "': ");
            w.append(e.as_str());
            Err(w)
        },
        None => Ok(ScanRootPattern { root, pattern: glob }),
    }
}

fn scan_pattern(project_root: &str, pattern: &str, kind: PathKind) -> (r: Result<
    ScanRootPattern,
    String,
>)
    ensures
        match (r, pattern_scan(project_root@, pattern@, kind)) {
            (Ok(a), Ok(b)) => a@ == b,
            (Err(a), Err(b)) => a@ == b,
            _ => false,
        },
{
    let (base, suffix) = split_glob_prefix(pattern);
    let root = resolve_pattern_root(project_root, pattern);
    if !base.as_str().is_empty() && kind == PathKind::Missing {
        let mut w = concat3("Warning: Path not found: ", root.as_str(), "\n  Pattern: ");
        w.append(pattern);
        return Err(w);
    }
    if suffix.as_str().is_empty() && kind == PathKind::File {
        let name = match file_name_of(root.as_str()) {
            Some(n) => n,
            None => {
                return Err(
                    concat3(
                        "Warning: Could not determine file name for include path '",
                        pattern,
                        "'",
                    ),
                );
            },
        };
        let dir = match parent_of(root.as_str()) {
            Some(d) => d,
            None => {
                return Err(
                    concat3(
                        "Warning: Could not determine parent directory for include path '",
                        pattern,
                        "'",
                    ),
                );
            },
        };
        check_glob(dir, name, pattern)
    } else if suffix.as_str().is_empty() {
        check_glob(root, copy_str("**/*"), pattern)
    } else {
        check_glob(root, suffix, pattern)
    }
}

/// The roots to walk for a list of patterns, and warnings about those that
/// lead nowhere. `kinds` says what stands at each pattern's directory prefix.
pub fn build_scan_roots(
    project_root: &str,
    patterns: &Vec<String>,
    kinds: &Vec<PathKind>,
) -> (r: (Vec<ScanRootPattern>, Vec<String>))
    requires
        kinds@.len() == patterns@.len(),
    ensures
        patterns@.len() == 0 ==> root_views(r.0@) == seq![(project_root@, "**/*"@)] && r.1@.len()
            == 0,
        patterns@.len() > 0 ==> {
            &&& root_views(r.0@) == scan_roots(
                project_root@,
                texts(patterns@),
                kinds@,
                patterns@.len() as int,
            )
            &&& texts(r.1@) == scan_warnings(
                project_root@,
                texts(patterns@),
                kinds@,
                patterns@.len() as int,
            )
        },
{
    let mut roots: Vec<ScanRootPattern> = Vec::new();
    let mut warnings: Vec<String> = Vec::new();
    if patterns.len() == 0 {
        roots.push(ScanRootPattern { root: copy_str(project_root), pattern: copy_str("**/*") });
        assert(root_views(roots@) =~= seq![(project_root@, "**/*"@)]);
        return (roots, warnings);
    }
    let ghost ps = texts(patterns@);
    let mut i: usize = 0;
    assert(root_views(roots@) =~= Seq::<(Seq<char>, Seq<char>)>::empty());
    assert(texts(warnings@) =~= Seq::<Seq<char>>::empty());
    while i < patterns.len()
        invariant
            i <= patterns@.len(),
            kinds@.len() == patterns@.len(),
            ps == texts(patterns@),
            root_views(roots@) == scan_roots(project_root@, ps, kinds@, i as int),
            texts(warnings@) == scan_warnings(project_root@, ps, kinds@, i as int),
        decreases patterns@.len() - i,
    {
        assert(ps[i as int] == patterns@[i as int]@);
        match scan_pattern(project_root, patterns[i].as_str(), kinds[i]) {
            Ok(root) => {
                let ghost before = roots@;
                roots.push(root);
                assert(root_views(roots@) =~= root_views(before).push(root@));
            },
            Err(w) => {
                let ghost before = warnings@;
                warnings.push(w);
                assert(texts(warnings@) =~= texts(before).push(w@));
            },
        }
        i = i + 1;
    }
    (roots, warnings)
}

/// A path lies under a root and matches its glob.
pub open spec fn matches_root(path: Seq<char>, root: (Seq<char>, Seq<char>)) -> bool {
    match relative_to(path, root.0) {
        Some(rel) => glob_match(root.1, rel) == Some(true),
        None => false,
    }
}

/// A path matches some root.
pub open spec fn matches_some_root(path: Seq<char>, roots: Seq<(Seq<char>, Seq<char>)>) -> bool {
    exists|i: int| 0 <= i < roots.len() && matches_root(path, #[trigger] roots[i])
}

/// An exclude pattern matches a path, seen from some root that it lies under.
pub open spec fn excluded_under(
    path: Seq<char>,
    root: (Seq<char>, Seq<char>),
    exclude: Seq<Seq<char>>,
) -> bool {
    match relative_to(path, root.0) {
        Some(rel) => any_glob(exclude, rel),
        None => false,
    }
}

pub open spec fn matches_excludes(
    path: Seq<char>,
    roots: Seq<(Seq<char>, Seq<char>)>,
    exclude: Seq<Seq<char>>,
) -> bool {
    exists|i: int| 0 <= i < roots.len() && excluded_under(path, #[trigger] roots[i], exclude)
}

pub fn path_matches_root_pattern(path: &str, root: &ScanRootPattern) -> (r: bool)
    ensures
        r == matches_root(path@, root@),
{
    match relative_path(path, root.root.as_str()) {
        Some(rel) => match glob_matches(root.pattern.as_str(), rel.as_str()) {
            Some(b) => b,
            None => false,
        },
        None => false,
    }
}

pub fn path_matches_any_root(path: &str, roots: &Vec<ScanRootPattern>) -> (r: bool)
    ensures
        r == matches_some_root(path@, root_views(roots@)),
{
    let ghost rs = root_views(roots@);
    let mut i: usize = 0;
    while i < roots.len()
        invariant
            i <= roots@.len(),
            rs == root_views(roots@),
            forall|j: int| 0 <= j < i ==> !matches_root(path@, #[trigger] rs[j]),
        decreases roots@.len() - i,
    {
        assert(rs[i as int] == roots@[i as int]@);
        if path_matches_root_pattern(path, &roots[i]) {
            assert(matches_root(path@, rs[i as int]));
            return true;
        }
        i = i + 1;
    }
    false
}

pub fn path_matches_excludes(
    path: &str,
    roots: &Vec<ScanRootPattern>,
    exclude: &Vec<String>,
) -> (r: bool)
    ensures
        r == matches_excludes(path@, root_views(roots@), texts(exclude@)),
{
    let ghost rs = root_views(roots@);
    let mut i: usize = 0;
    while i < roots.len()
        invariant
            i <= roots@.len(),
            rs == root_views(roots@),
            forall|j: int| 0 <= j < i ==> !excluded_under(path@, #[trigger] rs[j], texts(exclude@)),
        decreases roots@.len() - i,
    {
        assert(rs[i as int] == roots@[i as int]@);
        match relative_path(path, roots[i].root.as_str()) {
            Some(rel) => if matches_any(exclude, rel.as_str()) {
                assert(excluded_under(path@, rs[i as int], texts(exclude@)));
                return true;
            },
            None => {},
        }
        i = i + 1;
    }
    false
}

/// Which extensions a scan is restricted to.
#[derive(Debug, Clone, Copy, PartialEq, Eq, Structural)]
pub enum ScanFilter {
    /// All files.
    Any,
    /// Files in a source language.
    Source,
    /// Spec documents.
    Spec,
}

/// A filter lets a path pass.
pub open spec fn passes(path: Seq<char>, filter: ScanFilter) -> bool {
    match filter {
        ScanFilter::Any => true,
        ScanFilter::Source => extension(path) is Some && language(extension(path)->0) is Some,
        ScanFilter::Spec => is_spec_path(path),
    }
}

pub fn passes_filter(path: &str, filter: ScanFilter) -> (r: bool)
    ensures
        r == passes(path@, filter),
{
    match filter {
        ScanFilter::Any => true,
        ScanFilter::Source => match extension_of(path) {
            Some(ext) => is_supported_extension(ext.as_str()),
            None => false,
        },
        ScanFilter::Spec => is_spec_file(path),
    }
}

/// A file found under a root belongs to a scan.
pub open spec fn walk_admits(
    path: Seq<char>,
    root: (Seq<char>, Seq<char>),
    roots: Seq<(Seq<char>, Seq<char>)>,
    filter: ScanFilter,
    exclude: Seq<Seq<char>>,
) -> bool {
    passes(path, filter) && matches_root(path, root) && !matches_excludes(path, roots, exclude)
}

/// A file, with the path it resolves to.
pub struct FoundFile {
    pub path: String,
    pub canonical: String,
}

pub open spec fn found_views(v: Seq<FoundFile>) -> Seq<(Seq<char>, Seq<char>)> {
    v.map_values(|f: FoundFile| (f.path@, f.canonical@))
}

/// The resolved paths of the first `n` files under a root that belong to a scan.
pub open spec fn admitted(
    files: Seq<(Seq<char>, Seq<char>)>,
    n: int,
    root: (Seq<char>, Seq<char>),
    roots: Seq<(Seq<char>, Seq<char>)>,
    filter: ScanFilter,
    exclude: Seq<Seq<char>>,
) -> Set<Seq<char>>
    decreases n,
{
    if n <= 0 {
        Set::empty()
    } else {
        let before = admitted(files, n - 1, root, roots, filter, exclude);
        if walk_admits(files[n - 1].0, root, roots, filter, exclude) {
            before.insert(files[n - 1].1)
        } else {
            before
        }
    }
}

/// The resolved paths of all files under the first `n` roots that belong to a
/// scan. `listings` holds the files under each root.
pub open spec fn admitted_all(
    listings: Seq<Vec<FoundFile>>,
    n: int,
    roots: Seq<(Seq<char>, Seq<char>)>,
    filter: ScanFilter,
    exclude: Seq<Seq<char>>,
) -> Set<Seq<char>>
    decreases n,
{
    if n <= 0 {
        Set::empty()
    } else {
        let files = found_views(listings[n - 1]@);
        admitted_all(listings, n - 1, roots, filter, exclude).union(
            admitted(files, files.len() as int, roots[n - 1], roots, filter, exclude),
        )
    }
}

/// A set of paths.
pub struct PathSet {
    pub paths: Vec<String>,
}

impl PathSet {
    pub open spec fn set(&self) -> Set<Seq<char>> {
        texts(self.paths@).to_set()
    }

    /// No path occurs twice.
    pub open spec fn wf(&self) -> bool {
        texts(self.paths@).no_duplicates()
    }

    pub fn new() -> (r: PathSet)
        ensures
            r.wf(),
            r.set() == Set::<Seq<char>>::empty(),
    {
        let r = PathSet { paths: Vec::new() };
        assert(texts(r.paths@) =~= Seq::<Seq<char>>::empty());
        assert(r.set() =~= Set::<Seq<char>>::empty());
        r
    }

    pub fn contains(&self, p: &str) -> (r: bool)
        ensures
            r == self.set().contains(p@),
    {
        crate::validation::text_in(&self.paths, p)
    }

    pub fn insert(&mut self, p: &str)
        requires
            old(self).wf(),
        ensures
            final(self).wf(),
            final(self).set() == old(self).set().insert(p@),
    {
        let ghost before = texts(self.paths@);
        if self.contains(p) {
            assert(self.set().insert(p@) =~= self.set());
            return;
        }
        self.paths.push(copy_str(p));
        proof {
            let after = texts(self.paths@);
            assert(after =~= before.push(p@));
            assert(!before.contains(p@));
            assert forall|i: int, j: int| 0 <= i < after.len() && 0 <= j < after.len() && i
                != j implies after[i] != after[j] by {
                if i < before.len() && j < before.len() {
                    assert(before[i] != before[j]);
                } else if i < before.len() {
                    assert(before.contains(before[i]));
                } else if j < before.len() {
                    assert(before.contains(before[j]));
                }
            }
            assert forall|x: Seq<char>| after.contains(x) <==> before.contains(x) || x == p@ by {
                if before.contains(x) {
                    let i = choose|i: int| 0 <= i < before.len() && before[i] == x;
                    assert(after[i] == x);
                }
                if x == p@ {
                    assert(after[before.len() as int] == x);
                }
            }
            assert(after.to_set() =~= before.to_set().insert(p@));
        }
    }

    pub fn remove(&mut self, p: &str)
        requires
            old(self).wf(),
        ensures
            final(self).wf(),
            final(self).set() == old(self).set().remove(p@),
    {
        let ghost all = texts(self.paths@);
        let mut out = PathSet::new();
        let mut i: usize = 0;
        while i < self.paths.len()
            invariant
                i <= self.paths@.len(),
                self.paths == old(self).paths,
                all == texts(self.paths@),
                out.wf(),
                forall|x: Seq<char>| #[trigger]
                    out.set().contains(x) <==> x != p@ && all.take(i as int).contains(x),
            decreases self.paths@.len() - i,
        {
            let q = self.paths[i].as_str();
            proof {
                assert(all[i as int] == q@);
                assert forall|x: Seq<char>| all.take(i + 1).contains(x) <==> all.take(
                    i as int,
                ).contains(x) || x == q@ by {
                    assert(all.take(i + 1) =~= all.take(i as int).push(q@));
                    if all.take(i as int).contains(x) {
                        let k = choose|k: int| 0 <= k < i && all.take(i as int)[k] == x;
                        assert(all.take(i + 1)[k] == x);
                    }
                    if x == q@ {
                        assert(all.take(i + 1)[i as int] == x);
                    }
                }
            }
            let ghost kept = out.set();
            if !str_eq(q, p) {
                out.insert(q);
            }
            proof {
                assert forall|x: Seq<char>| #[trigger] out.set().contains(x) <==> x != p@ && all.take(
                    i + 1,
                ).contains(x) by {
                    assert(kept.contains(x) <==> x != p@ && all.take(i as int).contains(x));
                }
            }
            i = i + 1;
        }
        proof {
            assert(all.take(i as int) =~= all);
            assert(out.set() =~= all.to_set().remove(p@));
        }
        self.paths = out.paths;
    }
}

/// The resolved paths of the files that belong to a scan.
pub fn full_walk_for_roots(
    roots: &Vec<ScanRootPattern>,
    listings: &Vec<Vec<FoundFile>>,
    filter: ScanFilter,
    exclude: &Vec<String>,
) -> (r: PathSet)
    requires
        listings@.len() == roots@.len(),
    ensures
        r.wf(),
        r.set() == admitted_all(
            listings@,
            roots@.len() as int,
            root_views(roots@),
            filter,
            texts(exclude@),
        ),
{
    let ghost rs = root_views(roots@);
    let ghost ex = texts(exclude@);
    let mut out = PathSet::new();
    let mut i: usize = 0;
    while i < roots.len()
        invariant
            i <= roots@.len(),
            listings@.len() == roots@.len(),
            rs == root_views(roots@),
            ex == texts(exclude@),
            out.wf(),
            out.set() == admitted_all(listings@, i as int, rs, filter, ex),
        decreases roots@.len() - i,
    {
        let files = &listings[i];
        let ghost fs = found_views(files@);
        let ghost before = out.set();
        let mut j: usize = 0;
        assert(before.union(Set::<Seq<char>>::empty()) =~= before);
        assert(rs[i as int] == roots@[i as int]@);
        while j < files.len()
            invariant
                i < roots@.len(),
                j <= files@.len(),
                fs == found_views(files@),
                rs == root_views(roots@),
                rs[i as int] == roots@[i as int]@,
                ex == texts(exclude@),
                out.wf(),
                out.set() == before.union(
                    admitted(fs, j as int, rs[i as int], rs, filter, ex),
                ),
            decreases files@.len() - j,
        {
            let f = &files[j];
            assert(fs[j as int] == (f.path@, f.canonical@));
            if passes_filter(f.path.as_str(), filter) && path_matches_root_pattern(
                f.path.as_str(),
                &roots[i],
            ) && !path_matches_excludes(f.path.as_str(), roots, exclude) {
                out.insert(f.canonical.as_str());
                assert(out.set() =~= before.union(
                    admitted(fs, j + 1, rs[i as int], rs, filter, ex),
                ));
            }
            j = j + 1;
        }
        i = i + 1;
    }
    out
}

/// A file that changed.
pub struct ChangedFile {
    pub path: String,
    pub canonical: String,
    pub exists: bool,
}

/// A changed file belongs to a scan.
pub open spec fn change_admits(
    f: ChangedFile,
    roots: Seq<(Seq<char>, Seq<char>)>,
    filter: ScanFilter,
    exclude: Seq<Seq<char>>,
) -> bool {
    f.exists && passes(f.path@, filter) && matches_some_root(f.path@, roots) && !matches_excludes(
        f.path@,
        roots,
        exclude,
    )
}

/// A scan after the first `n` changes: files that belong to it are in, others
/// are out.
pub open spec fn updated_scan(
    scan: Set<Seq<char>>,
    changed: Seq<ChangedFile>,
    n: int,
    roots: Seq<(Seq<char>, Seq<char>)>,
    filter: ScanFilter,
    exclude: Seq<Seq<char>>,
) -> Set<Seq<char>>
    decreases n,
{
    if n <= 0 {
        scan
    } else {
        let before = updated_scan(scan, changed, n - 1, roots, filter, exclude);
        let f = changed[n - 1];
        if change_admits(f, roots, filter, exclude) {
            before.insert(f.canonical@)
        } else {
            before.remove(f.canonical@)
        }
    }
}

/// Bring a scan up to date with files that changed.
pub fn update_cached_scan_paths(
    existing: &mut PathSet,
    roots: &Vec<ScanRootPattern>,
    changed_files: &Vec<ChangedFile>,
    filter: ScanFilter,
    exclude: &Vec<String>,
)
    requires
        old(existing).wf(),
    ensures
        final(existing).wf(),
        final(existing).set() == updated_scan(
            old(existing).set(),
            changed_files@,
            changed_files@.len() as int,
            root_views(roots@),
            filter,
            texts(exclude@),
        ),
{
    let ghost start = existing.set();
    let ghost rs = root_views(roots@);
    let ghost ex = texts(exclude@);
    let mut i: usize = 0;
    while i < changed_files.len()
        invariant
            i <= changed_files@.len(),
            rs == root_views(roots@),
            ex == texts(exclude@),
            existing.wf(),
            existing.set() == updated_scan(start, changed_files@, i as int, rs, filter, ex),
        decreases changed_files@.len() - i,
    {
        let f = &changed_files[i];
        let admitted_now = f.exists && passes_filter(f.path.as_str(), filter)
            && path_matches_any_root(f.path.as_str(), roots) && !path_matches_excludes(
            f.path.as_str(),
            roots,
            exclude,
        );
        if admitted_now {
            existing.insert(f.canonical.as_str());
        } else {
            existing.remove(f.canonical.as_str());
        }
        i = i + 1;
    }
}

/// What a cached scan needs: a full walk where nothing is cached or nothing is
/// known to have changed, else only an update.
#[derive(Debug, Clone, Copy, PartialEq, Eq, Structural)]
pub enum ScanPlan {
    FullWalk,
    Update,
}

/// What a cached scan needs.
pub fn plan_scan(cached: &PathSet, changed_files: &Vec<ChangedFile>) -> (r: ScanPlan)
    ensures
        r == ScanPlan::Update <==> cached.paths@.len() > 0 && changed_files@.len() > 0,
{
    if cached.paths.len() > 0 && changed_files.len() > 0 {
        ScanPlan::Update
    } else {
        ScanPlan::FullWalk
    }
}

/// A change to one file touches no other path of a scan.
pub proof fn law_update_is_local(
    scan: Set<Seq<char>>,
    changed: Seq<ChangedFile>,
    n: int,
    roots: Seq<(Seq<char>, Seq<char>)>,
    filter: ScanFilter,
    exclude: Seq<Seq<char>>,
    p: Seq<char>,
)
    requires
        0 <= n <= changed.len(),
        forall|i: int| 0 <= i < changed.len() ==> (#[trigger] changed[i]).canonical@ != p,
    ensures
        updated_scan(scan, changed, n, roots, filter, exclude).contains(p) == scan.contains(p),
    decreases n,
{
    if n > 0 {
        law_update_is_local(scan, changed, n - 1, roots, filter, exclude, p);
    }
}

} // verus!
