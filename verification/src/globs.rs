//! Glob patterns: matching lists of them, and their directory prefix.

use vstd::prelude::*;

use crate::bindings::{glob_match, glob_matches};
use crate::paths::{relative_or_self, relative_path_or_self};
use crate::text::{
    chars_of, copy_str, find_char, find_char_from, has_prefix, lemma_find_char, starts_with_str,
    sub_string, texts,
};

verus! {

/// Some valid pattern matches the path.
pub open spec fn any_glob(patterns: Seq<Seq<char>>, path: Seq<char>) -> bool {
    exists|i: int| 0 <= i < patterns.len() && glob_match(#[trigger] patterns[i], path) == Some(true)
}

pub fn matches_any(patterns: &Vec<String>, path: &str) -> (r: bool)
    ensures
        r == any_glob(texts(patterns@), path@),
{
    let ghost all = texts(patterns@);
    let mut i: usize = 0;
    while i < patterns.len()
        invariant
            i <= patterns@.len(),
            all == texts(patterns@),
            forall|j: int| 0 <= j < i ==> glob_match(#[trigger] all[j], path@) != Some(true),
        decreases patterns@.len() - i,
    {
        assert(all[i as int] == patterns@[i as int]@);
        match glob_matches(patterns[i].as_str(), path) {
            Some(b) => if b {
                assert(glob_match(all[i as int], path@) == Some(true));
                return true;
            },
            None => {},
        }
        i = i + 1;
    }
    false
}

/// A path counts as included where there are no patterns, or one matches it
/// relative to the root.
pub open spec fn included(path: Seq<char>, root: Seq<char>, patterns: Seq<Seq<char>>) -> bool {
    patterns.len() == 0 || any_glob(patterns, relative_or_self(path, root))
}

/// A path counts as excluded where a pattern matches it relative to the root.
pub open spec fn excluded(path: Seq<char>, root: Seq<char>, patterns: Seq<Seq<char>>) -> bool {
    any_glob(patterns, relative_or_self(path, root))
}

pub fn is_included(path: &str, root: &str, patterns: &Vec<String>) -> (r: bool)
    ensures
        r == included(path@, root@, texts(patterns@)),
{
    if patterns.len() == 0 {
        return true;
    }
    let relative = relative_path_or_self(path, root);
    matches_any(patterns, relative.as_str())
}

pub fn is_excluded(path: &str, root: &str, patterns: &Vec<String>) -> (r: bool)
    ensures
        r == excluded(path@, root@, texts(patterns@)),
{
    let relative = relative_path_or_self(path, root);
    matches_any(patterns, relative.as_str())
}

/// More include patterns admit more, as long as there were some.
pub proof fn law_more_patterns_admit_more(
    path: Seq<char>,
    root: Seq<char>,
    a: Seq<Seq<char>>,
    b: Seq<Seq<char>>,
)
    requires
        a.len() > 0,
        included(path, root, a),
    ensures
        included(path, root, a + b),
{
    let rel = relative_or_self(path, root);
    let i = choose|i: int| 0 <= i < a.len() && glob_match(#[trigger] a[i], rel) == Some(true);
    assert((a + b)[i] == a[i]);
}

pub open spec fn is_wildcard(c: char) -> bool {
    c == '*' || c == '?' || c == '[' || c == '{'
}

/// Position of the first wildcard at or after `i`, or the length.
pub open spec fn wildcard_at(p: Seq<char>, i: int) -> int
    decreases p.len() - i,
{
    if i < 0 || i >= p.len() {
        p.len() as int
    } else if is_wildcard(p[i]) {
        i
    } else {
        wildcard_at(p, i + 1)
    }
}

/// End of the directory part of `p[..end]`: behind its last slash, or 0.
pub open spec fn directory_end(p: Seq<char>, end: int) -> int
    decreases end,
{
    if end <= 0 || end > p.len() {
        0
    } else if p[end - 1] == '/' {
        end
    } else {
        directory_end(p, end - 1)
    }
}

/// `end` moved back over slashes.
pub open spec fn before_slashes(p: Seq<char>, end: int) -> int
    decreases end,
{
    if 0 < end <= p.len() && p[end - 1] == '/' {
        before_slashes(p, end - 1)
    } else {
        end
    }
}

/// Where the directory prefix of a pattern ends and where the rest begins, for
/// one whose first wildcard stands at `w`: the prefix is the longest directory
/// path before it, without trailing slashes; a pattern without wildcards is all
/// prefix.
pub open spec fn split_before(p: Seq<char>, w: int) -> (int, int) {
    if w == p.len() {
        (p.len() as int, p.len() as int)
    } else {
        let d = directory_end(p, w);
        (before_slashes(p, d), d)
    }
}

/// Where the directory prefix of a glob ends and where its suffix begins.
pub open spec fn glob_split(p: Seq<char>) -> (int, int) {
    split_before(p, wildcard_at(p, 0))
}

/// Position of the first `*`, or the length.
pub open spec fn star_at(p: Seq<char>) -> int {
    match find_char(p, '*', 0) {
        Some(i) => i,
        None => p.len() as int,
    }
}

/// Where the base of a cross-workspace pattern ends and where the rest begins.
/// Only `*` ends the base, so that other wildcards can stand in it.
pub open spec fn base_split(p: Seq<char>) -> (int, int) {
    split_before(p, star_at(p))
}

fn find_glob_split(p: &[char]) -> (r: (usize, usize))
    ensures
        (r.0 as int, r.1 as int) == glob_split(p@),
        r.0 <= r.1 <= p@.len(),
{
    let n: usize = p.len();
    let mut w: usize = 0;
    while w < n && !(p[w] == '*' || p[w] == '?' || p[w] == '[' || p[w] == '{')
        invariant
            n == p@.len(),
            w <= n,
            wildcard_at(p@, 0) == wildcard_at(p@, w as int),
        decreases n - w,
    {
        w = w + 1;
    }
    find_split_before(p, w)
}

fn find_split_before(p: &[char], w: usize) -> (r: (usize, usize))
    requires
        w <= p@.len(),
    ensures
        (r.0 as int, r.1 as int) == split_before(p@, w as int),
        r.0 <= r.1 <= p@.len(),
{
    let n: usize = p.len();
    if w == n {
        return (n, n);
    }
    let mut d: usize = w;
    while d > 0 && p[d - 1] != '/'
        invariant
            d <= w < p@.len(),
            directory_end(p@, w as int) == directory_end(p@, d as int),
        decreases d,
    {
        d = d - 1;
    }
    let mut b: usize = d;
    while b > 0 && p[b - 1] == '/'
        invariant
            b <= d <= p@.len(),
            before_slashes(p@, d as int) == before_slashes(p@, b as int),
        decreases b,
    {
        b = b - 1;
    }
    (b, d)
}

/// Split a glob pattern into (directory prefix, glob suffix).
///
/// The directory prefix is the longest path before any wildcard characters,
/// so that the walker can start from a narrowed root instead of scanning the
/// entire project tree.
pub fn split_glob_prefix(pattern: &str) -> (r: (String, String))
    ensures
        r.0@ == pattern@.take(glob_split(pattern@).0),
        r.1@ == pattern@.skip(glob_split(pattern@).1),
{
    let p = chars_of(pattern);
    let (b, d) = find_glob_split(&p);
    let base = sub_string(&p, 0, b);
    let suffix = sub_string(&p, d, p.len());
    proof {
        assert(p@.subrange(0, b as int) =~= pattern@.take(b as int));
        assert(p@.subrange(d as int, p@.len() as int) =~= pattern@.skip(d as int));
    }
    (base, suffix)
}

/// The prefix holds no wildcard, and prefix and suffix are the pattern but for
/// slashes between them.
pub proof fn law_split_reassembles(p: Seq<char>)
    ensures
        ({
            let (b, d) = glob_split(p);
            &&& 0 <= b <= d <= p.len()
            &&& p == p.take(b) + p.subrange(b, d) + p.skip(d)
            &&& forall|i: int| b <= i < d ==> p[i] == '/'
            &&& forall|i: int| 0 <= i < b ==> !is_wildcard(#[trigger] p[i])
        }),
{
    lemma_wildcard_at(p, 0);
    lemma_split_before(p, wildcard_at(p, 0));
}

proof fn lemma_split_before(p: Seq<char>, w: int)
    requires
        0 <= w <= p.len(),
    ensures
        ({
            let (b, d) = split_before(p, w);
            &&& 0 <= b <= d <= p.len()
            &&& b <= w
            &&& p == p.take(b) + p.subrange(b, d) + p.skip(d)
            &&& forall|i: int| b <= i < d ==> p[i] == '/'
        }),
{
    if w < p.len() {
        lemma_directory_end(p, w);
        lemma_before_slashes(p, directory_end(p, w));
    }
    let (b, d) = split_before(p, w);
    assert(p =~= p.take(b) + p.subrange(b, d) + p.skip(d));
}

proof fn lemma_wildcard_at(p: Seq<char>, i: int)
    requires
        0 <= i <= p.len(),
    ensures
        i <= wildcard_at(p, i) <= p.len(),
        forall|j: int| i <= j < wildcard_at(p, i) ==> !is_wildcard(#[trigger] p[j]),
    decreases p.len() - i,
{
    if i < p.len() && !is_wildcard(p[i]) {
        lemma_wildcard_at(p, i + 1);
    }
}

proof fn lemma_directory_end(p: Seq<char>, end: int)
    requires
        0 <= end <= p.len(),
    ensures
        0 <= directory_end(p, end) <= end,
    decreases end,
{
    if end > 0 && p[end - 1] != '/' {
        lemma_directory_end(p, end - 1);
    }
}

proof fn lemma_before_slashes(p: Seq<char>, end: int)
    requires
        0 <= end <= p.len(),
    ensures
        0 <= before_slashes(p, end) <= end,
        forall|i: int| before_slashes(p, end) <= i < end ==> p[i] == '/',
    decreases end,
{
    if end > 0 && p[end - 1] == '/' {
        lemma_before_slashes(p, end - 1);
    }
}

/// Extract the base directory from a cross-workspace pattern:
/// `../dodeca/crates/bearmark/**/*.rs` has the base `../dodeca/crates/bearmark`.
pub fn extract_cross_workspace_base(pattern: &str) -> (r: String)
    ensures
        r@ == pattern@.take(base_split(pattern@).0),
{
    let p = chars_of(pattern);
    let w = match find_char_from(&p, '*', 0) {
        Some(i) => i,
        None => p.len(),
    };
    let (b, _) = find_split_before(&p, w);
    let base = sub_string(&p, 0, b);
    assert(p@.subrange(0, b as int) =~= pattern@.take(b as int));
    base
}

/// `s` without leading slashes.
pub open spec fn without_leading_slashes(s: Seq<char>) -> Seq<char>
    decreases s.len(),
{
    if s.len() > 0 && s[0] == '/' {
        without_leading_slashes(s.drop_first())
    } else {
        s
    }
}

/// A pattern seen from its base.
pub open spec fn adjusted_pattern(pattern: Seq<char>, base: Seq<char>) -> Seq<char> {
    if has_prefix(pattern, base) {
        without_leading_slashes(pattern.skip(base.len() as int))
    } else {
        pattern
    }
}

/// Adjust a cross-workspace pattern to be relative to its resolved base:
/// `../dodeca/**/*.rs` with base `../dodeca` becomes `**/*.rs`.
pub fn adjust_pattern_for_root(pattern: &str, base: &str) -> (r: String)
    ensures
        r@ == adjusted_pattern(pattern@, base@),
{
    let p = chars_of(pattern);
    let n: usize = chars_of(base).len();
    if !starts_with_str(&p, base) {
        return copy_str(pattern);
    }
    let mut i: usize = n;
    while i < p.len() && p[i] == '/'
        invariant
            n <= i <= p@.len(),
            without_leading_slashes(p@.skip(n as int)) == without_leading_slashes(p@.skip(i as int)),
        decreases p@.len() - i,
    {
        assert(p@.skip(i as int).drop_first() =~= p@.skip(i + 1));
        i = i + 1;
    }
    let r = sub_string(&p, i, p.len());
    assert(p@.subrange(i as int, p@.len() as int) =~= p@.skip(i as int));
    r
}

/// A pattern with a `*`, seen from its own base, is what stands behind the base.
pub proof fn law_adjusted_is_suffix(p: Seq<char>)
    requires
        star_at(p) < p.len(),
    ensures
        adjusted_pattern(p, p.take(base_split(p).0)) == p.skip(base_split(p).1),
{
    let w = star_at(p);
    lemma_find_char(p, '*', 0);
    lemma_split_before(p, w);
    let (b, d) = base_split(p);
    assert(p.subrange(0, b) =~= p.take(b));
    lemma_directory_end(p, w);
    lemma_no_slash_after(p, w);
    lemma_skip_slashes(p, b, d);
}

/// A pattern without a `*` is its own base, whatever other wildcards it holds.
pub proof fn law_base_without_star_is_whole(p: Seq<char>)
    requires
        forall|i: int| 0 <= i < p.len() ==> #[trigger] p[i] != '*',
    ensures
        p.take(base_split(p).0) == p,
{
    lemma_find_char(p, '*', 0);
    assert(p.take(p.len() as int) =~= p);
}

proof fn lemma_no_slash_after(p: Seq<char>, end: int)
    requires
        0 <= end <= p.len(),
    ensures
        forall|i: int| directory_end(p, end) <= i < end ==> p[i] != '/',
    decreases end,
{
    if end > 0 && p[end - 1] != '/' {
        lemma_no_slash_after(p, end - 1);
    }
}

proof fn lemma_skip_slashes(p: Seq<char>, b: int, d: int)
    requires
        0 <= b <= d < p.len(),
        p[d] != '/',
        forall|i: int| b <= i < d ==> p[i] == '/',
    ensures
        without_leading_slashes(p.skip(b)) == p.skip(d),
    decreases d - b,
{
    if b < d {
        assert(p.skip(b).drop_first() =~= p.skip(b + 1));
        lemma_skip_slashes(p, b + 1, d);
    }
}

} // verus!
