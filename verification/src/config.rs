//! Configuration schema.
//!
//! The configuration lives at `.config/tracey/config.styx` relative to the
//! project root.

use vstd::prelude::*;

use crate::paths::{join_paths, path_join};
use crate::text::opt_text;

verus! {

/// Root configuration.
#[derive(Debug, Clone, Default)]
pub struct Config {
    /// Specifications to track coverage against.
    pub specs: Vec<SpecConfig>,
}

/// Configuration for a single specification.
#[derive(Debug, Clone)]
pub struct SpecConfig {
    /// Name of the spec (for display purposes).
    pub name: String,
    /// Deprecated: the prefix is inferred from requirement markers in spec files.
    ///
    /// If present, building reports an error and asks to remove it.
    pub prefix: Option<String>,
    /// Canonical URL for the specification (e.g. a repository).
    pub source_url: Option<String>,
    /// Glob patterns for spec files containing requirement definitions,
    /// e.g. `docs/spec/**/*.md` or `docs/spec/**/*.typ`.
    pub include_patterns: Vec<String>,
    /// Explicit format override (by format name, e.g. `asciidoc-roles`).
    /// Only needed when a format can't be inferred from file extension alone.
    pub syntax: Option<String>,
    /// Git ref to resolve this spec's files against instead of the live working
    /// tree (e.g. a tag, branch, or commit SHA). Re-resolved at read time, so a
    /// branch name floats rather than being locked to a SHA.
    pub git_ref: Option<String>,
    /// Per-format render options.
    pub format: FormatConfig,
    /// Implementations of this spec (by language).
    /// Each says which source files to scan.
    pub impls: Vec<Impl>,
}

/// Per-format render options for a [`SpecConfig`].
///
/// One field per spec format that needs configuration.
#[derive(Debug, Clone, Default)]
pub struct FormatConfig {
    pub typst: TypstFormatConfig,
}

/// Typst options.
#[derive(Debug, Clone, Default)]
pub struct TypstFormatConfig {
    /// Directory containing vendored Typst packages, laid out as
    /// `<path>/<namespace>/<name>/<version>/`. Relative paths resolve against
    /// the project root. When set, package imports look here before falling
    /// back to the system cache.
    pub package_path: Option<String>,
}

/// Configuration for a single implementation of a spec.
#[derive(Debug, Clone)]
pub struct Impl {
    /// Name of this implementation (e.g. `main`, `core`, `frontend`).
    pub name: String,
    /// Glob patterns for source files to scan.
    pub include_patterns: Vec<String>,
    /// Glob patterns to exclude.
    pub exclude: Vec<String>,
    /// Glob patterns for test files (only verify annotations allowed).
    pub test_include: Vec<String>,
}

/// Resolved Typst options.
#[derive(Debug, Clone, PartialEq, Eq)]
pub struct TypstConfig {
    pub package_path: Option<String>,
}

/// Resolved options of all formats.
#[derive(Debug, Clone, PartialEq, Eq)]
pub struct SpecConfigs {
    pub typst: TypstConfig,
}

/// A configured path, resolved against the root.
pub open spec fn resolved_option(p: Option<Seq<char>>, root: Seq<char>) -> Option<Seq<char>> {
    match p {
        Some(s) => Some(path_join(root, s)),
        None => None,
    }
}

/// Resolve the per-format options of a spec against the project root. Formats
/// without options need none.
pub fn build_spec_configs(format: &FormatConfig, root: &str) -> (r: SpecConfigs)
    ensures
        opt_text(r.typst.package_path) == resolved_option(
            opt_text(format.typst.package_path),
            root@,
        ),
{
    let package_path = match &format.typst.package_path {
        Some(p) => Some(join_paths(root, p.as_str())),
        None => None,
    };
    SpecConfigs { typst: TypstConfig { package_path } }
}

/// The include patterns of an implementation: Rust sources where none are given.
pub open spec fn effective_patterns(patterns: Seq<Seq<char>>) -> Seq<Seq<char>> {
    if patterns.len() == 0 {
        seq!["**/*.rs"@]
    } else {
        patterns
    }
}

/// The include patterns of an implementation: Rust sources where none are given.
pub fn impl_include_patterns(i: &Impl) -> (r: Vec<String>)
    ensures
        crate::text::texts(r@) == effective_patterns(crate::text::texts(i.include_patterns@)),
{
    assert(crate::text::texts(i.include_patterns@).len() == i.include_patterns@.len());
    if i.include_patterns.len() == 0 {
        let mut out: Vec<String> = Vec::new();
        out.push(crate::text::copy_str("**/*.rs"));
        assert(crate::text::texts(out@) =~= seq!["**/*.rs"@]);
        out
    } else {
        crate::requirement::copy_strings(&i.include_patterns)
    }
}

/// Which patterns of an implementation.
#[derive(Debug, Clone, Copy, PartialEq, Eq, Structural)]
pub enum PatternList {
    Included,
    Excluded,
}

/// The first spec, from the `i`-th on, with the given name.
pub open spec fn named_spec(specs: Seq<SpecConfig>, name: Seq<char>, i: int) -> Option<int>
    decreases specs.len() - i,
{
    if i < 0 || i >= specs.len() {
        None
    } else if specs[i].name@ == name {
        Some(i)
    } else {
        named_spec(specs, name, i + 1)
    }
}

/// The first implementation, from the `i`-th on, with the given name.
pub open spec fn named_impl(impls: Seq<Impl>, name: Seq<char>, i: int) -> Option<int>
    decreases impls.len() - i,
{
    if i < 0 || i >= impls.len() {
        None
    } else if impls[i].name@ == name {
        Some(i)
    } else {
        named_impl(impls, name, i + 1)
    }
}

/// `b` is the implementation `a` with a pattern more.
pub open spec fn impl_with_pattern(a: Impl, b: Impl, pattern: String, list: PatternList) -> bool {
    &&& b.name == a.name
    &&& b.test_include == a.test_include
    &&& match list {
        PatternList::Included => b.include_patterns@ == a.include_patterns@.push(pattern)
            && b.exclude == a.exclude,
        PatternList::Excluded => b.exclude@ == a.exclude@.push(pattern) && b.include_patterns
            == a.include_patterns,
    }
}

/// `b` is the spec `a` with a pattern more for one implementation.
pub open spec fn spec_with_pattern(
    a: SpecConfig,
    b: SpecConfig,
    at: int,
    pattern: String,
    list: PatternList,
) -> bool {
    &&& b.name == a.name
    &&& b.prefix == a.prefix
    &&& b.source_url == a.source_url
    &&& b.include_patterns == a.include_patterns
    &&& b.syntax == a.syntax
    &&& b.git_ref == a.git_ref
    &&& b.format == a.format
    &&& b.impls@.len() == a.impls@.len()
    &&& forall|k: int|
        0 <= k < a.impls@.len() && k != at ==> #[trigger] b.impls@[k] == a.impls@[k]
    &&& impl_with_pattern(a.impls@[at], b.impls@[at], pattern, list)
}

/// `b` is the configuration `a` with a pattern more for one implementation.
pub open spec fn config_with_pattern(
    a: Config,
    b: Config,
    spec_at: int,
    impl_at: int,
    pattern: String,
    list: PatternList,
) -> bool {
    &&& b.specs@.len() == a.specs@.len()
    &&& forall|k: int|
        0 <= k < a.specs@.len() && k != spec_at ==> #[trigger] b.specs@[k] == a.specs@[k]
    &&& spec_with_pattern(a.specs@[spec_at], b.specs@[spec_at], impl_at, pattern, list)
}

fn find_spec(specs: &Vec<SpecConfig>, name: &str) -> (r: Option<usize>)
    ensures
        crate::text::same_index(r, named_spec(specs@, name@, 0)),
        r matches Some(i) ==> i < specs@.len(),
{
    let mut i: usize = 0;
    while i < specs.len()
        invariant
            i <= specs@.len(),
            named_spec(specs@, name@, 0) == named_spec(specs@, name@, i as int),
        decreases specs@.len() - i,
    {
        if crate::text::str_eq(specs[i].name.as_str(), name) {
            return Some(i);
        }
        i = i + 1;
    }
    None
}

fn find_impl(impls: &Vec<Impl>, name: &str) -> (r: Option<usize>)
    ensures
        crate::text::same_index(r, named_impl(impls@, name@, 0)),
        r matches Some(i) ==> i < impls@.len(),
{
    let mut i: usize = 0;
    while i < impls.len()
        invariant
            i <= impls@.len(),
            named_impl(impls@, name@, 0) == named_impl(impls@, name@, i as int),
        decreases impls@.len() - i,
    {
        if crate::text::str_eq(impls[i].name.as_str(), name) {
            return Some(i);
        }
        i = i + 1;
    }
    None
}

impl Config {
    /// Add a pattern to an implementation. Returns whether there is such an
    /// implementation; without it nothing changes.
    pub fn add_pattern(
        &mut self,
        spec_name: &str,
        impl_name: &str,
        pattern: String,
        list: PatternList,
    ) -> (found: bool)
        ensures
            match named_spec(old(self).specs@, spec_name@, 0) {
                Some(s) => match named_impl(old(self).specs@[s].impls@, impl_name@, 0) {
                    Some(i) => found && config_with_pattern(
                        *old(self),
                        *final(self),
                        s,
                        i,
                        pattern,
                        list,
                    ),
                    None => !found && *final(self) == *old(self),
                },
                None => !found && *final(self) == *old(self),
            },
    {
        let s = match find_spec(&self.specs, spec_name) {
            Some(s) => s,
            None => {
                return false;
            },
        };
        let i = match find_impl(&self.specs[s].impls, impl_name) {
            Some(i) => i,
            None => {
                return false;
            },
        };
        let mut spec_config = self.specs.remove(s);
        let mut one = spec_config.impls.remove(i);
        match list {
            PatternList::Included => {
                one.include_patterns.push(pattern);
            },
            PatternList::Excluded => {
                one.exclude.push(pattern);
            },
        }
        spec_config.impls.insert(i, one);
        self.specs.insert(s, spec_config);
        true
    }
}

/// What is said where there is no such implementation.
pub fn impl_not_found_message(spec_name: &str, impl_name: &str) -> (r: String)
    ensures
        r@ == "Spec/impl '"@ + spec_name@ + "/"@ + impl_name@ + "' not found"@,
{
    let mut m = crate::text::concat3("Spec/impl '", spec_name, "/");
    m.append(impl_name);
    m.append("' not found");
    m
}

} // verus!
