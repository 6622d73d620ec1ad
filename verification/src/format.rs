//! Spec dialects.

use vstd::prelude::*;

use crate::paths::{extension, extension_of};
use crate::text::str_eq;

verus! {

/// Which spec dialect a file is written in.
#[derive(Copy, Clone, Debug, PartialEq, Eq, Hash, Default, Structural)]
#[non_exhaustive]
pub enum SpecFormat {
    /// CommonMark with tracey marker syntax.
    #[default]
    Markdown,
    /// Typst markup with `#req(...)` calls.
    Typst,
    /// StrictDoc requirements (`.sdoc`).
    Sdoc,
    /// AsciiDoc with `r[id]` marker syntax.
    AsciiDoc,
    /// AsciiDoc with native `[role="requirement", id="..."]` open blocks.
    AsciiDocRoles,
}

/// The stable lowercase identifier of a format.
pub open spec fn format_name(f: SpecFormat) -> Seq<char> {
    match f {
        SpecFormat::Markdown => "markdown"@,
        SpecFormat::Typst => "typst"@,
        SpecFormat::Sdoc => "sdoc"@,
        SpecFormat::AsciiDoc => "asciidoc"@,
        SpecFormat::AsciiDocRoles => "asciidoc-roles"@,
    }
}

/// The format that a name belongs to.
pub open spec fn named_format(name: Seq<char>) -> Option<SpecFormat> {
    if name == "markdown"@ {
        Some(SpecFormat::Markdown)
    } else if name == "typst"@ {
        Some(SpecFormat::Typst)
    } else if name == "sdoc"@ {
        Some(SpecFormat::Sdoc)
    } else if name == "asciidoc"@ {
        Some(SpecFormat::AsciiDoc)
    } else if name == "asciidoc-roles"@ {
        Some(SpecFormat::AsciiDocRoles)
    } else {
        None
    }
}

/// The format that an extension belongs to. Both AsciiDoc dialects claim the
/// same extensions; the one with markers in the text is the one inferred.
pub open spec fn extension_format(ext: Seq<char>) -> Option<SpecFormat> {
    if ext == "md"@ || ext == "markdown"@ {
        Some(SpecFormat::Markdown)
    } else if ext == "typ"@ {
        Some(SpecFormat::Typst)
    } else if ext == "sdoc"@ {
        Some(SpecFormat::Sdoc)
    } else if ext == "adoc"@ || ext == "asciidoc"@ {
        Some(SpecFormat::AsciiDoc)
    } else {
        None
    }
}

/// The format that a path's extension belongs to.
pub open spec fn path_format(path: Seq<char>) -> Option<SpecFormat> {
    match extension(path) {
        Some(ext) => extension_format(ext),
        None => None,
    }
}

impl SpecFormat {
    /// Classify a path by its extension.
    pub fn from_path(p: &str) -> (r: Option<SpecFormat>)
        ensures
            r == path_format(p@),
    {
        match extension_of(p) {
            Some(ext) => SpecFormat::from_ext(ext.as_str()),
            None => None,
        }
    }

    /// Classify a bare extension (no leading dot).
    pub fn from_ext(ext: &str) -> (r: Option<SpecFormat>)
        ensures
            r == extension_format(ext@),
    {
        if str_eq(ext, "md") || str_eq(ext, "markdown") {
            Some(SpecFormat::Markdown)
        } else if str_eq(ext, "typ") {
            Some(SpecFormat::Typst)
        } else if str_eq(ext, "sdoc") {
            Some(SpecFormat::Sdoc)
        } else if str_eq(ext, "adoc") || str_eq(ext, "asciidoc") {
            Some(SpecFormat::AsciiDoc)
        } else {
            None
        }
    }

    /// Stable lowercase identifier, used for the search index, logs, and the
    /// config table key.
    pub fn name(self) -> (r: &'static str)
        ensures
            r@ == format_name(self),
    {
        match self {
            SpecFormat::Markdown => "markdown",
            SpecFormat::Typst => "typst",
            SpecFormat::Sdoc => "sdoc",
            SpecFormat::AsciiDoc => "asciidoc",
            SpecFormat::AsciiDocRoles => "asciidoc-roles",
        }
    }

    /// Inverse of [`name`](Self::name).
    pub fn from_name(name: &str) -> (r: Option<SpecFormat>)
        ensures
            r == named_format(name@),
    {
        if str_eq(name, "markdown") {
            Some(SpecFormat::Markdown)
        } else if str_eq(name, "typst") {
            Some(SpecFormat::Typst)
        } else if str_eq(name, "sdoc") {
            Some(SpecFormat::Sdoc)
        } else if str_eq(name, "asciidoc") {
            Some(SpecFormat::AsciiDoc)
        } else if str_eq(name, "asciidoc-roles") {
            Some(SpecFormat::AsciiDocRoles)
        } else {
            None
        }
    }
}

/// Returns true if `ext` is a recognised spec-document extension.
pub fn is_spec_extension(ext: &str) -> (r: bool)
    ensures
        r == (extension_format(ext@) is Some),
{
    SpecFormat::from_ext(ext).is_some()
}

/// A path names a spec document.
pub open spec fn is_spec_path(p: Seq<char>) -> bool {
    path_format(p) is Some
}

/// Whether a path names a spec document, by its extension.
pub fn is_spec_file(p: &str) -> (r: bool)
    ensures
        r == is_spec_path(p@),
{
    SpecFormat::from_path(p).is_some()
}

/// Every format is found again by its name.
pub proof fn law_format_name_roundtrip(f: SpecFormat)
    ensures
        named_format(format_name(f)) == Some(f),
{
    reveal_strlit("markdown");
    reveal_strlit("typst");
    reveal_strlit("sdoc");
    reveal_strlit("asciidoc");
    reveal_strlit("asciidoc-roles");
    assert("markdown"@.len() == 8 && "markdown"@[0] == 'm');
    assert("asciidoc"@.len() == 8 && "asciidoc"@[0] == 'a');
    assert("typst"@.len() == 5);
    assert("sdoc"@.len() == 4);
    assert("asciidoc-roles"@.len() == 14);
}

/// A name names one format only.
pub proof fn law_format_of_name(name: Seq<char>)
    ensures
        named_format(name) matches Some(f) ==> format_name(f) == name,
{
}

} // verus!
