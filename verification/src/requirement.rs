//! Requirement definitions and their metadata.

use vstd::prelude::*;

use crate::rule_id::RuleId;
use crate::text::{copy_str, opt_text, texts};

verus! {

/// Byte offset and length in source content.
#[derive(Debug, Clone, Copy, PartialEq, Eq, Structural)]
pub struct SourceSpan {
    /// Byte offset from the start of the content.
    pub offset: usize,
    /// Length in bytes.
    pub length: usize,
}

/// Lifecycle status of a requirement.
#[derive(Debug, Clone, Copy, PartialEq, Eq, Structural)]
pub enum ReqStatus {
    Draft,
    Stable,
    Deprecated,
    Removed,
}

/// RFC 2119 level of a requirement.
#[derive(Debug, Clone, Copy, PartialEq, Eq, Structural)]
pub enum ReqLevel {
    Must,
    Should,
    May,
}

/// The status that a word names.
pub open spec fn status_named(s: Seq<char>) -> Option<ReqStatus> {
    if s == "draft"@ {
        Some(ReqStatus::Draft)
    } else if s == "stable"@ {
        Some(ReqStatus::Stable)
    } else if s == "deprecated"@ {
        Some(ReqStatus::Deprecated)
    } else if s == "removed"@ {
        Some(ReqStatus::Removed)
    } else {
        None
    }
}

/// The level that a word names.
pub open spec fn level_named(s: Seq<char>) -> Option<ReqLevel> {
    if s == "must"@ || s == "shall"@ || s == "required"@ {
        Some(ReqLevel::Must)
    } else if s == "should"@ || s == "recommended"@ {
        Some(ReqLevel::Should)
    } else if s == "may"@ || s == "optional"@ {
        Some(ReqLevel::May)
    } else {
        None
    }
}

/// The word for a status.
pub open spec fn status_word(s: ReqStatus) -> Seq<char> {
    match s {
        ReqStatus::Draft => "draft"@,
        ReqStatus::Stable => "stable"@,
        ReqStatus::Deprecated => "deprecated"@,
        ReqStatus::Removed => "removed"@,
    }
}

/// The word for a level.
pub open spec fn level_word(l: ReqLevel) -> Seq<char> {
    match l {
        ReqLevel::Must => "must"@,
        ReqLevel::Should => "should"@,
        ReqLevel::May => "may"@,
    }
}

impl ReqStatus {
    pub fn as_str(&self) -> (r: &'static str)
        ensures
            r@ == status_word(*self),
    {
        match self {
            ReqStatus::Draft => "draft",
            ReqStatus::Stable => "stable",
            ReqStatus::Deprecated => "deprecated",
            ReqStatus::Removed => "removed",
        }
    }
}

impl ReqLevel {
    pub fn as_str(&self) -> (r: &'static str)
        ensures
            r@ == level_word(*self),
    {
        match self {
            ReqLevel::Must => "must",
            ReqLevel::Should => "should",
            ReqLevel::May => "may",
        }
    }
}

/// Metadata attributes for a requirement.
#[derive(Debug, Clone, PartialEq, Eq)]
pub struct ReqMetadata {
    pub status: Option<ReqStatus>,
    pub level: Option<ReqLevel>,
    /// Version when this requirement was introduced.
    pub since: Option<String>,
    /// Version when this requirement will be or was deprecated or removed.
    pub until: Option<String>,
    /// Custom tags for categorization.
    pub tags: Vec<String>,
}

/// What a requirement's metadata says.
#[verifier::ext_equal]
pub struct MetadataModel {
    pub status: Option<ReqStatus>,
    pub level: Option<ReqLevel>,
    pub since: Option<Seq<char>>,
    pub until: Option<Seq<char>>,
    pub tags: Seq<Seq<char>>,
}

impl View for ReqMetadata {
    type V = MetadataModel;

    open spec fn view(&self) -> MetadataModel {
        MetadataModel {
            status: self.status,
            level: self.level,
            since: opt_text(self.since),
            until: opt_text(self.until),
            tags: texts(self.tags@),
        }
    }
}

/// Metadata that says nothing.
pub open spec fn no_metadata() -> MetadataModel {
    MetadataModel { status: None, level: None, since: None, until: None, tags: Seq::empty() }
}

impl ReqMetadata {
    pub fn new() -> (r: Self)
        ensures
            r@ == no_metadata(),
    {
        let r = ReqMetadata { status: None, level: None, since: None, until: None, tags: Vec::new() };
        assert(r@ =~= no_metadata());
        r
    }
}

/// A requirement definition extracted from a spec document.
#[derive(Debug, Clone, PartialEq, Eq)]
pub struct ReqDefinition {
    pub id: RuleId,
    /// The anchor id for HTML linking (e.g. `r--channel.id.allocation`).
    pub anchor_id: String,
    /// Source span of just the requirement marker.
    pub marker_span: SourceSpan,
    /// Source span of the entire requirement.
    pub span: SourceSpan,
    /// Line number where this requirement is defined (1-indexed).
    pub line: usize,
    pub metadata: ReqMetadata,
    /// Raw source of the requirement content, without the marker.
    pub raw: String,
    /// The rendered HTML of the content following the requirement marker.
    pub html: String,
}

/// What a requirement definition says.
#[verifier::ext_equal]
pub struct ReqModel {
    pub id: (Seq<char>, u32),
    pub anchor_id: Seq<char>,
    pub marker_span: SourceSpan,
    pub span: SourceSpan,
    pub line: usize,
    pub metadata: MetadataModel,
    pub raw: Seq<char>,
    pub html: Seq<char>,
}

impl View for ReqDefinition {
    type V = ReqModel;

    open spec fn view(&self) -> ReqModel {
        ReqModel {
            id: self.id@,
            anchor_id: self.anchor_id@,
            marker_span: self.marker_span,
            span: self.span,
            line: self.line,
            metadata: self.metadata@,
            raw: self.raw@,
            html: self.html@,
        }
    }
}

/// The definitions held by a sequence of requirements.
pub open spec fn req_models(v: Seq<ReqDefinition>) -> Seq<ReqModel> {
    v.map_values(|r: ReqDefinition| r@)
}

pub fn copy_opt(o: &Option<String>) -> (r: Option<String>)
    ensures
        opt_text(r) == opt_text(*o),
{
    match o {
        Some(s) => Some(copy_str(s.as_str())),
        None => None,
    }
}

pub fn copy_strings(v: &Vec<String>) -> (r: Vec<String>)
    ensures
        texts(r@) == texts(v@),
{
    let mut out: Vec<String> = Vec::new();
    let mut i: usize = 0;
    while i < v.len()
        invariant
            i <= v@.len(),
            texts(out@) =~= texts(v@).take(i as int),
        decreases v@.len() - i,
    {
        let ghost before = texts(out@);
        out.push(copy_str(v[i].as_str()));
        i = i + 1;
        assert(texts(out@) =~= before.push(v@[i - 1]@));
    }
    assert(texts(v@).take(i as int) =~= texts(v@));
    out
}

impl ReqMetadata {
    pub fn copy(&self) -> (r: ReqMetadata)
        ensures
            r@ == self@,
    {
        ReqMetadata {
            status: self.status,
            level: self.level,
            since: copy_opt(&self.since),
            until: copy_opt(&self.until),
            tags: copy_strings(&self.tags),
        }
    }
}

impl ReqDefinition {
    pub fn copy(&self) -> (r: ReqDefinition)
        ensures
            r@ == self@,
    {
        ReqDefinition {
            id: self.id.copy(),
            anchor_id: copy_str(self.anchor_id.as_str()),
            marker_span: self.marker_span,
            span: self.span,
            line: self.line,
            metadata: self.metadata.copy(),
            raw: copy_str(self.raw.as_str()),
            html: copy_str(self.html.as_str()),
        }
    }
}

} // verus!
