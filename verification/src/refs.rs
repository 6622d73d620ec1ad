//! Requirement references found in source files.

use vstd::prelude::*;

use crate::requirement::SourceSpan;
use crate::rule_id::RuleId;
use crate::text::copy_str;

verus! {

/// What a reference says about a requirement.
#[derive(Debug, Clone, Copy, PartialEq, Eq, Hash, Structural)]
pub enum RefVerb {
    Define,
    Impl,
    Verify,
    Depends,
    Related,
}

/// The word for a verb.
pub open spec fn verb_word(v: RefVerb) -> Seq<char> {
    match v {
        RefVerb::Define => "define"@,
        RefVerb::Impl => "impl"@,
        RefVerb::Verify => "verify"@,
        RefVerb::Depends => "depends"@,
        RefVerb::Related => "related"@,
    }
}

/// The verb that a word names.
pub open spec fn named_verb(s: Seq<char>) -> Option<RefVerb> {
    if s == "define"@ {
        Some(RefVerb::Define)
    } else if s == "impl"@ {
        Some(RefVerb::Impl)
    } else if s == "verify"@ {
        Some(RefVerb::Verify)
    } else if s == "depends"@ {
        Some(RefVerb::Depends)
    } else if s == "related"@ {
        Some(RefVerb::Related)
    } else {
        None
    }
}

impl RefVerb {
    pub fn as_str(&self) -> (r: &'static str)
        ensures
            r@ == verb_word(*self),
    {
        match self {
            RefVerb::Define => "define",
            RefVerb::Impl => "impl",
            RefVerb::Verify => "verify",
            RefVerb::Depends => "depends",
            RefVerb::Related => "related",
        }
    }

    /// The verb that a word names.
    pub fn from_word(s: &str) -> (r: Option<RefVerb>)
        ensures
            r == named_verb(s@),
    {
        if crate::text::str_eq(s, "define") {
            Some(RefVerb::Define)
        } else if crate::text::str_eq(s, "impl") {
            Some(RefVerb::Impl)
        } else if crate::text::str_eq(s, "verify") {
            Some(RefVerb::Verify)
        } else if crate::text::str_eq(s, "depends") {
            Some(RefVerb::Depends)
        } else if crate::text::str_eq(s, "related") {
            Some(RefVerb::Related)
        } else {
            None
        }
    }
}

/// A reference to a requirement in a source file.
#[derive(Debug, Clone, PartialEq, Eq)]
pub struct ReqReference {
    pub prefix: String,
    pub verb: RefVerb,
    pub req_id: RuleId,
    pub file: String,
    /// 1-indexed line.
    pub line: usize,
    /// The source range of the whole marker.
    pub span: SourceSpan,
}

/// What a reference says.
#[verifier::ext_equal]
pub struct RefModel {
    pub prefix: Seq<char>,
    pub verb: RefVerb,
    pub req_id: (Seq<char>, u32),
    pub file: Seq<char>,
    pub line: usize,
    pub span: SourceSpan,
}

impl View for ReqReference {
    type V = RefModel;

    open spec fn view(&self) -> RefModel {
        RefModel {
            prefix: self.prefix@,
            verb: self.verb,
            req_id: self.req_id@,
            file: self.file@,
            line: self.line,
            span: self.span,
        }
    }
}

/// Why a marker is no reference.
#[derive(Debug, Clone, PartialEq, Eq)]
pub enum WarningKind {
    /// The marker's first word is no verb.
    UnknownVerb(String),
    /// The marker has a verb but no id that parses.
    MalformedReference,
}

/// What a warning's kind says: the unknown verb, or `None` for a malformed
/// reference.
pub open spec fn unknown_verb(k: WarningKind) -> Option<Seq<char>> {
    match k {
        WarningKind::UnknownVerb(v) => Some(v@),
        WarningKind::MalformedReference => None,
    }
}

/// A marker that could not be read.
#[derive(Debug, Clone, PartialEq, Eq)]
pub struct ParseWarning {
    pub file: String,
    pub line: usize,
    pub span: SourceSpan,
    pub kind: WarningKind,
}

/// What a warning says.
#[verifier::ext_equal]
pub struct WarningModel {
    pub file: Seq<char>,
    pub line: usize,
    pub span: SourceSpan,
    pub unknown_verb: Option<Seq<char>>,
}

impl View for ParseWarning {
    type V = WarningModel;

    open spec fn view(&self) -> WarningModel {
        WarningModel {
            file: self.file@,
            line: self.line,
            span: self.span,
            unknown_verb: unknown_verb(self.kind),
        }
    }
}

/// The references and warnings of one or more files.
#[derive(Debug, Clone, PartialEq, Eq)]
pub struct Reqs {
    pub references: Vec<ReqReference>,
    pub warnings: Vec<ParseWarning>,
}

pub open spec fn ref_models(v: Seq<ReqReference>) -> Seq<RefModel> {
    v.map_values(|r: ReqReference| r@)
}

pub open spec fn warning_models(v: Seq<ParseWarning>) -> Seq<WarningModel> {
    v.map_values(|w: ParseWarning| w@)
}

/// What a collection of references says.
#[verifier::ext_equal]
pub struct ReqsModel {
    pub references: Seq<RefModel>,
    pub warnings: Seq<WarningModel>,
}

impl View for Reqs {
    type V = ReqsModel;

    open spec fn view(&self) -> ReqsModel {
        ReqsModel {
            references: ref_models(self.references@),
            warnings: warning_models(self.warnings@),
        }
    }
}

pub open spec fn no_reqs() -> ReqsModel {
    ReqsModel { references: Seq::empty(), warnings: Seq::empty() }
}

/// Two collections one after the other.
pub open spec fn joined_reqs(a: ReqsModel, b: ReqsModel) -> ReqsModel {
    ReqsModel { references: a.references + b.references, warnings: a.warnings + b.warnings }
}

impl Reqs {
    /// No references and no warnings.
    pub fn new() -> (r: Reqs)
        ensures
            r@ == no_reqs(),
    {
        let r = Reqs { references: Vec::new(), warnings: Vec::new() };
        assert(r@ =~= no_reqs());
        r
    }

    /// The number of references.
    pub fn len(&self) -> (n: usize)
        ensures
            n == self@.references.len(),
    {
        self.references.len()
    }

    /// Appends another collection.
    pub fn extend(&mut self, other: Reqs)
        ensures
            final(self)@ == joined_reqs(old(self)@, other@),
    {
        let ghost before = *self;
        let mut o = other;
        self.references.append(&mut o.references);
        self.warnings.append(&mut o.warnings);
        assert(self@ =~= joined_reqs(before@, other@));
    }
}

impl ReqReference {
    pub fn copy(&self) -> (r: ReqReference)
        ensures
            r@ == self@,
    {
        ReqReference {
            prefix: copy_str(self.prefix.as_str()),
            verb: self.verb,
            req_id: self.req_id.copy(),
            file: copy_str(self.file.as_str()),
            line: self.line,
            span: self.span,
        }
    }
}

} // verus!
