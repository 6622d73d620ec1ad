//! Parsed spec documents.

use vstd::prelude::*;

use crate::requirement::{req_models, ReqDefinition, ReqModel, SourceSpan};
use crate::text::copy_str;

verus! {

/// A heading of a spec document.
#[derive(Debug, Clone, PartialEq, Eq)]
pub struct Heading {
    pub title: String,
    /// The slug for linking.
    pub id: String,
    pub level: u8,
    /// Line number where this heading appears (1-indexed).
    pub line: usize,
}

/// What a heading says.
#[verifier::ext_equal]
pub struct HeadingModel {
    pub title: Seq<char>,
    pub id: Seq<char>,
    pub level: u8,
    pub line: usize,
}

impl View for Heading {
    type V = HeadingModel;

    open spec fn view(&self) -> HeadingModel {
        HeadingModel { title: self.title@, id: self.id@, level: self.level, line: self.line }
    }
}

/// An ordinary paragraph.
#[derive(Debug, Clone, Copy, PartialEq, Eq, Structural)]
pub struct Paragraph {
    /// Line number where the paragraph starts (1-indexed), 0 where unknown.
    pub line: usize,
    pub offset: usize,
}

/// One element of a document, in document order.
#[derive(Debug, Clone, PartialEq, Eq)]
pub enum DocElement {
    Heading(Heading),
    Req(ReqDefinition),
    Paragraph(Paragraph),
}

/// What a document element says.
pub enum ElementModel {
    Heading(HeadingModel),
    Req(ReqModel),
    Paragraph(Paragraph),
}

impl View for DocElement {
    type V = ElementModel;

    open spec fn view(&self) -> ElementModel {
        match self {
            DocElement::Heading(h) => ElementModel::Heading(h@),
            DocElement::Req(r) => ElementModel::Req(r@),
            DocElement::Paragraph(p) => ElementModel::Paragraph(*p),
        }
    }
}

/// An inline code span.
#[derive(Debug, Clone, PartialEq, Eq)]
pub struct InlineCodeSpan {
    /// The text inside the delimiters.
    pub content: String,
    /// The source range of the whole span.
    pub span: SourceSpan,
}

pub open spec fn heading_models(v: Seq<Heading>) -> Seq<HeadingModel> {
    v.map_values(|h: Heading| h@)
}

pub open spec fn element_models(v: Seq<DocElement>) -> Seq<ElementModel> {
    v.map_values(|e: DocElement| e@)
}

pub open spec fn code_spans(v: Seq<InlineCodeSpan>) -> Seq<(Seq<char>, SourceSpan)> {
    v.map_values(|s: InlineCodeSpan| (s.content@, s.span))
}

impl Heading {
    pub fn copy(&self) -> (r: Heading)
        ensures
            r@ == self@,
    {
        Heading {
            title: copy_str(self.title.as_str()),
            id: copy_str(self.id.as_str()),
            level: self.level,
            line: self.line,
        }
    }
}

impl DocElement {
    pub fn copy(&self) -> (r: DocElement)
        ensures
            r@ == self@,
    {
        match self {
            DocElement::Heading(h) => DocElement::Heading(h.copy()),
            DocElement::Req(q) => DocElement::Req(q.copy()),
            DocElement::Paragraph(p) => DocElement::Paragraph(*p),
        }
    }
}

/// A parsed spec document. Every format produces this shape.
#[derive(Debug, Clone, PartialEq, Eq)]
pub struct SpecDoc {
    pub html: String,
    pub headings: Vec<Heading>,
    pub reqs: Vec<ReqDefinition>,
    pub elements: Vec<DocElement>,
    pub inline_code_spans: Vec<InlineCodeSpan>,
}

/// What a parsed document says.
#[verifier::ext_equal]
pub struct DocModel {
    pub html: Seq<char>,
    pub headings: Seq<HeadingModel>,
    pub reqs: Seq<ReqModel>,
    pub elements: Seq<ElementModel>,
    pub inline_code_spans: Seq<(Seq<char>, SourceSpan)>,
}

impl View for SpecDoc {
    type V = DocModel;

    open spec fn view(&self) -> DocModel {
        DocModel {
            html: self.html@,
            headings: heading_models(self.headings@),
            reqs: req_models(self.reqs@),
            elements: element_models(self.elements@),
            inline_code_spans: code_spans(self.inline_code_spans@),
        }
    }
}

} // verus!
