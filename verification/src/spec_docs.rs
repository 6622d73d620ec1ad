//! From parsed spec documents to extracted rules.

use vstd::prelude::*;

use crate::api::{extracted_models, ExtractedModel, ExtractedRule};
use crate::document::{element_models, DocElement, ElementModel, HeadingModel};
use crate::format::{named_format, path_format, SpecFormat};
use crate::markers::{extract_marker_prefix, marker_at, marker_prefix};
use crate::positions::{clamped, line_col, line_col_of, one_based};
use crate::requirement::ReqModel;
use crate::rule_id::RuleId;
use crate::sorted_map::{
    entry_keys, entry_values, first_by_key, first_values, lemma_values_mapped, path_key, path_key_of,
};
use crate::text::{
    char_position, char_position_of, chars_of, concat2, concat3, copy_str, opt_text, texts,
};

verus! {

/// A spec names a syntax that no format has.
#[derive(Debug, Clone, PartialEq, Eq)]
pub struct UnknownSyntax {
    pub name: String,
    /// The file or the spec that it was named for.
    pub subject: String,
}

impl UnknownSyntax {
    /// What is said of it.
    pub fn message(&self) -> (r: String)
        ensures
            r@ == "Unknown `syntax` \""@ + self.name@ + "\" for "@ + self.subject@
                + " — check the `syntax` field in config.styx"@,
    {
        let mut m = concat3("Unknown `syntax` \"", self.name.as_str(), "\" for ");
        m.append(self.subject.as_str());
        m.append(" — check the `syntax` field in config.styx");
        m
    }
}

/// The format of a spec file: the one that the override names, else the one of
/// its extension, else Markdown.
pub open spec fn spec_format(path: Seq<char>, syntax: Option<Seq<char>>) -> Option<SpecFormat> {
    match syntax {
        Some(name) => named_format(name),
        None => match path_format(path) {
            Some(f) => Some(f),
            None => Some(SpecFormat::Markdown),
        },
    }
}

/// Resolve the format for a spec file, honoring an explicit override before
/// falling back to extension inference.
///
/// Errors if the override names no format: silently falling back would hide a
/// config typo behind the wrong parser.
pub fn resolve_spec_format(path: &str, syntax_override: &Option<String>) -> (r: Result<
    SpecFormat,
    UnknownSyntax,
>)
    ensures
        match (r, spec_format(path@, opt_text(*syntax_override))) {
            (Ok(a), Some(b)) => a == b,
            (Err(e), None) => Some(e.name@) == opt_text(*syntax_override) && e.subject@
                == "spec file "@ + path@,
            _ => false,
        },
{
    match syntax_override {
        Some(name) => match SpecFormat::from_name(name.as_str()) {
            Some(f) => Ok(f),
            None => Err(
                UnknownSyntax {
                    name: copy_str(name.as_str()),
                    subject: concat2("spec file ", path),
                },
            ),
        },
        None => match SpecFormat::from_path(path) {
            Some(f) => Ok(f),
            None => Ok(SpecFormat::Markdown),
        },
    }
}

/// The last heading among the first `n` elements.
pub open spec fn heading_before(elements: Seq<ElementModel>, n: int) -> Option<HeadingModel>
    decreases n,
{
    if n <= 0 {
        None
    } else {
        match elements[n - 1] {
            ElementModel::Heading(h) => Some(h),
            _ => heading_before(elements, n - 1),
        }
    }
}

/// The 1-indexed column of the character at a byte offset.
pub open spec fn column_at(content: Seq<char>, offset: int) -> Option<usize> {
    match char_position(content, offset) {
        Some(k) => Some(one_based(clamped(line_col(content, k).1))),
        None => None,
    }
}

/// The rule extracted from a requirement under a heading.
pub open spec fn extracted_rule(
    req: ReqModel,
    heading: Option<HeadingModel>,
    prefix: Seq<char>,
    content: Seq<char>,
    format: SpecFormat,
    source_file: Seq<char>,
) -> ExtractedModel {
    ExtractedModel {
        def: req,
        source_file,
        prefix,
        column: column_at(content, req.marker_span.offset as int),
        section: match heading {
            Some(h) => Some(h.id),
            None => None,
        },
        section_title: match heading {
            Some(h) => Some(h.title),
            None => None,
        },
        format,
    }
}

/// The rules among the first `n` elements of a document; the error is the id
/// of a requirement whose marker has no prefix.
pub open spec fn extracted_rules(
    elements: Seq<ElementModel>,
    n: int,
    content: Seq<char>,
    format: SpecFormat,
    source_file: Seq<char>,
) -> Result<Seq<ExtractedModel>, (Seq<char>, u32)>
    decreases n,
{
    if n <= 0 {
        Ok(Seq::empty())
    } else {
        match extracted_rules(elements, n - 1, content, format, source_file) {
            Err(id) => Err(id),
            Ok(before) => match elements[n - 1] {
                ElementModel::Req(req) => match marker_at(content, req.marker_span) {
                    None => Err(req.id),
                    Some(m) => match marker_prefix(format, m) {
                        None => Err(req.id),
                        Some(prefix) => Ok(
                            before.push(
                                extracted_rule(
                                    req,
                                    heading_before(elements, n - 1),
                                    prefix,
                                    content,
                                    format,
                                    source_file,
                                ),
                            ),
                        ),
                    },
                },
                _ => Ok(before),
            },
        }
    }
}

fn find_column(content: &Vec<char>, offset: usize) -> (r: Option<usize>)
    requires
        crate::text::byte_len(content@) <= isize::MAX,
    ensures
        r == column_at(content@, offset as int),
{
    match char_position_of(content, offset) {
        Some(k) => {
            let col = line_col_of(content, k).1;
            Some((col as usize).saturating_add(1))
        },
        None => None,
    }
}

/// Turn the requirements of a document into extracted rules, each with the
/// heading it stands under and the prefix of its marker. The error is the id of
/// a requirement whose marker has no prefix.
pub fn doc_to_extracted_rules(
    elements: &Vec<DocElement>,
    content: &str,
    format: SpecFormat,
    source_file: &str,
) -> (r: Result<Vec<ExtractedRule>, RuleId>)
    ensures
        match (
            r,
            extracted_rules(
                element_models(elements@),
                elements@.len() as int,
                content@,
                format,
                source_file@,
            ),
        ) {
            (Ok(v), Ok(m)) => extracted_models(v@) == m,
            (Err(e), Err(id)) => e@ == id,
            _ => false,
        },
{
    let ghost es = element_models(elements@);
    let c = chars_of(content);
    let mut out: Vec<ExtractedRule> = Vec::new();
    let mut section: Option<String> = None;
    let mut section_title: Option<String> = None;
    let mut i: usize = 0;
    assert(extracted_models(out@) =~= Seq::<ExtractedModel>::empty());
    while i < elements.len()
        invariant
            i <= elements@.len(),
            es == element_models(elements@),
            c@ == content@,
            crate::text::byte_len(c@) <= isize::MAX,
            extracted_rules(es, i as int, content@, format, source_file@) == Ok::<
                Seq<ExtractedModel>,
                (Seq<char>, u32),
            >(extracted_models(out@)),
            match heading_before(es, i as int) {
                Some(h) => opt_text(section) == Some(h.id) && opt_text(section_title) == Some(
                    h.title,
                ),
                None => section is None && section_title is None,
            },
        decreases elements@.len() - i,
    {
        assert(es[i as int] == elements@[i as int]@);
        match &elements[i] {
            DocElement::Heading(h) => {
                section = Some(copy_str(h.id.as_str()));
                section_title = Some(copy_str(h.title.as_str()));
            },
            DocElement::Req(req) => {
                let prefix = match extract_marker_prefix(format, content, req.marker_span) {
                    Some(p) => p,
                    None => {
                        proof {
                            lemma_rules_error(es, i + 1, elements@.len() as int, content@, format, source_file@);
                        }
                        return Err(req.id.copy());
                    },
                };
                let one = ExtractedRule {
                    def: req.copy(),
                    source_file: copy_str(source_file),
                    prefix,
                    column: find_column(&c, req.marker_span.offset),
                    section: crate::requirement::copy_opt(&section),
                    section_title: crate::requirement::copy_opt(&section_title),
                    format,
                };
                let ghost before = out@;
                out.push(one);
                assert(extracted_models(out@) =~= extracted_models(before).push(one@));
            },
            DocElement::Paragraph(_) => {},
        }
        i = i + 1;
    }
    Ok(out)
}

proof fn lemma_rules_error(
    es: Seq<ElementModel>,
    k: int,
    n: int,
    content: Seq<char>,
    format: SpecFormat,
    source_file: Seq<char>,
)
    requires
        0 <= k <= n,
        extracted_rules(es, k, content, format, source_file) is Err,
    ensures
        extracted_rules(es, n, content, format, source_file) == extracted_rules(
            es,
            k,
            content,
            format,
            source_file,
        ),
    decreases n - k,
{
    if k < n {
        lemma_rules_error(es, k + 1, n, content, format, source_file);
    }
}

/// A spec document that was read, with the `syntax` of the spec it was read for.
pub struct SpecText {
    pub path: String,
    pub content: String,
    pub syntax: Option<String>,
}

impl View for SpecText {
    type V = (Seq<char>, Seq<char>, Option<Seq<char>>);

    open spec fn view(&self) -> (Seq<char>, Seq<char>, Option<Seq<char>>) {
        (self.path@, self.content@, opt_text(self.syntax))
    }
}

pub open spec fn text_models(v: Seq<SpecText>) -> Seq<(Seq<char>, Seq<char>, Option<Seq<char>>)> {
    v.map_values(|t: SpecText| t@)
}

/// Spec documents in the order of the directory tree; of a document that
/// belongs to two specs the first.
pub open spec fn texts_by_path(v: Seq<(Seq<char>, Seq<char>, Option<Seq<char>>)>) -> Seq<
    (Seq<char>, Seq<char>, Option<Seq<char>>),
> {
    first_values(
        v.map_values(|t: (Seq<char>, Seq<char>, Option<Seq<char>>)| path_key(t.0)),
        v,
        v.len() as int,
    )
}

/// Spec documents in the order of the directory tree; of a document that
/// belongs to two specs the first.
pub fn collect_spec_texts(v: Vec<SpecText>) -> (r: Vec<SpecText>)
    ensures
        text_models(r@) == texts_by_path(text_models(v@)),
{
    let ghost ts = text_models(v@);
    let ghost keys = ts.map_values(
        |t: (Seq<char>, Seq<char>, Option<Seq<char>>)| path_key(t.0),
    );
    let ghost f = |t: SpecText| t@;
    let mut entries: Vec<(Vec<String>, SpecText)> = Vec::new();
    for t in it: v
        invariant
            it.seq() == v@,
            ts == text_models(v@),
            keys == ts.map_values(
                |t: (Seq<char>, Seq<char>, Option<Seq<char>>)| path_key(t.0),
            ),
            entries@.len() == it.index(),
            forall|k: int|
                0 <= k < entries@.len() ==> texts((#[trigger] entries@[k]).0@) == keys[k]
                    && entries@[k].1 == v@[k],
    {
        let key = path_key_of(t.path.as_str());
        assert(ts[it.index()] == t@);
        entries.push((key, t));
    }
    proof {
        assert(entry_keys(entries@) =~= keys);
        assert(entry_values(entries@) =~= v@);
        lemma_values_mapped(keys, v@, f, v@.len() as int);
        assert(v@.map_values(f) =~= ts);
    }
    let r = first_by_key(entries);
    assert(text_models(r@) =~= r@.map_values(f));
    r
}

} // verus!
