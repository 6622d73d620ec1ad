//! Coverage data as it is handed to dashboards and editors.

use vstd::prelude::*;

use crate::format::SpecFormat;
use crate::requirement::{copy_opt, ReqDefinition, ReqModel};
use crate::rule_id::{id_views, RuleId};
use crate::text::{copy_str, opt_text, texts};

verus! {

/// A place in source code.
#[derive(Debug, Clone, PartialEq, Eq)]
pub struct ApiCodeRef {
    pub file: String,
    pub line: usize,
}

impl View for ApiCodeRef {
    type V = (Seq<char>, usize);

    open spec fn view(&self) -> (Seq<char>, usize) {
        (self.file@, self.line)
    }
}

/// A reference to an older version of a rule.
#[derive(Debug, Clone, PartialEq, Eq)]
pub struct ApiStaleRef {
    pub file: String,
    pub line: usize,
    pub reference_id: RuleId,
}

impl View for ApiStaleRef {
    type V = (Seq<char>, usize, (Seq<char>, u32));

    open spec fn view(&self) -> (Seq<char>, usize, (Seq<char>, u32)) {
        (self.file@, self.line, self.reference_id@)
    }
}

pub open spec fn code_refs(v: Seq<ApiCodeRef>) -> Seq<(Seq<char>, usize)> {
    v.map_values(|r: ApiCodeRef| r@)
}

pub open spec fn stale_ref_views(v: Seq<ApiStaleRef>) -> Seq<(Seq<char>, usize, (Seq<char>, u32))> {
    v.map_values(|r: ApiStaleRef| r@)
}

/// A rule with the places in source code that refer to it.
#[derive(Debug, Clone, PartialEq, Eq)]
pub struct ApiRule {
    pub id: RuleId,
    pub raw: String,
    pub html: String,
    pub status: Option<String>,
    pub level: Option<String>,
    pub source_file: Option<String>,
    pub format: SpecFormat,
    pub source_line: Option<usize>,
    pub source_column: Option<usize>,
    pub section: Option<String>,
    pub section_title: Option<String>,
    pub impl_refs: Vec<ApiCodeRef>,
    pub verify_refs: Vec<ApiCodeRef>,
    pub depends_refs: Vec<ApiCodeRef>,
    pub is_stale: bool,
    pub stale_refs: Vec<ApiStaleRef>,
}

/// What a rule says.
#[verifier::ext_equal]
pub struct RuleModel {
    pub id: (Seq<char>, u32),
    pub raw: Seq<char>,
    pub html: Seq<char>,
    pub status: Option<Seq<char>>,
    pub level: Option<Seq<char>>,
    pub source_file: Option<Seq<char>>,
    pub format: SpecFormat,
    pub source_line: Option<usize>,
    pub source_column: Option<usize>,
    pub section: Option<Seq<char>>,
    pub section_title: Option<Seq<char>>,
    pub impl_refs: Seq<(Seq<char>, usize)>,
    pub verify_refs: Seq<(Seq<char>, usize)>,
    pub depends_refs: Seq<(Seq<char>, usize)>,
    pub is_stale: bool,
    pub stale_refs: Seq<(Seq<char>, usize, (Seq<char>, u32))>,
}

impl View for ApiRule {
    type V = RuleModel;

    open spec fn view(&self) -> RuleModel {
        RuleModel {
            id: self.id@,
            raw: self.raw@,
            html: self.html@,
            status: opt_text(self.status),
            level: opt_text(self.level),
            source_file: opt_text(self.source_file),
            format: self.format,
            source_line: self.source_line,
            source_column: self.source_column,
            section: opt_text(self.section),
            section_title: opt_text(self.section_title),
            impl_refs: code_refs(self.impl_refs@),
            verify_refs: code_refs(self.verify_refs@),
            depends_refs: code_refs(self.depends_refs@),
            is_stale: self.is_stale,
            stale_refs: stale_ref_views(self.stale_refs@),
        }
    }
}

pub open spec fn rule_models(v: Seq<ApiRule>) -> Seq<RuleModel> {
    v.map_values(|r: ApiRule| r@)
}

/// The ids of rules.
pub open spec fn rule_ids(v: Seq<RuleModel>) -> Seq<(Seq<char>, u32)> {
    v.map_values(|r: RuleModel| r.id)
}

/// All rules of a spec, seen from one implementation.
#[derive(Debug, Clone, PartialEq, Eq)]
pub struct ApiSpecForward {
    pub name: String,
    pub rules: Vec<ApiRule>,
}

/// A specification and an implementation of it.
#[derive(Debug, Clone, PartialEq, Eq)]
pub struct ImplKey {
    pub spec_name: String,
    pub impl_name: String,
}

impl View for ImplKey {
    type V = (Seq<char>, Seq<char>);

    open spec fn view(&self) -> (Seq<char>, Seq<char>) {
        (self.spec_name@, self.impl_name@)
    }
}

impl ImplKey {
    pub fn copy(&self) -> (r: ImplKey)
        ensures
            r@ == self@,
    {
        ImplKey {
            spec_name: copy_str(self.spec_name.as_str()),
            impl_name: copy_str(self.impl_name.as_str()),
        }
    }
}

/// The rules of each implementation, in the order of the keys.
pub open spec fn forward_models(v: Seq<(ImplKey, ApiSpecForward)>) -> Seq<
    ((Seq<char>, Seq<char>), Seq<RuleModel>),
> {
    v.map_values(|f: (ImplKey, ApiSpecForward)| (f.0@, rule_models(f.1.rules@)))
}

/// How much of a file's code is covered.
#[derive(Debug, Clone, PartialEq, Eq)]
pub struct ApiFileEntry {
    pub path: String,
    pub total_units: usize,
    pub covered_units: usize,
}

impl View for ApiFileEntry {
    type V = (Seq<char>, usize, usize);

    open spec fn view(&self) -> (Seq<char>, usize, usize) {
        (self.path@, self.total_units, self.covered_units)
    }
}

pub open spec fn file_entries(v: Seq<ApiFileEntry>) -> Seq<(Seq<char>, usize, usize)> {
    v.map_values(|f: ApiFileEntry| f@)
}

/// How much of an implementation's code is covered.
#[derive(Debug, Clone, PartialEq, Eq)]
pub struct ApiReverseData {
    pub total_units: usize,
    pub covered_units: usize,
    pub files: Vec<ApiFileEntry>,
}

/// A specification as it is configured.
#[derive(Debug, Clone, PartialEq, Eq)]
pub struct ApiSpecInfo {
    pub name: String,
    pub prefix: String,
    pub source: Option<String>,
    pub source_url: Option<String>,
    pub implementations: Vec<String>,
}

/// What a configured specification says.
#[verifier::ext_equal]
pub struct SpecInfoModel {
    pub name: Seq<char>,
    pub prefix: Seq<char>,
    pub source: Option<Seq<char>>,
    pub source_url: Option<Seq<char>>,
    pub implementations: Seq<Seq<char>>,
}

impl View for ApiSpecInfo {
    type V = SpecInfoModel;

    open spec fn view(&self) -> SpecInfoModel {
        SpecInfoModel {
            name: self.name@,
            prefix: self.prefix@,
            source: opt_text(self.source),
            source_url: opt_text(self.source_url),
            implementations: texts(self.implementations@),
        }
    }
}

pub open spec fn spec_infos(v: Seq<ApiSpecInfo>) -> Seq<SpecInfoModel> {
    v.map_values(|s: ApiSpecInfo| s@)
}

/// The configured project.
#[derive(Debug, Clone, PartialEq, Eq)]
pub struct ApiConfig {
    pub project_root: String,
    pub specs: Vec<ApiSpecInfo>,
}

/// A unit of code (a function, a type), with the requirements it refers to.
#[derive(Debug, Clone, PartialEq, Eq)]
pub struct CodeUnit {
    pub kind: String,
    pub name: Option<String>,
    pub start_line: usize,
    pub end_line: usize,
    pub req_refs: Vec<String>,
}

/// A requirement with the file it was found in.
#[derive(Debug, Clone, PartialEq, Eq)]
pub struct ExtractedRule {
    pub def: ReqDefinition,
    pub source_file: String,
    pub prefix: String,
    pub column: Option<usize>,
    pub section: Option<String>,
    pub section_title: Option<String>,
    pub format: SpecFormat,
}

/// What an extracted rule says.
#[verifier::ext_equal]
pub struct ExtractedModel {
    pub def: ReqModel,
    pub source_file: Seq<char>,
    pub prefix: Seq<char>,
    pub column: Option<usize>,
    pub section: Option<Seq<char>>,
    pub section_title: Option<Seq<char>>,
    pub format: SpecFormat,
}

impl View for ExtractedRule {
    type V = ExtractedModel;

    open spec fn view(&self) -> ExtractedModel {
        ExtractedModel {
            def: self.def@,
            source_file: self.source_file@,
            prefix: self.prefix@,
            column: self.column,
            section: opt_text(self.section),
            section_title: opt_text(self.section_title),
            format: self.format,
        }
    }
}

pub open spec fn extracted_models(v: Seq<ExtractedRule>) -> Seq<ExtractedModel> {
    v.map_values(|r: ExtractedRule| r@)
}

/// What kind of problem a validation error reports.
#[derive(Debug, Clone, Copy, PartialEq, Eq, Structural)]
pub enum ValidationErrorCode {
    CircularDependency,
    InvalidNaming,
    UnknownRequirement,
    DuplicateRequirement,
    UnknownPrefix,
    ImplInTestFile,
    StaleRequirement,
    IncludeUnparseableFile,
}

/// A problem that validation found.
#[derive(Debug, Clone, PartialEq, Eq)]
pub struct ValidationError {
    pub code: ValidationErrorCode,
    pub message: String,
    pub file: Option<String>,
    pub line: Option<usize>,
    pub column: Option<usize>,
    pub related_rules: Vec<RuleId>,
    pub reference_rule_id: Option<RuleId>,
    pub reference_text: Option<String>,
}

/// What a validation error says.
#[verifier::ext_equal]
pub struct ErrorModel {
    pub code: ValidationErrorCode,
    pub message: Seq<char>,
    pub file: Option<Seq<char>>,
    pub line: Option<usize>,
    pub column: Option<usize>,
    pub related_rules: Seq<(Seq<char>, u32)>,
    pub reference_rule_id: Option<(Seq<char>, u32)>,
    pub reference_text: Option<Seq<char>>,
}

impl View for ValidationError {
    type V = ErrorModel;

    open spec fn view(&self) -> ErrorModel {
        ErrorModel {
            code: self.code,
            message: self.message@,
            file: opt_text(self.file),
            line: self.line,
            column: self.column,
            related_rules: id_views(self.related_rules@),
            reference_rule_id: crate::rule_id::opt_id(self.reference_rule_id),
            reference_text: opt_text(self.reference_text),
        }
    }
}

pub open spec fn error_models(v: Seq<ValidationError>) -> Seq<ErrorModel> {
    v.map_values(|e: ValidationError| e@)
}

/// What validation found for one implementation.
#[derive(Debug, Clone, PartialEq, Eq)]
pub struct ValidationResult {
    pub spec_name: String,
    pub impl_name: String,
    pub errors: Vec<ValidationError>,
    pub warning_count: usize,
    pub error_count: usize,
}

/// A diagnostic for an editor, with 0-indexed positions.
#[derive(Debug, Clone, PartialEq, Eq)]
pub struct LspDiagnostic {
    pub severity: String,
    pub code: String,
    pub message: String,
    pub start_line: u32,
    pub start_char: u32,
    pub end_line: u32,
    pub end_char: u32,
}

/// What a diagnostic says.
#[verifier::ext_equal]
pub struct DiagnosticModel {
    pub severity: Seq<char>,
    pub code: Seq<char>,
    pub message: Seq<char>,
    pub range: (u32, u32, u32, u32),
}

impl View for LspDiagnostic {
    type V = DiagnosticModel;

    open spec fn view(&self) -> DiagnosticModel {
        DiagnosticModel {
            severity: self.severity@,
            code: self.code@,
            message: self.message@,
            range: (self.start_line, self.start_char, self.end_line, self.end_char),
        }
    }
}

pub open spec fn diagnostic_models(v: Seq<LspDiagnostic>) -> Seq<DiagnosticModel> {
    v.map_values(|d: LspDiagnostic| d@)
}

/// The diagnostics of one file.
#[derive(Debug, Clone, PartialEq, Eq)]
pub struct LspFileDiagnostics {
    pub path: String,
    pub diagnostics: Vec<LspDiagnostic>,
}

impl View for LspFileDiagnostics {
    type V = (Seq<char>, Seq<DiagnosticModel>);

    open spec fn view(&self) -> (Seq<char>, Seq<DiagnosticModel>) {
        (self.path@, diagnostic_models(self.diagnostics@))
    }
}

pub open spec fn file_diagnostics(v: Seq<LspFileDiagnostics>) -> Seq<
    (Seq<char>, Seq<DiagnosticModel>),
> {
    v.map_values(|d: LspFileDiagnostics| d@)
}

impl ApiCodeRef {
    pub fn copy(&self) -> (r: ApiCodeRef)
        ensures
            r@ == self@,
    {
        ApiCodeRef { file: copy_str(self.file.as_str()), line: self.line }
    }
}

impl ApiStaleRef {
    pub fn copy(&self) -> (r: ApiStaleRef)
        ensures
            r@ == self@,
    {
        ApiStaleRef {
            file: copy_str(self.file.as_str()),
            line: self.line,
            reference_id: self.reference_id.copy(),
        }
    }
}

pub fn copy_code_refs(v: &Vec<ApiCodeRef>) -> (r: Vec<ApiCodeRef>)
    ensures
        code_refs(r@) == code_refs(v@),
{
    let mut out: Vec<ApiCodeRef> = Vec::new();
    let mut i: usize = 0;
    while i < v.len()
        invariant
            i <= v@.len(),
            out@.len() == i,
            forall|k: int| 0 <= k < i ==> (#[trigger] out@[k])@ == v@[k]@,
        decreases v@.len() - i,
    {
        out.push(v[i].copy());
        i = i + 1;
    }
    assert(code_refs(out@) =~= code_refs(v@));
    out
}

fn copy_stale_refs(v: &Vec<ApiStaleRef>) -> (r: Vec<ApiStaleRef>)
    ensures
        stale_ref_views(r@) == stale_ref_views(v@),
{
    let mut out: Vec<ApiStaleRef> = Vec::new();
    let mut i: usize = 0;
    while i < v.len()
        invariant
            i <= v@.len(),
            out@.len() == i,
            forall|k: int| 0 <= k < i ==> (#[trigger] out@[k])@ == v@[k]@,
        decreases v@.len() - i,
    {
        out.push(v[i].copy());
        i = i + 1;
    }
    assert(stale_ref_views(out@) =~= stale_ref_views(v@));
    out
}

impl ApiRule {
    pub fn copy(&self) -> (r: ApiRule)
        ensures
            r@ == self@,
    {
        ApiRule {
            id: self.id.copy(),
            raw: copy_str(self.raw.as_str()),
            html: copy_str(self.html.as_str()),
            status: copy_opt(&self.status),
            level: copy_opt(&self.level),
            source_file: copy_opt(&self.source_file),
            format: self.format,
            source_line: self.source_line,
            source_column: self.source_column,
            section: copy_opt(&self.section),
            section_title: copy_opt(&self.section_title),
            impl_refs: copy_code_refs(&self.impl_refs),
            verify_refs: copy_code_refs(&self.verify_refs),
            depends_refs: copy_code_refs(&self.depends_refs),
            is_stale: self.is_stale,
            stale_refs: copy_stale_refs(&self.stale_refs),
        }
    }
}

impl ExtractedRule {
    pub fn copy(&self) -> (r: ExtractedRule)
        ensures
            r@ == self@,
    {
        ExtractedRule {
            def: self.def.copy(),
            source_file: copy_str(self.source_file.as_str()),
            prefix: copy_str(self.prefix.as_str()),
            column: self.column,
            section: copy_opt(&self.section),
            section_title: copy_opt(&self.section_title),
            format: self.format,
        }
    }
}

} // verus!
