//! Requirement containers and coverage badges.

use vstd::prelude::*;

use crate::api::{code_refs, copy_code_refs, rule_models, ApiCodeRef, ApiRule, RuleModel};
use crate::bindings::{char_is_alphanumeric, unicode_alphanumeric};
use crate::html::{escaped, html_escape};
use crate::languages::{devicon_for_ext, registered_devicon};
use crate::numbers::{decimal, decimal_of_usize};
use crate::requirement::{ReqDefinition, ReqModel};
use crate::rule_id::rule_text;
use crate::slugs::{anchor_id, req_anchor_id};
use crate::split::{replace_all, replaced_from};
use crate::text::{
    chars_of, copy_str, ends_with_str, has_prefix, has_suffix, opt_text, rfind_char, rfind_char_in,
    starts_with_str, str_eq, sub_string, trim, trimmed,
};

verus! {

/// How well a rule is covered.
#[derive(Debug, Clone, Copy, PartialEq, Eq, Structural)]
pub enum CoverageStatus {
    Covered,
    Partial,
    Stale,
    Uncovered,
}

/// The word for a coverage status.
pub open spec fn coverage_word(s: CoverageStatus) -> Seq<char> {
    match s {
        CoverageStatus::Covered => "covered"@,
        CoverageStatus::Partial => "partial"@,
        CoverageStatus::Stale => "stale"@,
        CoverageStatus::Uncovered => "uncovered"@,
    }
}

impl CoverageStatus {
    pub fn as_str(&self) -> (r: &'static str)
        ensures
            r@ == coverage_word(*self),
    {
        match self {
            CoverageStatus::Covered => "covered",
            CoverageStatus::Partial => "partial",
            CoverageStatus::Stale => "stale",
            CoverageStatus::Uncovered => "uncovered",
        }
    }
}

/// Coverage of a rule.
#[derive(Debug, Clone, PartialEq, Eq)]
pub struct RuleCoverage {
    pub status: CoverageStatus,
    pub impl_refs: Vec<ApiCodeRef>,
    pub verify_refs: Vec<ApiCodeRef>,
}

/// What a rule's coverage says.
#[verifier::ext_equal]
pub struct CoverageModel {
    pub status: CoverageStatus,
    pub impl_refs: Seq<(Seq<char>, usize)>,
    pub verify_refs: Seq<(Seq<char>, usize)>,
}

impl View for RuleCoverage {
    type V = CoverageModel;

    open spec fn view(&self) -> CoverageModel {
        CoverageModel {
            status: self.status,
            impl_refs: code_refs(self.impl_refs@),
            verify_refs: code_refs(self.verify_refs@),
        }
    }
}

/// The status of a rule: stale where it has a stale reference, covered where
/// it is implemented and verified, partial where it is one of the two.
pub open spec fn rule_status(r: RuleModel) -> CoverageStatus {
    if r.is_stale {
        CoverageStatus::Stale
    } else if r.impl_refs.len() > 0 && r.verify_refs.len() > 0 {
        CoverageStatus::Covered
    } else if r.impl_refs.len() > 0 || r.verify_refs.len() > 0 {
        CoverageStatus::Partial
    } else {
        CoverageStatus::Uncovered
    }
}

/// The coverage of a rule.
pub open spec fn rule_coverage(r: RuleModel) -> CoverageModel {
    CoverageModel { status: rule_status(r), impl_refs: r.impl_refs, verify_refs: r.verify_refs }
}

/// The coverage of the rule that a text names: that of the last such rule.
pub open spec fn coverage_of(rules: Seq<RuleModel>, text: Seq<char>) -> Option<CoverageModel>
    decreases rules.len(),
{
    if rules.len() == 0 {
        None
    } else if rule_text(rules.last().id) == text {
        Some(rule_coverage(rules.last()))
    } else {
        coverage_of(rules.drop_last(), text)
    }
}

/// The coverage of a rule.
pub fn coverage_of_rule(r: &ApiRule) -> (c: RuleCoverage)
    ensures
        c@ == rule_coverage(r@),
{
    let has_impl = r.impl_refs.len() > 0;
    let has_verify = r.verify_refs.len() > 0;
    proof {
        assert(r@.impl_refs.len() == r.impl_refs@.len());
        assert(r@.verify_refs.len() == r.verify_refs@.len());
    }
    let status = if r.is_stale {
        CoverageStatus::Stale
    } else if has_impl && has_verify {
        CoverageStatus::Covered
    } else if has_impl || has_verify {
        CoverageStatus::Partial
    } else {
        CoverageStatus::Uncovered
    };
    RuleCoverage {
        status,
        impl_refs: copy_code_refs(&r.impl_refs),
        verify_refs: copy_code_refs(&r.verify_refs),
    }
}

/// The coverage of the rule that a text names.
pub fn find_coverage(rules: &Vec<ApiRule>, text: &str) -> (c: Option<RuleCoverage>)
    ensures
        match (c, coverage_of(rule_models(rules@), text@)) {
            (Some(a), Some(b)) => a@ == b,
            (None, None) => true,
            _ => false,
        },
{
    let ghost ms = rule_models(rules@);
    let mut i: usize = rules.len();
    assert(ms.take(i as int) =~= ms);
    while i > 0
        invariant
            i <= rules@.len(),
            ms == rule_models(rules@),
            coverage_of(ms, text@) == coverage_of(ms.take(i as int), text@),
        decreases i,
    {
        assert(ms.take(i as int).drop_last() =~= ms.take(i - 1));
        assert(ms.take(i as int).last() == rules@[i - 1]@);
        let t = rules[i - 1].id.text();
        if str_eq(t.as_str(), text) {
            return Some(coverage_of_rule(&rules[i - 1]));
        }
        i = i - 1;
    }
    None
}

/// What follows the last `c`, or the whole text.
pub open spec fn after_last(s: Seq<char>, c: char) -> Seq<char> {
    match rfind_char(s, c) {
        Some(i) => s.skip(i + 1),
        None => s,
    }
}

/// What follows the last `c`, or the whole text.
pub fn text_after_last(s: &str, c: char) -> (r: String)
    ensures
        r@ == after_last(s@, c),
{
    let v = chars_of(s);
    match rfind_char_in(&v, c) {
        Some(i) => {
            let r = sub_string(&v, i + 1, v.len());
            assert(v@.subrange(i + 1, v@.len() as int) =~= v@.skip(i + 1));
            r
        },
        None => copy_str(s),
    }
}

/// The icon class of a file.
pub open spec fn devicon(path: Seq<char>) -> Option<Seq<char>> {
    let ext = after_last(path, '.');
    if registered_devicon(ext) is Some {
        registered_devicon(ext)
    } else if ext == "hh"@ || ext == "hxx"@ {
        Some("devicon-cplusplus-plain"@)
    } else if ext == "js"@ || ext == "mjs"@ || ext == "cjs"@ || ext == "jsx"@ {
        Some("devicon-javascript-plain"@)
    } else if ext == "ts"@ || ext == "mts"@ || ext == "cts"@ || ext == "tsx"@ {
        Some("devicon-typescript-plain"@)
    } else if ext == "vue"@ {
        Some("devicon-vuejs-plain"@)
    } else if ext == "svelte"@ {
        Some("devicon-svelte-plain"@)
    } else if ext == "kt"@ || ext == "kts"@ {
        Some("devicon-kotlin-plain"@)
    } else if ext == "scala"@ {
        Some("devicon-scala-plain"@)
    } else if ext == "groovy"@ {
        Some("devicon-groovy-plain"@)
    } else if ext == "zig"@ {
        Some("devicon-zig-original"@)
    } else if ext == "json"@ {
        Some("devicon-json-plain"@)
    } else if ext == "yaml"@ || ext == "yml"@ {
        Some("devicon-yaml-plain"@)
    } else if ext == "toml"@ {
        Some("devicon-toml-plain"@)
    } else if ext == "xml"@ {
        Some("devicon-xml-plain"@)
    } else if ext == "sql"@ {
        Some("devicon-postgresql-plain"@)
    } else if ext == "html"@ || ext == "htm"@ {
        Some("devicon-html5-plain"@)
    } else if ext == "css"@ {
        Some("devicon-css3-plain"@)
    } else if ext == "scss"@ || ext == "sass"@ {
        Some("devicon-sass-original"@)
    } else if ext == "md"@ || ext == "markdown"@ {
        Some("devicon-markdown-original"@)
    } else if ext == "typ"@ {
        Some("devicon-latex-original"@)
    } else {
        None
    }
}

/// Get devicon class for a file path based on extension.
///
/// Consults the language registry first; the rest covers only extensions that
/// the registry doesn't carry: file types that are no source code, and the
/// languages whose extensions have different icons.
pub fn devicon_class(path: &str) -> (r: Option<&'static str>)
    ensures
        match (r, devicon(path@)) {
            (Some(a), Some(b)) => a@ == b,
            (None, None) => true,
            _ => false,
        },
{
    let owned = text_after_last(path, '.');
    let ext = owned.as_str();
    let registered = devicon_for_ext(ext);
    if registered.is_some() {
        return registered;
    }
    if str_eq(ext, "hh") || str_eq(ext, "hxx") {
        Some("devicon-cplusplus-plain")
    } else if str_eq(ext, "js") || str_eq(ext, "mjs") || str_eq(ext, "cjs") || str_eq(ext, "jsx") {
        Some("devicon-javascript-plain")
    } else if str_eq(ext, "ts") || str_eq(ext, "mts") || str_eq(ext, "cts") || str_eq(ext, "tsx") {
        Some("devicon-typescript-plain")
    } else if str_eq(ext, "vue") {
        Some("devicon-vuejs-plain")
    } else if str_eq(ext, "svelte") {
        Some("devicon-svelte-plain")
    } else if str_eq(ext, "kt") || str_eq(ext, "kts") {
        Some("devicon-kotlin-plain")
    } else if str_eq(ext, "scala") {
        Some("devicon-scala-plain")
    } else if str_eq(ext, "groovy") {
        Some("devicon-groovy-plain")
    } else if str_eq(ext, "zig") {
        Some("devicon-zig-original")
    } else if str_eq(ext, "json") {
        Some("devicon-json-plain")
    } else if str_eq(ext, "yaml") || str_eq(ext, "yml") {
        Some("devicon-yaml-plain")
    } else if str_eq(ext, "toml") {
        Some("devicon-toml-plain")
    } else if str_eq(ext, "xml") {
        Some("devicon-xml-plain")
    } else if str_eq(ext, "sql") {
        Some("devicon-postgresql-plain")
    } else if str_eq(ext, "html") || str_eq(ext, "htm") {
        Some("devicon-html5-plain")
    } else if str_eq(ext, "css") {
        Some("devicon-css3-plain")
    } else if str_eq(ext, "scss") || str_eq(ext, "sass") {
        Some("devicon-sass-original")
    } else if str_eq(ext, "md") || str_eq(ext, "markdown") {
        Some("devicon-markdown-original")
    } else if str_eq(ext, "typ") {
        Some("devicon-latex-original")
    } else {
        None
    }
}

/// A place as a JSON object.
pub open spec fn ref_json(r: (Seq<char>, usize)) -> Seq<char> {
    let file = replaced_from(replaced_from(r.0, "\\"@, "\\\\"@, 0), "\""@, "\\\""@, 0);
    "{\"file\":\""@ + file + "\",\"line\":"@ + decimal(r.1 as nat) + "}"@
}

/// The first `n` places as JSON objects, separated by commas.
pub open spec fn refs_json(refs: Seq<(Seq<char>, usize)>, n: int) -> Seq<char>
    decreases n,
{
    if n <= 0 {
        Seq::empty()
    } else if n == 1 {
        ref_json(refs[0])
    } else {
        refs_json(refs, n - 1) + ","@ + ref_json(refs[n - 1])
    }
}

/// All places as a JSON array that can stand in an attribute.
pub open spec fn refs_attribute(refs: Seq<(Seq<char>, usize)>) -> Seq<char> {
    replaced_from("["@ + refs_json(refs, refs.len() as int) + "]"@, "\""@, "&quot;"@, 0)
}

fn ref_json_of(r: &ApiCodeRef) -> (s: String)
    ensures
        s@ == ref_json(r@),
{
    proof {
        reveal_strlit("\\");
        reveal_strlit("\"");
    }
    let a = replace_all(r.file.as_str(), "\\", "\\\\");
    let b = replace_all(a.as_str(), "\"", "\\\"");
    let mut out = copy_str("{\"file\":\"");
    out.append(b.as_str());
    out.append("\",\"line\":");
    let n = decimal_of_usize(r.line);
    out.append(n.as_str());
    out.append("}");
    out
}

fn refs_attribute_of(refs: &Vec<ApiCodeRef>) -> (s: String)
    ensures
        s@ == refs_attribute(code_refs(refs@)),
{
    let ghost rs = code_refs(refs@);
    let mut body = String::new();
    let mut i: usize = 0;
    assert(body@ =~= refs_json(rs, 0));
    while i < refs.len()
        invariant
            i <= refs@.len(),
            rs == code_refs(refs@),
            body@ == refs_json(rs, i as int),
        decreases refs@.len() - i,
    {
        let one = ref_json_of(&refs[i]);
        assert(one@ == ref_json(rs[i as int]));
        if i > 0 {
            body.append(",");
            body.append(one.as_str());
        } else {
            body.append(one.as_str());
            assert(body@ =~= one@);
        }
        i = i + 1;
    }
    let mut all = copy_str("[");
    all.append(body.as_str());
    all.append("]");
    proof {
        reveal_strlit("\"");
    }
    replace_all(all.as_str(), "\"", "&quot;")
}

/// The badge for a rule's places in code: it links to the first and carries
/// all of them.
pub open spec fn ref_badge(
    refs: Seq<(Seq<char>, usize)>,
    class: Seq<char>,
    title: Seq<char>,
    spec_name: Seq<char>,
    impl_name: Seq<char>,
) -> Seq<char> {
    if refs.len() == 0 {
        Seq::empty()
    } else {
        let file = refs[0].0;
        let line = decimal(refs[0].1 as nat);
        let icon = match devicon(file) {
            Some(c) => "<i class=\""@ + c + "\"></i> "@,
            None => Seq::empty(),
        };
        let more = if refs.len() > 1 {
            " +"@ + decimal((refs.len() - 1) as nat)
        } else {
            Seq::empty()
        };
        "<a class=\"req-badge "@ + class + "\" href=\"/"@ + spec_name + "/"@ + impl_name
            + "/sources/"@ + file + ":"@ + line + "\" data-file=\""@ + file + "\" data-line=\""@
            + line + "\" data-all-refs=\""@ + refs_attribute(refs) + "\" title=\""@ + title + ": "@
            + file + ":"@ + line + "\">"@ + icon + after_last(file, '/') + ":"@ + line + more
            + "</a>"@
    }
}

fn push_ref_badge(
    out: &mut String,
    refs: &Vec<ApiCodeRef>,
    class: &str,
    title: &str,
    spec_name: &str,
    impl_name: &str,
)
    ensures
        final(out)@ == old(out)@ + ref_badge(
            code_refs(refs@),
            class@,
            title@,
            spec_name@,
            impl_name@,
        ),
{
    let ghost rs = code_refs(refs@);
    if refs.len() == 0 {
        assert(rs.len() == 0);
        assert(out@ + Seq::<char>::empty() =~= out@);
        return;
    }
    assert(rs[0] == refs@[0]@);
    let file = refs[0].file.as_str();
    let line = decimal_of_usize(refs[0].line);
    let mut b = copy_str("<a class=\"req-badge ");
    b.append(class);
    b.append("\" href=\"/");
    b.append(spec_name);
    b.append("/");
    b.append(impl_name);
    b.append("/sources/");
    b.append(file);
    b.append(":");
    b.append(line.as_str());
    b.append("\" data-file=\"");
    b.append(file);
    b.append("\" data-line=\"");
    b.append(line.as_str());
    b.append("\" data-all-refs=\"");
    let all = refs_attribute_of(refs);
    b.append(all.as_str());
    b.append("\" title=\"");
    b.append(title);
    b.append(": ");
    b.append(file);
    b.append(":");
    b.append(line.as_str());
    b.append("\">");
    let mut icon = String::new();
    match devicon_class(file) {
        Some(c) => {
            icon = copy_str("<i class=\"");
            icon.append(c);
            icon.append("\"></i> ");
        },
        None => {},
    }
    b.append(icon.as_str());
    let name = text_after_last(file, '/');
    b.append(name.as_str());
    b.append(":");
    b.append(line.as_str());
    let mut more = String::new();
    if refs.len() > 1 {
        more = copy_str(" +");
        let n = decimal_of_usize(refs.len() - 1);
        more.append(n.as_str());
    }
    b.append(more.as_str());
    b.append("</a>");
    out.append(b.as_str());
}

/// The badge with a rule's id: a copy button and a link to the rule itself.
pub open spec fn id_badge(
    rule: ReqModel,
    source_file: Seq<char>,
    spec_name: Seq<char>,
    impl_name: Seq<char>,
) -> Seq<char> {
    let id = rule_text(rule.id);
    "<div class=\"req-badge-group\"><button class=\"req-badge req-copy req-segment-left\" data-req-id=\""@
        + id
        + "\" title=\"Copy requirement ID\"><svg class=\"req-copy-icon\" width=\"12\" height=\"12\" viewBox=\"0 0 24 24\" fill=\"none\" stroke=\"currentColor\" stroke-width=\"2\" stroke-linecap=\"round\" stroke-linejoin=\"round\"><rect x=\"9\" y=\"9\" width=\"13\" height=\"13\" rx=\"2\" ry=\"2\"></rect><path d=\"M5 15H4a2 2 0 0 1-2-2V4a2 2 0 0 1 2-2h9a2 2 0 0 1 2 2v1\"></path></svg></button><a class=\"req-badge req-id req-segment-right\" href=\"/"@
        + spec_name + "/"@ + impl_name + "/spec#"@ + rule.anchor_id + "\" data-rule=\""@ + id
        + "\" data-source-file=\""@ + source_file + "\" data-source-line=\""@ + decimal(
        rule.line as nat,
    ) + "\" title=\""@ + id + "\">"@ + replaced_from(id, "."@, ".<wbr>"@, 0) + "</a></div>"@
}

/// The opening HTML of a requirement's container, with its badges.
pub open spec fn container_open(
    rule: ReqModel,
    coverage: Option<CoverageModel>,
    source_file: Seq<char>,
    spec_name: Seq<char>,
    impl_name: Seq<char>,
) -> Seq<char> {
    let status = match coverage {
        Some(c) => c.status,
        None => CoverageStatus::Uncovered,
    };
    let badges = match coverage {
        Some(c) => id_badge(rule, source_file, spec_name, impl_name) + ref_badge(
            c.impl_refs,
            "req-impl"@,
            "Implementation"@,
            spec_name,
            impl_name,
        ) + ref_badge(c.verify_refs, "req-test"@, "Test"@, spec_name, impl_name),
        None => id_badge(rule, source_file, spec_name, impl_name),
    };
    "<div class=\"req-container req-"@ + coverage_word(status) + "\" id=\""@ + rule.anchor_id
        + "\">\n<div class=\"req-badges-left\">"@ + badges
        + "</div>\n<div class=\"req-content\">"@
}

fn id_badge_of(rule: &ReqDefinition, source_file: &str, spec_name: &str, impl_name: &str) -> (r: String)
    ensures
        r@ == id_badge(rule@, source_file@, spec_name@, impl_name@),
{
    let id = rule.id.text();
    let mut b = copy_str(
        "<div class=\"req-badge-group\"><button class=\"req-badge req-copy req-segment-left\" data-req-id=\"",
    );
    b.append(id.as_str());
    b.append(
        "\" title=\"Copy requirement ID\"><svg class=\"req-copy-icon\" width=\"12\" height=\"12\" viewBox=\"0 0 24 24\" fill=\"none\" stroke=\"currentColor\" stroke-width=\"2\" stroke-linecap=\"round\" stroke-linejoin=\"round\"><rect x=\"9\" y=\"9\" width=\"13\" height=\"13\" rx=\"2\" ry=\"2\"></rect><path d=\"M5 15H4a2 2 0 0 1-2-2V4a2 2 0 0 1 2-2h9a2 2 0 0 1 2 2v1\"></path></svg></button><a class=\"req-badge req-id req-segment-right\" href=\"/",
    );
    b.append(spec_name);
    b.append("/");
    b.append(impl_name);
    b.append("/spec#");
    b.append(rule.anchor_id.as_str());
    b.append("\" data-rule=\"");
    b.append(id.as_str());
    b.append("\" data-source-file=\"");
    b.append(source_file);
    b.append("\" data-source-line=\"");
    let line = decimal_of_usize(rule.line);
    b.append(line.as_str());
    b.append("\" title=\"");
    b.append(id.as_str());
    b.append("\">");
    proof {
        reveal_strlit(".");
    }
    let shown = replace_all(id.as_str(), ".", ".<wbr>");
    b.append(shown.as_str());
    b.append("</a></div>");
    b
}

/// Render the opening HTML for a requirement container with its coverage
/// badges.
///
/// `source_file` must be an absolute path so editor-open links resolve.
pub fn rule_coverage_badge_html(
    rule: &ReqDefinition,
    coverage: &Option<RuleCoverage>,
    source_file: &str,
    spec_name: &str,
    impl_name: &str,
) -> (r: String)
    ensures
        r@ == container_open(
            rule@,
            match *coverage {
                Some(c) => Some(c@),
                None => None,
            },
            source_file@,
            spec_name@,
            impl_name@,
        ),
{
    let status = match coverage {
        Some(c) => c.status,
        None => CoverageStatus::Uncovered,
    };
    let mut badges = id_badge_of(rule, source_file, spec_name, impl_name);
    match coverage {
        Some(c) => {
            push_ref_badge(
                &mut badges,
                &c.impl_refs,
                "req-impl",
                "Implementation",
                spec_name,
                impl_name,
            );
            push_ref_badge(&mut badges, &c.verify_refs, "req-test", "Test", spec_name, impl_name);
        },
        None => {},
    }
    let mut out = copy_str("<div class=\"req-container req-");
    out.append(status.as_str());
    out.append("\" id=\"");
    out.append(rule.anchor_id.as_str());
    out.append("\">\n<div class=\"req-badges-left\">");
    out.append(badges.as_str());
    out.append("</div>\n<div class=\"req-content\">");
    out
}

/// A character that may stand in a rule link.
pub open spec fn is_link_char(c: char) -> bool {
    unicode_alphanumeric(c) || c == '.' || c == '-' || c == '_' || c == '+'
}

/// The rule id in an inline code span of the form `r[rule.id]`.
pub open spec fn linked_rule(code: Seq<char>) -> Option<Seq<char>> {
    let t = trim(code);
    if has_prefix(t, "r["@) && has_suffix(t, "]"@) && t.len() >= 3 {
        let id = t.subrange(2, t.len() - 1);
        if id.len() > 0 && forall|i: int| 0 <= i < id.len() ==> is_link_char(#[trigger] id[i]) {
            Some(id)
        } else {
            None
        }
    } else {
        None
    }
}

/// The link that an inline code span becomes.
pub open spec fn rule_link(code: Seq<char>, spec_name: Seq<char>, impl_name: Seq<char>) -> Option<
    Seq<char>,
> {
    match linked_rule(code) {
        Some(id) => Some(
            "<code><a href=\"/"@ + spec_name + "/"@ + impl_name + "/spec#"@ + anchor_id(id)
                + "\" class=\"rule-ref\">"@ + escaped(trim(code)) + "</a></code>"@,
        ),
        None => None,
    }
}

/// Transforms inline code of the form `r[rule.id]` into a link to the rule.
pub fn render_inline_code(code: &str, spec_name: &str, impl_name: &str) -> (r: Option<String>)
    ensures
        opt_text(r) == rule_link(code@, spec_name@, impl_name@),
{
    let t = trimmed(code);
    let v = chars_of(t.as_str());
    if !starts_with_str(&v, "r[") || !ends_with_str(&v, "]") || v.len() < 3 {
        return None;
    }
    let id = sub_string(&v, 2, v.len() - 1);
    let c = chars_of(id.as_str());
    if c.len() == 0 {
        return None;
    }
    let mut i: usize = 0;
    while i < c.len()
        invariant
            c@ == id@,
            id@ == trim(code@).subrange(2, trim(code@).len() - 1),
            i <= c@.len(),
            forall|j: int| 0 <= j < i ==> is_link_char(#[trigger] c@[j]),
        decreases c@.len() - i,
    {
        let ch = c[i];
        if !(char_is_alphanumeric(ch) || ch == '.' || ch == '-' || ch == '_' || ch == '+') {
            assert(!is_link_char(trim(code@).subrange(2, trim(code@).len() - 1)[i as int]));
            return None;
        }
        i = i + 1;
    }
    let anchor = req_anchor_id(id.as_str());
    let mut out = copy_str("<code><a href=\"/");
    out.append(spec_name);
    out.append("/");
    out.append(impl_name);
    out.append("/spec#");
    out.append(anchor.as_str());
    out.append("\" class=\"rule-ref\">");
    let e = html_escape(t.as_str());
    out.append(e.as_str());
    out.append("</a></code>");
    Some(out)
}

} // verus!
