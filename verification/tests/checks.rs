use tracey::api::{
    ApiCodeRef, ApiConfig, ApiReverseData, ApiRule, ApiSpecForward, ApiSpecInfo, CodeUnit, ImplKey,
    ValidationErrorCode,
};
use tracey::badge::{rule_coverage_badge_html, CoverageStatus, RuleCoverage};
use tracey::cache::FileOverlay;
use tracey::coverage::{compute_impl_output, compute_relative_path, sort_rules};
use tracey::diagnostics::{
    build_source_diagnostic_context, collect_source_diagnostic_issues, source_issue_to_lsp,
};
use tracey::format::SpecFormat;
use tracey::lexer::extract_from_content;
use tracey::rule_id::{parse_rule_id, RuleId};
use tracey::spec_diagnostics::{
    compute_workspace_diagnostics, parse_inline_rule_reference, WorkspaceInput,
};
use tracey::validation::{
    compute_validation_by_impl, detect_circular_dependencies, unparseable_file_message, SourceFile,
    SourceSet, ValidationInput,
};

fn rid(s: &str) -> RuleId {
    parse_rule_id(s).expect("valid rule id")
}

fn rule(id: &str) -> ApiRule {
    ApiRule {
        id: rid(id),
        raw: String::new(),
        html: String::new(),
        status: None,
        level: None,
        source_file: Some("docs/a.md".to_string()),
        format: SpecFormat::Markdown,
        source_line: Some(1),
        source_column: Some(1),
        section: None,
        section_title: None,
        impl_refs: vec![],
        verify_refs: vec![],
        depends_refs: vec![],
        is_stale: false,
        stale_refs: vec![],
    }
}

fn config() -> ApiConfig {
    ApiConfig {
        project_root: "/p".to_string(),
        specs: vec![ApiSpecInfo {
            name: "s".to_string(),
            prefix: "r".to_string(),
            source: None,
            source_url: None,
            implementations: vec!["i".to_string()],
        }],
    }
}

fn key() -> ImplKey {
    ImplKey { spec_name: "s".to_string(), impl_name: "i".to_string() }
}

fn forward(ids: &[&str]) -> Vec<(ImplKey, ApiSpecForward)> {
    vec![(
        key(),
        ApiSpecForward { name: "s".to_string(), rules: ids.iter().map(|i| rule(i)).collect() },
    )]
}

fn file(path: &str, content: &str) -> SourceFile {
    SourceFile {
        path: path.to_string(),
        content: content.to_string(),
        reqs: extract_from_content(path, content),
    }
}

fn codes(ids: &[&str], files: Vec<SourceFile>, tests: &[&str]) -> Vec<ValidationErrorCode> {
    let entries = files
        .iter()
        .map(|f| tracey::api::ApiFileEntry {
            path: f.path["/p/".len()..].to_string(),
            total_units: 0,
            covered_units: 0,
        })
        .collect();
    let sources = SourceSet {
        files,
        resolved_paths: vec![],
        test_files: tests.iter().map(|t| t.to_string()).collect(),
    };
    let reverse =
        vec![(key(), ApiReverseData { total_units: 0, covered_units: 0, files: entries })];
    let failures = vec![(key(), vec![("/p/bad.rs".to_string(), "denied".to_string())])];
    let input = ValidationInput {
        root: "/p",
        config_path: "/p/config.styx",
        reverse: &reverse,
        sources: &sources,
        failures: &failures,
    };
    let out = compute_validation_by_impl(&config(), &forward(ids), &input);
    assert_eq!(out.len(), 1);
    assert_eq!(out[0].1.error_count, out[0].1.errors.len());
    assert_eq!(out[0].1.warning_count, 0);
    out[0].1.errors.iter().map(|e| e.code).collect()
}

#[test]
fn every_validation_error_has_a_cause() {
    // Only the unreadable file is wrong here.
    assert_eq!(
        codes(&["a.b"], vec![file("/p/a.rs", "// r[impl a.b]\n")], &[]),
        vec![ValidationErrorCode::IncludeUnparseableFile]
    );
    let has = |v: Vec<ValidationErrorCode>, c: ValidationErrorCode| v.contains(&c);
    assert!(has(
        codes(&["a.b", "a.b+2"], vec![], &[]),
        ValidationErrorCode::DuplicateRequirement
    ));
    assert!(has(codes(&["a.b!"], vec![], &[]), ValidationErrorCode::InvalidNaming));
    assert!(has(
        codes(&["a.b"], vec![file("/p/a.rs", "// r[impl a.c]\n")], &[]),
        ValidationErrorCode::UnknownRequirement
    ));
    assert!(has(
        codes(&["a.b"], vec![file("/p/a.rs", "// q[impl a.b]\n")], &[]),
        ValidationErrorCode::UnknownPrefix
    ));
    assert!(has(
        codes(&["a.b+2"], vec![file("/p/a.rs", "// r[impl a.b]\n")], &[]),
        ValidationErrorCode::StaleRequirement
    ));
    assert!(has(
        codes(&["a.b"], vec![file("/p/a.rs", "// r[impl a.b]\n")], &["/p/a.rs"]),
        ValidationErrorCode::ImplInTestFile
    ));
}

#[test]
fn paths_are_compared_by_their_components() {
    let stale = || vec![file("/p/a.rs", "// r[impl a.c]\n")];
    assert!(codes(&["a.b"], stale(), &["/p/./a.rs"]).contains(&ValidationErrorCode::ImplInTestFile));
    let sources = SourceSet { files: stale(), resolved_paths: vec![], test_files: vec![] };
    let entry = tracey::api::ApiFileEntry {
        path: "a.rs".to_string(),
        total_units: 0,
        covered_units: 0,
    };
    let reverse =
        vec![(key(), ApiReverseData { total_units: 0, covered_units: 0, files: vec![entry] })];
    let input = ValidationInput {
        root: "/p/.",
        config_path: "/p/config.styx",
        reverse: &reverse,
        sources: &sources,
        failures: &vec![],
    };
    let out = compute_validation_by_impl(&config(), &forward(&["a.b"]), &input);
    let codes: Vec<ValidationErrorCode> = out[0].1.errors.iter().map(|e| e.code).collect();
    assert_eq!(codes, vec![ValidationErrorCode::UnknownRequirement]);
    let overlay = FileOverlay { files: vec![("/p/./a.rs".to_string(), "x".to_string())] };
    assert_eq!(overlay.lookup("/p//a.rs", "/q"), Some("x".to_string()));
    assert_eq!(overlay.lookup("/q", "/p/b.rs"), None);
}

#[test]
fn markers_behind_an_ignoring_line_are_left_out() {
    let reqs = extract_from_content(
        "a.rs",
        "// @tracey:ignore-next-line\n// r[impl a.b]\n// r[impl a.c]\n",
    );
    let ids: Vec<String> = reqs.references.iter().map(|r| r.req_id.text()).collect();
    assert_eq!(ids, vec!["a.c".to_string()]);
    let first = extract_from_content("a.rs", "// r[impl a.b] @tracey:ignore-next-line\n");
    assert_eq!(first.references.len(), 1);
}

#[test]
fn no_rule_depends_on_another() {
    assert!(detect_circular_dependencies(&vec![rule("a"), rule("b")]).is_empty());
}

#[test]
fn unparseable_files_are_named() {
    let m = unparseable_file_message("/p/x.bin", "denied");
    assert!(m.contains("/p/x.bin") && m.contains("denied"), "{m}");
}

#[test]
fn source_issues_become_diagnostics() {
    let ctx = build_source_diagnostic_context(&config(), &forward(&["a.b+2"]));
    assert_eq!(ctx.rules_for("r"), Some(vec![rid("a.b+2")]));
    assert_eq!(ctx.rules_for("q"), None);
    let content = "// r[impl a.b]\n// r[frob a.b]\n";
    let f = file("/p/a.rs", content);
    let issues = collect_source_diagnostic_issues(content, &f.reqs, false, &ctx);
    assert_eq!(issues.len(), 2);
    let d = source_issue_to_lsp(&issues[0]);
    assert_eq!(d.code, "stale");
    assert_eq!((d.start_line, d.start_char, d.end_char), (0, 3, 14));
    assert_eq!(source_issue_to_lsp(&issues[1]).severity, "warning");
}

#[test]
fn inline_references_are_read() {
    assert_eq!(
        parse_inline_rule_reference("r[a.b+2]"),
        Some(("r".to_string(), rid("a.b+2")))
    );
    assert_eq!(parse_inline_rule_reference("r[a.b] x"), None);
    assert_eq!(parse_inline_rule_reference("[a.b]"), None);
}

#[test]
fn a_clean_workspace_has_no_diagnostics() {
    let sources = SourceSet {
        files: vec![file("/p/a.rs", "// r[impl a.b]\n")],
        resolved_paths: vec![],
        test_files: vec![],
    };
    let forward = forward(&["a.b"]);
    let specs = vec![];
    let failures = vec![];
    let input = WorkspaceInput {
        root: "/p",
        config_path: "/p/config.styx",
        sources: &sources,
        spec_files: &specs,
        failures: &failures,
    };
    assert!(compute_workspace_diagnostics(&config(), &forward, &input).is_empty());
}

#[test]
fn badges_show_the_status() {
    let doc = tracey::adoc_backend::parse_asciidoc("r[a.b] Text.\n", false).expect("parse");
    let plain = rule_coverage_badge_html(&doc.reqs[0], &None, "/p/s.adoc", "s", "i");
    assert!(plain.contains("req-uncovered"), "{plain}");
    let cov = RuleCoverage {
        status: CoverageStatus::Covered,
        impl_refs: vec![ApiCodeRef { file: "src/a.rs".to_string(), line: 3 }],
        verify_refs: vec![],
    };
    let html = rule_coverage_badge_html(&doc.reqs[0], &Some(cov), "/p/s.adoc", "s", "i");
    assert!(html.contains("req-covered"), "{html}");
    assert!(html.contains("src/a.rs"), "{html}");
    assert_eq!(CoverageStatus::Partial.as_str(), "partial");
}

#[test]
fn rules_are_sorted_by_id() {
    let sorted = sort_rules(&vec![rule("b"), rule("a+2"), rule("a")]);
    let ids: Vec<String> = sorted.iter().map(|r| r.id.text()).collect();
    assert_eq!(ids, vec!["a".to_string(), "a+2".to_string(), "b".to_string()]);
}

#[test]
fn coverage_counts_units() {
    let unit = |refs: Vec<String>| CodeUnit {
        kind: "function".to_string(),
        name: None,
        start_line: 1,
        end_line: 1,
        req_refs: refs,
    };
    let units = vec![("/p/a.rs".to_string(), vec![unit(vec![]), unit(vec!["a".to_string()])])];
    let out = compute_impl_output("/p", "i".to_string(), "r", &vec![], &vec![], &units);
    assert_eq!(out.impl_name, "i");
    assert_eq!((out.reverse_data.total_units, out.reverse_data.covered_units), (2, 1));
    assert_eq!(out.reverse_data.files[0].path, "a.rs");
    assert_eq!(compute_relative_path("/p/a", "/p/b/c"), "../b/c");
    assert_eq!(compute_relative_path("/p", "/p/b"), "b");
}
