use tracey::adoc_backend::{parse_asciidoc, render_asciidoc, RenderInput, RenderSource};
use tracey::api::{
    ApiRule, CodeUnit, ExtractedRule, ImplKey, ValidationErrorCode,
};
use tracey::assembly::{check_spec_config, BuildError, ImplRead, SpecRead};
use tracey::config::{Config, FormatConfig, Impl, PatternList, SpecConfig};
use tracey::dashboard::{build_dashboard_data, DashboardData, ProjectInput};
use tracey::format::SpecFormat;
use tracey::impl_scan::{
    add_overlay_paths, ordered_paths, scan_impl_files, select_test_files, FileRead, ParsedSource,
};
use tracey::lexer::extract_from_content;
use tracey::queries::{resolve_spec_impl, validate};
use tracey::rule_id::{parse_rule_id, RuleId};
use tracey::scan::{
    build_scan_roots, full_walk_for_roots, plan_scan, update_cached_scan_paths, ChangedFile,
    FoundFile, PathKind, PathSet, ScanFilter, ScanPlan,
};
use tracey::slugs::SlugAllocator;
use tracey::spec_content::{
    finish_spec_content, format_runs, order_documents, relativize_dependencies, resolve_override,
    select_spec_files, ReadDocument, SpecContentError,
};
use tracey::spec_diagnostics::SpecFile;
use tracey::spec_docs::{collect_spec_texts, doc_to_extracted_rules, resolve_spec_format, SpecText};

const SPEC: &str = "= Spec\n\n== Auth\n\nr[auth.login] Users MUST log in.\n\nr[auth.session+2] Sessions MUST expire.\n\nSee `r[auth.logn]` too.\n";

fn rid(s: &str) -> RuleId {
    parse_rule_id(s).expect("valid rule id")
}

fn rules_of(content: &str) -> Vec<ExtractedRule> {
    let doc = parse_asciidoc(content, false).expect("parse");
    doc_to_extracted_rules(&doc.elements, content, SpecFormat::AsciiDoc, "spec.adoc")
        .expect("rules")
}

fn spec_file(content: &str) -> SpecFile {
    let doc = parse_asciidoc(content, false).expect("parse");
    SpecFile {
        path: "/p/spec.adoc".to_string(),
        content: content.to_string(),
        reqs: doc.reqs,
        inline_code_spans: doc.inline_code_spans,
    }
}

fn read(path: &str, content: &str) -> FileRead {
    let refs = if content.contains("r[") { vec!["x".to_string()] } else { vec![] };
    FileRead {
        path: path.to_string(),
        parsed: Ok(ParsedSource {
            content: content.to_string(),
            reqs: extract_from_content(path, content),
            code_units: vec![CodeUnit {
                kind: "function".to_string(),
                name: Some("f".to_string()),
                start_line: 1,
                end_line: 2,
                req_refs: refs,
            }],
        }),
    }
}

fn config() -> Config {
    Config {
        specs: vec![SpecConfig {
            name: "test".to_string(),
            prefix: None,
            source_url: Some("https://example.com".to_string()),
            syntax: None,
            git_ref: None,
            include_patterns: vec!["*.adoc".to_string(), "docs/*.adoc".to_string()],
            format: FormatConfig::default(),
            impls: vec![Impl {
                name: "rust".to_string(),
                include_patterns: vec!["src/**/*.rs".to_string()],
                exclude: vec![],
                test_include: vec!["tests/**/*.rs".to_string()],
            }],
        }],
    }
}

fn input(spec: &str) -> ProjectInput {
    ProjectInput {
        root: "/p".to_string(),
        config_path: "/p/config.styx".to_string(),
        resolved_paths: vec![],
        test_files: vec!["/p/tests/t.rs".to_string()],
        spec_files: vec![spec_file(spec)],
        version: 7,
    }
}

fn reads() -> Vec<SpecRead> {
    vec![SpecRead {
        docs: vec![Ok(rules_of(SPEC))],
        impls: vec![ImplRead {
            files: vec![
                read("/p/src/a.rs", "// r[impl auth.login]\nfn f() {}\n"),
                read("/p/src/b.rs", "// r[impl auth.session]\nfn f() {}\n"),
                read("/p/src/c.rs", "fn f() {}\n"),
                FileRead { path: "/p/src/notes".to_string(), parsed: Err("unused".to_string()) },
                FileRead { path: "/p/src/x.txt".to_string(), parsed: Err("unused".to_string()) },
                FileRead { path: "/p/src/y.rs".to_string(), parsed: Err("denied".to_string()) },
            ],
            test_files: vec![read("/p/tests/t.rs", "// r[verify auth.login]\n// r[impl auth.login]\n")],
        }],
    }]
}

fn dashboard() -> DashboardData {
    build_dashboard_data(&config(), reads(), input(SPEC)).expect("builds")
}

fn rule<'a>(d: &'a DashboardData, id: &str) -> &'a ApiRule {
    d.forward_by_impl[0].1.rules.iter().find(|r| r.id == rid(id)).expect("rule")
}

#[test]
fn a_dashboard_holds_rules_with_their_places() {
    let d = dashboard();
    assert_eq!(d.version, 7);
    assert_eq!(d.config.project_root, "/p");
    let info = &d.config.specs[0];
    assert_eq!(info.prefix, "r");
    assert_eq!(info.source, Some("*.adoc, docs/*.adoc".to_string()));
    assert_eq!(info.implementations, vec!["rust".to_string()]);
    assert_eq!(d.forward_by_impl.len(), 1);
    assert_eq!(d.forward_by_impl[0].1.name, "test");

    let login = rule(&d, "auth.login");
    let files: Vec<&str> = login.impl_refs.iter().map(|r| r.file.as_str()).collect();
    assert_eq!(files, vec!["src/a.rs", "tests/t.rs"]);
    assert_eq!(login.verify_refs.len(), 1);
    assert!(!login.is_stale);

    // The reference to version 1 counts, and is stale.
    let session = rule(&d, "auth.session+2");
    assert_eq!(session.impl_refs.len(), 1);
    assert!(session.is_stale);
    assert_eq!(session.stale_refs[0].reference_id, rid("auth.session"));
}

#[test]
fn a_dashboard_counts_covered_units() {
    let d = dashboard();
    let reverse = &d.reverse_by_impl[0].1;
    assert_eq!(reverse.total_units, 4);
    assert_eq!(reverse.covered_units, 3);
    let paths: Vec<&str> = reverse.files.iter().map(|f| f.path.as_str()).collect();
    assert_eq!(paths, vec!["src/a.rs", "src/b.rs", "src/c.rs", "tests/t.rs"]);
    assert_eq!(d.code_units_by_impl[0].1.len(), 4);
    assert_eq!(d.sources.files.len(), 4);
}

#[test]
fn a_dashboard_validates_every_implementation() {
    let d = dashboard();
    let v = &d.validation_by_impl[0].1;
    assert_eq!(v.error_count, v.errors.len());
    let codes: Vec<ValidationErrorCode> = v.errors.iter().map(|e| e.code).collect();
    assert!(codes.contains(&ValidationErrorCode::StaleRequirement));
    assert!(codes.contains(&ValidationErrorCode::ImplInTestFile));
    let failures: Vec<&str> = v
        .errors
        .iter()
        .filter(|e| e.code == ValidationErrorCode::IncludeUnparseableFile)
        .map(|e| e.message.as_str())
        .collect();
    assert_eq!(failures.len(), 3);
    assert!(failures.iter().any(|m| m.contains("file has no extension")));
    assert!(failures.iter().any(|m| m.contains("unsupported file extension '.txt'")));
    assert!(failures.iter().any(|m| m.contains("failed to read/parse file: denied")));

    let asked = resolve_spec_impl(&None, &None, &d.config);
    assert_eq!(asked, ImplKey { spec_name: "test".to_string(), impl_name: "rust".to_string() });
    assert_eq!(validate(&d.validation_by_impl, asked).error_count, v.error_count);
    let unknown = resolve_spec_impl(&Some("other".to_string()), &None, &d.config);
    assert_eq!(unknown.impl_name, "");
    assert_eq!(validate(&d.validation_by_impl, unknown).error_count, 0);
}

#[test]
fn a_dashboard_diagnoses_the_workspace() {
    let d = dashboard();
    let paths: Vec<&str> = d.workspace_diagnostics.iter().map(|f| f.path.as_str()).collect();
    assert_eq!(paths, vec!["config.styx", "spec.adoc", "src/b.rs", "tests/t.rs"]);
    let spec = &d.workspace_diagnostics[1];
    assert!(spec.diagnostics.iter().any(|x| x.message.contains("auth.login")));
}

#[test]
fn search_rules_are_sorted_and_distinct() {
    let d = dashboard();
    let ids: Vec<&str> = d.search_rules.iter().map(|r| r.id.as_str()).collect();
    assert_eq!(ids, vec!["auth.login", "auth.session+2"]);
}

#[test]
fn the_content_hash_combines_what_is_shown() {
    let mut d = dashboard();
    assert_eq!(d.content_hash, 0);
    d.set_content_hash(&vec!["a".to_string(), "b".to_string()]);
    assert_eq!(d.content_hash, 0xaf63dc4c8601ec8c ^ 0xaf63df4c8601f1a5);
    d.set_content_hash(&vec!["a".to_string(), "a".to_string()]);
    assert_eq!(d.content_hash, 0);
}

#[test]
fn the_first_unusable_spec_fails_the_build() {
    let mut c = config();
    c.specs[0].prefix = Some("r".to_string());
    let e = build_dashboard_data(&c, reads(), input(SPEC)).err().unwrap();
    assert!(e.message().starts_with("Spec 'test' uses deprecated `prefix r` in config."), "{e:?}");

    let mut c = config();
    c.specs[0].impls.clear();
    let mut r = reads();
    r[0].impls.clear();
    let e = build_dashboard_data(&c, r, input(SPEC)).err().unwrap();
    assert_eq!(e, BuildError::NoImplementations { spec: "test".to_string() });
    assert!(e.message().contains("    impl {\n        name \"main\"\n"));

    let mut r = reads();
    r[0].docs = vec![Ok(vec![])];
    let e = build_dashboard_data(&config(), r, input(SPEC)).err().unwrap();
    assert_eq!(
        e.message(),
        "Spec 'test' has no requirement definitions, so tracey cannot infer its marker prefix."
    );

    let mut r = reads();
    r[0].docs.push(Ok(rules_of("r[auth.login] Again.\n")));
    let e = build_dashboard_data(&config(), r, input(SPEC)).err().unwrap();
    assert_eq!(e.message(), "Duplicate requirement 'auth.login' found in spec.adoc");

    let mut r = reads();
    r[0].docs.push(Ok(rules_of("h2[frame.size] Bounded.\n")));
    let e = build_dashboard_data(&config(), r, input(SPEC)).err().unwrap();
    assert_eq!(
        e.message(),
        "Spec 'test' uses multiple requirement marker prefixes (h2, r). Use a single prefix per spec."
    );

    let mut r = reads();
    r[0].docs.push(Err("Failed to process x.adoc: bad".to_string()));
    let e = build_dashboard_data(&config(), r, input(SPEC)).err().unwrap();
    assert_eq!(e.message(), "Failed to process x.adoc: bad");
}

#[test]
fn scanned_files_fail_for_a_reason() {
    let scan = scan_impl_files(vec![
        FileRead { path: "/p/Makefile".to_string(), parsed: Err(String::new()) },
        read("/p/a.rs", "// r[impl a]"),
    ]);
    assert_eq!(
        scan.failures,
        vec![("/p/Makefile".to_string(), "file has no extension".to_string())]
    );
    assert_eq!(scan.refs.len(), 1);
    assert_eq!(scan.sources.len(), 1);
}

#[test]
fn test_files_are_those_a_pattern_matches() {
    let listing = vec![
        "/p/tests/a.rs".to_string(),
        "/p/src/a.rs".to_string(),
        "/elsewhere/tests/a.rs".to_string(),
    ];
    assert_eq!(select_test_files("/p", &listing, &config()), vec!["/p/tests/a.rs".to_string()]);
}

#[test]
fn patterns_become_roots_or_warnings() {
    let patterns = vec![
        "src/**/*.rs".to_string(),
        "justfile".to_string(),
        "docs".to_string(),
        "missing/**".to_string(),
        "src/{".to_string(),
    ];
    let kinds = vec![
        PathKind::Directory,
        PathKind::File,
        PathKind::Directory,
        PathKind::Missing,
        PathKind::Directory,
    ];
    let (roots, warnings) = build_scan_roots("/p", &patterns, &kinds);
    let seen: Vec<(&str, &str)> =
        roots.iter().map(|r| (r.root.as_str(), r.pattern.as_str())).collect();
    assert_eq!(
        seen,
        vec![("/p/src", "**/*.rs"), ("/p", "justfile"), ("/p/docs", "**/*")]
    );
    assert_eq!(warnings[0], "Warning: Path not found: /p/missing\n  Pattern: missing/**");
    assert!(warnings[1].starts_with("Warning: Invalid glob pattern 'src/{': "), "{}", warnings[1]);
    assert!(warnings[1].len() > "Warning: Invalid glob pattern 'src/{': ".len());
    let (roots, warnings) = build_scan_roots("/p", &vec![], &vec![]);
    assert_eq!((roots[0].root.as_str(), roots[0].pattern.as_str()), ("/p", "**/*"));
    assert!(warnings.is_empty());
}

#[test]
fn scans_are_walked_and_updated() {
    let (roots, _) =
        build_scan_roots("/p", &vec!["src/**/*.rs".to_string()], &vec![PathKind::Directory]);
    let found = |p: &str| FoundFile { path: p.to_string(), canonical: p.to_string() };
    let listing = vec![vec![found("/p/src/b.rs"), found("/p/src/a.rs"), found("/p/src/skip/x.rs")]];
    let exclude = vec!["skip/**".to_string()];
    let mut set = full_walk_for_roots(&roots, &listing, ScanFilter::Any, &exclude);
    assert!(set.contains("/p/src/a.rs"));
    assert!(!set.contains("/p/src/skip/x.rs"));
    let changed = vec![
        ChangedFile {
            path: "/p/src/a.rs".to_string(),
            canonical: "/p/src/a.rs".to_string(),
            exists: false,
        },
        ChangedFile {
            path: "/p/src/c.rs".to_string(),
            canonical: "/p/src/c.rs".to_string(),
            exists: true,
        },
    ];
    assert_eq!(plan_scan(&set, &changed), ScanPlan::Update);
    assert_eq!(plan_scan(&PathSet::new(), &changed), ScanPlan::FullWalk);
    update_cached_scan_paths(&mut set, &roots, &changed, ScanFilter::Any, &exclude);
    let overlay = tracey::cache::FileOverlay {
        files: vec![("/p/src/B/z.rs".to_string(), String::new())],
    };
    add_overlay_paths(&mut set, &overlay, &roots, ScanFilter::Source, &exclude);
    assert_eq!(
        ordered_paths(&set),
        vec!["/p/src/B/z.rs".to_string(), "/p/src/b.rs".to_string(), "/p/src/c.rs".to_string()]
    );
}

#[test]
fn paths_are_ordered_as_the_tree_is() {
    let mut set = PathSet::new();
    for p in ["/p/a-b/x", "/p/a/y", "/p/a.rs"] {
        set.insert(p);
    }
    // As plain texts `/p/a-b/x` and `/p/a.rs` would come before `/p/a/y`.
    assert_eq!(
        ordered_paths(&set),
        vec!["/p/a/y".to_string(), "/p/a-b/x".to_string(), "/p/a.rs".to_string()]
    );
}

#[test]
fn formats_are_resolved_with_overrides() {
    assert_eq!(
        resolve_spec_format("a.adoc", &Some("asciidoc-roles".to_string())),
        Ok(SpecFormat::AsciiDocRoles)
    );
    assert_eq!(resolve_spec_format("a.unknown", &None), Ok(SpecFormat::Markdown));
    let e = resolve_spec_format("a.adoc", &Some("rst".to_string())).unwrap_err();
    assert_eq!(
        e.message(),
        "Unknown `syntax` \"rst\" for spec file a.adoc — check the `syntax` field in config.styx"
    );
    let e = resolve_override("test", &Some("rst".to_string())).unwrap_err();
    assert_eq!(
        e.message(),
        "Unknown `syntax` \"rst\" for spec 'test' — check the `syntax` field in config.styx"
    );
}

#[test]
fn extracted_rules_know_their_section() {
    let rules = rules_of(SPEC);
    assert_eq!(rules.len(), 2);
    assert_eq!(rules[0].prefix, "r");
    assert_eq!(rules[0].section_title, Some("Auth".to_string()));
    assert_eq!(rules[0].source_file, "spec.adoc");
    assert_eq!(rules[0].column, Some(1));
}

#[test]
fn spec_texts_are_collected_once() {
    let text = |p: &str, c: &str| SpecText {
        path: p.to_string(),
        content: c.to_string(),
        syntax: None,
    };
    let v = collect_spec_texts(vec![text("/b.md", "1"), text("/a.md", "2"), text("/b.md", "3")]);
    let seen: Vec<(&str, &str)> = v.iter().map(|t| (t.path.as_str(), t.content.as_str())).collect();
    assert_eq!(seen, vec![("/a.md", "2"), ("/b.md", "1")]);
}

fn document(path: &str, content: &str, format: SpecFormat) -> ReadDocument {
    ReadDocument { relative: path.to_string(), content: content.to_string(), format }
}

#[test]
fn spec_content_is_rendered_in_order() {
    let listing = vec![
        "/p/docs/b.adoc".to_string(),
        "/p/docs/a.adoc".to_string(),
        "/p/docs/notes.txt".to_string(),
        "/p/src/a.adoc".to_string(),
    ];
    let files = select_spec_files("/p", &listing, &vec!["docs/*".to_string()], None);
    let seen: Vec<&str> = files.iter().map(|f| f.relative.as_str()).collect();
    assert_eq!(seen, vec!["docs/b.adoc", "docs/a.adoc"]);

    let documents = order_documents(&vec![
        document("docs/b.adoc", SPEC, SpecFormat::AsciiDoc),
        document("docs/a.adoc", "= A\n\n== Intro\n\nText.\n", SpecFormat::AsciiDoc),
        document("docs/first.md", "+++\nweight = -1\n+++\n# First\n", SpecFormat::Markdown),
    ]);
    let seen: Vec<&str> = documents.iter().map(|d| d.path.as_str()).collect();
    assert_eq!(seen, vec!["docs/first.md", "docs/a.adoc", "docs/b.adoc"]);
    let runs = format_runs(&documents);
    assert_eq!(runs, vec![(0, 1), (1, 3)]);

    let d = dashboard();
    let rules = &d.forward_by_impl[0].1.rules;
    let sources: Vec<RenderSource> = documents[1..3]
        .iter()
        .map(|x| RenderSource { path: &x.path, content: &x.content })
        .collect();
    let mut slugs = SlugAllocator::new();
    let rendered = render_asciidoc(
        &RenderInput {
            sources: &sources,
            root: "/p",
            rules,
            spec_name: "test",
            impl_name: "rust",
        },
        false,
        &mut slugs,
    )
    .expect("renders");
    let empty = tracey::adoc_backend::RenderOutput { sections: vec![] };
    let data = finish_spec_content(
        "test",
        "rust",
        &documents,
        &runs,
        vec![Ok(empty), Ok(rendered)],
        rules,
    )
    .expect("content");
    let seen: Vec<&str> = data.sections.iter().map(|s| s.source_file.as_str()).collect();
    assert_eq!(seen, vec!["docs/a.adoc", "docs/b.adoc"]);
    assert!(data.sections[1].html.contains("req-container req-covered"));
    assert!(data.sections[1].html.contains("req-container req-stale"));
    assert!(data.sections[1].html.contains("data-source-file=\"/p/docs/b.adoc\""));
    let titles: Vec<&str> = data.outline.iter().map(|e| e.title.as_str()).collect();
    assert_eq!(titles, vec!["Intro", "Auth"]);
    assert_eq!(data.outline[1].aggregated.total, 2);
    assert_eq!(data.outline[1].coverage.verify_count, 1);
}

#[test]
fn spec_content_errors() {
    let documents = order_documents(&vec![
        document("a.adoc", "= A\n", SpecFormat::AsciiDoc),
        document("b.md", "# B\n", SpecFormat::Markdown),
    ]);
    let runs = format_runs(&documents);
    let e = finish_spec_content(
        "test",
        "rust",
        &documents,
        &runs,
        vec![Err("first".to_string()), Err("second".to_string())],
        &vec![],
    )
    .unwrap_err();
    assert_eq!(e, SpecContentError::Render("first".to_string()));
    let e = finish_spec_content("test", "rust", &vec![], &vec![], vec![], &vec![]).unwrap_err();
    assert_eq!(e.message(), "Spec content not found for test/rust");
}

#[test]
fn dependencies_are_seen_from_the_root() {
    let deps = vec![
        "/link/a.typ".to_string(),
        "/real/b.typ".to_string(),
        "/elsewhere/c.typ".to_string(),
    ];
    assert_eq!(
        relativize_dependencies(&deps, "/link", "/real"),
        vec!["a.typ".to_string(), "b.typ".to_string()]
    );
}

#[test]
fn patterns_are_added_to_the_configuration() {
    let mut c = config();
    assert!(c.add_pattern("test", "rust", "target/**".to_string(), PatternList::Excluded));
    assert!(c.add_pattern("test", "rust", "lib/**".to_string(), PatternList::Included));
    assert_eq!(c.specs[0].impls[0].exclude, vec!["target/**".to_string()]);
    assert_eq!(c.specs[0].impls[0].include_patterns.len(), 2);
    assert!(!c.add_pattern("test", "go", "x".to_string(), PatternList::Excluded));
    assert_eq!(
        tracey::config::impl_not_found_message("test", "go"),
        "Spec/impl 'test/go' not found"
    );
}

#[test]
fn configurations_are_checked_before_reading() {
    let mut spec = config().specs.remove(0);
    assert!(check_spec_config(&spec).is_ok());
    spec.impls.clear();
    assert!(matches!(
        check_spec_config(&spec),
        Err(BuildError::NoImplementations { spec }) if spec == "test"
    ));
    spec.prefix = Some("q".to_string());
    assert!(matches!(
        check_spec_config(&spec),
        Err(BuildError::DeprecatedPrefix { spec, prefix }) if spec == "test" && prefix == "q"
    ));
}
