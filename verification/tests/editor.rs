use tracey::adoc_backend::parse_asciidoc;
use tracey::api::{ApiCodeRef, ApiConfig, ApiRule, ApiSpecForward, ApiSpecInfo, CodeUnit, ImplKey};
use tracey::cache::{
    begin_source, no_cache_stats, simple_hash, FileOverlay, FileStamp, SourceCache, SourceStep,
    SpecCache, SpecHit,
};
use tracey::completion::lsp_completions;
use tracey::format::SpecFormat;
use tracey::lexer::extract_from_content;
use tracey::lookup::{
    find_ref_at_position, find_rule_at_position, is_listed_file, is_valid_new_id, line_col_to_offset, FileView,
};
use tracey::lsp::{
    diff_against, find_rule_text_in_spec, lsp_code_actions, lsp_definition, lsp_hover,
    lsp_implementation, lsp_prepare_rename, lsp_references, lsp_rename, show_diff, ProjectView,
};
use tracey::lsp_document::{
    lsp_code_lens, lsp_document_highlight, lsp_document_symbols, lsp_inlay_hints,
    lsp_semantic_tokens, lsp_workspace_symbols,
};
use tracey::queries::{
    coverage_response, health, previous_for_rule, stale_response, status, summarize_delta,
    unmapped_response, CoverageChange, CoverageQuery, CoverageStats, FileDetails, FileTreeNode, ImplDelta,
    StaleEntry, StaleQuery, UnitDetail, UnmappedQuery, WatcherStatus,
};
use tracey::rule_id::{parse_rule_id, RuleId};
use tracey::source_view::{
    arborium_language, check_update, find_file_units, render_spec_inline, replace_range, show_file,
    show_source, source_html, UpdateError,
};
use tracey::validation::SourceFile;

const SOURCE: &str = "// r[impl auth.login]\nfn f() {}\n// r[verify auth.nothere]\n";
const SPEC: &str = "r[auth.login] Users MUST log in.\n\nr[data.store+2] Data MUST persist.\n";

fn rid(s: &str) -> RuleId {
    parse_rule_id(s).expect("valid rule id")
}

fn rule(id: &str, raw: &str, line: usize) -> ApiRule {
    ApiRule {
        id: rid(id),
        raw: raw.to_string(),
        html: String::new(),
        status: None,
        level: None,
        source_file: Some("docs/spec.adoc".to_string()),
        format: SpecFormat::AsciiDoc,
        source_line: Some(line),
        source_column: Some(1),
        section: None,
        section_title: None,
        impl_refs: vec![],
        verify_refs: vec![],
        depends_refs: vec![],
        is_stale: false,
        stale_refs: vec![],
    }
}

struct Project {
    config: ApiConfig,
    forward: Vec<(ImplKey, ApiSpecForward)>,
    files: Vec<SourceFile>,
}

impl Project {
    fn view(&self) -> ProjectView<'_> {
        ProjectView { config: &self.config, forward: &self.forward, files: &self.files }
    }
}

fn project() -> Project {
    let mut login = rule("auth.login", "Users MUST log in.", 1);
    login.impl_refs = vec![ApiCodeRef { file: "src/a.rs".to_string(), line: 1 }];
    login.verify_refs = vec![ApiCodeRef { file: "tests/t.rs".to_string(), line: 9 }];
    let mut store = rule("data.store+2", "Data MUST persist.", 3);
    store.is_stale = true;
    store.impl_refs = vec![ApiCodeRef { file: "src/b.rs".to_string(), line: 4 }];
    Project {
        config: ApiConfig {
            project_root: "/p".to_string(),
            specs: vec![ApiSpecInfo {
                name: "test".to_string(),
                prefix: "r".to_string(),
                source: None,
                source_url: Some("https://example.com".to_string()),
                implementations: vec!["rust".to_string()],
            }],
        },
        forward: vec![(
            ImplKey { spec_name: "test".to_string(), impl_name: "rust".to_string() },
            ApiSpecForward { name: "test".to_string(), rules: vec![login, store] },
        )],
        files: vec![],
    }
}

fn source_view() -> FileView {
    FileView {
        path: "/p/src/a.rs".to_string(),
        canonical: "/p/src/a.rs".to_string(),
        content: SOURCE.to_string(),
        doc: None,
    }
}

fn with_source() -> Project {
    let mut p = project();
    p.files.push(SourceFile {
        path: "/p/src/a.rs".to_string(),
        content: SOURCE.to_string(),
        reqs: extract_from_content("/p/src/a.rs", SOURCE),
    });
    p
}

fn spec_view() -> FileView {
    FileView {
        path: "/p/docs/spec.adoc".to_string(),
        canonical: "/p/docs/spec.adoc".to_string(),
        content: SPEC.to_string(),
        doc: parse_asciidoc(SPEC, false).ok(),
    }
}

#[test]
fn positions_become_offsets() {
    assert_eq!(line_col_to_offset("ab\ncd", 0, 0), Some(0));
    assert_eq!(line_col_to_offset("ab\ncd", 1, 1), Some(4));
    // A column past the end stands for the end of the line.
    assert_eq!(line_col_to_offset("ab\ncd", 0, 9), Some(2));
    assert_eq!(line_col_to_offset("ab\ncd", 5, 0), None);
}

#[test]
fn rules_are_found_at_positions() {
    let reqs = extract_from_content("a.rs", SOURCE);
    assert_eq!(find_ref_at_position(&reqs, SOURCE, 0, 5), Some(0));
    assert_eq!(find_ref_at_position(&reqs, SOURCE, 1, 2), None);
    assert_eq!(find_ref_at_position(&reqs, SOURCE, 2, 8), Some(1));
    let p = with_source();
    let at = find_rule_at_position(&p.files, &source_view(), 0, 5).expect("reference");
    assert_eq!(at.req_id, rid("auth.login"));
    assert_eq!(at.prefix, Some("r".to_string()));
    let at = find_rule_at_position(&p.files, &spec_view(), 2, 3).expect("definition");
    assert_eq!(at.req_id, rid("data.store+2"));
    assert_eq!(at.prefix, None);
}

#[test]
fn editors_go_to_places() {
    let p = with_source();
    let v = source_view();
    let d = lsp_definition(&p.view(), &v, 0, 5);
    assert_eq!(d.len(), 1);
    assert_eq!((d[0].path.as_str(), d[0].line, d[0].character), ("docs/spec.adoc", 0, 1));
    let i = lsp_implementation(&p.view(), &v, 0, 5);
    assert_eq!((i.len(), i[0].path.as_str(), i[0].line), (1, "src/a.rs", 0));
    let r = lsp_references(&p.view(), &v, 0, 5, true);
    let paths: Vec<&str> = r.iter().map(|l| l.path.as_str()).collect();
    assert_eq!(paths, vec!["docs/spec.adoc", "src/a.rs", "tests/t.rs"]);
    assert_eq!(lsp_references(&p.view(), &v, 0, 5, false).len(), 2);
    assert!(lsp_definition(&p.view(), &v, 1, 0).is_empty());
    assert!(lsp_definition(&p.view(), &v, 2, 8).is_empty());
}

#[test]
fn editors_show_a_rule() {
    let p = with_source();
    let h = lsp_hover(&p.view(), &source_view(), 0, 5).expect("hover");
    assert_eq!(h.rule_id, rid("auth.login"));
    assert_eq!(h.raw, "Users MUST log in.");
    assert_eq!((h.impl_count, h.verify_count), (1, 1));
    assert_eq!(h.spec_url, Some("https://example.com".to_string()));
    assert_eq!(h.range, (0, 3, 0, 21));
    assert!(h.previous.is_none());
    let h = lsp_hover(&p.view(), &spec_view(), 2, 3).expect("hover");
    let previous = h.previous.expect("previous version");
    assert_eq!(previous.rule_id, rid("data.store"));
    assert_eq!(previous.source_file, "docs/spec.adoc");
    assert!(lsp_hover(&p.view(), &source_view(), 2, 8).is_none());
}

#[test]
fn versions_are_compared() {
    let doc = parse_asciidoc(SPEC, false).expect("parse");
    assert_eq!(
        find_rule_text_in_spec(&doc, &rid("data.store+2")),
        Some("Data MUST persist.".to_string())
    );
    assert_eq!(find_rule_text_in_spec(&doc, &rid("data.store")), None);
    assert_eq!(show_diff(Some("x".to_string()), "old", "new"), "x");
    assert_eq!(show_diff(None, "old", "new"), "~~old~~\n\nnew");
    assert_eq!(diff_against(SpecFormat::Markdown, "same text", "same text"), "same text\n\n");
    assert_eq!(show_diff(Some(String::new()), "old", "new"), "new");
    let d = diff_against(SpecFormat::Markdown, "Data MAY persist.", "Data MUST persist.");
    assert!(d.contains("~~") && d.contains("**"), "{d}");
}

#[test]
fn rules_are_renamed() {
    let p = with_source();
    let v = source_view();
    let r = lsp_prepare_rename(&p.view(), &v, 0, 5).expect("rename");
    assert_eq!(r.placeholder, "auth.login");
    let edits = lsp_rename(&p.view(), &v, 0, 5, "auth.signin");
    assert_eq!(edits.len(), 2);
    assert_eq!(edits[0].path, "docs/spec.adoc");
    assert_eq!(edits[0].range, (0, 1, 0, 11));
    assert_eq!(edits[1].path, "src/a.rs");
    assert!(edits.iter().all(|e| e.new_text == "auth.signin"));
    assert!(lsp_rename(&p.view(), &v, 0, 5, "not an id").is_empty());
    assert!(is_valid_new_id(&rid("a.b-c1")));
    assert!(!is_valid_new_id(&rid("a.b_c")));
    assert!(!is_valid_new_id(&rid("a.1b")));
    assert!(!is_valid_new_id(&RuleId { base: "a..b".to_string(), version: 1 }));
}

#[test]
fn editors_offer_actions() {
    let p = with_source();
    let a = lsp_code_actions(&p.view(), &source_view(), 0, 5);
    assert_eq!(a.len(), 1);
    assert_eq!(a[0].command, "tracey.openDashboard");
    let a = lsp_code_actions(&p.view(), &source_view(), 2, 8);
    let last = a.last().expect("an action");
    assert_eq!(last.title, "Create requirement 'auth.nothere'");
    assert!(!last.is_preferred);
    assert!(lsp_code_actions(&p.view(), &source_view(), 1, 0).is_empty());
}

#[test]
fn editors_complete_markers() {
    let p = project();
    let items = lsp_completions(&p.view(), "// r[", 0, 5);
    let labels: Vec<&str> = items.iter().map(|i| i.label.as_str()).collect();
    assert_eq!(
        labels,
        vec!["impl", "verify", "depends", "related", "auth.login", "data.store+2"]
    );
    assert_eq!(items[0].insert_text, Some("impl ".to_string()));
    let items = lsp_completions(&p.view(), "// r[impl da", 0, 12);
    assert_eq!(items.len(), 1);
    assert_eq!(items[0].label, "data.store+2");
    assert_eq!(items[0].detail, Some("test".to_string()));
    assert!(lsp_completions(&p.view(), "// r[impl a] x", 0, 14).is_empty());
    assert!(lsp_completions(&p.view(), "// x", 0, 4).is_empty());
    assert!(lsp_completions(&p.view(), "// r[", 3, 0).is_empty());
}

#[test]
fn documents_are_marked() {
    let p = with_source();
    let tokens = lsp_semantic_tokens(&p.view(), &source_view());
    assert_eq!(tokens.len(), 2);
    assert_eq!((tokens[0].line, tokens[0].start_char), (0, 3));
    let lenses = lsp_code_lens(&p.view(), &spec_view());
    assert_eq!(lenses.len(), 2);
    assert_eq!(lenses[0].title, "🟢 1 impl, 1 verify");
    assert_eq!(lenses[1].title, "🟡 1 impl, no verify");
    assert_eq!(lenses[1].arguments, vec!["data.store+2".to_string()]);
    assert!(lsp_code_lens(&p.view(), &source_view()).is_empty());
    assert_eq!(lsp_inlay_hints(&p.view(), &source_view(), 0, 9).len(), 1);
    assert_eq!(lsp_inlay_hints(&p.view(), &source_view(), 1, 9).len(), 0);
    let places = lsp_document_highlight(&p.view(), &source_view(), 0, 5);
    assert_eq!(places.len(), 1);
    assert_eq!(places[0].line, 0);
}

#[test]
fn symbols_are_listed() {
    let p = with_source();
    let s = lsp_document_symbols(&p.view(), &spec_view(), "/p");
    let names: Vec<&str> = s.iter().map(|x| x.name.as_str()).collect();
    assert_eq!(names, vec!["auth.login", "data.store+2"]);
    // The search ignores case.
    let s = lsp_workspace_symbols(&p.view(), "STORE");
    assert_eq!(s.len(), 1);
    assert_eq!(s[0].path, Some("docs/spec.adoc".to_string()));
    assert_eq!(lsp_workspace_symbols(&p.view(), "").len(), 2);
    assert_eq!(lsp_workspace_symbols(&p.view(), "zzz").len(), 0);
}

#[test]
fn files_are_shown() {
    assert_eq!(arborium_language("a/b.rs"), Some("rust"));
    assert_eq!(arborium_language("a/b.unknown"), None);
    assert_eq!(show_source(Some("<b>x</b>".to_string()), "x"), "<b>x</b>");
    assert_eq!(show_source(None, "a < b & c"), "a &lt; b &amp; c");
    // A file without a language is escaped.
    assert_eq!(source_html("notes", "<x>"), "&lt;x&gt;");
    let unit = CodeUnit {
        kind: "function".to_string(),
        name: Some("f".to_string()),
        start_line: 1,
        end_line: 2,
        req_refs: vec!["auth.login".to_string()],
    };
    let key = ImplKey { spec_name: "test".to_string(), impl_name: "rust".to_string() };
    let units = vec![(
        ImplKey { spec_name: "test".to_string(), impl_name: "rust".to_string() },
        vec![("/p/a.rs".to_string(), vec![unit])],
    )];
    assert_eq!(find_file_units(&units, &key, "/p/a.rs"), Some((0, 0)));
    assert_eq!(find_file_units(&units, &key, "/p/b.rs"), None);
    let data = show_file("/p", "/p/a.rs", "fn f() {}".to_string(), &units[0].1[0].1);
    assert_eq!(data.path, "a.rs");
    assert_eq!(data.units[0].rule_refs, vec!["auth.login".to_string()]);
}

#[test]
fn rules_are_rendered_inline() {
    assert_eq!(
        render_spec_inline(SpecFormat::AsciiDoc, "a < *b* & c > \"d\""),
        Some("a &lt; *b* &amp; c &gt; \"d\"".to_string())
    );
    assert_eq!(render_spec_inline(SpecFormat::Markdown, "x"), None);
}

#[test]
fn ranges_are_checked_and_replaced() {
    let content = "hello";
    let hash = "ea8f163db38682925e4491c5e58d4bb3506ef8c14eb78a86e908c5624a67200f";
    assert_eq!(check_update(content, hash, 1, 3), None);
    let e = check_update(content, "0", 1, 3).expect("modified");
    assert_eq!(
        e,
        UpdateError::Modified { expected: "0".to_string(), actual: hash.to_string() }
    );
    let e = check_update(content, hash, 3, 9).expect("range");
    assert_eq!(e, UpdateError::InvalidRange { start: 3, end: 9, length: 5 });
    assert_eq!(e.message(), "Invalid range: 3..9 (file length: 5)");
    assert_eq!(replace_range(content, 1, 3, "EY"), "hEYlo");
    // Replacing a part by itself changes nothing.
    assert_eq!(replace_range(content, 1, 3, "el"), content);
}

#[test]
fn source_caches_spare_work() {
    let mut cache = SourceCache::new();
    let mut stats = no_cache_stats();
    let stamp = FileStamp { file_len: 3, modified_nanos: Some(1) };
    let later = FileStamp { file_len: 3, modified_nanos: Some(2) };
    let overlay = FileOverlay { files: vec![("/p/b.rs".to_string(), "open".to_string())] };
    assert_eq!(
        begin_source(&overlay, "/p/b.rs", "/p/b.rs"),
        (SourceStep::NeedContent, Some("open".to_string()))
    );
    assert_eq!(begin_source(&overlay, "/p/a.rs", "/p/a.rs").0, SourceStep::NeedMetadata);
    assert_eq!(cache.on_metadata("/p/a.rs", stamp, &mut stats), SourceStep::NeedContent);
    assert_eq!(
        cache.on_content("/p/a.rs", "abc", Some(stamp), &mut stats),
        SourceStep::NeedParse
    );
    cache.on_parsed("/p/a.rs", "abc".to_string(), Some(stamp), vec![], &mut stats);
    assert_eq!(cache.on_metadata("/p/a.rs", stamp, &mut stats), SourceStep::Ready);
    assert_eq!(cache.on_metadata("/p/a.rs", later, &mut stats), SourceStep::NeedContent);
    // Its content is what it was: nothing is parsed again.
    assert_eq!(
        cache.on_content("/p/a.rs", "abc", Some(later), &mut stats),
        SourceStep::Ready
    );
    assert_eq!(cache.on_metadata("/p/a.rs", later, &mut stats), SourceStep::Ready);
    assert_eq!(
        (stats.metadata_hits, stats.hash_hits, stats.misses, stats.reparsed),
        (2, 1, 1, 1)
    );
    assert_eq!(cache.lookup("/p/a.rs").map(|e| e.content_hash), Some(simple_hash("abc")));
    assert!(cache.lookup("/p/c.rs").is_none());
}

#[test]
fn spec_caches_spare_work() {
    let mut cache = SpecCache::new();
    let mut stats = no_cache_stats();
    let stamp = FileStamp { file_len: 3, modified_nanos: Some(1) };
    let later = FileStamp { file_len: 3, modified_nanos: Some(2) };
    assert_eq!(cache.on_read("/s", "abc", stamp, false, &mut stats), SpecHit::Miss);
    cache.on_parsed("/s", "abc", stamp, vec![], &mut stats);
    assert_eq!(cache.on_read("/s", "abc", stamp, false, &mut stats), SpecHit::Metadata);
    assert_eq!(cache.on_read("/s", "abc", later, false, &mut stats), SpecHit::Hash);
    assert_eq!(cache.on_read("/s", "xyz", stamp, true, &mut stats), SpecHit::Miss);
}

#[test]
fn the_hash_is_fnv1a() {
    assert_eq!(simple_hash(""), 0xcbf29ce484222325);
    assert_eq!(simple_hash("a"), 0xaf63dc4c8601ec8c);
    assert_eq!(simple_hash("foobar"), 0x85944171f73967e8);
}

fn asked() -> ImplKey {
    ImplKey { spec_name: "s".to_string(), impl_name: "i".to_string() }
}

#[test]
fn queries_are_answered() {
    let r = coverage_response(None, asked());
    assert_eq!((r.spec.as_str(), r.impl_name.as_str(), r.total_rules, r.count), ("s", "i", 0, 0));
    let r = coverage_response(
        Some(CoverageQuery {
            spec: "a".to_string(),
            impl_name: "b".to_string(),
            total_rules: 9,
            lacking: 2,
            by_section: vec![("Intro".to_string(), vec![rid("x"), rid("y")])],
        }),
        asked(),
    );
    assert_eq!((r.spec.as_str(), r.total_rules, r.count), ("a", 9, 2));
    assert_eq!(r.by_section[0].section, "Intro");
    assert_eq!(r.by_section[0].rules[1].id, rid("y"));
    assert_eq!(r.by_section[0].rules[1].text, None);

    let entry = StaleEntry {
        current_id: rid("x+2"),
        file: "a.rs".to_string(),
        line: 3,
        reference_id: rid("x"),
    };
    let r = stale_response(
        Some(StaleQuery {
            spec: "a".to_string(),
            impl_name: "b".to_string(),
            total_rules: 9,
            entries: vec![entry],
        }),
        asked(),
    );
    assert_eq!((r.stale_count, r.refs[0].line), (1, 3));
    assert_eq!(stale_response(None, asked()).stale_count, 0);
}

#[test]
fn unmapped_units_are_listed() {
    let leaf = |p: &str, total: usize, covered: usize| FileTreeNode {
        path: p.to_string(),
        is_dir: false,
        total_units: total,
        covered_units: covered,
        children: vec![],
    };
    let dir = || FileTreeNode {
        path: "src".to_string(),
        is_dir: true,
        total_units: 5,
        covered_units: 2,
        children: vec![leaf("src/a.rs", 3, 0), leaf("src/b.rs", 2, 2)],
    };
    let query = |details: Option<FileDetails>| UnmappedQuery {
        spec: "a".to_string(),
        impl_name: "b".to_string(),
        total_units: 5,
        covered_units: 2,
        tree: vec![dir()],
        file_details: details,
    };
    let r = unmapped_response(Some(query(None)), asked());
    assert_eq!(r.unmapped_count, 3);
    let seen: Vec<(&str, usize)> =
        r.entries.iter().map(|e| (e.path.as_str(), e.unmapped_units)).collect();
    assert_eq!(seen, vec![("src", 3), ("src/a.rs", 3), ("src/b.rs", 0)]);
    let unit = |n: &str, is_covered: bool| UnitDetail {
        kind: "function".to_string(),
        name: Some(n.to_string()),
        start_line: 1,
        end_line: 2,
        is_covered,
    };
    let details = FileDetails {
        path: "src/a.rs".to_string(),
        units: vec![unit("f", false), unit("g", true)],
    };
    let r = unmapped_response(Some(query(Some(details))), asked());
    assert_eq!(r.entries.len(), 3);
    assert!(r.entries[0].units.is_empty());
    assert_eq!(r.entries[1].units.len(), 1);
    assert_eq!(r.entries[1].units[0].name, Some("f".to_string()));
    assert_eq!(unmapped_response(None, asked()).entries.len(), 0);
}

#[test]
fn the_state_of_the_service_is_told() {
    let h = health(3, 60, Some("bad".to_string()), None);
    assert_eq!((h.version, h.uptime_secs, h.watcher.active), (3, 60, false));
    assert_eq!(h.config_error, Some("bad".to_string()));
    let w = WatcherStatus {
        active: true,
        error: None,
        last_event_ms: Some(5),
        event_count: 2,
        directories: vec!["/p".to_string()],
    };
    let h = health(3, 60, None, Some(w));
    assert_eq!((h.watcher.event_count, h.watcher.last_event_ms), (2, Some(5)));

    assert!(summarize_delta(vec![]).is_none());
    let d = summarize_delta(vec![
        ImplDelta { newly_covered: vec![], newly_uncovered: vec![rid("a")] },
        ImplDelta {
            newly_covered: vec![CoverageChange {
                rule_id: rid("b"),
                file: "x.rs".to_string(),
                line: 1,
            }],
            newly_uncovered: vec![rid("c")],
        },
    ])
    .expect("changes");
    assert_eq!(d.newly_uncovered, vec![rid("a"), rid("c")]);
    assert_eq!(d.newly_covered.len(), 1);

    let file = Some("s.adoc".to_string());
    assert_eq!(
        previous_for_rule(true, &rid("a+3"), &file).map(|p| p.rule_id),
        Some(rid("a+2"))
    );
    assert!(previous_for_rule(false, &rid("a+3"), &file).is_none());
    assert!(previous_for_rule(true, &rid("a"), &file).is_none());
    assert!(previous_for_rule(true, &rid("a+3"), &None).is_none());
}

#[test]
fn the_status_tells_all_counts_apart() {
    let stats = CoverageStats {
        total_rules: 4,
        impl_covered: 3,
        verify_covered: 2,
        stale_covered: 1,
    };
    let r = status(vec![(asked(), stats)]);
    assert_eq!(r.len(), 1);
    assert_eq!((r[0].spec.as_str(), r[0].impl_name.as_str()), ("s", "i"));
    assert_eq!(
        (r[0].total_rules, r[0].covered_rules, r[0].verified_rules, r[0].stale_rules),
        (4, 3, 2, 1)
    );
}

#[test]
fn test_files_are_told_by_their_components() {
    let files = vec!["/p/tests/a.rs".to_string()];
    assert!(is_listed_file(&files, "/p/tests/a.rs"));
    assert!(is_listed_file(&files, "/p/tests//a.rs"));
    assert!(!is_listed_file(&files, "/p/tests/b.rs"));
}
