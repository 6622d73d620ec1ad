use tracey::config::{build_spec_configs, FormatConfig, TypstFormatConfig};
use tracey::format::SpecFormat;
use tracey::globs::{
    adjust_pattern_for_root, extract_cross_workspace_base, is_included, split_glob_prefix,
};
use tracey::html::html_escape;
use tracey::languages::{is_supported_extension, supported_extension_list};
use tracey::paths::relative_path;
use tracey::positions::span_to_range;
use tracey::refs::Reqs;
use tracey::rule_id::{parse_rule_id, RuleId};
use tracey::scan::{build_scan_roots, update_cached_scan_paths, ChangedFile, PathKind, PathSet};
use tracey::scan::ScanFilter;
use tracey::slugs::{req_anchor_id, req_anchor_to_id, SlugAllocator};
use tracey::sorted_map::{first_by_key, last_by_key, path_key_of, SortedMap};
use tracey::sources::MemorySources;
use tracey::spec_content::dedup_by_hash;

fn texts(v: &[&str]) -> Vec<String> {
    v.iter().map(|s| s.to_string()).collect()
}

#[test]
fn ids_survive_writing_and_reading() {
    for text in ["a", "a.b+2", "a+4294967295"] {
        assert_eq!(parse_rule_id(text).map(|id| id.text()), Some(text.to_string()));
    }
    let id = RuleId { base: "x.y".to_string(), version: 7 };
    assert_eq!(parse_rule_id(&id.text()), Some(id));
    // Version 1 is not written.
    assert_eq!(parse_rule_id("a+1").map(|id| id.text()), Some("a".to_string()));
    assert_eq!(parse_rule_id("a+0"), None);
    assert_eq!(parse_rule_id("+2"), None);
}

#[test]
fn anchors_lead_back_to_ids() {
    assert_eq!(req_anchor_to_id(&req_anchor_id("a.b+2")), Some("a.b+2".to_string()));
    assert_ne!(req_anchor_id("a.b"), req_anchor_id("a.b+2"));
}

#[test]
fn slugs_never_repeat() {
    let mut slugs = SlugAllocator::new();
    let mut seen = Vec::new();
    for base in ["a", "a-2", "a", "a", "r--a", "h-a", "r--", "section"] {
        let slug = slugs.allocate(base);
        assert!(!seen.contains(&slug), "{slug}");
        assert_eq!(req_anchor_to_id(&slug), None);
        seen.push(slug);
    }
    assert_eq!(&seen[..4], &texts(&["a", "a-2", "a-3", "a-4"])[..]);
}

#[test]
fn more_patterns_admit_more() {
    let one = texts(&["src/*.rs"]);
    let two = texts(&["src/*.rs", "tests/*.rs"]);
    assert!(is_included("/p/src/a.rs", "/p", &one));
    assert!(is_included("/p/src/a.rs", "/p", &two));
    assert!(!is_included("/p/tests/a.rs", "/p", &one));
    assert!(is_included("/p/tests/a.rs", "/p", &two));
}

#[test]
fn prefix_and_suffix_make_the_pattern() {
    let (prefix, suffix) = split_glob_prefix("docs/{a,b}/*.md");
    assert_eq!(format!("{prefix}/{suffix}"), "docs/{a,b}/*.md");
    let pattern = "../other/src/**/*.rs";
    let base = extract_cross_workspace_base(pattern);
    assert_eq!(base, "../other/src");
    assert_eq!(adjust_pattern_for_root(pattern, &base), "**/*.rs");
    assert_eq!(extract_cross_workspace_base("../x/[a]/lib.rs"), "../x/[a]/lib.rs");
    assert_eq!(extract_cross_workspace_base("../x/{a,b}/?/*.rs"), "../x/{a,b}/?");
}

#[test]
fn escaped_text_opens_no_tag() {
    let e = html_escape("<a href=\"x\">&'</a>");
    assert_eq!(e, "&lt;a href=&quot;x&quot;&gt;&amp;&#39;&lt;/a&gt;");
    assert_eq!(html_escape("plain"), "plain");
}

#[test]
fn listed_extensions_are_scanned() {
    for ext in supported_extension_list() {
        assert!(is_supported_extension(&ext), "{ext}");
    }
}

#[test]
fn a_path_lies_in_itself() {
    assert_eq!(relative_path("/p/a", "/p/a"), Some(String::new()));
}

#[test]
fn ranges_run_forward() {
    let (a, b, c, d) = span_to_range("one\ntwo\n", 2, 4);
    assert!((a, b) <= (c, d));
    assert_eq!((a, b, c, d), (0, 2, 1, 2));
}

#[test]
fn a_change_touches_one_path() {
    let (roots, _) = build_scan_roots("/p", &texts(&["src/*.rs"]), &vec![PathKind::Directory]);
    let mut set = PathSet::new();
    set.insert("/p/src/a.rs");
    set.insert("/p/src/b.rs");
    let gone = ChangedFile {
        path: "/p/src/a.rs".to_string(),
        canonical: "/p/src/a.rs".to_string(),
        exists: false,
    };
    update_cached_scan_paths(&mut set, &roots, &vec![gone], ScanFilter::Any, &vec![]);
    assert!(!set.contains("/p/src/a.rs"));
    assert!(set.contains("/p/src/b.rs"));
}

#[test]
fn maps_keep_their_keys_in_order() {
    let mut map = SortedMap::new();
    map.put(texts(&["b"]), 1);
    map.put(texts(&["a"]), 2);
    map.put(texts(&["b"]), 3);
    map.put_new(texts(&["a"]), 4);
    assert_eq!(map.keys, vec![texts(&["a"]), texts(&["b"])]);
    assert_eq!(map.values, vec![2, 3]);
    let entries = || vec![(path_key_of("/b"), 1), (path_key_of("/a"), 2), (path_key_of("/b/"), 3)];
    assert_eq!(last_by_key(entries()), vec![2, 3]);
    assert_eq!(first_by_key(entries()), vec![2, 1]);
}

#[test]
fn files_can_be_read_in_parts() {
    let a = || MemorySources::new().add("a.rs", "// r[impl x]");
    let b = MemorySources::new().add("b.rs", "// r[verify y]");
    let both = Reqs::extract(a().add("b.rs", "// r[verify y]")).expect("reads").reqs;
    let mut first = Reqs::extract(a()).expect("reads").reqs;
    first.extend(Reqs::extract(b).expect("reads").reqs);
    assert_eq!(first, both);
}

#[test]
fn repeated_snippets_are_kept_once() {
    assert_eq!(dedup_by_hash(texts(&["x", "y", "x"])), texts(&["x", "y"]));
}

#[test]
fn format_options_are_resolved() {
    let format = FormatConfig {
        typst: TypstFormatConfig { package_path: Some("vendor/typst".to_string()) },
    };
    assert_eq!(
        build_spec_configs(&format, "/p").typst.package_path,
        Some("/p/vendor/typst".to_string())
    );
    assert_eq!(build_spec_configs(&FormatConfig::default(), "/p").typst.package_path, None);
    assert_eq!(SpecFormat::from_name(SpecFormat::Typst.name()), Some(SpecFormat::Typst));
}

#[test]
fn a_pattern_too_large_to_compile_is_refused() {
    let deep = format!("x{}a{}", "{".repeat(400), "}".repeat(400));
    assert!(!is_included("/p/xa", "/p", &vec![deep.clone()]));
    let (roots, warnings) =
        build_scan_roots("/p", &vec![format!("src/*{deep}")], &vec![PathKind::Directory]);
    assert!(roots.is_empty());
    assert!(warnings[0].starts_with("Warning: Invalid glob pattern"), "{warnings:?}");
}
