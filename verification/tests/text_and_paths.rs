use tracey::reslug::{allocate_headings, reslug_headings, HeadingSlug};
use tracey::assembly::join_texts;
use tracey::badge::{devicon_class, render_inline_code, text_after_last};
use tracey::coverage::{compute_relative_path, show_path};
use tracey::cycles::find_cycles;
use tracey::document::{DocElement, Heading, Paragraph};
use tracey::format::SpecFormat;
use tracey::globs::{
    adjust_pattern_for_root, extract_cross_workspace_base, is_excluded, is_included,
    split_glob_prefix,
};
use tracey::html::html_escape;
use tracey::languages::{arborium_for_ext, devicon_for_ext, supported_extension_list};
use tracey::lookup::line_col_to_offset;
use tracey::numbers::decimal_of;
use tracey::order::{sort_positions, SortKey};
use tracey::paths::{extension_of, file_name_of, join_paths, relative_path};
use tracey::positions::span_to_range;
use tracey::slugs::SlugAllocator;
use tracey::source_view::{
    arborium_language, check_range, check_update, render_spec_inline, replace_range, show_source,
    source_html, UpdateError,
};
use tracey::split::{lines_of, replace_all};
use tracey::text::trimmed;

#[test]
fn html_is_escaped() {
    assert_eq!(html_escape("<a href=\"x\">'&'</a>"), "&lt;a href=&quot;x&quot;&gt;&#39;&amp;&#39;&lt;/a&gt;");
    assert_eq!(html_escape("plain"), "plain");
}

#[test]
fn fragments_are_escaped_as_text() {
    assert_eq!(
        render_spec_inline(SpecFormat::AsciiDoc, "a < b && \"c\""),
        Some("a &lt; b &amp;&amp; \"c\"".to_string())
    );
    assert_eq!(render_spec_inline(SpecFormat::Markdown, "a < b"), None);
}

#[test]
fn lines_and_words() {
    assert_eq!(lines_of("a\r\nb\n"), vec!["a".to_string(), "b".to_string()]);
    assert_eq!(replace_all("a.b.c", ".", ".<wbr>"), "a.<wbr>b.<wbr>c");
    assert_eq!(trimmed(" \t x y \n"), "x y");
    assert_eq!(join_texts(&vec!["a".to_string(), "b".to_string()], ", "), "a, b");
    assert_eq!(decimal_of(0), "0");
    assert_eq!(decimal_of(1203), "1203");
}

#[test]
fn paths_are_taken_apart() {
    assert_eq!(extension_of("src/lib.rs"), Some("rs".to_string()));
    assert_eq!(extension_of(".gitignore"), None);
    assert_eq!(extension_of("README"), None);
    assert_eq!(file_name_of("a/b/"), Some("b".to_string()));
    assert_eq!(file_name_of("/"), None);
    assert_eq!(join_paths("/root", "a/b"), "/root/a/b");
    assert_eq!(join_paths("/root", "/a"), "/a");
    assert_eq!(relative_path("/root/a//b", "/root"), Some("a/b".to_string()));
    assert_eq!(relative_path("/rootless/a", "/root"), None);
    assert_eq!(relative_path("/root", "/root"), Some(String::new()));
}

#[test]
fn paths_across_workspaces_keep_their_steps_up() {
    assert_eq!(compute_relative_path("/w/tracey", "/w/marq/src/lib.rs"), "../marq/src/lib.rs");
    assert_eq!(show_path("/w/tracey", "/w/tracey/src/lib.rs"), "src/lib.rs");
    assert_eq!(show_path("/w/tracey", "/w/marq/lib.rs"), "../marq/lib.rs");
}

#[test]
fn glob_prefixes_end_before_wildcards() {
    assert_eq!(split_glob_prefix("src/**/*.rs"), ("src".to_string(), "**/*.rs".to_string()));
    assert_eq!(split_glob_prefix("docs/*.md"), ("docs".to_string(), "*.md".to_string()));
    assert_eq!(split_glob_prefix("justfile"), ("justfile".to_string(), String::new()));
    assert_eq!(split_glob_prefix("**/*.rs"), (String::new(), "**/*.rs".to_string()));
    assert_eq!(extract_cross_workspace_base("../marq/src/**/*.rs"), "../marq/src");
    assert_eq!(adjust_pattern_for_root("../marq/src/**/*.rs", "../marq/src"), "**/*.rs");
}

#[test]
fn patterns_admit_and_exclude() {
    let rs = vec!["src/**/*.rs".to_string()];
    assert!(is_included("/p/src/a.rs", "/p", &rs));
    assert!(!is_included("/p/tests/a.rs", "/p", &rs));
    assert!(is_included("/p/anything", "/p", &vec![]));
    assert!(is_excluded("/p/src/a.rs", "/p", &rs));
    assert!(!is_excluded("/p/src/a.rs", "/p", &vec![]));
    // A pattern that is no glob matches nothing.
    assert!(!is_excluded("/p/[", "/p", &vec!["[".to_string()]));
}

#[test]
fn icons_and_grammars_by_extension() {
    assert_eq!(devicon_for_ext("rs"), devicon_class("src/lib.rs"));
    assert_eq!(devicon_class("a.tsx"), Some("devicon-typescript-plain"));
    assert_eq!(devicon_class("a.unknown"), None);
    assert_eq!(arborium_for_ext("rs"), Some("rust"));
    assert_eq!(arborium_language("a/b.tsx"), Some("tsx"));
    assert_eq!(arborium_language("a/b.ts"), Some("typescript"));
    assert_eq!(arborium_language("a/b.unknown"), None);
    assert_eq!(text_after_last("a/b/c.rs", '/'), "c.rs");
    assert_eq!(text_after_last("plain", '/'), "plain");
    assert!(supported_extension_list().contains(&"rs".to_string()));
}

#[test]
fn source_without_a_grammar_is_escaped() {
    assert_eq!(source_html("a.unknown", "<b>"), "&lt;b&gt;");
    assert_eq!(show_source(Some("<a-k>fn</a-k>".to_string()), "fn"), "<a-k>fn</a-k>");
    assert_eq!(show_source(None, "a & b"), "a &amp; b");
    // Whether or not the grammar is there, nothing of the source stays raw.
    assert_ne!(source_html("a.rs", "<b>"), "<b>");
}

#[test]
fn inline_code_becomes_a_link() {
    assert_eq!(
        render_inline_code(" r[auth.login] ", "spec", "rust"),
        Some(
            "<code><a href=\"/spec/rust/spec#r--auth.login\" class=\"rule-ref\">r[auth.login]</a></code>"
                .to_string()
        )
    );
    assert_eq!(render_inline_code("r[]", "s", "i"), None);
    assert_eq!(render_inline_code("r[a b]", "s", "i"), None);
    assert_eq!(render_inline_code("x[a]", "s", "i"), None);
}

#[test]
fn positions_in_text() {
    let text = "ab\ncdé\n";
    assert_eq!(line_col_to_offset(text, 0, 1), Some(1));
    assert_eq!(line_col_to_offset(text, 1, 3), Some(7));
    // Past the end of a line stands for its end.
    assert_eq!(line_col_to_offset(text, 0, 99), Some(2));
    assert_eq!(line_col_to_offset(text, 1, 99), Some(7));
    assert_eq!(line_col_to_offset(text, 2, 0), Some(8));
    assert_eq!(line_col_to_offset(text, 3, 0), None);
    assert_eq!(span_to_range(text, 3, 4), (1, 0, 1, 3));
    assert_eq!(span_to_range(text, 0, 3), (0, 0, 1, 0));
}

#[test]
fn sorting_is_stable() {
    let keys = vec![
        SortKey { weight: 1, text: "b".to_string(), number: 0 },
        SortKey { weight: 0, text: "z".to_string(), number: 0 },
        SortKey { weight: 1, text: "a".to_string(), number: 2 },
        SortKey { weight: 1, text: "a".to_string(), number: 1 },
        SortKey { weight: 0, text: "z".to_string(), number: 0 },
    ];
    assert_eq!(sort_positions(&keys), vec![1, 4, 3, 2, 0]);
}

#[test]
fn cycles_of_a_graph() {
    assert_eq!(find_cycles(&vec![vec![1], vec![2], vec![]]), Vec::<Vec<usize>>::new());
    let cycles = find_cycles(&vec![vec![1], vec![0]]);
    assert_eq!(cycles.len(), 1);
    assert!(find_cycles(&vec![vec![0]]).len() == 1);
}

#[test]
fn changes_are_refused_for_other_files_and_ranges() {
    let hash = "af1349b9f5f9a1a6a0404dea36dcc9499bcb25c9adc112b7cc9a93cae41f3262";
    assert_eq!(check_update("", hash, 0, 0), None);
    let content = "Hello";
    match check_update(content, "nonsense", 0, 1) {
        Some(UpdateError::Modified { expected, actual }) => {
            assert_eq!(expected, "nonsense");
            assert_eq!(actual.len(), hash.len());
            assert_ne!(actual, content);
            // With the hash that was reported the change goes through.
            assert_eq!(check_update(content, &actual, 0, 5), None);
            let refused = check_update(content, &actual, 2, 6).unwrap();
            assert_eq!(refused.message(), "Invalid range: 2..6 (file length: 5)");
        }
        other => panic!("{other:?}"),
    }
    let refused = check_range("x", "abc".to_string(), "def", 0, 0).unwrap();
    assert_eq!(refused.message(), "File has been modified (expected hash def, got abc)");
    assert_eq!(
        check_range("x", "h".to_string(), "h", 1, 0),
        Some(UpdateError::InvalidRange { start: 1, end: 0, length: 1 })
    );
}

#[test]
fn ranges_are_replaced() {
    assert_eq!(replace_range("héllo", 1, 3, "e"), "hello");
    assert_eq!(replace_range("abc", 1, 1, "X"), "aXbc");
    assert_eq!(replace_range("abc", 1, 2, "b"), "abc");
}

#[test]
fn source_with_a_grammar_is_highlighted() {
    let html = source_html("a.rs", "fn f() {}");
    assert!(html.contains('<') && html.contains("fn"), "{html}");
    assert_ne!(html, "fn f() {}");
}

fn slug(id: &str, to: &str) -> HeadingSlug {
    HeadingSlug { level: "1".to_string(), id: id.to_string(), slug: to.to_string() }
}

#[test]
fn repeated_headings_get_their_own_ids() {
    let page = "<h1 id=\"overview\">A</h1><h1 id=\"overview\">B</h1>";
    assert_eq!(
        reslug_headings(page, &vec![slug("overview", "overview"), slug("overview", "overview-2")]),
        "<h1 id=\"overview\">A</h1><h1 id=\"overview-2\">B</h1>"
    );
}

#[test]
fn new_ids_are_not_replaced_again() {
    let page = "<h1 id=\"overview\">A</h1><h1 id=\"overview-2\">B</h1>";
    assert_eq!(
        reslug_headings(
            page,
            &vec![slug("overview", "overview-2"), slug("overview-2", "overview-2-2")]
        ),
        "<h1 id=\"overview-2\">A</h1><h1 id=\"overview-2-2\">B</h1>"
    );
    assert_eq!(
        reslug_headings(page, &vec![slug("overview", "overview"), slug("missing", "x")]),
        page
    );
}

#[test]
fn the_start_of_a_range_leads_back() {
    let text = "añb\n\n  r[a.b] ü\nend";
    for (offset, _) in text.char_indices() {
        let (line, col, _, _) = span_to_range(text, offset, 1);
        assert_eq!(line_col_to_offset(text, line, col), Some(offset));
    }
}

#[test]
fn headings_get_slugs_in_order() {
    let heading = |id: &str, level| {
        DocElement::Heading(Heading { title: "T".to_string(), id: id.to_string(), level, line: 1 })
    };
    let paragraph = || DocElement::Paragraph(Paragraph { line: 3, offset: 9 });
    let mut slugs = SlugAllocator::new();
    assert_eq!(slugs.allocate("intro"), "intro");
    let elements = vec![heading("intro", 1), paragraph(), heading("intro", 12), heading("end", 2)];
    let (out, headings) = allocate_headings(&elements, &mut slugs);
    assert_eq!(
        out,
        vec![heading("intro-2", 1), paragraph(), heading("intro-3", 12), heading("end", 2)]
    );
    let seen: Vec<(&str, &str, &str)> =
        headings.iter().map(|h| (h.level.as_str(), h.id.as_str(), h.slug.as_str())).collect();
    assert_eq!(
        seen,
        vec![("1", "intro", "intro-2"), ("12", "intro", "intro-3"), ("2", "end", "end")]
    );
    assert_eq!(slugs.allocate("end"), "end-2");
}
