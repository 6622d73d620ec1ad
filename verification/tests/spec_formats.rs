use tracey::format::{is_spec_extension, SpecFormat};
use tracey::markers::{
    diff_inline, extract_marker_prefix, id_range_in_marker, parse_weight, rewrite_marker,
    MarkerError,
};
use tracey::requirement::SourceSpan;
use tracey::slugs::{req_anchor_id, req_anchor_to_id, SlugAllocator, REQ_ANCHOR_PREFIX};

#[test]
fn slug_allocator_suffixes_repeats() {
    let mut slugs = SlugAllocator::default();
    assert_eq!(slugs.allocate("a"), "a");
    assert_eq!(slugs.allocate("a"), "a-2");
    assert_eq!(slugs.allocate("b"), "b");
    assert_eq!(slugs.allocate("a"), "a-3");
}

#[test]
fn slug_allocator_avoids_suffix_collision() {
    let mut slugs = SlugAllocator::default();
    assert_eq!(slugs.allocate("intro"), "intro");
    assert_eq!(slugs.allocate("intro-2"), "intro-2");
    // Second `intro` would naïvely yield `intro-2`, which is already
    // taken; the allocator must skip past it.
    assert_eq!(slugs.allocate("intro"), "intro-3");
}

#[test]
fn slug_allocator_normalises_req_prefix() {
    let mut slugs = SlugAllocator::default();
    let a = slugs.allocate("r--design");
    assert!(!a.starts_with(REQ_ANCHOR_PREFIX), "got {a:?}");
    assert!(!a.is_empty());
    let b = slugs.allocate("r--");
    assert!(!b.starts_with(REQ_ANCHOR_PREFIX), "got {b:?}");
    assert!(!b.is_empty());
}

#[test]
fn slug_allocator_preserves_hierarchical_slugs() {
    let mut slugs = SlugAllocator::default();
    // marq joins parent/child with `--`; only the literal `r--` prefix is
    // reserved, every other hierarchical id must pass through unchanged.
    assert_eq!(slugs.allocate("auth--login"), "auth--login");
}

#[test]
fn req_anchor_roundtrip() {
    assert_eq!(req_anchor_id("auth.login"), "r--auth.login");
    assert_eq!(req_anchor_to_id("r--auth.login"), Some("auth.login".to_string()));
    assert_eq!(req_anchor_to_id("some-heading"), None);
}

#[test]
fn from_path_classifies_extensions() {
    assert_eq!(
        SpecFormat::from_path("doc.md"),
        Some(SpecFormat::Markdown)
    );
    assert_eq!(
        SpecFormat::from_path("doc.markdown"),
        Some(SpecFormat::Markdown)
    );
    assert_eq!(
        SpecFormat::from_path("doc.typ"),
        Some(SpecFormat::Typst)
    );
    assert_eq!(SpecFormat::from_path("doc.rs"), None);
    assert_eq!(SpecFormat::from_path("README"), None);
}

#[test]
fn is_spec_extension_matches_registered_backends() {
    for ext in ["md", "markdown", "typ", "adoc", "asciidoc", "sdoc"] {
        assert!(is_spec_extension(ext), "{ext} should be recognised");
    }
    assert!(!is_spec_extension("rs"));
    assert!(!is_spec_extension("txt"));
    assert!(!is_spec_extension(""));
}

#[test]
fn markdown_parse_weight_reads_frontmatter() {
    let md = "+++\nweight = 7\n+++\n# Body\n";
    assert_eq!(parse_weight(SpecFormat::Markdown, md), 7);
    assert_eq!(parse_weight(SpecFormat::Markdown, "# no frontmatter"), 0);
}

#[test]
fn markdown_extract_marker_prefix_finds_bracket() {
    let content = "r[auth.login] body text";
    let span = SourceSpan {
        offset: 0,
        length: "r[auth.login]".len(),
    };
    assert_eq!(
        extract_marker_prefix(SpecFormat::Markdown, content, span),
        Some("r".to_string())
    );
}

#[test]
fn markdown_rewrite_marker_bumps_version() {
    let m = "r[auth.login]";
    let r = id_range_in_marker(SpecFormat::Markdown, m).unwrap();
    assert_eq!(&m[r.clone()], "auth.login");
    let out = rewrite_marker(m, r, "auth.login", 2).unwrap();
    assert_eq!(out, "r[auth.login+2]");
}

#[test]
fn typst_extract_marker_prefix_finds_paren() {
    let content = "#req(\"auth.login\")[body]";
    let span = SourceSpan {
        offset: 0,
        length: "#req(\"auth.login\")".len(),
    };
    // `#req` is the long alias for `#r`; normalised so it matches source refs.
    assert_eq!(
        extract_marker_prefix(SpecFormat::Typst, content, span),
        Some("r".to_string())
    );
}

#[test]
fn typst_rewrite_marker_bumps_version() {
    let m = "#req(\"auth.login\")";
    let r = id_range_in_marker(SpecFormat::Typst, m).unwrap();
    assert_eq!(&m[r.clone()], "auth.login");
    let out = rewrite_marker(m, r, "auth.login", 2).unwrap();
    assert_eq!(out, "#req(\"auth.login+2\")");
}

#[test]
fn anchors_and_slugs_never_meet() {
    let mut slugs = SlugAllocator::new();
    assert_eq!(slugs.allocate("r--a"), "h-a");
    assert_eq!(slugs.allocate("h-a"), "h-a-2");
    assert_eq!(slugs.allocate("r--"), "section");
    // The suffix would make `r--2`, which looks like an anchor.
    assert_eq!(slugs.allocate("r-"), "r-");
    assert_eq!(slugs.allocate("r-"), "h-2");
    assert_eq!(req_anchor_to_id(&req_anchor_id("x.y")), Some("x.y".to_string()));
}

#[test]
fn format_names_round_trip() {
    for f in [
        SpecFormat::Markdown,
        SpecFormat::Typst,
        SpecFormat::Sdoc,
        SpecFormat::AsciiDoc,
        SpecFormat::AsciiDocRoles,
    ] {
        assert_eq!(SpecFormat::from_name(f.name()), Some(f));
    }
    assert_eq!(SpecFormat::from_name("asciidoc-roles"), Some(SpecFormat::AsciiDocRoles));
    assert_eq!(SpecFormat::from_name("rst"), None);
    assert_eq!(SpecFormat::from_ext("adoc"), Some(SpecFormat::AsciiDoc));
}

#[test]
fn marker_errors_name_the_marker() {
    assert_eq!(
        id_range_in_marker(SpecFormat::Markdown, "no marker"),
        Err(MarkerError::Malformed("no marker".to_string()))
    );
    assert_eq!(rewrite_marker("r[a]", 3..9, "a", 2), Err(MarkerError::OutOfBounds));
}

#[test]
fn marker_prefix_outside_the_content_is_none() {
    let span = SourceSpan { offset: 4, length: 10 };
    assert_eq!(extract_marker_prefix(SpecFormat::Markdown, "r[a]", span), None);
    let long = SourceSpan { offset: usize::MAX, length: 1 };
    assert_eq!(extract_marker_prefix(SpecFormat::Markdown, "r[a]", long), None);
}

#[test]
fn rewriting_keeps_what_stands_around_the_id() {
    let m = "#req(level: \"shall\", \"a.b\")";
    let r = id_range_in_marker(SpecFormat::Typst, m).unwrap();
    assert_eq!(&m[r.clone()], "a.b");
    assert_eq!(rewrite_marker(m, r, "a.b", 3).unwrap(), "#req(level: \"shall\", \"a.b+3\")");
}

#[test]
fn inline_diffs_mark_what_changed() {
    let d = diff_inline(SpecFormat::AsciiDoc, "Users log in.", "Users must log in.").unwrap();
    assert!(d.contains("must"));
    assert_ne!(d, "Users log in.");
    assert_ne!(d, "Users must log in.");
}

#[test]
fn sdoc_documents_have_no_weight() {
    assert_eq!(parse_weight(SpecFormat::Sdoc, "+++\nweight = 7\n+++\n"), 0);
}

#[test]
fn the_id_range_leaves_metadata_out() {
    for fmt in [SpecFormat::Markdown, SpecFormat::AsciiDoc] {
        let m = "r[auth.login status=draft]";
        let r = id_range_in_marker(fmt, m).unwrap();
        assert_eq!(r, 2..12);
        assert_eq!(
            rewrite_marker(m, r, "auth.login", 3).unwrap(),
            "r[auth.login+3 status=draft]"
        );
        let spaced = "req[ a.b+2  tags=x,y ]";
        let r = id_range_in_marker(fmt, spaced).unwrap();
        assert_eq!(&spaced[r.clone()], "a.b+2");
        assert_eq!(rewrite_marker(spaced, r, "a.b", 3).unwrap(), "req[ a.b+3  tags=x,y ]");
        assert_eq!(id_range_in_marker(fmt, "r[a.b]").unwrap(), 2..5);
        assert_eq!(id_range_in_marker(fmt, "r[]").unwrap(), 2..2);
    }
}
