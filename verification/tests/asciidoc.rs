use tracey::adoc_backend::{
    assemble, parse_asciidoc, render_asciidoc, AdocError, RenderInput, RenderSource,
};
use tracey::adoc_html::{extract_content_html, extract_first_div_by_id, rename_section_ids};
use tracey::adoc_marker::{
    byte_offset_to_line, parse_req_leading_marker, parse_req_marker_inner, render_req_body_html,
    split_tags,
};
use tracey::adoc_references::check_references;
use tracey::adoc_renderable::check_document;
use tracey::adoc_tree::{
    find_attribute, find_named, AdocAnchor, AdocBlock, AdocBody, AdocBook, AdocCell, AdocContent,
    AdocDocument, AdocEmpty, AdocInline, AdocItem, AdocSection, AdocValue, InlineKind,
};
use tracey::document::DocElement;
use tracey::outline::build_outline;
use tracey::requirement::{ReqLevel, ReqStatus};
use tracey::slugs::SlugAllocator;

const SPEC: &str = "= Title\n\n== Log In\n\nr[auth.login level=should status=draft tags=a,b] Users SHOULD log in.\n\n=== Log In\n\nText with `code`.\n\n== Other\n\nr[other.one] One.\n";

#[test]
fn leading_markers_define_requirements() {
    let doc = parse_asciidoc(SPEC, false).expect("parse");
    let ids: Vec<String> = doc.reqs.iter().map(|r| r.id.text()).collect();
    assert_eq!(ids, vec!["auth.login".to_string(), "other.one".to_string()]);
    let login = &doc.reqs[0];
    assert_eq!(login.metadata.level, Some(ReqLevel::Should));
    assert_eq!(login.metadata.status, Some(ReqStatus::Draft));
    assert_eq!(login.metadata.tags, vec!["a".to_string(), "b".to_string()]);
    assert_eq!(login.line, 5);
    assert_eq!(login.raw, "Users SHOULD log in.");
    assert!(doc.html.contains("id=\"r--auth.login\""));
    assert_eq!(doc.inline_code_spans.len(), 1);
    assert_eq!(doc.inline_code_spans[0].content, "code");
    let span = doc.inline_code_spans[0].span;
    assert_eq!(&SPEC[span.offset..span.offset + span.length], "`code`");
}

#[test]
fn headings_get_distinct_slugs() {
    let doc = parse_asciidoc(SPEC, false).expect("parse");
    let seen: Vec<(&str, &str)> =
        doc.headings.iter().map(|h| (h.title.as_str(), h.id.as_str())).collect();
    assert_eq!(seen, vec![("Log In", "log-in"), ("Log In", "log-in-2"), ("Other", "other")]);
    assert!(doc.html.contains("id=\"log-in-2\""));
    let outline = build_outline(&doc.elements, &vec![]);
    let seen: Vec<(&str, usize, usize)> = outline
        .iter()
        .map(|e| (e.slug.as_str(), e.coverage.total, e.aggregated.total))
        .collect();
    assert_eq!(seen, vec![("log-in", 1, 1), ("log-in-2", 0, 0), ("other", 1, 1)]);
}

#[test]
fn elements_come_in_document_order() {
    let doc = parse_asciidoc(SPEC, false).expect("parse");
    let kinds: Vec<&str> = doc
        .elements
        .iter()
        .map(|e| match e {
            DocElement::Heading(_) => "heading",
            DocElement::Req(_) => "req",
            DocElement::Paragraph(_) => "paragraph",
        })
        .filter(|k| *k != "paragraph")
        .collect();
    assert_eq!(kinds, vec!["heading", "req", "heading", "heading", "req"]);
}

#[test]
fn leading_markers_mean_nothing_with_roles() {
    let doc = parse_asciidoc(SPEC, true).expect("parse");
    assert!(doc.reqs.is_empty());
}

#[test]
fn each_error_has_its_document() {
    let twice = "r[a.b] One.\n\nr[a.b+2] Two.\n";
    assert_eq!(parse_asciidoc(twice, false).err(), Some(AdocError::Duplicate("a.b".to_string())));
    let mut slugs = SlugAllocator::new();
    let e = assemble(
        Err("broken".to_string()),
        Err("broken".to_string()),
        "",
        false,
        &None,
        &mut slugs,
    );
    assert_eq!(e.err(), Some(AdocError::Parse("broken".to_string())));
    let empty = || of_blocks(vec![]);
    let e = assemble(Ok(empty()), Err("no page".to_string()), "", false, &None, &mut slugs);
    assert_eq!(e.err(), Some(AdocError::Render("no page".to_string())));
    let d = assemble(Ok(empty()), Ok(String::new()), "", false, &None, &mut slugs).expect("empty");
    assert!(d.reqs.is_empty() && d.headings.is_empty());
}

#[test]
fn rendering_shares_slugs_across_files() {
    let rules = vec![];
    let sources = vec![
        RenderSource { path: "a.adoc", content: "= A\n\n== Intro\n" },
        RenderSource { path: "b.adoc", content: "= B\n\n== Intro\n\nr[x.y] Must.\n" },
    ];
    let mut slugs = SlugAllocator::new();
    let out = render_asciidoc(
        &RenderInput {
            sources: &sources,
            root: "/p",
            rules: &rules,
            spec_name: "s",
            impl_name: "i",
        },
        false,
        &mut slugs,
    )
    .expect("renders");
    assert_eq!(out.sections.len(), 2);
    assert!(out.sections[0].html.contains("id=\"intro\""));
    assert!(out.sections[1].html.contains("id=\"intro-2\""));
    assert!(out.sections[1].html.contains("req-container req-uncovered"));
}

#[test]
fn markers_are_read_from_a_line() {
    assert_eq!(
        parse_req_leading_marker("r[a.b] text"),
        Some(("r".to_string(), "a.b".to_string(), 5))
    );
    assert_eq!(parse_req_leading_marker("r [a.b]"), None);
    assert_eq!(parse_req_leading_marker("[a.b]"), None);
    let (id, meta) = parse_req_marker_inner("a.b+3 status=stable level=shall since=1 until=2").unwrap();
    assert_eq!(id.text(), "a.b+3");
    assert_eq!(meta.status, Some(ReqStatus::Stable));
    assert_eq!(meta.level, Some(ReqLevel::Must));
    assert_eq!((meta.since, meta.until), (Some("1".to_string()), Some("2".to_string())));
    assert!(parse_req_marker_inner("").is_none());
    assert_eq!(
        split_tags("a, b,,c"),
        vec!["a".to_string(), "b".to_string(), String::new(), "c".to_string()]
    );
}

#[test]
fn bodies_are_wrapped_in_paragraphs() {
    assert_eq!(render_req_body_html("a < b\n\nc"), "<p>a &lt; b</p>\n<p>c</p>\n");
    assert_eq!(render_req_body_html(""), "");
}

#[test]
fn lines_are_counted_from_one() {
    assert_eq!(byte_offset_to_line("a\nb\nc", 0), 1);
    assert_eq!(byte_offset_to_line("a\nb\nc", 2), 2);
    assert_eq!(byte_offset_to_line("a\nb\nc", 4), 3);
    assert_eq!(byte_offset_to_line("a\nb\nc", 99), 3);
}

#[test]
fn divs_are_found_with_their_nested_divs() {
    let html: Vec<char> = "x<div id=\"a\"><div>y</div>z</div>w".chars().collect();
    let (start, inner, end) = extract_first_div_by_id(&html, "a").expect("div");
    let text = |i: usize, j: usize| html[i..j].iter().collect::<String>();
    assert_eq!(text(start, end), "<div id=\"a\"><div>y</div>z");
    assert_eq!(text(inner, end), "<div>y</div>z");
    assert_eq!(extract_first_div_by_id(&html, "b"), None);
    let open: Vec<char> = "<div id=\"a\"><div>".chars().collect();
    assert_eq!(extract_first_div_by_id(&open, "a"), None);
}

#[test]
fn section_ids_are_renamed() {
    let map = vec![("_intro".to_string(), "intro".to_string())];
    assert_eq!(
        rename_section_ids("<h2 id=\"_intro\">I</h2>".to_string(), &map),
        "<h2 id=\"intro\">I</h2>"
    );
}

#[test]
fn a_page_without_content_is_kept() {
    let page = "<p>x</p>";
    assert_eq!(extract_content_html(page), page);
}

#[test]
fn slugs_are_made_of_titles() {
    let src = "= T\n\n== My API (v2)\n\n== i.have.dots\n\n== Über *alles*!\n";
    let doc = parse_asciidoc(src, false).expect("parse");
    let ids: Vec<&str> = doc.headings.iter().map(|h| h.id.as_str()).collect();
    assert_eq!(ids, vec!["my-api-v2", "i.have.dots", "Über-alles"]);
}

#[test]
fn documents_that_cannot_be_rendered_are_refused() {
    let paragraph_of_blocks = "[normal]\n--\ninner\n--\n";
    assert_eq!(parse_asciidoc(paragraph_of_blocks, false).err(), Some(AdocError::Unrenderable));
    let too_deep = "= T\n\n== A\n\n======== B\n\ntext\n";
    assert_eq!(parse_asciidoc(too_deep, false).err(), Some(AdocError::Unrenderable));
    let in_a_list = "* item\n+\n[normal]\n--\ninner\n--\n";
    assert_eq!(parse_asciidoc(in_a_list, false).err(), Some(AdocError::Unrenderable));
    let in_a_cell = "|===\na|\n[normal]\n--\ninner\n--\n|===\n";
    assert_eq!(parse_asciidoc(in_a_cell, false).err(), Some(AdocError::Unrenderable));
    let in_a_part = ":doctype: book\n\n= Part\n\n== A\n\n[normal]\n--\ninner\n--\n";
    assert_eq!(parse_asciidoc(&format!("= Book\n{in_a_part}"), false).err(), Some(AdocError::Unrenderable));
    let lists = "* a\n** b\n\n. one\n. two\n\nterm:: meaning\n\n|===\na|text\n|other\n|===\n\n[discrete]\n== Loose\n\nimage::x.png[]\n\nr[a.b] Must.\n";
    let doc = parse_asciidoc(lists, false).expect("parse");
    assert_eq!(doc.reqs.len(), 1);
}

#[test]
fn a_stop_inside_the_renderer_is_an_error() {
    let numbered = "= T\n:sectnums:\n:sectnumlevels: 6\n\n== A\n\n======= B\n\ntext\n";
    assert!(matches!(parse_asciidoc(numbered, false), Err(AdocError::Render(_))));
    let plain = "= T\n\n== A\n\n======= B\n\nr[a.b] Must.\n";
    assert_eq!(parse_asciidoc(plain, false).expect("parse").reqs.len(), 1);
}

#[test]
fn level_offsets_shift_headings() {
    let shifted = parse_asciidoc("= T\n\n:leveloffset: 1\n\n= A\n", false).expect("parse");
    assert_eq!(shifted.headings.iter().map(|h| h.level).collect::<Vec<_>>(), vec![1]);
    assert!(parse_asciidoc("leveloffset { and \\ are words here.\n", false).is_ok());
}

#[test]
fn tables_without_cells_are_refused() {
    assert!(matches!(parse_asciidoc("|===\n|===\n", false), Err(AdocError::Parse(_))));
    assert!(matches!(parse_asciidoc("text\n\n|===", false), Err(AdocError::Parse(_))));
    assert!(matches!(parse_asciidoc("|===\n0+|a\n|===\n", false), Err(AdocError::Parse(_))));
    let hidden = "|===\nifdef::unset[]\n|a\nendif::[]\n|===\n";
    assert!(matches!(parse_asciidoc(hidden, false), Err(AdocError::Parse(_))));
    let with_cell = "|===\n|a {b}\n|===\n\nr[a.b] Must.\n";
    assert_eq!(parse_asciidoc(with_cell, false).expect("parse").reqs.len(), 1);
}

#[test]
fn attributes_that_refer_to_themselves_are_refused() {
    for text in ["= {doctitle}\n\n{doctitle}\n", "= T\n:lb: {\n:a: {lb}a}\n\n{a}\n"] {
        assert!(matches!(parse_asciidoc(text, false), Err(AdocError::Parse(_))));
    }
    let plain = "= T\n:a: x\n:b: {a}y\n\nr[a.b] {b} {b}\n";
    assert_eq!(parse_asciidoc(plain, false).expect("parse").reqs.len(), 1);
}

#[test]
fn fields_that_cannot_be_split_are_refused() {
    let quoted = "[format=csv,separator=x]\n|===\n\"xa\"\n|===\n";
    assert!(matches!(parse_asciidoc(quoted, false), Err(AdocError::Parse(_))));
    let plain = "[format=csv]\n|===\n\"a,b\",c\n|===\n\nr[a.b] Must.\n";
    assert_eq!(parse_asciidoc(plain, false).expect("parse").reqs.len(), 1);
}

#[test]
fn documents_that_take_too_much_memory_are_refused() {
    let columns = "[cols=\"2000000000\"]\n|===\n|a\n|===\n";
    assert!(matches!(parse_asciidoc(columns, false), Err(AdocError::Parse(_))));
}

fn block(context: &str, content: AdocContent) -> AdocBlock {
    AdocBlock { context: context.to_string(), attrs: vec![], content, start: 0, last_end: None }
}

fn of_blocks(blocks: Vec<AdocBlock>) -> AdocDocument {
    AdocDocument { attributes: vec![], anchors: vec![], body: AdocBody::Blocks(blocks) }
}

fn section(level: u8, blocks: Vec<AdocBlock>) -> AdocSection {
    AdocSection { title: String::new(), heading: vec![], level, id: None, start: 0, blocks }
}

#[test]
fn content_goes_with_its_context() {
    let one = |context: &str, content: AdocContent| {
        check_document(&of_blocks(vec![block(context, content)]))
    };
    assert!(one("Paragraph", AdocContent::Simple(vec![])));
    assert!(!one("Open", AdocContent::Simple(vec![])));
    assert!(one("Open", AdocContent::Compound(vec![])));
    assert!(one("AdmonitionNote", AdocContent::Compound(vec![])));
    assert!(!one("Paragraph", AdocContent::Compound(vec![])));
    assert!(one("Comment", AdocContent::Compound(vec![])));
    assert!(one("QuotedParagraph", AdocContent::Quoted));
    assert!(one("DocumentAttributeDecl", AdocContent::Attribute("a".to_string(), AdocValue::Flag(true))));
    assert!(one("Image", AdocContent::Empty(AdocEmpty::Image)));
    assert!(!one("Image", AdocContent::Empty(AdocEmpty::Nothing)));
    assert!(one("Video", AdocContent::Empty(AdocEmpty::AudioVideo)));
    assert!(one("DiscreteHeading", AdocContent::Empty(AdocEmpty::DiscreteHeading(254))));
    assert!(!one("DiscreteHeading", AdocContent::Empty(AdocEmpty::DiscreteHeading(255))));
    assert!(one("Section", AdocContent::Section(section(6, vec![]))));
    assert!(!one("Section", AdocContent::Section(section(7, vec![]))));
    let item = |described| AdocItem { described, blocks: vec![] };
    assert!(one("UnorderedList", AdocContent::List(vec![])));
    assert!(!one("OrderedList", AdocContent::List(vec![])));
    assert!(one("OrderedList", AdocContent::List(vec![item(None)])));
    assert!(one("DescriptionList", AdocContent::List(vec![item(Some(vec![]))])));
    assert!(!one("DescriptionList", AdocContent::List(vec![item(None)])));
    let bad = || block("Open", AdocContent::Simple(vec![]));
    assert!(!one("UnorderedList", AdocContent::List(vec![AdocItem { described: None, blocks: vec![bad()] }])));
    assert!(one("Table", AdocContent::Table(vec![AdocCell::Text])));
    assert!(!one("Table", AdocContent::Table(vec![AdocCell::Document(AdocBody::Blocks(vec![bad()]))])));
    let book = |closing| AdocDocument {
        attributes: vec![],
        anchors: vec![],
        body: AdocBody::Parts(AdocBook { preamble: None, opening: vec![], parts: vec![], closing }),
    };
    assert!(check_document(&book(vec![section(1, vec![])])));
    assert!(!check_document(&book(vec![section(1, vec![bad()])])));
}

#[test]
fn attributes_are_looked_up_by_name() {
    let named = vec![("a".to_string(), None), ("b".to_string(), Some("x".to_string()))];
    assert_eq!(find_named(&named, "b"), Some("x".to_string()));
    assert_eq!(find_named(&named, "a"), None);
    assert_eq!(find_named(&named, "c"), None);
    let attributes = vec![
        ("weight".to_string(), Some(AdocValue::Text("5".to_string()))),
        ("toc".to_string(), Some(AdocValue::Flag(true))),
    ];
    assert_eq!(find_attribute(&attributes, "weight"), Some("5"));
    assert_eq!(find_attribute(&attributes, "toc"), None);
}

#[test]
fn references_that_lead_back_are_refused() {
    let twice = "[#x]\n== T <<x>> <<x>>\n\ntext\n";
    assert_eq!(parse_asciidoc(twice, false).err(), Some(AdocError::Unrenderable));
    let two_steps = "[#a]\n== A <<n>> <<b>>\n\n[#b]\n== B <<n>> xref:#a[]\n";
    assert_eq!(parse_asciidoc(two_steps, false).err(), Some(AdocError::Unrenderable));
    let once = "[#x]\n== T <<x>>\n\nSee <<x>> and <<x>>.\n\nr[a.b] Must.\n";
    assert_eq!(parse_asciidoc(once, false).expect("parse").reqs.len(), 1);
    let onward = "[#a]\n== A <<b>> <<b>>\n\n[#b]\n== B <<a>>\n";
    assert_eq!(parse_asciidoc(onward, false).expect("parse").headings.len(), 2);
}

#[test]
fn only_later_references_are_followed() {
    let xref = |target: &str| AdocInline {
        kind: InlineKind::Xref,
        text: target.to_string(),
        start: 0,
        end: 0,
        children: vec![],
    };
    let anchor = |id: &str, targets: &[&str]| AdocAnchor {
        id: id.to_string(),
        title: targets.iter().map(|t| xref(t)).collect(),
        reftext: None,
    };
    assert!(check_references(&vec![anchor("a", &["a"])]));
    assert!(!check_references(&vec![anchor("a", &["a", "a"])]));
    assert!(!check_references(&vec![anchor("a", &["x", "other#a"])]));
    assert!(check_references(&vec![anchor("a", &["b", "b"]), anchor("b", &["a"])]));
    assert!(!check_references(&vec![anchor("a", &["b", "b"]), anchor("b", &["b", "a"])]));
    let mut named = anchor("a", &["a", "a"]);
    named.reftext = Some(vec![xref("a")]);
    assert!(check_references(&vec![named]));
}
