//! Showing and changing single files.

use vstd::prelude::*;

use crate::api::{CodeUnit, ImplKey};
use crate::badge::{after_last, text_after_last};
use crate::bindings::{
    arborium_highlight, blake3_hex, blake3_hex_of, highlighted_html, html_encode_text, text_escaped,
};
use crate::coverage::unit_models;
use crate::dashboard::impl_units;
use crate::format::SpecFormat;
use crate::html::{escaped, html_escape};
use crate::languages::{arborium_for_ext, registered_grammar};
use crate::numbers::{decimal, decimal_of_usize};
use crate::paths::{
    components, components_of, relative_or_self, relative_path_or_self, same_path,
};
use crate::text::{
    byte_count, byte_len, char_position, char_position_of, chars_of, concat3, copy_str, opt_text,
    str_eq, sub_string, texts,
};
use crate::validation::entry_of;

verus! {

/// The grammar for highlighting a file.
pub open spec fn grammar(path: Seq<char>) -> Option<Seq<char>> {
    let ext = after_last(path, '.');
    if registered_grammar(ext) is Some {
        registered_grammar(ext)
    } else if ext == "hh"@ || ext == "hxx"@ {
        Some("cpp"@)
    } else if ext == "js"@ || ext == "mjs"@ || ext == "cjs"@ || ext == "jsx"@ {
        Some("javascript"@)
    } else if ext == "ts"@ || ext == "mts"@ || ext == "cts"@ {
        Some("typescript"@)
    } else if ext == "tsx"@ {
        Some("tsx"@)
    } else if ext == "kt"@ || ext == "kts"@ {
        Some("kotlin"@)
    } else if ext == "scala"@ {
        Some("scala"@)
    } else if ext == "zig"@ {
        Some("zig"@)
    } else if ext == "json"@ {
        Some("json"@)
    } else if ext == "yaml"@ || ext == "yml"@ {
        Some("yaml"@)
    } else if ext == "toml"@ {
        Some("toml"@)
    } else if ext == "xml"@ {
        Some("xml"@)
    } else if ext == "html"@ || ext == "htm"@ {
        Some("html"@)
    } else if ext == "css"@ {
        Some("css"@)
    } else if ext == "scss"@ || ext == "sass"@ {
        Some("scss"@)
    } else if ext == "md"@ || ext == "markdown"@ {
        Some("markdown"@)
    } else if ext == "typ"@ {
        Some("typst"@)
    } else if ext == "sql"@ {
        Some("sql"@)
    } else if ext == "mat"@ {
        Some("matlab"@)
    } else if ext == "svelte"@ {
        Some("svelte"@)
    } else {
        None
    }
}

/// Get the name of the grammar for highlighting a file.
///
/// Consults the language registry first; the rest covers only extensions that
/// the registry doesn't carry: file types that are no source code, and the
/// languages whose extensions have different grammars.
pub fn arborium_language(path: &str) -> (r: Option<&'static str>)
    ensures
        match (r, grammar(path@)) {
            (Some(a), Some(b)) => a@ == b,
            (None, None) => true,
            _ => false,
        },
{
    let owned = text_after_last(path, '.');
    let ext = owned.as_str();
    let registered = arborium_for_ext(ext);
    if registered.is_some() {
        return registered;
    }
    if str_eq(ext, "hh") || str_eq(ext, "hxx") {
        Some("cpp")
    } else if str_eq(ext, "js") || str_eq(ext, "mjs") || str_eq(ext, "cjs") || str_eq(ext, "jsx") {
        Some("javascript")
    } else if str_eq(ext, "ts") || str_eq(ext, "mts") || str_eq(ext, "cts") {
        Some("typescript")
    } else if str_eq(ext, "tsx") {
        Some("tsx")
    } else if str_eq(ext, "kt") || str_eq(ext, "kts") {
        Some("kotlin")
    } else if str_eq(ext, "scala") {
        Some("scala")
    } else if str_eq(ext, "zig") {
        Some("zig")
    } else if str_eq(ext, "json") {
        Some("json")
    } else if str_eq(ext, "yaml") || str_eq(ext, "yml") {
        Some("yaml")
    } else if str_eq(ext, "toml") {
        Some("toml")
    } else if str_eq(ext, "xml") {
        Some("xml")
    } else if str_eq(ext, "html") || str_eq(ext, "htm") {
        Some("html")
    } else if str_eq(ext, "css") {
        Some("css")
    } else if str_eq(ext, "scss") || str_eq(ext, "sass") {
        Some("scss")
    } else if str_eq(ext, "md") || str_eq(ext, "markdown") {
        Some("markdown")
    } else if str_eq(ext, "typ") {
        Some("typst")
    } else if str_eq(ext, "sql") {
        Some("sql")
    } else if str_eq(ext, "mat") {
        Some("matlab")
    } else if str_eq(ext, "svelte") {
        Some("svelte")
    } else {
        None
    }
}

/// What is shown of a source text: the highlighted text, or else the escaped
/// text.
pub open spec fn shown_source_html(highlighted: Option<Seq<char>>, content: Seq<char>) -> Seq<char> {
    match highlighted {
        Some(h) => h,
        None => escaped(content),
    }
}

/// The HTML of a source text, given what highlighting it gave.
pub fn show_source(highlighted: Option<String>, content: &str) -> (r: String)
    ensures
        r@ == shown_source_html(opt_text(highlighted), content@),
{
    match highlighted {
        Some(h) => h,
        None => html_escape(content),
    }
}

/// The HTML of a source file: highlighted where there is a grammar for it.
pub fn source_html(path: &str, content: &str) -> (r: String)
    ensures
        r@ == shown_source_html(
            match grammar(path@) {
                Some(g) => highlighted_html(g, content@),
                None => None,
            },
            content@,
        ),
{
    let highlighted = match arborium_language(path) {
        Some(lang) => arborium_highlight(lang, content),
        None => None,
    };
    show_source(highlighted, content)
}

/// The HTML of a short fragment of a spec, or `None` for Markdown, which has to
/// be rendered: other formats are only escaped.
pub fn render_spec_inline(fmt: SpecFormat, text: &str) -> (r: Option<String>)
    ensures
        opt_text(r) == if fmt == SpecFormat::Markdown {
            None
        } else {
            Some(text_escaped(text@))
        },
{
    match fmt {
        SpecFormat::Markdown => None,
        _ => Some(html_encode_text(text)),
    }
}

/// A unit of code as it is shown.
#[derive(Debug, Clone, PartialEq, Eq)]
pub struct ApiCodeUnit {
    pub kind: String,
    pub name: Option<String>,
    pub start_line: usize,
    pub end_line: usize,
    pub rule_refs: Vec<String>,
}

/// A shown unit is one of the code.
pub open spec fn shows_unit(a: ApiCodeUnit, u: CodeUnit) -> bool {
    &&& a.kind@ == u.kind@
    &&& opt_text(a.name) == opt_text(u.name)
    &&& a.start_line == u.start_line
    &&& a.end_line == u.end_line
    &&& texts(a.rule_refs@) == texts(u.req_refs@)
}

/// A file as it is shown.
#[derive(Debug, Clone, PartialEq, Eq)]
pub struct ApiFileData {
    pub path: String,
    pub content: String,
    pub html: String,
    pub units: Vec<ApiCodeUnit>,
}

/// The position of the file among those with code units.
pub open spec fn file_at(files: Seq<(Seq<char>, Seq<CodeUnit>)>, path: Seq<char>, i: int) -> Option<int>
    decreases files.len() - i,
{
    if i < 0 || i >= files.len() {
        None
    } else if components(files[i].0) == components(path) {
        Some(i)
    } else {
        file_at(files, path, i + 1)
    }
}

/// Where a file stands among the units of an implementation, where it does.
pub fn find_file_units(
    units: &Vec<(ImplKey, Vec<(String, Vec<CodeUnit>)>)>,
    key: &ImplKey,
    path: &str,
) -> (r: Option<(usize, usize)>)
    ensures
        match (r, entry_of(impl_units(units@), key@)) {
            (Some((i, j)), Some(files)) => i < units@.len() && j < units@[i as int].1@.len()
                && unit_models(units@[i as int].1@) == files && file_at(files, path@, 0) == Some(
                j as int,
            ),
            (None, Some(files)) => file_at(files, path@, 0) is None,
            (x, None) => x is None,
        },
{
    let ghost us = impl_units(units@);
    let mut i: usize = units.len();
    assert(us.take(i as int) =~= us);
    while i > 0
        invariant
            i <= units@.len(),
            us == impl_units(units@),
            entry_of(us, key@) == entry_of(us.take(i as int), key@),
        decreases i,
    {
        assert(us.take(i as int).drop_last() =~= us.take(i - 1));
        assert(us.take(i as int).last() == (
            units@[i - 1].0@,
            unit_models(units@[i - 1].1@),
        ));
        let k = &units[i - 1].0;
        if str_eq(k.spec_name.as_str(), key.spec_name.as_str()) && str_eq(
            k.impl_name.as_str(),
            key.impl_name.as_str(),
        ) {
            let at = find_in_files(&units[i - 1].1, path);
            return match at {
                Some(j) => Some((i - 1, j)),
                None => None,
            };
        }
        i = i - 1;
    }
    None
}

fn find_in_files(files: &Vec<(String, Vec<CodeUnit>)>, path: &str) -> (r: Option<usize>)
    ensures
        match r {
            Some(j) => j < files@.len() && file_at(unit_models(files@), path@, 0) == Some(
                j as int,
            ),
            None => file_at(unit_models(files@), path@, 0) is None,
        },
{
    let ghost fs = unit_models(files@);
    let parts = components_of(path);
    let mut i: usize = 0;
    while i < files.len()
        invariant
            i <= files@.len(),
            fs == unit_models(files@),
            texts(parts@) == components(path@),
            file_at(fs, path@, 0) == file_at(fs, path@, i as int),
        decreases files@.len() - i,
    {
        assert(fs[i as int] == (files@[i as int].0@, files@[i as int].1@));
        if same_path(&parts, files[i].0.as_str()) {
            return Some(i);
        }
        i = i + 1;
    }
    None
}

/// A file as it is shown: its path seen from the root, its content, its HTML
/// and its units.
pub fn show_file(root: &str, full_path: &str, content: String, units: &Vec<CodeUnit>) -> (r: ApiFileData)
    ensures
        r.path@ == relative_or_self(full_path@, root@),
        r.content@ == content@,
        r.html@ == shown_source_html(
            match grammar(relative_or_self(full_path@, root@)) {
                Some(g) => highlighted_html(g, content@),
                None => None,
            },
            content@,
        ),
        r.units@.len() == units@.len(),
        forall|i: int| 0 <= i < units@.len() ==> shows_unit(#[trigger] r.units@[i], units@[i]),
{
    let path = relative_path_or_self(full_path, root);
    let html = source_html(path.as_str(), content.as_str());
    let mut out: Vec<ApiCodeUnit> = Vec::new();
    let mut i: usize = 0;
    while i < units.len()
        invariant
            i <= units@.len(),
            out@.len() == i,
            forall|k: int| 0 <= k < i ==> shows_unit(#[trigger] out@[k], units@[k]),
        decreases units@.len() - i,
    {
        let u = &units[i];
        out.push(
            ApiCodeUnit {
                kind: copy_str(u.kind.as_str()),
                name: crate::requirement::copy_opt(&u.name),
                start_line: u.start_line,
                end_line: u.end_line,
                rule_refs: crate::requirement::copy_strings(&u.req_refs),
            },
        );
        i = i + 1;
    }
    ApiFileData { path, content, html, units: out }
}

/// Why a change to a file is refused.
#[derive(Debug, Clone, PartialEq, Eq)]
pub enum UpdateError {
    /// The file is not the one that the change was made for.
    Modified { expected: String, actual: String },
    /// The range does not lie in the file.
    InvalidRange { start: usize, end: usize, length: usize },
}

impl UpdateError {
    /// What is said of it.
    pub fn message(&self) -> (r: String)
        ensures
            r@ == match self {
                UpdateError::Modified { expected, actual } =>
                    "File has been modified (expected hash "@ + expected@ + ", got "@ + actual@
                    + ")"@,
                UpdateError::InvalidRange { start, end, length } => "Invalid range: "@ + decimal(
                    *start as nat,
                ) + ".."@ + decimal(*end as nat) + " (file length: "@ + decimal(*length as nat)
                    + ")"@,
            },
    {
        match self {
            UpdateError::Modified { expected, actual } => {
                let mut m = concat3(
                    "File has been modified (expected hash ",
                    expected.as_str(),
                    ", got ",
                );
                m.append(actual.as_str());
                m.append(")");
                m
            },
            UpdateError::InvalidRange { start, end, length } => {
                let a = decimal_of_usize(*start);
                let b = decimal_of_usize(*end);
                let n = decimal_of_usize(*length);
                let mut m = concat3("Invalid range: ", a.as_str(), "..");
                m.append(b.as_str());
                m.append(" (file length: ");
                m.append(n.as_str());
                m.append(")");
                m
            },
        }
    }
}

/// What is said of a change, given the hash of the file: whether it is refused.
pub open spec fn update_refusal(
    actual: Seq<char>,
    expected: Seq<char>,
    length: nat,
    start: usize,
    end: usize,
    e: Option<UpdateError>,
) -> bool {
    if actual != expected {
        match e {
            Some(UpdateError::Modified { expected: x, actual: y }) => x@ == expected && y@ == actual,
            _ => false,
        }
    } else if start > end || end > length {
        match e {
            Some(UpdateError::InvalidRange { start: a, end: b, length: n }) => a == start && b
                == end && n == length,
            _ => false,
        }
    } else {
        e is None
    }
}

/// Whether a change is refused, given the hash of the file as it is.
pub fn check_range(content: &str, actual: String, expected: &str, start: usize, end: usize) -> (r:
    Option<UpdateError>)
    ensures
        update_refusal(actual@, expected@, byte_len(content@), start, end, r),
{
    if !str_eq(actual.as_str(), expected) {
        return Some(UpdateError::Modified { expected: copy_str(expected), actual });
    }
    let length = byte_count(content);
    if start > end || end > length {
        return Some(UpdateError::InvalidRange { start, end, length });
    }
    None
}

/// Whether a change is refused: the file must have the expected hash, and the
/// range must lie in it.
pub fn check_update(content: &str, file_hash: &str, start: usize, end: usize) -> (r: Option<UpdateError>)
    ensures
        update_refusal(blake3_hex(content@), file_hash@, byte_len(content@), start, end, r),
{
    let actual = blake3_hex_of(content);
    check_range(content, actual, file_hash, start, end)
}

/// A text with the bytes from `start` up to `end` replaced.
pub open spec fn range_replaced(content: Seq<char>, start: usize, end: usize, new: Seq<char>) -> Seq<char> {
    content.take(char_position(content, start as int)->0) + new + content.skip(
        char_position(content, end as int)->0,
    )
}

/// Replace the bytes from `start` up to `end`.
pub fn replace_range(content: &str, start: usize, end: usize, new: &str) -> (r: String)
    requires
        char_position(content@, start as int) is Some,
        char_position(content@, end as int) is Some,
    ensures
        r@ == range_replaced(content@, start, end, new@),
{
    let c = chars_of(content);
    let mut out = String::new();
    match (char_position_of(&c, start), char_position_of(&c, end)) {
        (Some(a), Some(b)) => {
            let head = sub_string(&c, 0, a);
            let tail = sub_string(&c, b, c.len());
            proof {
                assert(c@.subrange(0, a as int) =~= content@.take(a as int));
                assert(c@.subrange(b as int, c@.len() as int) =~= content@.skip(b as int));
            }
            out.append(head.as_str());
            out.append(new);
            out.append(tail.as_str());
            assert(out@ =~= range_replaced(content@, start, end, new@));
        },
        _ => {},
    }
    out
}

/// Replacing a range by what stands there changes nothing.
pub proof fn law_replace_by_itself(content: Seq<char>, a: int, b: int)
    requires
        0 <= a <= b <= content.len(),
        byte_len(content.take(a)) <= usize::MAX,
        byte_len(content.take(b)) <= usize::MAX,
    ensures
        range_replaced(
            content,
            byte_len(content.take(a)) as usize,
            byte_len(content.take(b)) as usize,
            content.subrange(a, b),
        ) == content,
{
    crate::text::lemma_char_position(content, a);
    crate::text::lemma_char_position(content, b);
    assert(content.take(a) + content.subrange(a, b) + content.skip(b) =~= content);
}

} // verus!
