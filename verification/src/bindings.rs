//! Calls into outside crates.

use vstd::prelude::*;

use crate::requirement::{level_named, status_named, ReqLevel, ReqStatus};
use crate::rule_id::{opt_id, parsed_rule_id, RuleId};
use crate::text::{has_prefix, opt_text};

verus! {

/// `marq::parse_rule_id` reads `base` or `base+N`: the base is not empty and
/// holds no `+`, and `N` is a decimal number from 1 to `u32::MAX`; it returns
/// `None` for every other text.
#[verifier::external_body]
pub(crate) fn marq_parse_rule_id(id: &str) -> (r: Option<RuleId>)
    ensures
        opt_id(r) == parsed_rule_id(id@),
{
    marq::parse_rule_id(id).map(|r| RuleId { base: r.base, version: r.version })
}

/// `marq::ReqStatus::parse` knows the four words of `status_named` and no other.
#[verifier::external_body]
pub(crate) fn marq_parse_status(s: &str) -> (r: Option<ReqStatus>)
    ensures
        r == status_named(s@),
{
    match marq::ReqStatus::parse(s) {
        Some(marq::ReqStatus::Draft) => Some(ReqStatus::Draft),
        Some(marq::ReqStatus::Stable) => Some(ReqStatus::Stable),
        Some(marq::ReqStatus::Deprecated) => Some(ReqStatus::Deprecated),
        Some(marq::ReqStatus::Removed) => Some(ReqStatus::Removed),
        None => None,
    }
}

/// `marq::ReqLevel::parse` knows the seven words of `level_named` and no other.
#[verifier::external_body]
pub(crate) fn marq_parse_level(s: &str) -> (r: Option<ReqLevel>)
    ensures
        r == level_named(s@),
{
    match marq::ReqLevel::parse(s) {
        Some(marq::ReqLevel::Must) => Some(ReqLevel::Must),
        Some(marq::ReqLevel::Should) => Some(ReqLevel::Should),
        Some(marq::ReqLevel::May) => Some(ReqLevel::May),
        None => None,
    }
}

/// An ASCII capital as a small letter, any other character as it is.
pub open spec fn ascii_lower(c: char) -> char {
    if 'A' <= c && c <= 'Z' {
        ((c as u32) + 32) as char
    } else {
        c
    }
}

/// A text with small letters, where every run of characters that are neither
/// alphanumeric nor dots is one hyphen, left out at the start.
pub open spec fn hyphenated(text: Seq<char>) -> Seq<char>
    decreases text.len(),
{
    if text.len() == 0 {
        Seq::empty()
    } else {
        let before = hyphenated(text.drop_last());
        let c = text.last();
        if unicode_alphanumeric(c) || c == '.' {
            before.push(ascii_lower(c))
        } else if before.len() > 0 && before.last() != '-' {
            before.push('-')
        } else {
            before
        }
    }
}

/// The slug of a heading's text: hyphenated, without a hyphen at the end.
pub open spec fn slug_of(text: Seq<char>) -> Seq<char> {
    let h = hyphenated(text);
    if h.len() > 0 && h.last() == '-' {
        h.drop_last()
    } else {
        h
    }
}

/// `marq::slugify` turns a text into a URL-safe slug: it keeps dots and what
/// `char::is_alphanumeric` counts as alphanumeric, with ASCII capitals made
/// small, and puts one hyphen for each run of other characters between them.
#[verifier::external_body]
pub(crate) fn marq_slugify(text: &str) -> (r: String)
    ensures
        r@ == slug_of(text@),
{
    marq::slugify(text)
}

/// The `weight` that `marq::parse_frontmatter` reads from a document, or `None`
/// where it reports an error.
pub uninterp spec fn frontmatter_weight(content: Seq<char>) -> Option<i32>;

/// `marq::parse_frontmatter` reads the TOML or YAML block that a document
/// begins with; only the `weight` field is kept. The result depends on the
/// content alone and is named `frontmatter_weight`. A document that begins
/// with neither `+++` nor `---` has no such block, and its weight is 0.
#[verifier::external_body]
pub(crate) fn marq_frontmatter_weight(content: &str) -> (r: Option<i32>)
    ensures
        r == frontmatter_weight(content@),
        !has_prefix(content@, "+++"@) && !has_prefix(content@, "---"@) ==> r == Some(0i32),
{
    marq::parse_frontmatter(content).ok().map(|(fm, _)| fm.weight)
}

/// The inline diff that `marq::diff_markdown_inline` makes of two texts.
pub uninterp spec fn markdown_diff(old_text: Seq<char>, new_text: Seq<char>) -> Seq<char>;

/// `marq::diff_markdown_inline` marks removed and added runs in Markdown; its
/// result depends on the two texts alone and is named `markdown_diff`.
#[verifier::external_body]
pub(crate) fn marq_diff_inline(old_text: &str, new_text: &str) -> (r: String)
    ensures
        r@ == markdown_diff(old_text@, new_text@),
{
    marq::diff_markdown_inline(old_text, new_text)
}

/// Whether the glob `pattern` matches `path`, or `None` where it is no valid glob.
pub uninterp spec fn glob_match(pattern: Seq<char>, path: Seq<char>) -> Option<bool>;

/// What is wrong with the glob `pattern`, or `None` where it is valid.
pub uninterp spec fn glob_error(pattern: Seq<char>) -> Option<Seq<char>>;

/// `globset::Glob::new` reads a pattern, `GlobSet::new` compiles it, and
/// `GlobSet::is_match` tests a path, with `/` as the separator. The result
/// depends on the two texts alone and is named `glob_match`; it is `None`
/// exactly where reading or compiling the pattern reports an error.
#[verifier::external_body]
pub(crate) fn glob_matches(pattern: &str, path: &str) -> (r: Option<bool>)
    ensures
        r == glob_match(pattern@, path@),
        r is None <==> glob_error(pattern@) is Some,
{
    let set = globset::Glob::new(pattern).and_then(|g| globset::GlobSet::new([g]));
    set.ok().map(|s| s.is_match(path))
}

/// The message of the error that `globset::Glob::new` reports when it reads a
/// pattern, or `GlobSet::new` when it compiles it. It depends on the pattern
/// alone and is named `glob_error`.
#[verifier::external_body]
pub(crate) fn glob_error_message(pattern: &str) -> (r: Option<String>)
    ensures
        opt_text(r) == glob_error(pattern@),
{
    let set = globset::Glob::new(pattern).and_then(|g| globset::GlobSet::new([g]));
    set.err().map(|e| e.to_string())
}

/// Whether Unicode counts a character as alphabetic or numeric.
pub uninterp spec fn unicode_alphanumeric(c: char) -> bool;

/// `char::is_alphanumeric` tells whether Unicode counts a character as
/// alphabetic or numeric; among the ASCII characters, those are the letters
/// and the digits.
#[verifier::external_body]
pub(crate) fn char_is_alphanumeric(c: char) -> (r: bool)
    ensures
        r == unicode_alphanumeric(c),
        c as u32 <= 0x7f ==> r == (('a' <= c && c <= 'z') || ('A' <= c && c <= 'Z') || ('0' <= c
            && c <= '9')),
{
    c.is_alphanumeric()
}

/// A character as it stands in the text of an HTML element.
pub open spec fn text_escaped_char(c: char) -> Seq<char> {
    if c == '&' {
        "&amp;"@
    } else if c == '<' {
        "&lt;"@
    } else if c == '>' {
        "&gt;"@
    } else {
        seq![c]
    }
}

/// A text as it stands in the text of an HTML element.
pub open spec fn text_escaped(s: Seq<char>) -> Seq<char>
    decreases s.len(),
{
    if s.len() == 0 {
        Seq::empty()
    } else {
        text_escaped(s.drop_last()) + text_escaped_char(s.last())
    }
}

/// `html_escape::encode_text` writes `&`, `<` and `>` as entities and every
/// other character as it is.
#[verifier::external_body]
pub(crate) fn html_encode_text(s: &str) -> (r: String)
    ensures
        r@ == text_escaped(s@),
{
    html_escape::encode_text(s).into_owned()
}

/// The HTML that `arborium::Highlighter::highlight` makes of a source text in a
/// language, or `None` where it knows no such language.
pub uninterp spec fn highlighted_html(language: Seq<char>, source: Seq<char>) -> Option<Seq<char>>;

/// `arborium::Highlighter::highlight`, by a highlighter made with `new`, turns a
/// source text into HTML. The result depends on the language and the text alone
/// and is named `highlighted_html`; of the error's text nothing is stated.
#[verifier::external_body]
pub(crate) fn arborium_highlight(language: &str, source: &str) -> (r: Option<String>)
    ensures
        opt_text(r) == highlighted_html(language@, source@),
{
    arborium::Highlighter::new().highlight(language, source).ok()
}

/// The BLAKE3 hash of a text's UTF-8 bytes, in hexadecimal.
pub uninterp spec fn blake3_hex(s: Seq<char>) -> Seq<char>;

/// `blake3::hash` of a text's bytes, written by `Hash::to_hex`. The result
/// depends on the text alone and is named `blake3_hex`.
#[verifier::external_body]
pub(crate) fn blake3_hex_of(s: &str) -> (r: String)
    ensures
        r@ == blake3_hex(s@),
{
    blake3::hash(s.as_bytes()).to_hex().to_string()
}

/// A text in lower case, as Unicode has it.
pub uninterp spec fn unicode_lowercase(s: Seq<char>) -> Seq<char>;

/// `str::to_lowercase` maps a text to lower case by Unicode's tables. The result
/// depends on the text alone and is named `unicode_lowercase`.
#[verifier::external_body]
pub(crate) fn str_to_lowercase(s: &str) -> (r: String)
    ensures
        r@ == unicode_lowercase(s@),
{
    s.to_lowercase()
}

} // verus!
