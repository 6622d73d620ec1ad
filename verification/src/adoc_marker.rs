//! Leading `r[id]` markers in AsciiDoc paragraphs, and the text around them.

use vstd::prelude::*;

use crate::bindings::{marq_parse_level, marq_parse_status};
use crate::html::{escaped, html_escape};
use crate::requirement::{level_named, no_metadata, status_named, MetadataModel, ReqMetadata};
use crate::rule_id::{parse_rule_id, parsed_rule_id, RuleId};
use crate::split::{
    bounds_ok, cut, split_char, split_char_of, split_text_bounds, split_text_from, word_bounds,
    words_from,
};
use crate::text::{
    byte_len, byte_offset_of, char_width_of, chars_of, find_char, find_char_from,
    lemma_byte_len_take_mono, str_eq, sub_string, texts, trim, trim_bounds, trimmed,
};

verus! {

/// How many line feeds of `s` stand before the byte offset `off`.
pub open spec fn newlines_before(s: Seq<char>, off: int) -> nat
    decreases s.len(),
{
    if s.len() == 0 {
        0
    } else {
        newlines_before(s.drop_last(), off) + if s.last() == '\n' && byte_len(s.drop_last()) < off {
            1nat
        } else {
            0nat
        }
    }
}

/// The 1-indexed line that holds the byte offset `off`.
pub open spec fn line_at(s: Seq<char>, off: int) -> nat {
    newlines_before(s, off) + 1
}

/// Convert a byte offset into a 1-indexed line number. An offset past the end
/// counts as the end.
pub fn byte_offset_to_line(source: &str, offset: usize) -> (line: usize)
    ensures
        line == line_at(source@, offset as int),
{
    let v = chars_of(source);
    let mut at: usize = 0;
    let mut n: usize = 0;
    let mut i: usize = 0;
    while i < v.len()
        invariant
            v@ == source@,
            i <= v@.len(),
            byte_len(v@) <= isize::MAX,
            at == byte_len(v@.take(i as int)),
            n == newlines_before(v@.take(i as int), offset as int),
            n <= i,
            v@.len() <= isize::MAX,
        decreases v@.len() - i,
    {
        proof {
            assert(v@.take(i + 1).drop_last() =~= v@.take(i as int));
            lemma_byte_len_take_mono(v@, i + 1, v@.len() as int);
        }
        if v[i] == '\n' && at < offset {
            n = n + 1;
        }
        at = at + char_width_of(v[i]);
        i = i + 1;
    }
    assert(v@.take(v@.len() as int) =~= v@);
    n + 1
}

/// Later offsets lie on later lines.
pub proof fn law_line_monotone(s: Seq<char>, a: int, b: int)
    requires
        a <= b,
    ensures
        1 <= line_at(s, a) <= line_at(s, b),
    decreases s.len(),
{
    if s.len() > 0 {
        law_line_monotone(s.drop_last(), a, b);
    }
}

/// The paragraphs of a requirement body as HTML.
pub open spec fn paragraphs_html(paras: Seq<Seq<char>>) -> Seq<char>
    decreases paras.len(),
{
    if paras.len() == 0 {
        Seq::empty()
    } else {
        let t = trim(paras.last());
        let before = paragraphs_html(paras.drop_last());
        if t.len() == 0 {
            before
        } else {
            before + "<p>"@ + escaped(t) + "</p>\n"@
        }
    }
}

/// A requirement body as HTML: each paragraph that is not blank, escaped.
pub open spec fn body_html(raw: Seq<char>) -> Seq<char> {
    paragraphs_html(split_text_from(raw, "\n\n"@, 0))
}

pub fn render_req_body_html(raw: &str) -> (html: String)
    ensures
        html@ == body_html(raw@),
{
    proof {
        reveal_strlit("\n\n");
    }
    let v = chars_of(raw);
    let bounds = split_text_bounds(&v, "\n\n");
    let ghost paras = split_text_from(raw@, "\n\n"@, 0);
    let mut html = String::new();
    let mut i: usize = 0;
    while i < bounds.len()
        invariant
            v@ == raw@,
            i <= bounds@.len(),
            cut(v@, bounds@) == paras,
            bounds_ok(bounds@, v@.len() as int),
            html@ == paragraphs_html(paras.take(i as int)),
        decreases bounds@.len() - i,
    {
        let (a, b) = bounds[i];
        assert(bounds@[i as int].0 <= bounds@[i as int].1 <= v@.len());
        assert(paras[i as int] == v@.subrange(a as int, b as int));
        let (x, y) = trim_bounds(&v, a, b);
        assert(paras.take(i + 1).drop_last() =~= paras.take(i as int));
        if x < y {
            let t = sub_string(&v, x, y);
            html.append("<p>");
            let e = html_escape(t.as_str());
            html.append(e.as_str());
            html.append("</p>\n");
        }
        i = i + 1;
    }
    assert(paras.take(i as int) =~= paras);
    html
}

pub open spec fn is_prefix_char(c: char) -> bool {
    ('a' <= c && c <= 'z') || ('0' <= c && c <= '9')
}

/// How many lowercase letters and digits `s` has from position `i` on.
pub open spec fn prefix_end(s: Seq<char>, i: int) -> int
    decreases s.len() - i,
{
    if 0 <= i < s.len() && is_prefix_char(s[i]) {
        prefix_end(s, i + 1)
    } else {
        i
    }
}

/// The end of the prefix and the position of the closing bracket, where a line
/// begins with `prefix[...]` and the brackets are not empty.
pub open spec fn leading_marker(line: Seq<char>) -> Option<(int, int)> {
    let p = prefix_end(line, 0);
    match find_char(line, ']', 0) {
        Some(close) => if p > 0 && p < line.len() && line[p] == '[' && close > p + 1 {
            Some((p, close))
        } else {
            None
        },
        None => None,
    }
}

/// Parse a requirement leading marker at the start of a line.
///
/// Returns `(prefix, id_str, marker_end_offset)` where `marker_end_offset`
/// is the byte index of the closing `]`.
pub fn parse_req_leading_marker(line: &str) -> (r: Option<(String, String, usize)>)
    ensures
        match (r, leading_marker(line@)) {
            (Some(x), Some(m)) => {
                &&& 0 < m.0 && m.0 + 1 < m.1 < line@.len()
                &&& x.0@ == line@.subrange(0, m.0)
                &&& x.1@ == line@.subrange(m.0 + 1, m.1)
                &&& x.2 == byte_len(line@.take(m.1))
                &&& x.2 < isize::MAX
            },
            (None, None) => true,
            _ => false,
        },
{
    let v = chars_of(line);
    let mut p: usize = 0;
    while p < v.len() && (('a' <= v[p] && v[p] <= 'z') || ('0' <= v[p] && v[p] <= '9'))
        invariant
            p <= v@.len(),
            prefix_end(v@, 0) == prefix_end(v@, p as int),
        decreases v@.len() - p,
    {
        p = p + 1;
    }
    if p == 0 || p >= v.len() || v[p] != '[' {
        return None;
    }
    match find_char_from(&v, ']', 0) {
        Some(close) => if close <= p + 1 {
            None
        } else {
            let end = byte_offset_of(&v, close);
            proof {
                lemma_byte_len_take_mono(v@, close as int, v@.len() as int);
                assert(v@.take(v@.len() as int) =~= v@);
            }
            Some((sub_string(&v, 0, p), sub_string(&v, p + 1, close), end))
        },
        None => None,
    }
}

/// The texts, each trimmed.
pub open spec fn trim_all(v: Seq<Seq<char>>) -> Seq<Seq<char>> {
    v.map_values(|s: Seq<char>| trim(s))
}

/// The comma-separated tags of an attribute value.
pub open spec fn tags_of(value: Seq<char>) -> Seq<Seq<char>> {
    trim_all(split_char(value, ','))
}

/// Metadata with the attribute `key=value` set. Unknown keys and words without
/// `=` change nothing.
pub open spec fn with_attribute(m: MetadataModel, word: Seq<char>) -> MetadataModel {
    match find_char(word, '=', 0) {
        Some(i) => {
            let key = word.subrange(0, i);
            let value = word.subrange(i + 1, word.len() as int);
            if key == "status"@ {
                MetadataModel { status: status_named(value), ..m }
            } else if key == "level"@ {
                MetadataModel { level: level_named(value), ..m }
            } else if key == "since"@ {
                MetadataModel { since: Some(value), ..m }
            } else if key == "until"@ {
                MetadataModel { until: Some(value), ..m }
            } else if key == "tags"@ {
                MetadataModel { tags: tags_of(value), ..m }
            } else {
                m
            }
        },
        None => m,
    }
}

/// The metadata that a run of attribute words sets, the last one winning.
pub open spec fn attributes_metadata(words: Seq<Seq<char>>) -> MetadataModel
    decreases words.len(),
{
    if words.len() == 0 {
        no_metadata()
    } else {
        with_attribute(attributes_metadata(words.drop_last()), words.last())
    }
}

/// The id and metadata inside a marker: an id, then `key=value` words.
pub open spec fn marker_inner(inner: Seq<char>) -> Option<((Seq<char>, u32), MetadataModel)> {
    let t = trim(inner);
    match find_char(t, ' ', 0) {
        Some(i) => match parsed_rule_id(t.subrange(0, i)) {
            Some(id) => Some((id, attributes_metadata(words_from(t, i + 1)))),
            None => None,
        },
        None => match parsed_rule_id(t) {
            Some(id) => Some((id, no_metadata())),
            None => None,
        },
    }
}

/// The trimmed tags of a comma-separated value.
pub fn split_tags(value: &str) -> (r: Vec<String>)
    ensures
        texts(r@) == tags_of(value@),
{
    let pieces = split_char_of(value, ',');
    let ghost all = split_char(value@, ',');
    let mut out: Vec<String> = Vec::new();
    let mut i: usize = 0;
    while i < pieces.len()
        invariant
            i <= pieces@.len(),
            texts(pieces@) == all,
            texts(out@) =~= trim_all(all).take(i as int),
        decreases pieces@.len() - i,
    {
        let ghost before = texts(out@);
        let t = trimmed(pieces[i].as_str());
        assert(texts(pieces@)[i as int] == pieces@[i as int]@);
        out.push(t);
        assert(texts(out@) =~= before.push(trim(all[i as int])));
        i = i + 1;
    }
    assert(trim_all(all).take(i as int) =~= trim_all(all));
    out
}

fn set_attribute(m: ReqMetadata, word: &str) -> (r: ReqMetadata)
    ensures
        r@ == with_attribute(m@, word@),
{
    let v = chars_of(word);
    let i = match find_char_from(&v, '=', 0) {
        Some(i) => i,
        None => {
            return m;
        },
    };
    let key = sub_string(&v, 0, i);
    let value = sub_string(&v, i + 1, v.len());
    let k = key.as_str();
    let mut out = m;
    if str_eq(k, "status") {
        out.status = marq_parse_status(value.as_str());
    } else if str_eq(k, "level") {
        out.level = marq_parse_level(value.as_str());
    } else if str_eq(k, "since") {
        out.since = Some(value);
    } else if str_eq(k, "until") {
        out.until = Some(value);
    } else if str_eq(k, "tags") {
        out.tags = split_tags(value.as_str());
    }
    out
}

/// Parse the text inside a marker: an id, then `key=value` words.
pub fn parse_req_marker_inner(inner: &str) -> (r: Option<(RuleId, ReqMetadata)>)
    ensures
        match (r, marker_inner(inner@)) {
            (Some(x), Some(m)) => x.0@ == m.0 && x.1@ == m.1,
            (None, None) => true,
            _ => false,
        },
{
    let t = trimmed(inner);
    let v = chars_of(t.as_str());
    match find_char_from(&v, ' ', 0) {
        Some(i) => {
            let id_part = sub_string(&v, 0, i);
            match parse_rule_id(id_part.as_str()) {
                Some(id) => {
                    let bounds = word_bounds(&v, i + 1);
                    let ghost words = words_from(v@, i + 1);
                    let mut m = ReqMetadata::new();
                    let mut k: usize = 0;
                    while k < bounds.len()
                        invariant
                            k <= bounds@.len(),
                            cut(v@, bounds@) == words,
                            bounds_ok(bounds@, v@.len() as int),
                            m@ == attributes_metadata(words.take(k as int)),
                        decreases bounds@.len() - k,
                    {
                        let (a, b) = bounds[k];
                        assert(bounds@[k as int].0 <= bounds@[k as int].1 <= v@.len());
                        assert(words[k as int] == v@.subrange(a as int, b as int));
                        let word = sub_string(&v, a, b);
                        m = set_attribute(m, word.as_str());
                        assert(words.take(k + 1).drop_last() =~= words.take(k as int));
                        k = k + 1;
                    }
                    assert(words.take(k as int) =~= words);
                    Some((id, m))
                },
                None => None,
            }
        },
        None => match parse_rule_id(t.as_str()) {
            Some(id) => Some((id, ReqMetadata::new())),
            None => None,
        },
    }
}

} // verus!
