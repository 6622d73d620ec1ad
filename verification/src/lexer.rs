//! Finding requirement markers in the comments of source files.

use vstd::prelude::*;

use crate::adoc_marker::{byte_offset_to_line, is_prefix_char, line_at};
use crate::languages::{comment_style, comment_style_of, language, language_of, CommentStyle};
use crate::paths::{extension, extension_of};
use crate::refs::{
    joined_reqs, named_verb, no_reqs, ParseWarning, RefModel, RefVerb, ReqReference, Reqs,
    ReqsModel, WarningKind, WarningModel,
};
use crate::requirement::SourceSpan;
use crate::rule_id::{opt_id, parse_rule_id, parsed_rule_id};
use crate::text::{
    byte_len, byte_offset_of, chars_of, copy_str, find_char, find_char_from, find_from, find_str,
    lemma_byte_len_take_mono, occurs_at, stands_at, sub_chars, sub_string,
};

verus! {

/// The text that opens a comment to the end of the line.
pub open spec fn line_opener(s: CommentStyle) -> Seq<char> {
    match s {
        CommentStyle::Slash | CommentStyle::Markup => "//"@,
        CommentStyle::Hash | CommentStyle::HashBlock => "#"@,
        CommentStyle::Dash => "--"@,
    }
}

/// The text that opens a block comment, and the text that closes it.
pub open spec fn block_delimiters(s: CommentStyle) -> Option<(Seq<char>, Seq<char>)> {
    match s {
        CommentStyle::Slash | CommentStyle::Markup | CommentStyle::HashBlock => Some(
            ("/*"@, "*/"@),
        ),
        CommentStyle::Dash => Some(("/-"@, "-/"@)),
        CommentStyle::Hash => None,
    }
}

/// The delimiters of a second form of block comment.
pub open spec fn markup_delimiters(s: CommentStyle) -> Option<(Seq<char>, Seq<char>)> {
    match s {
        CommentStyle::Markup => Some(("<!--"@, "-->"@)),
        _ => None,
    }
}

/// The inside of the block comment that opens at `i` with the given
/// delimiters, and where scanning goes on.
pub open spec fn block_comment(
    c: Seq<char>,
    i: int,
    d: Option<(Seq<char>, Seq<char>)>,
) -> Option<(int, int, int)> {
    match d {
        Some((open, close)) => if occurs_at(c, open, i) {
            let lo = i + open.len();
            match find_from(c, close, lo) {
                Some(j) => Some((lo, j, j + close.len())),
                None => Some((lo, c.len() as int, c.len() as int)),
            }
        } else {
            None
        },
        None => None,
    }
}

/// The inside of the line comment that opens at `i`, and where scanning goes on.
pub open spec fn line_comment(c: Seq<char>, i: int, s: CommentStyle) -> Option<(int, int, int)> {
    if occurs_at(c, line_opener(s), i) {
        let lo = i + line_opener(s).len();
        match find_char(c, '\n', lo) {
            Some(j) => Some((lo, j, j + 1)),
            None => Some((lo, c.len() as int, c.len() as int)),
        }
    } else {
        None
    }
}

/// The comment that opens at `i`: where its inside begins and ends, and where
/// scanning goes on.
pub open spec fn comment_at(c: Seq<char>, i: int, s: CommentStyle) -> Option<(int, int, int)> {
    if line_comment(c, i, s) is Some {
        line_comment(c, i, s)
    } else if block_comment(c, i, block_delimiters(s)) is Some {
        block_comment(c, i, block_delimiters(s))
    } else {
        block_comment(c, i, markup_delimiters(s))
    }
}

/// Where the prefix that ends before `b` begins, not before `lo`.
pub open spec fn prefix_start(c: Seq<char>, lo: int, b: int) -> int
    decreases b - lo,
{
    if b > lo && 0 < b <= c.len() && is_prefix_char(c[b - 1]) {
        prefix_start(c, lo, b - 1)
    } else {
        b
    }
}

pub open spec fn is_word_char(c: char) -> bool {
    is_prefix_char(c) || ('A' <= c && c <= 'Z') || c == '_'
}

/// The marker whose bracket opens at `b`, inside a comment from `lo` to `hi`:
/// where its prefix begins and where its bracket closes, on the same line.
pub open spec fn marker_bounds(c: Seq<char>, lo: int, hi: int, b: int) -> Option<(int, int)> {
    let p = prefix_start(c, lo, b);
    match find_char(c, ']', b + 1) {
        Some(close) => if p < b && !(p > lo && is_word_char(c[p - 1])) && b + 1 < close < hi && (
        find_char(c, '\n', b + 1) matches Some(nl) ==> nl > close) {
            Some((p, close))
        } else {
            None
        },
        None => None,
    }
}

/// A text can stand as the id in a source marker: dot-separated segments of
/// letters, digits, hyphens and underscores.
pub open spec fn is_id_char(c: char) -> bool {
    is_word_char(c) || c == '-' || c == '.'
}

pub open spec fn is_id_text(base: Seq<char>) -> bool {
    &&& base.len() > 0
    &&& base[0] != '.'
    &&& base.last() != '.'
    &&& forall|i: int| 0 <= i < base.len() ==> is_id_char(#[trigger] base[i])
    &&& forall|i: int|
        0 <= i < base.len() - 1 ==> !(#[trigger] base[i] == '.' && base[i + 1] == '.')
}

/// What the text between a marker's brackets says: `id` (the verb being
/// `impl`), or `verb id`.
pub enum MarkerText {
    Reference(RefVerb, (Seq<char>, u32)),
    Warning(Option<Seq<char>>),
    Nothing,
}

/// The id that a text writes, where its base can stand in a source marker.
pub open spec fn source_id(s: Seq<char>) -> Option<(Seq<char>, u32)> {
    match parsed_rule_id(s) {
        Some(id) => if is_id_text(id.0) {
            Some(id)
        } else {
            None
        },
        None => None,
    }
}

pub open spec fn marker_text(inner: Seq<char>) -> MarkerText {
    match find_char(inner, ' ', 0) {
        None => match source_id(inner) {
            Some(id) => MarkerText::Reference(RefVerb::Impl, id),
            None => MarkerText::Nothing,
        },
        Some(i) => {
            let word = inner.subrange(0, i);
            let rest = inner.skip(i + 1);
            match named_verb(word) {
                Some(verb) => match source_id(rest) {
                    Some(id) => MarkerText::Reference(verb, id),
                    None => MarkerText::Warning(None),
                },
                None => if source_id(rest) is Some && is_lowercase_word(word) {
                    MarkerText::Warning(Some(word))
                } else {
                    MarkerText::Nothing
                },
            }
        },
    }
}

pub open spec fn is_lowercase_word(s: Seq<char>) -> bool {
    s.len() > 0 && forall|i: int| 0 <= i < s.len() ==> 'a' <= #[trigger] s[i] && s[i] <= 'z'
}

/// What the marker with the given bounds says.
pub open spec fn marker_reqs(file: Seq<char>, c: Seq<char>, b: int, m: (int, int)) -> ReqsModel {
    let offset = byte_len(c.take(m.0));
    let line = line_at(c, offset as int) as usize;
    let span = SourceSpan {
        offset: offset as usize,
        length: (byte_len(c.take(m.1)) + 1 - offset) as usize,
    };
    match marker_text(c.subrange(b + 1, m.1)) {
        MarkerText::Reference(verb, id) => ReqsModel {
            references: seq![
                RefModel { prefix: c.subrange(m.0, b), verb, req_id: id, file, line, span },
            ],
            warnings: Seq::empty(),
        },
        MarkerText::Warning(v) => ReqsModel {
            references: Seq::empty(),
            warnings: seq![WarningModel { file, line, span, unknown_verb: v }],
        },
        MarkerText::Nothing => no_reqs(),
    }
}

/// Where the line that holds `i` starts.
pub open spec fn line_start_of(c: Seq<char>, i: int) -> int
    decreases i,
{
    if i <= 0 || i > c.len() || c[i - 1] == '\n' {
        i
    } else {
        line_start_of(c, i - 1)
    }
}

/// The line before the one that holds `i` says that markers on the next line
/// are not meant as such.
pub open spec fn is_ignored(c: Seq<char>, i: int) -> bool {
    let start = line_start_of(c, i);
    start > 0 && find_from(
        c.subrange(line_start_of(c, start - 1), start - 1),
        "@tracey:ignore-next-line"@,
        0,
    ) is Some
}

/// What the markers of a comment say whose brackets open at or after `b`.
pub open spec fn comment_reqs(file: Seq<char>, c: Seq<char>, lo: int, hi: int, b: int) -> ReqsModel
    decreases hi - b,
{
    if b >= hi || b < 0 || b >= c.len() {
        no_reqs()
    } else if c[b] == '[' && marker_bounds(c, lo, hi, b) is Some && !is_ignored(c, b) {
        joined_reqs(
            marker_reqs(file, c, b, marker_bounds(c, lo, hi, b)->0),
            comment_reqs(file, c, lo, hi, b + 1),
        )
    } else {
        comment_reqs(file, c, lo, hi, b + 1)
    }
}

/// What the markers in the comments from position `i` on say.
pub open spec fn reqs_from(file: Seq<char>, c: Seq<char>, s: CommentStyle, i: int) -> ReqsModel
    decreases c.len() - i,
{
    if i < 0 || i >= c.len() {
        no_reqs()
    } else {
        match comment_at(c, i, s) {
            Some((lo, hi, next)) => if i < next <= c.len() {
                joined_reqs(comment_reqs(file, c, lo, hi, lo), reqs_from(file, c, s, next))
            } else {
                no_reqs()
            },
            None => reqs_from(file, c, s, i + 1),
        }
    }
}

/// What the comments of a file say; a file in no known language says nothing.
pub open spec fn file_reqs(path: Seq<char>, content: Seq<char>) -> ReqsModel {
    match extension(path) {
        Some(ext) => match language(ext) {
            Some(l) => reqs_from(path, content, comment_style(l), 0),
            None => no_reqs(),
        },
        None => no_reqs(),
    }
}

fn line_opener_of(s: CommentStyle) -> (r: &'static str)
    ensures
        r@ == line_opener(s),
        r@.len() > 0,
{
    proof {
        reveal_strlit("//");
        reveal_strlit("#");
        reveal_strlit("--");
    }
    match s {
        CommentStyle::Slash => "//",
        CommentStyle::Markup => "//",
        CommentStyle::Hash => "#",
        CommentStyle::HashBlock => "#",
        CommentStyle::Dash => "--",
    }
}

fn find_block_comment(c: &[char], i: usize, open: &str, close: &str) -> (r: Option<(usize, usize, usize)>)
    requires
        open@.len() > 0,
    ensures
        match (r, block_comment(c@, i as int, Some((open@, close@)))) {
            (Some(x), Some(m)) => x.0 as int == m.0 && x.1 as int == m.1 && x.2 as int == m.2 && i
                < x.0 <= x.1 <= x.2 <= c@.len(),
            (None, None) => true,
            _ => false,
        },
{
    let n: usize = c.len();
    let o = chars_of(open);
    let k = chars_of(close);
    if !stands_at(c, &o, i) {
        return None;
    }
    let lo: usize = i + o.len();
    match find_str(c, close, lo) {
        Some(j) => Some((lo, j, j + k.len())),
        None => Some((lo, n, n)),
    }
}

fn find_comment(c: &[char], i: usize, s: CommentStyle) -> (r: Option<(usize, usize, usize)>)
    ensures
        match (r, comment_at(c@, i as int, s)) {
            (Some(x), Some(m)) => x.0 as int == m.0 && x.1 as int == m.1 && x.2 as int == m.2 && i
                < x.0 <= x.1 <= x.2 <= c@.len(),
            (None, None) => true,
            _ => false,
        },
{
    let n: usize = c.len();
    let opener = chars_of(line_opener_of(s));
    if stands_at(c, &opener, i) {
        let lo: usize = i + opener.len();
        return match find_char_from(c, '\n', lo) {
            Some(j) => Some((lo, j, j + 1)),
            None => Some((lo, n, n)),
        };
    }
    proof {
        reveal_strlit("/*");
        reveal_strlit("/-");
        reveal_strlit("<!--");
    }
    match s {
        CommentStyle::Slash => find_block_comment(c, i, "/*", "*/"),
        CommentStyle::HashBlock => find_block_comment(c, i, "/*", "*/"),
        CommentStyle::Dash => find_block_comment(c, i, "/-", "-/"),
        CommentStyle::Hash => None,
        CommentStyle::Markup => {
            let first = find_block_comment(c, i, "/*", "*/");
            if first.is_some() {
                first
            } else {
                find_block_comment(c, i, "<!--", "-->")
            }
        },
    }
}

fn prefix_char(c: char) -> (r: bool)
    ensures
        r == is_prefix_char(c),
{
    ('a' <= c && c <= 'z') || ('0' <= c && c <= '9')
}

fn word_char(c: char) -> (r: bool)
    ensures
        r == is_word_char(c),
{
    prefix_char(c) || ('A' <= c && c <= 'Z') || c == '_'
}

fn find_marker_bounds(c: &[char], lo: usize, hi: usize, b: usize) -> (r: Option<(usize, usize)>)
    requires
        lo <= b < hi <= c@.len(),
    ensures
        match (r, marker_bounds(c@, lo as int, hi as int, b as int)) {
            (Some(x), Some(m)) => x.0 as int == m.0 && x.1 as int == m.1 && lo <= x.0 < b && b + 1
                < x.1 < hi,
            (None, None) => true,
            _ => false,
        },
{
    let mut p: usize = b;
    while p > lo && prefix_char(c[p - 1])
        invariant
            lo <= p <= b < c@.len(),
            prefix_start(c@, lo as int, b as int) == prefix_start(c@, lo as int, p as int),
        decreases p,
    {
        p = p - 1;
    }
    if p == b || (p > lo && word_char(c[p - 1])) {
        return None;
    }
    match find_char_from(c, ']', b + 1) {
        Some(close) => {
            if close <= b + 1 || close >= hi {
                return None;
            }
            match find_char_from(c, '\n', b + 1) {
                Some(nl) => if nl > close {
                    Some((p, close))
                } else {
                    None
                },
                None => Some((p, close)),
            }
        },
        None => None,
    }
}

fn id_text(base: &str) -> (r: bool)
    ensures
        r == is_id_text(base@),
{
    let v = chars_of(base);
    if v.len() == 0 || v[0] == '.' || v[v.len() - 1] == '.' {
        return false;
    }
    let mut i: usize = 0;
    while i < v.len()
        invariant
            v@ == base@,
            i <= v@.len(),
            v@.len() > 0,
            forall|j: int| 0 <= j < i ==> is_id_char(#[trigger] v@[j]),
            forall|j: int|
                0 <= j < i && j < v@.len() - 1 ==> !(#[trigger] v@[j] == '.' && v@[j + 1] == '.'),
        decreases v@.len() - i,
    {
        if !(word_char(v[i]) || v[i] == '-' || v[i] == '.') {
            return false;
        }
        if i + 1 < v.len() && v[i] == '.' && v[i + 1] == '.' {
            return false;
        }
        i = i + 1;
    }
    true
}

fn parse_source_id(s: &str) -> (r: Option<crate::rule_id::RuleId>)
    ensures
        opt_id(r) == source_id(s@),
{
    match parse_rule_id(s) {
        Some(id) => if id_text(id.base.as_str()) {
            Some(id)
        } else {
            None
        },
        None => None,
    }
}

fn lowercase_word(s: &str) -> (r: bool)
    ensures
        r == is_lowercase_word(s@),
{
    let v = chars_of(s);
    if v.len() == 0 {
        return false;
    }
    let mut i: usize = 0;
    while i < v.len()
        invariant
            v@ == s@,
            i <= v@.len(),
            forall|j: int| 0 <= j < i ==> 'a' <= #[trigger] v@[j] && v@[j] <= 'z',
        decreases v@.len() - i,
    {
        if !('a' <= v[i] && v[i] <= 'z') {
            return false;
        }
        i = i + 1;
    }
    true
}

fn reqs_of_marker(
    file: &str,
    content: &str,
    c: &Vec<char>,
    b: usize,
    m: (usize, usize),
) -> (r: Reqs)
    requires
        c@ == content@,
        byte_len(c@) <= isize::MAX,
        m.0 < b && b + 1 < m.1 < c@.len(),
    ensures
        r@ == marker_reqs(file@, c@, b as int, (m.0 as int, m.1 as int)),
{
    let offset = byte_offset_of(c, m.0);
    let end = byte_offset_of(c, m.1);
    proof {
        lemma_byte_len_take_mono(c@, m.0 as int, m.1 as int);
    }
    let line = byte_offset_to_line(content, offset);
    let span = SourceSpan { offset, length: end + 1 - offset };
    let inner = sub_string(c, b + 1, m.1);
    let v = chars_of(inner.as_str());
    let ghost model = marker_reqs(file@, c@, b as int, (m.0 as int, m.1 as int));
    let mut out = Reqs::new();
    let (verb, id_part) = match find_char_from(&v, ' ', 0) {
        None => (Some(RefVerb::Impl), copy_str(inner.as_str())),
        Some(i) => {
            let word = sub_string(&v, 0, i);
            let rest = sub_string(&v, i + 1, v.len());
            assert(v@.subrange(i + 1, v@.len() as int) =~= v@.skip(i + 1));
            match RefVerb::from_word(word.as_str()) {
                Some(verb) => {
                    if parse_source_id(rest.as_str()).is_none() {
                        out.warnings.push(
                            ParseWarning {
                                file: copy_str(file),
                                line,
                                span,
                                kind: WarningKind::MalformedReference,
                            },
                        );
                        assert(out@ =~= model);
                        return out;
                    }
                    (Some(verb), rest)
                },
                None => {
                    if parse_source_id(rest.as_str()).is_some() && lowercase_word(word.as_str()) {
                        out.warnings.push(
                            ParseWarning {
                                file: copy_str(file),
                                line,
                                span,
                                kind: WarningKind::UnknownVerb(word),
                            },
                        );
                    }
                    assert(out@ =~= model);
                    return out;
                },
            }
        },
    };
    match (verb, parse_source_id(id_part.as_str())) {
        (Some(verb), Some(req_id)) => {
            out.references.push(
                ReqReference {
                    prefix: sub_string(c, m.0, b),
                    verb,
                    req_id,
                    file: copy_str(file),
                    line,
                    span,
                },
            );
        },
        _ => {},
    }
    assert(out@ =~= model);
    out
}

fn find_line_start(c: &Vec<char>, i: usize) -> (r: usize)
    requires
        i <= c@.len(),
    ensures
        r <= i,
        r == line_start_of(c@, i as int),
{
    let mut k: usize = i;
    while k > 0 && c[k - 1] != '\n'
        invariant
            k <= i <= c@.len(),
            line_start_of(c@, i as int) == line_start_of(c@, k as int),
        decreases k,
    {
        k = k - 1;
    }
    k
}

fn ignored(c: &Vec<char>, i: usize) -> (r: bool)
    requires
        i <= c@.len(),
    ensures
        r == is_ignored(c@, i as int),
{
    let start = find_line_start(c, i);
    if start == 0 {
        return false;
    }
    let before = sub_chars(c, find_line_start(c, start - 1), start - 1);
    find_str(&before, "@tracey:ignore-next-line", 0).is_some()
}

fn reqs_of_comment(file: &str, content: &str, c: &Vec<char>, lo: usize, hi: usize) -> (r: Reqs)
    requires
        c@ == content@,
        byte_len(c@) <= isize::MAX,
        lo <= hi <= c@.len(),
    ensures
        r@ == comment_reqs(file@, c@, lo as int, hi as int, lo as int),
{
    let mut out = Reqs::new();
    let mut b: usize = lo;
    let ghost all = comment_reqs(file@, c@, lo as int, hi as int, lo as int);
    assert(joined_reqs(out@, all) =~= all);
    while b < hi
        invariant
            c@ == content@,
            byte_len(c@) <= isize::MAX,
            lo <= b <= hi <= c@.len(),
            joined_reqs(out@, comment_reqs(file@, c@, lo as int, hi as int, b as int)) == all,
        decreases hi - b,
    {
        if c[b] == '[' {
            match find_marker_bounds(c, lo, hi, b) {
                Some(m) => if !ignored(c, b) {
                    let ghost before = out@;
                    let one = reqs_of_marker(file, content, c, b, m);
                    let ghost rest = comment_reqs(file@, c@, lo as int, hi as int, b + 1);
                    out.extend(one);
                    assert(joined_reqs(out@, rest) =~= joined_reqs(before, joined_reqs(one@, rest)));
                },
                None => {},
            }
        }
        b = b + 1;
    }
    assert(joined_reqs(out@, no_reqs()) =~= out@);
    out
}

/// Extract the references in the comments of a source file.
pub fn extract_from_content(path: &str, content: &str) -> (r: Reqs)
    ensures
        r@ == file_reqs(path@, content@),
{
    let style = match extension_of(path) {
        Some(ext) => match language_of(ext.as_str()) {
            Some(l) => comment_style_of(l),
            None => {
                return Reqs::new();
            },
        },
        None => {
            return Reqs::new();
        },
    };
    let c = chars_of(content);
    let mut out = Reqs::new();
    let mut i: usize = 0;
    let ghost all = reqs_from(path@, c@, style, 0);
    assert(joined_reqs(out@, all) =~= all);
    while i < c.len()
        invariant
            c@ == content@,
            byte_len(c@) <= isize::MAX,
            i <= c@.len(),
            joined_reqs(out@, reqs_from(path@, c@, style, i as int)) == all,
        decreases c@.len() - i,
    {
        match find_comment(&c, i, style) {
            Some((lo, hi, next)) => {
                let ghost before = out@;
                let one = reqs_of_comment(path, content, &c, lo, hi);
                let ghost rest = reqs_from(path@, c@, style, next as int);
                out.extend(one);
                assert(joined_reqs(out@, rest) =~= joined_reqs(before, joined_reqs(one@, rest)));
                i = next;
            },
            None => {
                i = i + 1;
            },
        }
    }
    assert(joined_reqs(out@, no_reqs()) =~= out@);
    out
}

} // verus!
