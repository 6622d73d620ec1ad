//! Which references the comments of a source file hold, in terms of its text.

use vstd::prelude::*;

use crate::adoc_marker::{is_prefix_char, line_at};
use crate::languages::CommentStyle;
use crate::lexer::{
    comment_at, comment_reqs, is_id_text, is_ignored, line_start_of, marker_bounds, marker_reqs,
    marker_text, prefix_start, reqs_from, MarkerText,
};
use crate::refs::{joined_reqs, named_verb, RefModel, RefVerb, ReqsModel, WarningModel};
use crate::rule_id::parsed_rule_id;
use crate::text::{byte_len, find_char, find_from, lemma_find_char, occurs_at};

verus! {

/// The five words name the five verbs, and no other word names one.
pub proof fn law_verbs_by_word(word: Seq<char>)
    ensures
        named_verb(word) == Some(RefVerb::Define) <==> word == "define"@,
        named_verb(word) == Some(RefVerb::Impl) <==> word == "impl"@,
        named_verb(word) == Some(RefVerb::Verify) <==> word == "verify"@,
        named_verb(word) == Some(RefVerb::Depends) <==> word == "depends"@,
        named_verb(word) == Some(RefVerb::Related) <==> word == "related"@,
{
    reveal_strlit("define");
    reveal_strlit("impl");
    reveal_strlit("verify");
    reveal_strlit("depends");
    reveal_strlit("related");
    assert("define"@[0] == 'd' && "define"@.len() == 6);
    assert("impl"@[0] == 'i');
    assert("verify"@[0] == 'v');
    assert("depends"@[0] == 'd' && "depends"@.len() == 7);
    assert("related"@[0] == 'r');
}

/// A marker with an id alone implements it. One with a verb and an id says what
/// the verb says. A verb without an id that can be read, and a lowercase word that
/// is no verb before an id, are warned about.
pub proof fn law_marker_says(word: Seq<char>, id: Seq<char>)
    requires
        word.len() > 0,
        !word.contains(' '),
        !id.contains(' '),
    ensures
        ({
            let readable = parsed_rule_id(id) is Some && is_id_text((parsed_rule_id(id)->0).0);
            let lower = forall|i: int| 0 <= i < word.len() ==> 'a' <= #[trigger] word[i] && word[i] <= 'z';
            let verb = named_verb(word);
            let out = marker_text(word + " "@ + id);
            &&& (readable ==> marker_text(id) == MarkerText::Reference(
                RefVerb::Impl,
                parsed_rule_id(id)->0,
            ))
            &&& (!readable ==> marker_text(id) is Nothing)
            &&& (verb is Some && readable ==> out == MarkerText::Reference(
                verb->0,
                parsed_rule_id(id)->0,
            ))
            &&& (verb is Some && !readable ==> out == MarkerText::Warning(None))
            &&& (verb is None && readable && lower ==> out == MarkerText::Warning(Some(word)))
            &&& (verb is None && (!readable || !lower) ==> out is Nothing)
        }),
{
    reveal_strlit(" ");
    lemma_find_char(id, ' ', 0);
    if let Some(i) = find_char(id, ' ', 0) {
        assert(id.contains(id[i]));
    }
    let s = word + " "@ + id;
    let n = word.len() as int;
    lemma_find_char(s, ' ', 0);
    assert(s[n] == ' ');
    assert forall|j: int| 0 <= j < n implies s[j] != ' ' by {
        assert(s[j] == word[j]);
        assert(word.contains(word[j]));
    }
    assert(s.subrange(0, n) =~= word);
    assert(s.skip(n + 1) =~= id);
}

/// A reference that is found has the file, the line of its marker, the text before
/// the bracket as prefix, and the marker from its prefix to its closing bracket as
/// span; it is what the text between the brackets says.
pub proof fn law_reference_is_its_marker(file: Seq<char>, c: Seq<char>, b: int, m: (int, int))
    requires
        0 <= m.0 < b < m.1 < c.len(),
        byte_len(c) < usize::MAX,
    ensures
        ({
            let out = marker_reqs(file, c, b, m);
            match marker_text(c.subrange(b + 1, m.1)) {
                MarkerText::Reference(verb, id) => {
                    let r = out.references[0];
                    &&& out.references.len() == 1 && out.warnings.len() == 0
                    &&& r.verb == verb && r.req_id == id && r.file == file
                    &&& r.prefix == c.subrange(m.0, b)
                    &&& r.line == line_at(c, byte_len(c.take(m.0)) as int) as usize
                    &&& r.span.offset == byte_len(c.take(m.0))
                    &&& r.span.offset + r.span.length == byte_len(c.take(m.1)) + 1
                },
                MarkerText::Warning(v) => {
                    let x = out.warnings[0];
                    &&& out.references.len() == 0 && out.warnings.len() == 1
                    &&& x.unknown_verb == v && x.file == file
                    &&& x.line == line_at(c, byte_len(c.take(m.0)) as int) as usize
                    &&& x.span.offset == byte_len(c.take(m.0))
                },
                MarkerText::Nothing => out.references.len() == 0 && out.warnings.len() == 0,
            }
        }),
{
    crate::text::lemma_byte_len_take_mono(c, m.0, m.1);
    crate::text::lemma_byte_len_take_mono(c, m.1, c.len() as int);
    assert(c.take(c.len() as int) =~= c);
}

proof fn lemma_prefix_start(c: Seq<char>, lo: int, p: int, b: int)
    requires
        0 <= lo <= p <= b <= c.len(),
        forall|j: int| p <= j < b ==> is_prefix_char(#[trigger] c[j]),
        p == lo || !is_prefix_char(c[p - 1]),
    ensures
        prefix_start(c, lo, b) == p,
    decreases b - p,
{
    if p < b {
        assert(is_prefix_char(c[b - 1]));
        lemma_prefix_start(c, lo, p, b - 1);
    }
}

/// Inside a comment, lowercase letters and digits that stand alone before brackets
/// that are not empty and close on the same line are a marker.
pub proof fn law_marker_is_found(c: Seq<char>, lo: int, hi: int, p: int, b: int, close: int)
    requires
        0 <= lo <= p < b,
        b + 1 < close < hi <= c.len(),
        forall|j: int|
            p <= j < b ==> ('a' <= (#[trigger] c[j]) && c[j] <= 'z') || ('0' <= c[j] && c[j] <= '9'),
        p == lo || !(('a' <= c[p - 1] && c[p - 1] <= 'z') || ('0' <= c[p - 1] && c[p - 1] <= '9') || (
        'A' <= c[p - 1] && c[p - 1] <= 'Z') || c[p - 1] == '_'),
        c[b] == '[',
        c[close] == ']',
        forall|j: int| b < j < close ==> (#[trigger] c[j]) != ']' && c[j] != '\n',
    ensures
        marker_bounds(c, lo, hi, b) == Some((p, close)),
{
    lemma_prefix_start(c, lo, p, b);
    lemma_find_char(c, ']', b + 1);
    lemma_find_char(c, '\n', b + 1);
    assert(find_char(c, ']', b + 1) == Some(close));
    if let Some(nl) = find_char(c, '\n', b + 1) {
        assert(nl > close);
    }
}

/// One list of findings holds all of another.
pub open spec fn holds(all: ReqsModel, part: ReqsModel) -> bool {
    &&& forall|r: RefModel| part.references.contains(r) ==> #[trigger] all.references.contains(r)
    &&& forall|w: WarningModel| part.warnings.contains(w) ==> #[trigger] all.warnings.contains(w)
}

proof fn lemma_joined_holds(a: ReqsModel, b: ReqsModel)
    ensures
        holds(joined_reqs(a, b), a),
        holds(joined_reqs(a, b), b),
{
    let all = joined_reqs(a, b);
    assert forall|r: RefModel| a.references.contains(r) || b.references.contains(r) implies
        #[trigger] all.references.contains(r) by {
        if a.references.contains(r) {
            let i = choose|i: int| 0 <= i < a.references.len() && a.references[i] == r;
            assert(all.references[i] == r);
        } else {
            let i = choose|i: int| 0 <= i < b.references.len() && b.references[i] == r;
            assert(all.references[a.references.len() + i] == r);
        }
    }
    assert forall|w: WarningModel| a.warnings.contains(w) || b.warnings.contains(w) implies
        #[trigger] all.warnings.contains(w) by {
        if a.warnings.contains(w) {
            let i = choose|i: int| 0 <= i < a.warnings.len() && a.warnings[i] == w;
            assert(all.warnings[i] == w);
        } else {
            let i = choose|i: int| 0 <= i < b.warnings.len() && b.warnings[i] == w;
            assert(all.warnings[a.warnings.len() + i] == w);
        }
    }
}

/// Every marker of a comment is read, unless the line before it says otherwise.
pub proof fn law_every_marker_is_read(
    file: Seq<char>,
    c: Seq<char>,
    lo: int,
    hi: int,
    from: int,
    b: int,
)
    requires
        0 <= from <= b < hi <= c.len(),
        c[b] == '[',
        marker_bounds(c, lo, hi, b) is Some,
        !is_ignored(c, b),
    ensures
        holds(
            comment_reqs(file, c, lo, hi, from),
            marker_reqs(file, c, b, marker_bounds(c, lo, hi, b)->0),
        ),
    decreases b - from,
{
    let rest = comment_reqs(file, c, lo, hi, from + 1);
    if from < b {
        law_every_marker_is_read(file, c, lo, hi, from + 1, b);
        if c[from] == '[' && marker_bounds(c, lo, hi, from) is Some && !is_ignored(c, from) {
            lemma_joined_holds(marker_reqs(file, c, from, marker_bounds(c, lo, hi, from)->0), rest);
        }
    } else {
        lemma_joined_holds(marker_reqs(file, c, b, marker_bounds(c, lo, hi, b)->0), rest);
    }
}

/// Markers on a line behind one that says so are not read.
pub proof fn law_ignored_line(c: Seq<char>, before: int, start: int, b: int, at: int)
    requires
        0 <= before <= at,
        at + "@tracey:ignore-next-line"@.len() <= start - 1,
        start <= b < c.len(),
        c[start - 1] == '\n',
        before == 0 || c[before - 1] == '\n',
        forall|j: int| before <= j < start - 1 ==> (#[trigger] c[j]) != '\n',
        forall|j: int| start <= j < b ==> (#[trigger] c[j]) != '\n',
        c.subrange(at, at + "@tracey:ignore-next-line"@.len()) == "@tracey:ignore-next-line"@,
    ensures
        is_ignored(c, b),
{
    let d = "@tracey:ignore-next-line"@;
    lemma_line_start(c, start, b);
    lemma_line_start(c, before, start - 1);
    let line = c.subrange(before, start - 1);
    assert(line.subrange(at - before, at - before + d.len()) =~= d);
    assert(occurs_at(line, d, at - before));
    crate::text::lemma_find_from(line, d, 0);
}

proof fn lemma_line_start(c: Seq<char>, start: int, i: int)
    requires
        0 <= start <= i <= c.len(),
        start == 0 || c[start - 1] == '\n',
        forall|j: int| start <= j < i ==> (#[trigger] c[j]) != '\n',
    ensures
        line_start_of(c, i) == start,
    decreases i - start,
{
    if start < i {
        lemma_line_start(c, start, i - 1);
    }
}

/// Comments are read one after the other: what stands before the first is passed
/// over, and reading goes on behind it.
pub proof fn law_comments_in_order(
    file: Seq<char>,
    c: Seq<char>,
    s: CommentStyle,
    from: int,
    i: int,
)
    requires
        0 <= from <= i < c.len(),
        forall|j: int| from <= j < i ==> comment_at(c, j, s) is None,
        comment_at(c, i, s) is Some,
        i < (comment_at(c, i, s)->0).2 <= c.len(),
    ensures
        ({
            let (lo, hi, next) = comment_at(c, i, s)->0;
            reqs_from(file, c, s, from) == joined_reqs(
                comment_reqs(file, c, lo, hi, lo),
                reqs_from(file, c, s, next),
            )
        }),
    decreases i - from,
{
    if from < i {
        assert(comment_at(c, from, s) is None);
        law_comments_in_order(file, c, s, from + 1, i);
    }
}

/// In languages with slashes a line comment runs to the end of its line, and a
/// block comment to its closing delimiter, or to the end of the file.
pub proof fn law_slash_comments(c: Seq<char>, i: int, end: int)
    requires
        0 <= i,
        i + 2 <= end <= c.len(),
    ensures
        c.subrange(i, i + 2) == "//"@ && (forall|j: int| i + 2 <= j < end ==> (#[trigger] c[j]) != '\n')
            && (end == c.len() || c[end] == '\n') ==> (comment_at(c, i, CommentStyle::Slash) matches Some(
            x,
        ) && x.0 == i + 2 && x.1 == end && x.2 >= end),
        c.subrange(i, i + 2) == "/*"@ && find_from(c, "*/"@, i + 2) == Some(end) ==> comment_at(
            c,
            i,
            CommentStyle::Slash,
        ) == Some((i + 2, end, end + 2)),
{
    reveal_strlit("//");
    reveal_strlit("/*");
    reveal_strlit("*/");
    lemma_find_char(c, '\n', i + 2);
    if c.subrange(i, i + 2) == "//"@ {
        assert(occurs_at(c, "//"@, i));
    }
    if c.subrange(i, i + 2) == "/*"@ {
        assert(occurs_at(c, "/*"@, i));
        assert(c.subrange(i, i + 2)[1] == '*');
        assert("//"@[1] == '/');
        assert(!occurs_at(c, "//"@, i));
    }
}

} // verus!
