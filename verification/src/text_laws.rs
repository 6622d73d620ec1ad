//! What cutting and trimming texts gives.

use vstd::prelude::*;

use crate::assembly::joined_by;
use crate::positions::{line_col, span_range};
use crate::split::{
    lines, lines_from, replaced_from, split_char, split_char_from, split_text_from, word_end, words_from,
};
use crate::text::{
    byte_len, find_char, find_from, is_space, lemma_find_char, lemma_find_from, occurs_at, trim, trim_end,
    trim_start,
};

verus! {

/// All characters of a text are whitespace.
pub open spec fn is_blank(s: Seq<char>) -> bool {
    forall|i: int| 0 <= i < s.len() ==> is_space(#[trigger] s[i])
}

/// Trimming drops the whitespace before and behind a text, and nothing else.
pub proof fn law_trim(a: Seq<char>, s: Seq<char>, b: Seq<char>)
    requires
        is_blank(a),
        is_blank(b),
        s.len() > 0 ==> !is_space(s[0]) && !is_space(s.last()),
    ensures
        trim(a + s + b) == s,
        s.len() > 0 ==> trim_start(a + s + b) == s + b,
        s.len() > 0 ==> trim_end(a + s + b) == a + s,
{
    if s.len() == 0 {
        assert(a + s + b =~= a + b + s);
        assert(is_blank(a + b)) by {
            assert forall|i: int| 0 <= i < (a + b).len() implies is_space(#[trigger] (a + b)[i]) by {
                if i < a.len() {
                    assert((a + b)[i] == a[i]);
                } else {
                    assert((a + b)[i] == b[i - a.len()]);
                }
            }
        }
        lemma_trim_start(a + b, s);
        assert(trim_end(s) == s);
    } else {
        assert(a + s + b =~= a + (s + b));
        lemma_trim_start(a, s + b);
        lemma_trim_end(s, b);
        lemma_trim_end(a + s, b);
    }
}

proof fn lemma_trim_start(a: Seq<char>, s: Seq<char>)
    requires
        is_blank(a),
        s.len() > 0 ==> !is_space(s[0]),
    ensures
        trim_start(a + s) == s,
    decreases a.len(),
{
    if a.len() == 0 {
        assert(a + s =~= s);
    } else {
        assert(is_space(a[0]));
        let d = a.drop_first();
        assert forall|i: int| 0 <= i < d.len() implies is_space(#[trigger] d[i]) by {
            assert(d[i] == a[i + 1]);
        }
        lemma_trim_start(d, s);
        assert((a + s).drop_first() =~= d + s);
    }
}

proof fn lemma_trim_end(s: Seq<char>, b: Seq<char>)
    requires
        is_blank(b),
        s.len() > 0 ==> !is_space(s.last()),
    ensures
        trim_end(s + b) == s,
    decreases b.len(),
{
    if b.len() == 0 {
        assert(s + b =~= s);
    } else {
        assert(is_space(b[b.len() - 1]));
        let d = b.drop_last();
        assert forall|i: int| 0 <= i < d.len() implies is_space(#[trigger] d[i]) by {
            assert(d[i] == b[i]);
        }
        lemma_trim_end(s, d);
        assert((s + b).drop_last() =~= s + d);
    }
}

/// What stands before the first separator is the first piece, and what stands
/// behind it is split in turn; without a separator the text is the one piece.
pub proof fn law_split(a: Seq<char>, c: char, b: Seq<char>)
    requires
        !a.contains(c),
    ensures
        split_char(a, c) == seq![a],
        split_char(a + seq![c] + b, c) == seq![a] + split_char(b, c),
{
    lemma_find_char(a, c, 0);
    assert(a.subrange(0, a.len() as int) =~= a);
    let s = a + seq![c] + b;
    lemma_find_char(s, c, 0);
    assert(s[a.len() as int] == c);
    let i = find_char(s, c, 0)->0;
    if i < a.len() {
        assert(a[i] == c);
    }
    assert(s.subrange(0, i) =~= a);
    assert(s.skip(i + 1) =~= b);
    lemma_split_skip(s, c, i + 1);
}

proof fn lemma_split_skip(s: Seq<char>, c: char, k: int)
    requires
        0 <= k <= s.len(),
    ensures
        split_char_from(s, c, k) == split_char(s.skip(k), c),
{
    lemma_split_shift(s, c, k, 0);
}

proof fn lemma_split_shift(s: Seq<char>, c: char, k: int, from: int)
    requires
        0 <= k <= s.len(),
        0 <= from <= s.len() - k,
    ensures
        split_char_from(s, c, k + from) == split_char_from(s.skip(k), c, from),
    decreases s.len() - from,
{
    let t = s.skip(k);
    lemma_find_char(s, c, k + from);
    lemma_find_char(t, c, from);
    match find_char(t, c, from) {
        Some(i) => {
            assert(s[k + i] == c);
            let j = find_char(s, c, k + from)->0;
            assert(t[j - k] == c);
            assert(j == k + i);
            assert(s.subrange(k + from, j) =~= t.subrange(from, i));
            lemma_split_shift(s, c, k, i + 1);
        },
        None => {
            if find_char(s, c, k + from) is Some {
                let j = find_char(s, c, k + from)->0;
                assert(t[j - k] == c);
            }
            assert(s.subrange(k + from, s.len() as int) =~= t.subrange(from, t.len() as int));
        },
    }
}

/// A line ends at the first line feed, without a carriage return before it; what
/// follows the line feed is cut in turn. A text that ends behind a line feed has no
/// further line.
pub proof fn law_lines(a: Seq<char>, b: Seq<char>)
    requires
        !a.contains('\n'),
    ensures
        lines(Seq::empty()) == Seq::<Seq<char>>::empty(),
        a.len() > 0 ==> lines(a) == seq![a],
        lines(a + seq!['\n'] + b) == seq![
            if a.len() > 0 && a.last() == '\r' {
                a.drop_last()
            } else {
                a
            },
        ] + lines(b),
{
    lemma_find_char(a, '\n', 0);
    assert(a.subrange(0, a.len() as int) =~= a);
    let s = a + seq!['\n'] + b;
    lemma_find_char(s, '\n', 0);
    assert(s[a.len() as int] == '\n');
    let i = find_char(s, '\n', 0)->0;
    if i < a.len() {
        assert(a[i] == '\n');
    }
    assert(s.subrange(0, i) =~= a);
    assert(s.skip(i + 1) =~= b);
    lemma_lines_shift(s, i + 1, 0);
}

proof fn lemma_lines_shift(s: Seq<char>, k: int, from: int)
    requires
        0 <= k <= s.len(),
        0 <= from <= s.len() - k,
    ensures
        lines_from(s, k + from) == lines_from(s.skip(k), from),
    decreases s.len() - from,
{
    let t = s.skip(k);
    lemma_find_char(s, '\n', k + from);
    lemma_find_char(t, '\n', from);
    if from < t.len() {
        match find_char(t, '\n', from) {
            Some(i) => {
                assert(s[k + i] == '\n');
                let j = find_char(s, '\n', k + from)->0;
                assert(t[j - k] == '\n');
                assert(j == k + i);
                assert(s.subrange(k + from, j) =~= t.subrange(from, i));
                lemma_lines_shift(s, k, i + 1);
            },
            None => {
                if find_char(s, '\n', k + from) is Some {
                    let j = find_char(s, '\n', k + from)->0;
                    assert(t[j - k] == '\n');
                }
                assert(s.subrange(k + from, s.len() as int) =~= t.subrange(from, t.len() as int));
            },
        }
    }
}

/// Words are not empty and hold no whitespace, and together they hold all other
/// characters.
pub proof fn law_words(s: Seq<char>, start: int)
    requires
        0 <= start <= s.len(),
    ensures
        forall|i: int|
            0 <= i < words_from(s, start).len() ==> (#[trigger] words_from(s, start)[i]).len() > 0,
        forall|i: int, j: int|
            0 <= i < words_from(s, start).len() && 0 <= j < words_from(s, start)[i].len()
                ==> !is_space(#[trigger] words_from(s, start)[i][j]),
        words_from(s, start).flatten() == s.skip(start).filter(|c: char| !is_space(c)),
    decreases s.len() - start,
{
    let keep = |c: char| !is_space(c);
    let ws = words_from(s, start);
    if start >= s.len() {
        reveal(Seq::filter);
        assert(s.skip(start) =~= Seq::<char>::empty());
        assert(ws.flatten() =~= Seq::<char>::empty());
    } else if is_space(s[start]) {
        law_words(s, start + 1);
        lemma_filter_concat(seq![s[start]], s.skip(start + 1), keep);
        assert(s.skip(start) =~= seq![s[start]] + s.skip(start + 1));
        assert(seq![s[start]].filter(keep) =~= Seq::<char>::empty()) by {
            reveal(Seq::filter);
            assert(seq![s[start]].drop_last() =~= Seq::<char>::empty());
            assert(seq![s[start]].drop_last().filter(keep) =~= Seq::<char>::empty());
        }
        assert(s.skip(start).filter(keep) =~= s.skip(start + 1).filter(keep));
    } else {
        let end = word_end(s, start);
        let w = s.subrange(start, end);
        lemma_word_is_whole(s, start);
        law_words(s, end);
        let rest = words_from(s, end);
        assert(ws == seq![w] + rest);
        assert(s.skip(start) =~= w + s.skip(end));
        lemma_filter_concat(w, s.skip(end), keep);
        assert forall|i: int| 0 <= i < w.len() implies keep(#[trigger] w[i]) by {
            assert(w[i] == s[start + i]);
        }
        lemma_filter_all(w, keep);
        assert(ws.drop_first() =~= rest);
        assert(ws.flatten() == ws.first() + ws.drop_first().flatten());
        assert forall|i: int| 0 <= i < ws.len() implies (#[trigger] ws[i]).len() > 0 by {
            if i > 0 {
                assert(ws[i] == rest[i - 1]);
            }
        }
        assert forall|i: int, j: int| 0 <= i < ws.len() && 0 <= j < ws[i].len() implies !is_space(
            #[trigger] ws[i][j],
        ) by {
            if i > 0 {
                assert(ws[i] == rest[i - 1]);
                assert(!is_space(rest[i - 1][j]));
            } else {
                assert(keep(w[j]));
            }
        }
    }
}

proof fn lemma_word_is_whole(s: Seq<char>, from: int)
    requires
        0 <= from < s.len(),
    ensures
        from <= word_end(s, from) <= s.len(),
        !is_space(s[from]) ==> from < word_end(s, from),
        forall|i: int| from <= i < word_end(s, from) ==> !is_space(#[trigger] s[i]),
    decreases s.len() - from,
{
    if !is_space(s[from]) {
        if from + 1 < s.len() {
            lemma_word_is_whole(s, from + 1);
        } else {
            assert(word_end(s, from + 1) == s.len());
        }
    }
}

proof fn lemma_filter_all<T>(s: Seq<T>, p: spec_fn(T) -> bool)
    requires
        forall|i: int| 0 <= i < s.len() ==> p(#[trigger] s[i]),
    ensures
        s.filter(p) == s,
    decreases s.len(),
{
    reveal(Seq::filter);
    if s.len() > 0 {
        assert forall|i: int| 0 <= i < s.drop_last().len() implies p(
            #[trigger] s.drop_last()[i],
        ) by {
            assert(s.drop_last()[i] == s[i]);
        }
        lemma_filter_all(s.drop_last(), p);
        assert(p(s[s.len() - 1]));
        assert(s.drop_last().push(s.last()) =~= s);
    } else {
        assert(s.filter(p) =~= s);
    }
}

proof fn lemma_filter_concat<T>(a: Seq<T>, b: Seq<T>, p: spec_fn(T) -> bool)
    ensures
        (a + b).filter(p) == a.filter(p) + b.filter(p),
    decreases b.len(),
{
    reveal(Seq::filter);
    if b.len() == 0 {
        assert(a + b =~= a);
        assert(a.filter(p) + b.filter(p) =~= a.filter(p));
    } else {
        lemma_filter_concat(a, b.drop_last(), p);
        assert((a + b).drop_last() =~= a + b.drop_last());
        assert((a + b).last() == b.last());
        assert((a + b).filter(p) =~= a.filter(p) + b.filter(p));
    }
}

/// Replacing changes the first occurrence, and goes on behind it; a text without
/// an occurrence stays as it is.
pub proof fn law_replace(a: Seq<char>, p: Seq<char>, to: Seq<char>, b: Seq<char>)
    requires
        p.len() > 0,
    ensures
        (forall|i: int| !#[trigger] occurs_at(a, p, i)) ==> replaced_from(a, p, to, 0) == a,
        (forall|i: int| i < a.len() ==> !#[trigger] occurs_at(a + p + b, p, i)) ==> replaced_from(
            a + p + b,
            p,
            to,
            0,
        ) == a + to + replaced_from(b, p, to, 0),
{
    lemma_find_from(a, p, 0);
    assert(a.subrange(0, a.len() as int) =~= a);
    let s = a + p + b;
    lemma_find_from(s, p, 0);
    if forall|i: int| i < a.len() ==> !#[trigger] occurs_at(s, p, i) {
        assert(s.subrange(a.len() as int, (a.len() + p.len()) as int) =~= p);
        assert(occurs_at(s, p, a.len() as int));
        let i = find_from(s, p, 0)->0;
        assert(i == a.len());
        assert(s.subrange(0, i) =~= a);
        assert(s.skip(i + p.len()) =~= b);
        lemma_replaced_shift(s, p, to, i + p.len(), 0);
    }
}

proof fn lemma_replaced_shift(s: Seq<char>, p: Seq<char>, to: Seq<char>, k: int, from: int)
    requires
        0 <= k <= s.len(),
        0 <= from <= s.len() - k,
        p.len() > 0,
    ensures
        replaced_from(s, p, to, k + from) == replaced_from(s.skip(k), p, to, from),
    decreases s.len() - from,
{
    let t = s.skip(k);
    lemma_find_from(s, p, k + from);
    lemma_find_from(t, p, from);
    match find_from(t, p, from) {
        Some(i) => {
            lemma_occurs_shift(s, p, k, i);
            let j = find_from(s, p, k + from)->0;
            lemma_occurs_shift(s, p, k, j - k);
            assert(j == k + i);
            assert(s.subrange(k + from, j) =~= t.subrange(from, i));
            lemma_replaced_shift(s, p, to, k, i + p.len());
        },
        None => {
            if find_from(s, p, k + from) is Some {
                let j = find_from(s, p, k + from)->0;
                lemma_occurs_shift(s, p, k, j - k);
            }
            assert(s.subrange(k + from, s.len() as int) =~= t.subrange(from, t.len() as int));
        },
    }
}

proof fn lemma_occurs_shift(s: Seq<char>, p: Seq<char>, k: int, i: int)
    requires
        0 <= k <= s.len(),
        0 <= i,
    ensures
        occurs_at(s.skip(k), p, i) == occurs_at(s, p, k + i),
{
    if k + i + p.len() <= s.len() {
        assert(s.skip(k).subrange(i, i + p.len()) =~= s.subrange(k + i, k + i + p.len()));
    }
}

/// A line is counted by the line feeds before a position, and a column by the
/// characters since the last of them.
pub proof fn law_line_and_column(c: Seq<char>, k: int, start: int)
    requires
        0 <= start <= k <= c.len(),
        start > 0 ==> c[start - 1] == '\n',
        forall|i: int| start <= i < k ==> #[trigger] c[i] != '\n',
    ensures
        line_col(c, k).0 == c.take(k).filter(|x: char| x == '\n').len(),
        line_col(c, k).1 == k - start,
    decreases k - start,
{
    lemma_line_feeds(c, k);
    if k > start {
        assert(c[k - 1] != '\n');
        law_line_and_column(c, k - 1, start);
    }
}

proof fn lemma_line_feeds(c: Seq<char>, k: int)
    requires
        0 <= k <= c.len(),
    ensures
        line_col(c, k).0 == c.take(k).filter(|x: char| x == '\n').len(),
    decreases k,
{
    reveal(Seq::filter);
    if k > 0 {
        lemma_line_feeds(c, k - 1);
        assert(c.take(k).drop_last() =~= c.take(k - 1));
    } else {
        assert(c.take(0).filter(|x: char| x == '\n') =~= Seq::<char>::empty());
    }
}

/// A span between two characters is shown from the line and column of the first to
/// those of the second.
pub proof fn law_range_of_span(c: Seq<char>, a: int, b: int, offset: usize, length: usize)
    requires
        0 <= a <= b < c.len(),
        byte_len(c.take(a)) == offset,
        byte_len(c.take(b)) == offset + length,
        line_col(c, a).0 <= u32::MAX,
        line_col(c, a).1 <= u32::MAX,
        line_col(c, b).0 <= u32::MAX,
        line_col(c, b).1 <= u32::MAX,
    ensures
        span_range(c, offset, length).0 == line_col(c, a).0,
        span_range(c, offset, length).1 == line_col(c, a).1,
        span_range(c, offset, length).2 == line_col(c, b).0,
        span_range(c, offset, length).3 == line_col(c, b).1,
{
    crate::text::lemma_char_position(c, a);
    crate::text::lemma_char_position(c, b);
}

/// What stands before the first separating text is the first piece, and what stands
/// behind it is split in turn.
pub proof fn law_split_by_text(a: Seq<char>, p: Seq<char>, b: Seq<char>)
    requires
        p.len() > 0,
    ensures
        (forall|i: int| !#[trigger] occurs_at(a, p, i)) ==> split_text_from(a, p, 0) == seq![a],
        (forall|i: int| i < a.len() ==> !#[trigger] occurs_at(a + p + b, p, i))
            ==> split_text_from(a + p + b, p, 0) == seq![a] + split_text_from(b, p, 0),
{
    lemma_find_from(a, p, 0);
    assert(a.subrange(0, a.len() as int) =~= a);
    let s = a + p + b;
    lemma_find_from(s, p, 0);
    if forall|i: int| i < a.len() ==> !#[trigger] occurs_at(s, p, i) {
        assert(s.subrange(a.len() as int, (a.len() + p.len()) as int) =~= p);
        assert(occurs_at(s, p, a.len() as int));
        let i = find_from(s, p, 0)->0;
        assert(i == a.len());
        assert(s.subrange(0, i) =~= a);
        assert(s.skip(i + p.len()) =~= b);
        lemma_split_text_shift(s, p, i + p.len(), 0);
    }
}

proof fn lemma_split_text_shift(s: Seq<char>, p: Seq<char>, k: int, from: int)
    requires
        0 <= k <= s.len(),
        0 <= from <= s.len() - k,
        p.len() > 0,
    ensures
        split_text_from(s, p, k + from) == split_text_from(s.skip(k), p, from),
    decreases s.len() - from,
{
    let t = s.skip(k);
    lemma_find_from(s, p, k + from);
    lemma_find_from(t, p, from);
    match find_from(t, p, from) {
        Some(i) => {
            lemma_occurs_shift(s, p, k, i);
            let j = find_from(s, p, k + from)->0;
            lemma_occurs_shift(s, p, k, j - k);
            assert(j == k + i);
            assert(s.subrange(k + from, j) =~= t.subrange(from, i));
            lemma_split_text_shift(s, p, k, i + p.len());
        },
        None => {
            if find_from(s, p, k + from) is Some {
                let j = find_from(s, p, k + from)->0;
                lemma_occurs_shift(s, p, k, j - k);
            }
            assert(s.subrange(k + from, s.len() as int) =~= t.subrange(from, t.len() as int));
        },
    }
}

/// Texts are joined with the separator between each two.
pub proof fn law_joined_texts(v: Seq<Seq<char>>, separator: Seq<char>, t: Seq<char>)
    ensures
        joined_by(Seq::empty(), separator).len() == 0,
        joined_by(seq![t], separator) == t,
        v.len() > 0 ==> joined_by(v.push(t), separator) == joined_by(v, separator) + separator + t,
{
    assert(v.push(t).drop_last() =~= v);
}

} // verus!
