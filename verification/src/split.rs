//! Cutting text into lines, words and separated pieces, and replacing pieces.

use vstd::prelude::*;

use crate::text::{
    chars_of, find_char, find_char_from, find_from, find_str, is_space, is_space_char,
    lemma_find_char, lemma_find_from, sub_string, texts,
};

verus! {

/// `s` without one trailing carriage return.
pub open spec fn without_cr(s: Seq<char>) -> Seq<char> {
    if s.len() > 0 && s.last() == '\r' {
        s.drop_last()
    } else {
        s
    }
}

/// The lines of `s` from position `start` on, as `str::lines` cuts them: each
/// ends at a line feed, or at a carriage return and a line feed, and a text
/// that ends in a line feed has no further empty line.
pub open spec fn lines_from(s: Seq<char>, start: int) -> Seq<Seq<char>>
    decreases s.len() - start,
{
    proof {
        if 0 <= start {
            lemma_find_char(s, '\n', start);
        }
    }
    if start < 0 || start >= s.len() {
        Seq::empty()
    } else {
        match find_char(s, '\n', start) {
            Some(i) => seq![without_cr(s.subrange(start, i))] + lines_from(s, i + 1),
            None => seq![s.subrange(start, s.len() as int)],
        }
    }
}

pub open spec fn lines(s: Seq<char>) -> Seq<Seq<char>> {
    lines_from(s, 0)
}

/// The pieces of `s` from position `start` on that the character `c` separates.
pub open spec fn split_char_from(s: Seq<char>, c: char, start: int) -> Seq<Seq<char>>
    decreases s.len() + 1 - start,
{
    proof {
        if 0 <= start {
            lemma_find_char(s, c, start);
        }
    }
    if start < 0 || start > s.len() {
        Seq::empty()
    } else {
        match find_char(s, c, start) {
            Some(i) => seq![s.subrange(start, i)] + split_char_from(s, c, i + 1),
            None => seq![s.subrange(start, s.len() as int)],
        }
    }
}

pub open spec fn split_char(s: Seq<char>, c: char) -> Seq<Seq<char>> {
    split_char_from(s, c, 0)
}

/// The pieces of `s` from position `start` on that the text `p` separates.
pub open spec fn split_text_from(s: Seq<char>, p: Seq<char>, start: int) -> Seq<Seq<char>>
    decreases s.len() + 1 - start,
{
    proof {
        if 0 <= start {
            lemma_find_from(s, p, start);
        }
    }
    if start < 0 || start > s.len() || p.len() == 0 {
        Seq::empty()
    } else {
        match find_from(s, p, start) {
            Some(i) => seq![s.subrange(start, i)] + split_text_from(s, p, i + p.len()),
            None => seq![s.subrange(start, s.len() as int)],
        }
    }
}

/// First position at or after `from` that holds whitespace, or the length of `s`.
pub open spec fn word_end(s: Seq<char>, from: int) -> int
    decreases s.len() - from,
{
    if from < 0 || from >= s.len() {
        s.len() as int
    } else if is_space(s[from]) {
        from
    } else {
        word_end(s, from + 1)
    }
}

/// The words of `s` from position `start` on: the longest runs without whitespace.
pub open spec fn words_from(s: Seq<char>, start: int) -> Seq<Seq<char>>
    decreases s.len() - start,
{
    if start < 0 || start >= s.len() {
        Seq::empty()
    } else if is_space(s[start]) {
        words_from(s, start + 1)
    } else {
        let end = word_end(s, start);
        if start < end <= s.len() {
            seq![s.subrange(start, end)] + words_from(s, end)
        } else {
            Seq::empty()
        }
    }
}

/// `s` from position `start` on, with each occurrence of `p` replaced by `to`.
pub open spec fn replaced_from(s: Seq<char>, p: Seq<char>, to: Seq<char>, start: int) -> Seq<char>
    decreases s.len() + 1 - start,
{
    proof {
        if 0 <= start {
            lemma_find_from(s, p, start);
        }
    }
    if start < 0 || start > s.len() || p.len() == 0 {
        Seq::empty()
    } else {
        match find_from(s, p, start) {
            Some(i) => s.subrange(start, i) + to + replaced_from(s, p, to, i + p.len()),
            None => s.subrange(start, s.len() as int),
        }
    }
}

pub proof fn lemma_word_end(s: Seq<char>, from: int)
    requires
        0 <= from <= s.len(),
    ensures
        from <= word_end(s, from) <= s.len(),
        forall|j: int| from <= j < word_end(s, from) ==> !is_space(s[j]),
        word_end(s, from) < s.len() ==> is_space(s[word_end(s, from)]),
    decreases s.len() - from,
{
    if from < s.len() && !is_space(s[from]) {
        lemma_word_end(s, from + 1);
    }
}

/// Lines as `(start, end)` positions: `str::lines` keeps `s[start..end]`.
pub open spec fn cut(s: Seq<char>, bounds: Seq<(usize, usize)>) -> Seq<Seq<char>> {
    bounds.map_values(|b: (usize, usize)| s.subrange(b.0 as int, b.1 as int))
}

/// All bounds lie in a text of length `n`.
pub open spec fn bounds_ok(bounds: Seq<(usize, usize)>, n: int) -> bool {
    forall|k: int| 0 <= k < bounds.len() ==> #[trigger] bounds[k].0 <= bounds[k].1 <= n
}

pub proof fn lemma_cut_push(s: Seq<char>, bounds: Seq<(usize, usize)>, b: (usize, usize))
    ensures
        cut(s, bounds.push(b)) == cut(s, bounds).push(s.subrange(b.0 as int, b.1 as int)),
{
    assert(cut(s, bounds.push(b)) =~= cut(s, bounds).push(s.subrange(b.0 as int, b.1 as int)));
}

/// Where each line of `s` begins and ends.
pub fn line_bounds(s: &[char]) -> (r: Vec<(usize, usize)>)
    ensures
        cut(s@, r@) == lines(s@),
        bounds_ok(r@, s@.len() as int),
{
    let mut out: Vec<(usize, usize)> = Vec::new();
    let mut start: usize = 0;
    let n: usize = s.len();
    proof {
        assert(cut(s@, out@) =~= Seq::<Seq<char>>::empty());
        assert(cut(s@, out@) + lines_from(s@, 0) =~= lines_from(s@, 0));
    }
    while start < s.len()
        invariant
            start <= s@.len() == n,
            cut(s@, out@) + lines_from(s@, start as int) == lines(s@),
            bounds_ok(out@, s@.len() as int),
        decreases s@.len() - start,
    {
        let ghost before = out@;
        match find_char_from(s, '\n', start) {
            Some(i) => {
                let end = if i > start && s[i - 1] == '\r' {
                    i - 1
                } else {
                    i
                };
                out.push((start, end));
                proof {
                    lemma_cut_push(s@, before, (start, end));
                    assert(s@.subrange(start as int, end as int) =~= without_cr(
                        s@.subrange(start as int, i as int),
                    ));
                    assert(cut(s@, out@) + lines_from(s@, i + 1) =~= cut(s@, before) + lines_from(
                        s@,
                        start as int,
                    ));
                }
                start = i + 1;
            },
            None => {
                out.push((start, n));
                proof {
                    lemma_cut_push(s@, before, (start, n));
                    assert(cut(s@, out@) + lines_from(s@, s@.len() as int) =~= cut(s@, before)
                        + lines_from(s@, start as int));
                }
                start = n;
            },
        }
    }
    assert(cut(s@, out@) + Seq::<Seq<char>>::empty() =~= cut(s@, out@));
    out
}

/// Where each piece that `c` separates begins and ends.
pub fn split_char_bounds(s: &[char], c: char) -> (r: Vec<(usize, usize)>)
    ensures
        cut(s@, r@) == split_char(s@, c),
        bounds_ok(r@, s@.len() as int),
        r@.len() > 0,
{
    let mut out: Vec<(usize, usize)> = Vec::new();
    let mut start: usize = 0;
    let n: usize = s.len();
    proof {
        assert(cut(s@, out@) =~= Seq::<Seq<char>>::empty());
        assert(cut(s@, out@) + split_char_from(s@, c, 0) =~= split_char_from(s@, c, 0));
    }
    loop
        invariant
            start <= s@.len() == n,
            cut(s@, out@) + split_char_from(s@, c, start as int) == split_char(s@, c),
            bounds_ok(out@, s@.len() as int),
        decreases s@.len() - start,
    {
        let ghost before = out@;
        match find_char_from(s, c, start) {
            Some(i) => {
                out.push((start, i));
                proof {
                    lemma_cut_push(s@, before, (start, i));
                    assert(cut(s@, out@) + split_char_from(s@, c, i + 1) =~= cut(s@, before)
                        + split_char_from(s@, c, start as int));
                }
                start = i + 1;
            },
            None => {
                out.push((start, n));
                proof {
                    lemma_cut_push(s@, before, (start, n));
                    assert(cut(s@, out@) =~= cut(s@, before) + split_char_from(
                        s@,
                        c,
                        start as int,
                    ));
                }
                return out;
            },
        }
    }
}

/// Where each piece that the string `p` separates begins and ends.
pub fn split_text_bounds(s: &[char], p: &str) -> (r: Vec<(usize, usize)>)
    requires
        p@.len() > 0,
    ensures
        cut(s@, r@) == split_text_from(s@, p@, 0),
        bounds_ok(r@, s@.len() as int),
{
    let pc = chars_of(p);
    let mut out: Vec<(usize, usize)> = Vec::new();
    let mut start: usize = 0;
    let n: usize = s.len();
    proof {
        assert(cut(s@, out@) =~= Seq::<Seq<char>>::empty());
        assert(cut(s@, out@) + split_text_from(s@, p@, 0) =~= split_text_from(s@, p@, 0));
    }
    loop
        invariant
            p@.len() > 0,
            pc@ == p@,
            start <= s@.len() == n,
            cut(s@, out@) + split_text_from(s@, p@, start as int) == split_text_from(s@, p@, 0),
            bounds_ok(out@, s@.len() as int),
        decreases s@.len() - start,
    {
        let ghost before = out@;
        match find_str(s, p, start) {
            Some(i) => {
                out.push((start, i));
                proof {
                    lemma_cut_push(s@, before, (start, i));
                    assert(cut(s@, out@) + split_text_from(s@, p@, i + p@.len()) =~= cut(s@, before)
                        + split_text_from(s@, p@, start as int));
                }
                start = i + pc.len();
            },
            None => {
                out.push((start, n));
                proof {
                    lemma_cut_push(s@, before, (start, n));
                    assert(cut(s@, out@) =~= cut(s@, before) + split_text_from(
                        s@,
                        p@,
                        start as int,
                    ));
                }
                return out;
            },
        }
    }
}

/// Where each word of `s[from..]` begins and ends.
pub fn word_bounds(s: &[char], from: usize) -> (r: Vec<(usize, usize)>)
    requires
        from <= s@.len(),
    ensures
        cut(s@, r@) == words_from(s@, from as int),
        bounds_ok(r@, s@.len() as int),
{
    let mut out: Vec<(usize, usize)> = Vec::new();
    let mut start: usize = from;
    let n: usize = s.len();
    proof {
        assert(cut(s@, out@) =~= Seq::<Seq<char>>::empty());
        assert(cut(s@, out@) + words_from(s@, from as int) =~= words_from(s@, from as int));
    }
    while start < s.len()
        invariant
            from <= start <= s@.len() == n,
            cut(s@, out@) + words_from(s@, start as int) == words_from(s@, from as int),
            bounds_ok(out@, s@.len() as int),
        decreases s@.len() - start,
    {
        if is_space_char(s[start]) {
            start = start + 1;
        } else {
            let end = word_end_of(s, start);
            let ghost before = out@;
            out.push((start, end));
            proof {
                lemma_word_end(s@, start as int);
                lemma_cut_push(s@, before, (start, end));
                assert(end > start);
                assert(cut(s@, out@) + words_from(s@, end as int) =~= cut(s@, before) + words_from(
                    s@,
                    start as int,
                ));
            }
            start = end;
        }
    }
    assert(cut(s@, out@) + Seq::<Seq<char>>::empty() =~= cut(s@, out@));
    out
}

pub fn word_end_of(s: &[char], from: usize) -> (r: usize)
    requires
        from <= s@.len(),
    ensures
        r == word_end(s@, from as int),
        from <= r <= s@.len(),
{
    let mut i: usize = from;
    while i < s.len() && !is_space_char(s[i])
        invariant
            from <= i <= s@.len(),
            word_end(s@, from as int) == word_end(s@, i as int),
        decreases s@.len() - i,
    {
        i = i + 1;
    }
    i
}

/// The pieces of `s` with the given bounds.
pub fn cut_strings(s: &[char], bounds: &Vec<(usize, usize)>) -> (r: Vec<String>)
    requires
        bounds_ok(bounds@, s@.len() as int),
    ensures
        texts(r@) == cut(s@, bounds@),
{
    let mut out: Vec<String> = Vec::new();
    let mut k: usize = 0;
    while k < bounds.len()
        invariant
            k <= bounds@.len(),
            bounds_ok(bounds@, s@.len() as int),
            texts(out@) =~= cut(s@, bounds@).take(k as int),
        decreases bounds@.len() - k,
    {
        let (a, b) = bounds[k];
        let ghost before = texts(out@);
        out.push(sub_string(s, a, b));
        k = k + 1;
        assert(texts(out@) =~= before.push(s@.subrange(a as int, b as int)));
    }
    assert(cut(s@, bounds@).take(k as int) =~= cut(s@, bounds@));
    out
}

pub fn lines_of(s: &str) -> (r: Vec<String>)
    ensures
        texts(r@) == lines(s@),
{
    let v = chars_of(s);
    let b = line_bounds(&v);
    cut_strings(&v, &b)
}

pub fn split_char_of(s: &str, c: char) -> (r: Vec<String>)
    ensures
        texts(r@) == split_char(s@, c),
        r@.len() > 0,
{
    let v = chars_of(s);
    let b = split_char_bounds(&v, c);
    let r = cut_strings(&v, &b);
    assert(texts(r@).len() == r@.len());
    r
}

/// `str::replace`: every occurrence of `p`, from left to right, becomes `to`.
pub fn replace_all(s: &str, p: &str, to: &str) -> (r: String)
    requires
        p@.len() > 0,
    ensures
        r@ == replaced_from(s@, p@, to@, 0),
{
    let v = chars_of(s);
    let pc = chars_of(p);
    let mut out = String::new();
    let mut start: usize = 0;
    proof {
        assert(out@ + replaced_from(s@, p@, to@, 0) =~= replaced_from(s@, p@, to@, 0));
    }
    loop
        invariant
            v@ == s@,
            pc@ == p@,
            p@.len() > 0,
            start <= s@.len() <= usize::MAX,
            out@ + replaced_from(s@, p@, to@, start as int) == replaced_from(s@, p@, to@, 0),
        decreases s@.len() - start,
    {
        match find_str(&v, p, start) {
            Some(i) => {
                let ghost before = out@;
                let piece = sub_string(&v, start, i);
                out.append(piece.as_str());
                out.append(to);
                proof {
                    assert(out@ + replaced_from(s@, p@, to@, i + p@.len()) =~= before
                        + replaced_from(s@, p@, to@, start as int));
                }
                start = i + pc.len();
            },
            None => {
                let piece = sub_string(&v, start, v.len());
                out.append(piece.as_str());
                return out;
            },
        }
    }
}

} // verus!
