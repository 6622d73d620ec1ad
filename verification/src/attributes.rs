//! Named attributes in `[...]` attribute lists.

use vstd::prelude::*;
use vstd::slice::slice_subrange;

use crate::text::{
    chars_of, find_char, find_char_from, find_chars, find_from, has_prefix, lemma_find_char,
    lemma_find_from, stands_at, trim_end, trim_end_at, trim_start, trim_start_at,
};

verus! {

/// The bounds of an attribute value: found by executable code as in the model.
pub open spec fn same_range(found: Option<(usize, usize)>, model: Option<(int, int)>) -> bool {
    match (found, model) {
        (Some(a), Some(b)) => a.0 as int == b.0 && a.1 as int == b.1,
        (None, None) => true,
        _ => false,
    }
}

/// The value of the attribute `key` where `m[a..b]` writes `key=value`, with
/// whitespace before it allowed. A value in single or double quotes ends at
/// the next such quote; one without quotes ends with the segment, trailing
/// whitespace dropped.
pub open spec fn value_in_segment(m: Seq<char>, a: int, b: int, key: Seq<char>) -> Option<(int, int)> {
    let t = trim_start(m.subrange(a, b));
    let at = b - t.len();
    let value = at + key.len() + 1;
    if !has_prefix(t, key) || value > b || m[value - 1] != '=' {
        None
    } else if value < b && (m[value] == '"' || m[value] == '\'') {
        match find_char(m.take(b), m[value], value + 1) {
            Some(end) => Some((value + 1, end)),
            None => None,
        }
    } else {
        Some((value, value + trim_end(m.subrange(value, b)).len()))
    }
}

/// The value of the attribute `key` in the list whose segment began at `seg`,
/// with `m[seg..pos]` read and `quote` the quote that is open. Segments end at
/// commas outside quotes, a list ends at `]` outside quotes, and the search
/// goes on with the next list.
pub open spec fn attr_scan(
    m: Seq<char>,
    key: Seq<char>,
    seg: int,
    pos: int,
    quote: Option<char>,
) -> Option<(int, int)>
    decreases m.len() - pos,
{
    proof {
        if 0 <= pos {
            lemma_find_char(m, '[', pos + 1);
        }
    }
    if pos < 0 || pos >= m.len() {
        value_in_segment(m, seg, m.len() as int, key)
    } else if quote is Some {
        attr_scan(
            m,
            key,
            seg,
            pos + 1,
            if Some(m[pos]) == quote {
                None
            } else {
                quote
            },
        )
    } else if m[pos] == '"' || m[pos] == '\'' {
        attr_scan(m, key, seg, pos + 1, Some(m[pos]))
    } else if m[pos] == ',' || m[pos] == ']' {
        let here = value_in_segment(m, seg, pos, key);
        if here is Some {
            here
        } else if m[pos] == ',' {
            attr_scan(m, key, pos + 1, pos + 1, None)
        } else {
            match find_char(m, '[', pos + 1) {
                Some(open) => attr_scan(m, key, open + 1, open + 1, None),
                None => None,
            }
        }
    } else {
        attr_scan(m, key, seg, pos + 1, None)
    }
}

/// The value of the first attribute `key` in the attribute lists of `m`.
pub open spec fn named_attr(m: Seq<char>, key: Seq<char>) -> Option<(int, int)> {
    match find_char(m, '[', 0) {
        Some(open) => attr_scan(m, key, open + 1, open + 1, None),
        None => None,
    }
}

/// The position before `at` separates attributes, or nothing stands before it.
pub open spec fn at_boundary(m: Seq<char>, at: int) -> bool {
    at <= 0 || m[at - 1] == '[' || m[at - 1] == ',' || m[at - 1] == ' '
}

/// First `,` or `]` at or after `from`, or the length of `m`.
pub open spec fn value_end(m: Seq<char>, from: int) -> int
    decreases m.len() - from,
{
    if from < 0 || from >= m.len() {
        m.len() as int
    } else if m[from] == ',' || m[from] == ']' {
        from
    } else {
        value_end(m, from + 1)
    }
}

/// The value of the first `key=` at or after `from` that stands at a list
/// boundary. A value in double quotes ends at the next double quote, another
/// one at the next `,` or `]`.
pub open spec fn boundary_attr(m: Seq<char>, key: Seq<char>, from: int) -> Option<(int, int)>
    decreases m.len() - from,
{
    proof {
        if 0 <= from {
            lemma_find_from(m, key, from);
        }
    }
    if from < 0 || key.len() == 0 {
        None
    } else {
        match find_from(m, key, from) {
            None => None,
            Some(at) => {
                let after = at + key.len();
                if !at_boundary(m, at) || after >= m.len() || m[after] != '=' {
                    boundary_attr(m, key, after)
                } else if after + 1 < m.len() && m[after + 1] == '"' {
                    match find_char(m, '"', after + 2) {
                        Some(end) => Some((after + 2, end)),
                        None => None,
                    }
                } else {
                    Some((after + 1, value_end(m, after + 1)))
                }
            },
        }
    }
}

/// Check whether `m[a..b]` is a `key=value` attribute; return the bounds of
/// the value, quotes excluded, if so.
fn named_attr_value_in(m: &[char], a: usize, b: usize, key: &[char]) -> (r: Option<(usize, usize)>)
    requires
        a <= b <= m@.len(),
    ensures
        same_range(r, value_in_segment(m@, a as int, b as int, key@)),
        r matches Some(x) ==> a <= x.0 <= x.1 <= b,
{
    let n: usize = m.len();
    let at = trim_start_at(m, a, b);
    let ghost t = m@.subrange(at as int, b as int);
    if b - at <= key.len() {
        proof {
            if has_prefix(t, key@) {
                assert(at + key@.len() + 1 > b);
            }
        }
        return None;
    }
    let ghost klen = key@.len();
    if !stands_at(m, key, at) {
        assert(t.subrange(0, klen as int) =~= m@.subrange(at as int, at + klen));
        return None;
    }
    assert(t.subrange(0, klen as int) =~= m@.subrange(at as int, at + klen));
    let value: usize = at + key.len() + 1;
    if m[value - 1] != '=' {
        return None;
    }
    if value < b && (m[value] == '"' || m[value] == '\'') {
        let upto = slice_subrange(m, 0, b);
        assert(upto@ =~= m@.take(b as int));
        match find_char_from(upto, m[value], value + 1) {
            Some(end) => Some((value + 1, end)),
            None => None,
        }
    } else {
        Some((value, trim_end_at(m, value, b)))
    }
}

/// Find a `key="value"` (or `key=value`) attribute in a marker that may
/// contain one or more stacked `[...]` attribute-list lines (role, prefix, and
/// id can each live on their own line). Returns the bounds of the value,
/// quotes excluded.
///
/// Within each bracket group, splits on top-level commas (quote-aware, so a
/// quoted value like `tags="foo, id=5"` cannot produce a false `id` match) and
/// requires each candidate segment to start with exactly `key=`, so `key`
/// never matches inside a longer attribute name. If `key` isn't found in one
/// group, the search continues into the next `[...]` group.
pub fn find_named_attr(m: &[char], key: &str) -> (r: Option<(usize, usize)>)
    ensures
        same_range(r, named_attr(m@, key@)),
        r matches Some(x) ==> x.0 <= x.1 <= m@.len(),
{
    let k = chars_of(key);
    let n: usize = m.len();
    let open = match find_char_from(m, '[', 0) {
        Some(i) => i,
        None => {
            return None;
        },
    };
    let mut seg: usize = open + 1;
    let mut pos: usize = open + 1;
    let mut quote: Option<char> = None;
    while pos < m.len()
        invariant
            n == m@.len(),
            k@ == key@,
            seg <= pos <= m@.len(),
            named_attr(m@, key@) == attr_scan(m@, key@, seg as int, pos as int, quote),
        decreases m@.len() - pos,
    {
        let c = m[pos];
        match quote {
            Some(q) => {
                if c == q {
                    quote = None;
                }
                pos = pos + 1;
            },
            None => {
                if c == '"' || c == '\'' {
                    quote = Some(c);
                    pos = pos + 1;
                } else if c == ',' || c == ']' {
                    let here = named_attr_value_in(m, seg, pos, &k);
                    if here.is_some() {
                        return here;
                    }
                    if c == ',' {
                        seg = pos + 1;
                        pos = pos + 1;
                    } else {
                        match find_char_from(m, '[', pos + 1) {
                            Some(i) => {
                                seg = i + 1;
                                pos = i + 1;
                            },
                            None => {
                                return None;
                            },
                        }
                    }
                } else {
                    pos = pos + 1;
                }
            },
        }
    }
    named_attr_value_in(m, seg, m.len(), &k)
}

/// Find a `key="value"` (or `key=value`) attribute in a `[...]` bracket-list
/// marker. Returns the bounds of the value, quotes excluded.
///
/// Skips false matches where `key` is part of a longer attribute name (e.g.
/// searching for `id` must not match inside `prefix`) by requiring a
/// list-boundary character (`[`, `,`, space) immediately before the match and
/// a literal `=` immediately after it.
pub fn find_boundary_attr(m: &[char], key: &str) -> (r: Option<(usize, usize)>)
    requires
        key@.len() > 0,
    ensures
        same_range(r, boundary_attr(m@, key@, 0)),
        r matches Some(x) ==> x.0 <= x.1 <= m@.len(),
{
    let k = chars_of(key);
    let n: usize = m.len();
    let mut from: usize = 0;
    loop
        invariant
            n == m@.len(),
            k@ == key@,
            key@.len() > 0,
            from <= m@.len(),
            boundary_attr(m@, key@, 0) == boundary_attr(m@, key@, from as int),
        decreases m@.len() - from,
    {
        proof {
            lemma_find_from(m@, key@, from as int);
        }
        match find_chars(m, &k, from) {
            None => {
                return None;
            },
            Some(at) => {
                let after: usize = at + k.len();
                let boundary = at == 0 || m[at - 1] == '[' || m[at - 1] == ',' || m[at - 1] == ' ';
                if !boundary || after >= n || m[after] != '=' {
                    from = after;
                } else if after + 1 < n && m[after + 1] == '"' {
                    return match find_char_from(m, '"', after + 2) {
                        Some(end) => Some((after + 2, end)),
                        None => None,
                    };
                } else {
                    let end = value_end_of(m, after + 1);
                    return Some((after + 1, end));
                }
            },
        }
    }
}

fn value_end_of(m: &[char], from: usize) -> (r: usize)
    requires
        from <= m@.len(),
    ensures
        r == value_end(m@, from as int),
        from <= r <= m@.len(),
{
    let mut i: usize = from;
    while i < m.len() && m[i] != ',' && m[i] != ']'
        invariant
            from <= i <= m@.len(),
            value_end(m@, from as int) == value_end(m@, i as int),
        decreases m@.len() - i,
    {
        i = i + 1;
    }
    i
}

} // verus!
