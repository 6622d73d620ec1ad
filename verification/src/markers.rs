//! Requirement markers: their prefix, the id inside them, and rewriting it.

use core::ops::Range;
use vstd::prelude::*;

use crate::adoc_marker::marker_inner;
use crate::attributes::{boundary_attr, find_boundary_attr, find_named_attr, named_attr};
use crate::bindings::{frontmatter_weight, markdown_diff, marq_diff_inline, marq_frontmatter_weight};
use crate::format::SpecFormat;
use crate::numbers::{decimal, decimal_of, parse_i32, parse_i32_of};
use crate::requirement::SourceSpan;
use crate::rule_id::parsed_rule_id;
use crate::split::{bounds_ok, cut, line_bounds, lines};
use crate::text::{
    byte_len, byte_offset_of, byte_slice, byte_slice_of, char_position, char_position_of, chars_of,
    copy_str, find_char, find_char_from, has_prefix, lemma_char_position, lemma_find_char, opt_text,
    is_space, rfind_char, rfind_char_in, starts_with_str, str_eq, sub_chars, sub_string, trim,
    trim_bounds, trim_end, trim_end_at, trim_start, trim_start_at,
};

verus! {

/// Why a marker operation failed.
#[derive(Debug, Clone, PartialEq, Eq)]
pub enum MarkerError {
    /// The marker does not have the shape of the format.
    Malformed(String),
    /// The id range does not lie in the marker.
    OutOfBounds,
}

/// The text of the marker at `span`, where the span lies in the content and
/// falls on character boundaries.
pub open spec fn marker_at(content: Seq<char>, span: SourceSpan) -> Option<Seq<char>> {
    if span.offset + span.length > usize::MAX {
        None
    } else {
        byte_slice(content, span.offset as int, span.offset + span.length)
    }
}

/// The prefix of a `prefix[id]` marker: the trimmed text before the bracket.
pub open spec fn bracket_prefix(m: Seq<char>) -> Option<Seq<char>> {
    match find_char(m, '[', 0) {
        Some(i) => {
            let p = trim(m.subrange(0, i));
            if p.len() == 0 {
                None
            } else {
                Some(p)
            }
        },
        None => None,
    }
}

/// The prefix of a `#name(...)` marker, `#req` being the long form of `#r`.
pub open spec fn call_prefix(m: Seq<char>) -> Option<Seq<char>> {
    match find_char(m, '(', 0) {
        Some(i) => if m[0] != '#' || i < 2 {
            None
        } else if m.subrange(1, i) == "req"@ {
            Some("r"@)
        } else {
            Some(m.subrange(1, i))
        },
        None => None,
    }
}

/// The prefix that the attribute lists of a marker name, `r` where they name
/// none or an empty one.
pub open spec fn attr_prefix(m: Seq<char>) -> Seq<char> {
    match named_attr(m, "prefix"@) {
        Some(r) => if r.0 == r.1 {
            "r"@
        } else {
            m.subrange(r.0, r.1)
        },
        None => "r"@,
    }
}

/// The prefix of a marker of the given format.
pub open spec fn marker_prefix(fmt: SpecFormat, m: Seq<char>) -> Option<Seq<char>> {
    match fmt {
        SpecFormat::Markdown => bracket_prefix(m),
        SpecFormat::Typst => call_prefix(m),
        SpecFormat::Sdoc => Some("r"@),
        SpecFormat::AsciiDoc => if has_prefix(m, "["@) {
            Some(attr_prefix(m))
        } else {
            bracket_prefix(m)
        },
        SpecFormat::AsciiDocRoles => Some(
            match boundary_attr(m, "prefix"@, 0) {
                Some(r) => m.subrange(r.0, r.1),
                None => "r"@,
            },
        ),
    }
}

/// The bounds of the id in the text between brackets: it starts behind leading
/// whitespace, and ends at the first blank or with the trimmed text.
pub open spec fn leading_word(inner: Seq<char>) -> (int, int) {
    let from = inner.len() - trim_start(inner).len();
    let t = trim(inner);
    match find_char(t, ' ', 0) {
        Some(i) => (from, from + i),
        None => (from, from + t.len()),
    }
}

/// The bounds of the id in a `prefix[id ...]` marker, which stands between the
/// first `[` and the last `]`.
pub open spec fn bracket_range(m: Seq<char>) -> Option<(int, int)> {
    match (find_char(m, '[', 0), rfind_char(m, ']')) {
        (Some(open), Some(close)) => if close <= open {
            Some((open + 1, close))
        } else {
            let word = leading_word(m.subrange(open + 1, close));
            Some((open + 1 + word.0, open + 1 + word.1))
        },
        _ => None,
    }
}

/// The bounds of the first positional string argument of a call whose argument
/// list was entered before `seg`: arguments end at commas outside quotes, and
/// one that begins with a quote is positional.
pub open spec fn argument_scan(m: Seq<char>, seg: int, pos: int, quoted: bool) -> Option<(int, int)>
    decreases m.len() - pos,
{
    if pos < 0 || pos >= m.len() {
        None
    } else if quoted {
        if m[pos] == '"' {
            let at = m.len() - trim_start(m.skip(seg)).len();
            if m[at] == '"' && at < pos {
                Some((at + 1, pos))
            } else {
                argument_scan(m, seg, pos + 1, false)
            }
        } else {
            argument_scan(m, seg, pos + 1, true)
        }
    } else if m[pos] == '"' {
        argument_scan(m, seg, pos + 1, true)
    } else if m[pos] == ',' {
        argument_scan(m, pos + 1, pos + 1, false)
    } else if m[pos] == ')' {
        None
    } else {
        argument_scan(m, seg, pos + 1, false)
    }
}

/// The bounds of the id in a call marker.
pub open spec fn argument_range(m: Seq<char>) -> Option<(int, int)> {
    match find_char(m, '(', 0) {
        Some(open) => argument_scan(m, open + 1, open + 1, false),
        None => None,
    }
}

/// The bounds of the id in a `UID: id` marker.
pub open spec fn field_range(m: Seq<char>) -> Option<(int, int)> {
    if has_prefix(m, "UID:"@) {
        let t = trim_start(m.skip(4));
        Some((m.len() - t.len(), m.len() - t.len() + trim(m.skip(4)).len()))
    } else {
        None
    }
}

/// The bounds of the id in a marker of the given format.
pub open spec fn id_bounds(fmt: SpecFormat, m: Seq<char>) -> Option<(int, int)> {
    match fmt {
        SpecFormat::Markdown => bracket_range(m),
        SpecFormat::Typst => argument_range(m),
        SpecFormat::Sdoc => field_range(m),
        SpecFormat::AsciiDoc => if has_prefix(m, "["@) {
            named_attr(m, "id"@)
        } else {
            bracket_range(m)
        },
        SpecFormat::AsciiDocRoles => boundary_attr(m, "id"@, 0),
    }
}

/// The byte range of the bounds `b` in `m`.
pub open spec fn byte_range(m: Seq<char>, b: (int, int)) -> (int, int) {
    (byte_len(m.take(b.0)) as int, byte_len(m.take(b.1)) as int)
}

fn prefix_of_bracket(m: &[char]) -> (r: Option<String>)
    ensures
        opt_text(r) == bracket_prefix(m@),
{
    match find_char_from(m, '[', 0) {
        Some(i) => {
            let (a, b) = trim_bounds(m, 0, i);
            if a == b {
                None
            } else {
                Some(sub_string(m, a, b))
            }
        },
        None => None,
    }
}

fn prefix_of_call(m: &[char]) -> (r: Option<String>)
    ensures
        opt_text(r) == call_prefix(m@),
{
    match find_char_from(m, '(', 0) {
        Some(i) => if m[0] != '#' || i < 2 {
            None
        } else {
            let name = sub_string(m, 1, i);
            if str_eq(name.as_str(), "req") {
                Some(copy_str("r"))
            } else {
                Some(name)
            }
        },
        None => None,
    }
}

/// Extract the marker prefix (e.g. `"r"` from `r[foo.bar]`) at `span` in
/// `content`.
///
/// Returns `None` if the span is out of bounds or the marker is malformed.
pub fn extract_marker_prefix(fmt: SpecFormat, content: &str, span: SourceSpan) -> (r: Option<String>)
    ensures
        opt_text(r) == match marker_at(content@, span) {
            Some(m) => marker_prefix(fmt, m),
            None => None,
        },
{
    let v = chars_of(content);
    let end = match span.offset.checked_add(span.length) {
        Some(e) => e,
        None => {
            return None;
        },
    };
    let text = match byte_slice_of(&v, span.offset, end) {
        Some(t) => t,
        None => {
            return None;
        },
    };
    let m = chars_of(text.as_str());
    match fmt {
        SpecFormat::Markdown => prefix_of_bracket(&m),
        SpecFormat::Typst => prefix_of_call(&m),
        SpecFormat::Sdoc => Some(copy_str("r")),
        SpecFormat::AsciiDoc => if starts_with_str(&m, "[") {
            match find_named_attr(&m, "prefix") {
                Some((a, b)) => if a == b {
                    Some(copy_str("r"))
                } else {
                    Some(sub_string(&m, a, b))
                },
                None => Some(copy_str("r")),
            }
        } else {
            prefix_of_bracket(&m)
        },
        SpecFormat::AsciiDocRoles => {
            proof {
                reveal_strlit("prefix");
            }
            match find_boundary_attr(&m, "prefix") {
                Some((a, b)) => Some(sub_string(&m, a, b)),
                None => Some(copy_str("r")),
            }
        },
    }
}

fn range_of_bracket(m: &[char]) -> (r: Option<(usize, usize)>)
    ensures
        crate::attributes::same_range(r, bracket_range(m@)),
        r matches Some(x) ==> x.0 <= m@.len() && x.1 <= m@.len(),
{
    let n: usize = m.len();
    match (find_char_from(m, '[', 0), rfind_char_in(m, ']')) {
        (Some(open), Some(close)) => if close <= open {
            Some((open + 1, close))
        } else {
            let start = trim_start_at(m, open + 1, close);
            let end = trim_end_at(m, start, close);
            let ghost t = m@.subrange(start as int, end as int);
            let mut i: usize = start;
            while i < end && m[i] != ' '
                invariant
                    start <= i <= end <= m@.len(),
                    t == m@.subrange(start as int, end as int),
                    find_char(t, ' ', 0) == find_char(t, ' ', i - start),
                decreases end - i,
            {
                assert(t[i - start] == m@[i as int]);
                i = i + 1;
            }
            if i < end {
                assert(t[i - start] == m@[i as int]);
            }
            Some((start, i))
        },
        _ => None,
    }
}

fn range_of_argument(m: &[char]) -> (r: Option<(usize, usize)>)
    ensures
        crate::attributes::same_range(r, argument_range(m@)),
        r matches Some(x) ==> x.0 <= x.1 <= m@.len(),
{
    let n: usize = m.len();
    let open = match find_char_from(m, '(', 0) {
        Some(i) => i,
        None => {
            return None;
        },
    };
    let mut seg: usize = open + 1;
    let mut pos: usize = open + 1;
    let mut quoted: bool = false;
    while pos < m.len()
        invariant
            n == m@.len(),
            seg <= pos <= m@.len(),
            argument_range(m@) == argument_scan(m@, seg as int, pos as int, quoted),
        decreases m@.len() - pos,
    {
        let c = m[pos];
        if quoted {
            if c == '"' {
                let at = trim_start_at(m, seg, n);
                assert(m@.subrange(seg as int, n as int) =~= m@.skip(seg as int));
                if at < pos && m[at] == '"' {
                    return Some((at + 1, pos));
                }
                quoted = false;
            }
            pos = pos + 1;
        } else if c == '"' {
            quoted = true;
            pos = pos + 1;
        } else if c == ',' {
            seg = pos + 1;
            pos = pos + 1;
        } else if c == ')' {
            return None;
        } else {
            pos = pos + 1;
        }
    }
    None
}

fn range_of_field(m: &[char]) -> (r: Option<(usize, usize)>)
    ensures
        crate::attributes::same_range(r, field_range(m@)),
        r matches Some(x) ==> x.0 <= x.1 <= m@.len(),
{
    proof {
        reveal_strlit("UID:");
    }
    if starts_with_str(m, "UID:") {
        let (a, b) = trim_bounds(m, 4, m.len());
        let at = trim_start_at(m, 4, m.len());
        assert(m@.subrange(4, m@.len() as int) =~= m@.skip(4));
        let len = b - a;
        proof {
            assert(trim(m@.skip(4)).len() == len);
            lemma_trim_shorter(m@.skip(4));
        }
        Some((at, at + len))
    } else {
        None
    }
}

proof fn lemma_trim_shorter(s: Seq<char>)
    ensures
        trim(s).len() <= trim_start(s).len(),
{
    lemma_trim_end_shorter(trim_start(s));
}

proof fn lemma_trim_end_shorter(s: Seq<char>)
    ensures
        trim_end(s).len() <= s.len(),
    decreases s.len(),
{
    if s.len() > 0 {
        lemma_trim_end_shorter(s.drop_last());
    }
}

/// Locate the requirement-id literal within a marker string.
///
/// Returns the byte range of the id *contents* (between the brackets/quotes,
/// delimiters excluded) so [`rewrite_marker`] can splice a new id in without
/// any string searching. Format-specific because typst markers may carry named
/// arguments before the positional id (`#req(level: "shall", "a.b")`).
pub fn id_range_in_marker(fmt: SpecFormat, marker_str: &str) -> (r: Result<Range<usize>, MarkerError>)
    ensures
        match (r, id_bounds(fmt, marker_str@)) {
            (Ok(range), Some(b)) => (range.start as int, range.end as int) == byte_range(
                marker_str@,
                b,
            ) && 0 <= b.0 <= marker_str@.len() && 0 <= b.1 <= marker_str@.len(),
            (Err(MarkerError::Malformed(m)), None) => m@ == marker_str@,
            _ => false,
        },
{
    let m = chars_of(marker_str);
    let bounds = match fmt {
        SpecFormat::Markdown => range_of_bracket(&m),
        SpecFormat::Typst => range_of_argument(&m),
        SpecFormat::Sdoc => range_of_field(&m),
        SpecFormat::AsciiDoc => if starts_with_str(&m, "[") {
            find_named_attr(&m, "id")
        } else {
            range_of_bracket(&m)
        },
        SpecFormat::AsciiDocRoles => {
            proof {
                reveal_strlit("id");
            }
            find_boundary_attr(&m, "id")
        },
    };
    match bounds {
        Some((a, b)) => {
            let start = byte_offset_of(&m, a);
            let end = byte_offset_of(&m, b);
            Ok(Range { start, end })
        },
        None => Err(MarkerError::Malformed(copy_str(marker_str))),
    }
}

/// A marker with the text between two byte offsets replaced by `base+ver`.
pub open spec fn rewritten(m: Seq<char>, start: int, end: int, base: Seq<char>, ver: u32) -> Seq<char> {
    let a = char_position(m, start)->0;
    let b = char_position(m, end)->0;
    m.take(a) + base + "+"@ + decimal(ver as nat) + m.skip(b)
}

/// Rewrite a marker string to point at `base+new_ver`.
///
/// `id_range` is the byte range of the id contents within `marker_str` (from
/// [`id_range_in_marker`]); everything outside it (prefix, delimiters, named
/// arguments) is preserved byte-for-byte.
pub fn rewrite_marker(
    marker_str: &str,
    id_range: Range<usize>,
    base: &str,
    new_ver: u32,
) -> (r: Result<String, MarkerError>)
    requires
        id_range.start <= id_range.end <= byte_len(marker_str@) ==> char_position(
            marker_str@,
            id_range.start as int,
        ) is Some && char_position(marker_str@, id_range.end as int) is Some,
    ensures
        match r {
            Ok(s) => id_range.start <= id_range.end <= byte_len(marker_str@) && s@ == rewritten(
                marker_str@,
                id_range.start as int,
                id_range.end as int,
                base@,
                new_ver,
            ),
            Err(e) => e == MarkerError::OutOfBounds && !(id_range.start <= id_range.end
                <= byte_len(marker_str@)),
        },
{
    let m = chars_of(marker_str);
    let total = byte_offset_of(&m, m.len());
    assert(m@.take(m@.len() as int) =~= m@);
    if id_range.start > id_range.end || id_range.end > total {
        return Err(MarkerError::OutOfBounds);
    }
    match (char_position_of(&m, id_range.start), char_position_of(&m, id_range.end)) {
        (Some(a), Some(b)) => {
            let mut out = sub_string(&m, 0, a);
            out.append(base);
            out.append("+");
            let d = decimal_of(new_ver as u128);
            out.append(d.as_str());
            let tail = sub_string(&m, b, m.len());
            out.append(tail.as_str());
            assert(out@ =~= rewritten(
                marker_str@,
                id_range.start as int,
                id_range.end as int,
                base@,
                new_ver,
            ));
            Ok(out)
        },
        _ => {
            assert(false);
            Err(MarkerError::OutOfBounds)
        },
    }
}

/// Rewriting keeps the bytes before the id and the bytes after it, and puts
/// `base+ver` between them.
pub proof fn law_rewrite_keeps_surroundings(m: Seq<char>, a: int, b: int, base: Seq<char>, ver: u32)
    requires
        0 <= a <= b <= m.len(),
    ensures
        ({
            let range = byte_range(m, (a, b));
            let out = rewritten(m, range.0, range.1, base, ver);
            let id = base + "+"@ + decimal(ver as nat);
            &&& out.take(a) == m.take(a)
            &&& out.skip(a + id.len() as int) == m.skip(b)
            &&& out.subrange(a, a + id.len() as int) == id
        }),
{
    lemma_char_position(m, a);
    lemma_char_position(m, b);
    let range = byte_range(m, (a, b));
    let out = rewritten(m, range.0, range.1, base, ver);
    let id = base + "+"@ + decimal(ver as nat);
    assert(out =~= m.take(a) + id + m.skip(b));
    assert(out.take(a) =~= m.take(a));
    assert(out.skip(a + id.len() as int) =~= m.skip(b));
    assert(out.subrange(a, a + id.len() as int) =~= id);
}

/// Leading whitespace ends at the first character that is none.
proof fn lemma_trim_start_at(s: Seq<char>, k: int)
    requires
        0 <= k <= s.len(),
        forall|j: int| 0 <= j < k ==> is_space(#[trigger] s[j]),
        k < s.len() ==> !is_space(s[k]),
    ensures
        trim_start(s) == s.skip(k),
    decreases k,
{
    if k == 0 {
        assert(s.skip(0) =~= s);
    } else {
        lemma_trim_start_at(s.drop_first(), k - 1);
        assert(s.drop_first().skip(k - 1) =~= s.skip(k));
    }
}

/// Trailing whitespace starts behind the last character that is none.
proof fn lemma_trim_end_at(s: Seq<char>, k: int)
    requires
        0 <= k <= s.len(),
        forall|j: int| k <= j < s.len() ==> is_space(#[trigger] s[j]),
        k > 0 ==> !is_space(s[k - 1]),
    ensures
        trim_end(s) == s.take(k),
    decreases s.len(),
{
    if k == s.len() {
        assert(s.take(k) =~= s);
    } else {
        lemma_trim_end_at(s.drop_last(), k);
        assert(s.drop_last().take(k) =~= s.take(k));
    }
}

proof fn lemma_trim_start_props(s: Seq<char>) -> (k: int)
    ensures
        0 <= k <= s.len(),
        trim_start(s) == s.skip(k),
        k == s.len() - trim_start(s).len(),
        forall|j: int| 0 <= j < k ==> is_space(#[trigger] s[j]),
        k < s.len() ==> !is_space(s[k]),
    decreases s.len(),
{
    if s.len() > 0 && is_space(s[0]) {
        let k = lemma_trim_start_props(s.drop_first());
        assert(s.drop_first().skip(k) =~= s.skip(k + 1));
        assert forall|j: int| 0 <= j < k + 1 implies is_space(#[trigger] s[j]) by {
            if j > 0 {
                assert(s[j] == s.drop_first()[j - 1]);
            }
        }
        k + 1
    } else {
        assert(s.skip(0) =~= s);
        0
    }
}

proof fn lemma_trim_end_props(s: Seq<char>) -> (k: int)
    ensures
        0 <= k <= s.len(),
        trim_end(s) == s.take(k),
        forall|j: int| k <= j < s.len() ==> is_space(#[trigger] s[j]),
        k > 0 ==> !is_space(s[k - 1]),
    decreases s.len(),
{
    if s.len() > 0 && is_space(s.last()) {
        let k = lemma_trim_end_props(s.drop_last());
        assert(s.drop_last().take(k) =~= s.take(k));
        assert forall|j: int| k <= j < s.len() implies is_space(#[trigger] s[j]) by {
            if j < s.len() - 1 {
                assert(s[j] == s.drop_last()[j]);
            }
        }
        k
    } else {
        assert(s.take(s.len() as int) =~= s);
        s.len() as int
    }
}

/// Where the id between brackets lies.
proof fn lemma_leading_word_bounds(inner: Seq<char>)
    ensures
        0 <= leading_word(inner).0 <= leading_word(inner).1 <= inner.len(),
{
    let k = lemma_trim_start_props(inner);
    let e = lemma_trim_end_props(inner.skip(k));
    lemma_find_char(trim(inner), ' ', 0);
}

/// Another id in the place of the one between brackets is read back.
proof fn lemma_leading_word_replaced(inner: Seq<char>, id: Seq<char>)
    requires
        id.len() > 0,
        forall|j: int| 0 <= j < id.len() ==> !is_space(#[trigger] id[j]),
    ensures
        ({
            let w = leading_word(inner);
            leading_word(inner.take(w.0) + id + inner.skip(w.1)) == (w.0, w.0 + id.len())
        }),
{
    let w = leading_word(inner);
    let k = lemma_trim_start_props(inner);
    let u = inner.skip(k);
    let e = lemma_trim_end_props(u);
    let t = trim(inner);
    assert(t == u.take(e));
    lemma_find_char(t, ' ', 0);
    let i = w.1 - w.0;
    let out = inner.take(w.0) + id + inner.skip(w.1);
    assert(out.len() == k + id.len() + inner.len() - w.1);
    assert forall|j: int| 0 <= j < k implies is_space(#[trigger] out[j]) by {
        assert(out[j] == inner[j]);
    }
    assert(out[k] == id[0]);
    lemma_trim_start_at(out, k);
    let v = out.skip(k);
    assert(v =~= id + u.skip(i));
    assert forall|j: int| 0 <= j < id.len() implies v[j] != ' ' by {
        assert(v[j] == id[j]);
        assert(!is_space(id[j]));
    }
    if i < e {
        assert(t[i] == ' ');
        assert(u[i] == t[i]);
        assert(u[e - 1] != ' ');
        let end = id.len() + e - i;
        assert forall|j: int| end <= j < v.len() implies is_space(#[trigger] v[j]) by {
            assert(v[j] == u[j - id.len() + i]);
        }
        assert(v[end - 1] == u[e - 1]);
        lemma_trim_end_at(v, end);
        let x = v.take(end);
        lemma_find_char(x, ' ', 0);
        assert(x[id.len() as int] == u[i]);
        assert forall|j: int| 0 <= j < id.len() implies x[j] != ' ' by {
            assert(x[j] == v[j]);
        }
    } else {
        assert forall|j: int| id.len() <= j < v.len() implies is_space(#[trigger] v[j]) by {
            assert(v[j] == u[j - id.len() + i]);
        }
        assert(v[id.len() - 1] == id.last());
        lemma_trim_end_at(v, id.len() as int);
        let x = v.take(id.len() as int);
        lemma_find_char(x, ' ', 0);
        assert forall|j: int| 0 <= j < id.len() implies x[j] != ' ' by {
            assert(x[j] == v[j]);
        }
    }
}

/// The text in the id range of a `prefix[id ...]` marker is the id that is read
/// from the text between its brackets.
pub proof fn law_bracket_range_holds_the_id(m: Seq<char>)
    requires
        find_char(m, '[', 0) is Some,
        rfind_char(m, ']') is Some,
        find_char(m, '[', 0)->0 < rfind_char(m, ']')->0,
    ensures
        ({
            let inner = m.subrange(find_char(m, '[', 0)->0 + 1, rfind_char(m, ']')->0);
            let b = bracket_range(m)->0;
            marker_inner(inner) matches Some(x) ==> parsed_rule_id(m.subrange(b.0, b.1)) == Some(x.0)
        }),
{
    lemma_find_char(m, '[', 0);
    lemma_rfind_char_props(m, ']');
    let open = find_char(m, '[', 0)->0;
    let close = rfind_char(m, ']')->0;
    let inner = m.subrange(open + 1, close);
    let k = lemma_trim_start_props(inner);
    let u = inner.skip(k);
    let e = lemma_trim_end_props(u);
    let t = trim(inner);
    let b = bracket_range(m)->0;
    lemma_find_char(t, ' ', 0);
    match find_char(t, ' ', 0) {
        Some(i) => {
            assert(m.subrange(b.0, b.1) =~= t.subrange(0, i));
        },
        None => {
            assert(m.subrange(b.0, b.1) =~= t);
        },
    }
}

/// After rewriting a `prefix[id ...]` marker, the marker's id is `base+ver`, and
/// what stands before and behind it is as it was.
pub proof fn law_rewritten_bracket_marker_holds_new_id(m: Seq<char>, base: Seq<char>, ver: u32)
    requires
        bracket_range(m) is Some,
        (bracket_range(m)->0).0 <= (bracket_range(m)->0).1,
        forall|j: int| 0 <= j < base.len() ==> !is_space(#[trigger] base[j]),
    ensures
        ({
            let b = bracket_range(m)->0;
            let range = byte_range(m, b);
            let out = rewritten(m, range.0, range.1, base, ver);
            let id = base + "+"@ + decimal(ver as nat);
            &&& bracket_range(out) == Some((b.0, b.0 + id.len() as int))
            &&& out.subrange(b.0, b.0 + id.len() as int) == id
            &&& out.take(b.0) == m.take(b.0)
            &&& out.skip(b.0 + id.len() as int) == m.skip(b.1)
        }),
{
    let b = bracket_range(m)->0;
    let id = base + "+"@ + decimal(ver as nat);
    reveal_strlit("+");
    assert forall|j: int| 0 <= j < id.len() implies !is_space(#[trigger] id[j]) by {
        lemma_decimal_is_digits(ver as nat);
        if j < base.len() {
            assert(id[j] == base[j]);
        } else if j > base.len() {
            assert(id[j] == decimal(ver as nat)[j - base.len() - 1]);
        }
    }
    lemma_bracket_replaced(m, id);
    lemma_char_position(m, b.0);
    lemma_char_position(m, b.1);
    law_rewrite_keeps_surroundings(m, b.0, b.1, base, ver);
    let range = byte_range(m, b);
    assert(rewritten(m, range.0, range.1, base, ver) =~= m.take(b.0) + id + m.skip(b.1));
}

/// Another id in the place of the one in a `prefix[id ...]` marker is read back.
proof fn lemma_bracket_replaced(m: Seq<char>, id: Seq<char>)
    requires
        bracket_range(m) is Some,
        (bracket_range(m)->0).0 <= (bracket_range(m)->0).1,
        id.len() > 0,
        forall|j: int| 0 <= j < id.len() ==> !is_space(#[trigger] id[j]),
    ensures
        ({
            let b = bracket_range(m)->0;
            &&& 0 <= b.0 <= b.1 <= m.len()
            &&& bracket_range(m.take(b.0) + id + m.skip(b.1)) == Some((b.0, b.0 + id.len() as int))
        }),
{
    let b = bracket_range(m)->0;
    lemma_find_char(m, '[', 0);
    lemma_rfind_char_props(m, ']');
    let open = find_char(m, '[', 0)->0;
    let close = rfind_char(m, ']')->0;
    let inner = m.subrange(open + 1, close);
    lemma_leading_word_bounds(inner);
    let w = leading_word(inner);
    let out = m.take(b.0) + id + m.skip(b.1);
    lemma_find_char(out, '[', 0);
    assert(out[open] == m[open]);
    assert forall|j: int| 0 <= j < open implies out[j] != '[' by {
        assert(out[j] == m[j]);
    }
    lemma_rfind_char_props(out, ']');
    let end = close + id.len() as int - (b.1 - b.0);
    assert(out[end] == m[close]);
    assert forall|j: int| end < j < out.len() implies out[j] != ']' by {
        assert(out[j] == m[j - end + close]);
    }
    lemma_leading_word_replaced(inner, id);
    assert(out.subrange(open + 1, end) =~= inner.take(w.0) + id + inner.skip(w.1));
}

/// Decimal digits are no whitespace.
proof fn lemma_decimal_is_digits(n: nat)
    ensures
        forall|j: int| 0 <= j < decimal(n).len() ==> !is_space(#[trigger] decimal(n)[j]),
{
    crate::numbers::lemma_decimal_value(n);
}

proof fn lemma_rfind_char_props(s: Seq<char>, c: char)
    ensures
        match rfind_char(s, c) {
            Some(i) => 0 <= i < s.len() && s[i] == c && forall|j: int| i < j < s.len() ==> s[j] != c,
            None => forall|j: int| 0 <= j < s.len() ==> s[j] != c,
        },
    decreases s.len(),
{
    if s.len() > 0 && s.last() != c {
        lemma_rfind_char_props(s.drop_last(), c);
        assert forall|j: int| 0 <= j < s.len() - 1 implies s[j] == s.drop_last()[j] by {}
    }
}

/// The weight that the attribute lines before the title and the first blank
/// line set with `:weight: N`, or 0.
pub open spec fn attribute_weight(ls: Seq<Seq<char>>) -> int
    decreases ls.len(),
{
    if ls.len() == 0 {
        0
    } else {
        let line = trim(ls[0]);
        if line.len() == 0 || line[0] == '=' {
            0
        } else if has_prefix(line, ":weight:"@) && parse_i32(trim(line.skip(8))) is Some {
            parse_i32(trim(line.skip(8)))->0
        } else {
            attribute_weight(ls.drop_first())
        }
    }
}

/// The sort weight of an AsciiDoc document: that of its frontmatter where it
/// is not 0, else that of its `:weight:` attribute.
pub open spec fn adoc_weight(content: Seq<char>) -> int {
    match frontmatter_weight(content) {
        Some(w) => if w != 0 {
            w as int
        } else {
            attribute_weight(lines(content))
        },
        None => attribute_weight(lines(content)),
    }
}

/// The sort weight of a document of the given format.
pub open spec fn doc_weight(fmt: SpecFormat, content: Seq<char>) -> int {
    match fmt {
        SpecFormat::AsciiDoc | SpecFormat::AsciiDocRoles => adoc_weight(content),
        SpecFormat::Sdoc => 0,
        SpecFormat::Markdown | SpecFormat::Typst => match frontmatter_weight(content) {
            Some(w) => w as int,
            None => 0,
        },
    }
}

/// The weight that `:weight: N` sets in the lines before the title.
pub fn attribute_weight_of(content: &str) -> (r: i32)
    ensures
        r == attribute_weight(lines(content@)),
{
    let v = chars_of(content);
    let bounds = line_bounds(&v);
    let ghost all = lines(content@);
    let mut i: usize = 0;
    assert(all.skip(0) =~= all);
    while i < bounds.len()
        invariant
            v@ == content@,
            all == lines(content@),
            cut(v@, bounds@) == all,
            bounds_ok(bounds@, v@.len() as int),
            i <= bounds@.len(),
            attribute_weight(all) == attribute_weight(all.skip(i as int)),
        decreases bounds@.len() - i,
    {
        let (a, b) = bounds[i];
        assert(bounds@[i as int].0 <= bounds@[i as int].1 <= v@.len());
        let ghost rest = all.skip(i as int);
        assert(rest[0] == v@.subrange(a as int, b as int));
        assert(rest.drop_first() =~= all.skip(i + 1));
        let (x, y) = trim_bounds(&v, a, b);
        let ghost line = trim(rest[0]);
        if x == y || v[x] == '=' {
            return 0;
        }
        let l = sub_chars(&v, x, y);
        assert(l@ == line);
        if starts_with_str(&l, ":weight:") {
            proof {
                reveal_strlit(":weight:");
            }
            let (p, q) = trim_bounds(&l, 8, l.len());
            assert(l@.subrange(8, l@.len() as int) =~= line.skip(8));
            let number = sub_chars(&l, p, q);
            match parse_i32_of(&number) {
                Some(w) => {
                    return w;
                },
                None => {},
            }
        }
        i = i + 1;
    }
    0
}

/// Extract the sort weight from frontmatter / `:weight:` document attribute.
pub fn adoc_parse_weight(content: &str) -> (r: i32)
    ensures
        r == adoc_weight(content@),
{
    match marq_frontmatter_weight(content) {
        Some(w) => if w != 0 {
            w
        } else {
            attribute_weight_of(content)
        },
        None => attribute_weight_of(content),
    }
}

/// Extract the sort weight from frontmatter / document metadata.
///
/// Returns `0` when no weight is declared or parsing fails.
pub fn parse_weight(fmt: SpecFormat, content: &str) -> (r: i32)
    ensures
        r == doc_weight(fmt, content@),
{
    match fmt {
        SpecFormat::AsciiDoc => adoc_parse_weight(content),
        SpecFormat::AsciiDocRoles => adoc_parse_weight(content),
        SpecFormat::Sdoc => 0,
        _ => match marq_frontmatter_weight(content) {
            Some(w) => w,
            None => 0,
        },
    }
}

/// Render an inline diff of two spec snippets as markdown.
///
/// Removed runs are wrapped in `~~strikethrough~~`, added runs in `**bold**`.
/// Every format can diff.
pub fn diff_inline(fmt: SpecFormat, old_text: &str, new_text: &str) -> (r: Option<String>)
    ensures
        opt_text(r) == Some(markdown_diff(old_text@, new_text@)),
{
    Some(marq_diff_inline(old_text, new_text))
}

} // verus!
