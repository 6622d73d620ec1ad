//! What a marker says, by how it is written.

use vstd::prelude::*;

use crate::attributes::{attr_scan, boundary_attr, named_attr, value_end, value_in_segment};
use crate::format::SpecFormat;
use crate::markers::{
    argument_range, argument_scan, attr_prefix, attribute_weight, bracket_prefix, call_prefix,
    doc_weight, id_bounds, marker_at, marker_prefix,
};
use crate::bindings::frontmatter_weight;
use crate::numbers::parse_i32;
use crate::requirement::SourceSpan;
use crate::split::lines;
use crate::text::{
    byte_len, find_char, find_from, has_prefix, is_space, lemma_char_position, lemma_find_char,
    lemma_find_from, occurs_at, trim, trim_start,
};
use crate::text_laws::{is_blank, law_trim};

verus! {

/// The marker of a span is the text that begins at its offset and is as long as it
/// says.
pub proof fn law_marker_of_span(content: Seq<char>, a: int, b: int, span: SourceSpan)
    requires
        0 <= a <= b <= content.len(),
        byte_len(content.take(a)) == span.offset,
        byte_len(content.take(b)) == span.offset + span.length,
        span.offset + span.length <= usize::MAX,
    ensures
        marker_at(content, span) == Some(content.subrange(a, b)),
{
    lemma_char_position(content, a);
    lemma_char_position(content, b);
}

/// The prefix of a `prefix[id]` marker is what stands before the first bracket,
/// trimmed; a marker without a bracket, or with nothing before it, has none.
pub proof fn law_bracket_prefix(
    ws: Seq<char>,
    prefix: Seq<char>,
    behind: Seq<char>,
    rest: Seq<char>,
)
    requires
        is_blank(ws),
        is_blank(behind),
        !prefix.contains('['),
        prefix.len() > 0 ==> !is_space(prefix[0]) && !is_space(prefix.last()),
    ensures
        bracket_prefix(ws + prefix + behind + seq!['['] + rest) == if prefix.len() > 0 {
            Some(prefix)
        } else {
            None
        },
        bracket_prefix(prefix) is None,
{
    let head = ws + prefix + behind;
    let m = head + seq!['['] + rest;
    lemma_find_char(m, '[', 0);
    lemma_find_char(prefix, '[', 0);
    if find_char(prefix, '[', 0) is Some {
        assert(prefix.contains(prefix[find_char(prefix, '[', 0)->0]));
    }
    assert(m[head.len() as int] == '[');
    let i = find_char(m, '[', 0)->0;
    if i < head.len() {
        assert(m[i] == head[i]);
        if i < ws.len() {
            assert(head[i] == ws[i]);
            assert(is_space(ws[i]));
        } else if i < ws.len() + prefix.len() {
            assert(prefix[i - ws.len()] == '[');
        } else {
            assert(head[i] == behind[i - ws.len() - prefix.len()]);
            assert(is_space(behind[i - ws.len() - prefix.len()]));
        }
    }
    assert(m.subrange(0, i) =~= head);
    law_trim(ws, prefix, behind);
}

/// The prefix of a `#name(..)` marker is the name, but `r` for `req`; what does not
/// begin with `#`, or has no name, has none.
pub proof fn law_call_prefix(name: Seq<char>, rest: Seq<char>)
    requires
        !name.contains('('),
    ensures
        call_prefix(seq!['#'] + name + seq!['('] + rest) == if name.len() == 0 {
            None
        } else if name == "req"@ {
            Some("r"@)
        } else {
            Some(name)
        },
        call_prefix(name) is None,
        name.len() > 0 && name[0] != '#' ==> call_prefix(name + seq!['('] + rest) is None,
{
    let m = seq!['#'] + name + seq!['('] + rest;
    let w = name + seq!['('] + rest;
    lemma_find_char(m, '(', 0);
    lemma_find_char(name, '(', 0);
    lemma_find_char(w, '(', 0);
    if find_char(name, '(', 0) is Some {
        assert(name.contains(name[find_char(name, '(', 0)->0]));
    }
    assert(m[name.len() as int + 1] == '(');
    let i = find_char(m, '(', 0)->0;
    if i < name.len() + 1 {
        if i > 0 {
            assert(name[i - 1] == '(');
        }
    }
    assert(i == name.len() + 1);
    assert(m.subrange(1, i) =~= name);
    assert(w[name.len() as int] == '(');
    if name.len() > 0 {
        assert(w[0] == name[0]);
    }
}

/// By format: a spec file in Sdoc has the prefix `r` throughout, one in Markdown
/// what stands before the bracket, one in Typst the name of the call.
pub proof fn law_prefix_by_format(m: Seq<char>)
    ensures
        marker_prefix(SpecFormat::Sdoc, m) == Some("r"@),
        marker_prefix(SpecFormat::Markdown, m) == bracket_prefix(m),
        marker_prefix(SpecFormat::Typst, m) == call_prefix(m),
        m.len() > 0 && m[0] != '[' ==> marker_prefix(SpecFormat::AsciiDoc, m) == bracket_prefix(m),
        marker_prefix(SpecFormat::AsciiDocRoles, m) is Some,
{
    reveal_strlit("[");
    if m.len() > 0 && has_prefix(m, "["@) {
        assert(m.subrange(0, 1)[0] == "["@[0]);
    }
}

/// In a call marker whose first argument is a string, that string is the id.
pub proof fn law_first_argument_is_the_id(m: Seq<char>, open: int, at: int, end: int)
    requires
        0 <= open < at < end < m.len(),
        m[open] == '(',
        forall|i: int| 0 <= i < open ==> #[trigger] m[i] != '(',
        forall|i: int| open < i < at ==> is_space(#[trigger] m[i]),
        m[at] == '"',
        m[end] == '"',
        forall|i: int| at < i < end ==> #[trigger] m[i] != '"',
    ensures
        argument_range(m) == Some((at + 1, end)),
        id_bounds(SpecFormat::Typst, m) == Some((at + 1, end)),
{
    lemma_find_char(m, '(', 0);
    lemma_to_argument(m, open + 1, open + 1, at, end);
}

/// A named argument before it does not count.
pub proof fn law_named_argument_is_no_id(
    m: Seq<char>,
    open: int,
    q1: int,
    q2: int,
    comma: int,
    at: int,
    end: int,
)
    requires
        0 <= open < q1 < q2 < comma < at < end < m.len(),
        m[open] == '(',
        forall|i: int| 0 <= i < open ==> #[trigger] m[i] != '(',
        !is_space(m[open + 1]) && m[open + 1] != '"',
        forall|i: int| open < i < q1 ==> is_plain(#[trigger] m[i]),
        m[q1] == '"',
        forall|i: int| q1 < i < q2 ==> #[trigger] m[i] != '"',
        m[q2] == '"',
        forall|i: int| q2 < i < comma ==> is_plain(#[trigger] m[i]),
        m[comma] == ',',
        forall|i: int| comma < i < at ==> is_space(#[trigger] m[i]),
        m[at] == '"',
        m[end] == '"',
        forall|i: int| at < i < end ==> #[trigger] m[i] != '"',
    ensures
        argument_range(m) == Some((at + 1, end)),
{
    lemma_find_char(m, '(', 0);
    let seg = open + 1;
    lemma_plain_run(m, seg, seg, q1);
    lemma_quoted_run(m, seg, q1 + 1, q2);
    assert(trim_start(m.skip(seg)) == m.skip(seg));
    assert(argument_scan(m, seg, q1, false) == argument_scan(m, seg, q1 + 1, true));
    assert(argument_scan(m, seg, q2, true) == argument_scan(m, seg, q2 + 1, false));
    lemma_plain_run(m, seg, q2 + 1, comma);
    assert(argument_scan(m, seg, comma, false) == argument_scan(m, comma + 1, comma + 1, false));
    lemma_to_argument(m, comma + 1, comma + 1, at, end);
}

/// A character that neither ends an argument nor begins a string.
pub open spec fn is_plain(c: char) -> bool {
    c != '"' && c != ',' && c != ')'
}

proof fn lemma_plain_run(m: Seq<char>, seg: int, pos: int, to: int)
    requires
        0 <= pos <= to <= m.len(),
        forall|i: int| pos <= i < to ==> is_plain(#[trigger] m[i]),
    ensures
        argument_scan(m, seg, pos, false) == argument_scan(m, seg, to, false),
    decreases to - pos,
{
    if pos < to {
        assert(is_plain(m[pos]));
        lemma_plain_run(m, seg, pos + 1, to);
    }
}

proof fn lemma_quoted_run(m: Seq<char>, seg: int, pos: int, to: int)
    requires
        0 <= pos <= to <= m.len(),
        forall|i: int| pos <= i < to ==> #[trigger] m[i] != '"',
    ensures
        argument_scan(m, seg, pos, true) == argument_scan(m, seg, to, true),
    decreases to - pos,
{
    if pos < to {
        assert(m[pos] != '"');
        lemma_quoted_run(m, seg, pos + 1, to);
    }
}

proof fn lemma_to_argument(m: Seq<char>, seg: int, pos: int, at: int, end: int)
    requires
        0 <= seg <= at < end < m.len(),
        pos == seg,
        forall|i: int| seg <= i < at ==> is_space(#[trigger] m[i]),
        m[at] == '"',
        m[end] == '"',
        forall|i: int| at < i < end ==> #[trigger] m[i] != '"',
    ensures
        argument_scan(m, seg, pos, false) == Some((at + 1, end)),
{
    assert forall|i: int| seg <= i < at implies is_plain(#[trigger] m[i]) by {
        assert(is_space(m[i]));
    }
    lemma_plain_run(m, seg, seg, at);
    lemma_quoted_run(m, seg, at + 1, end);
    let blank = m.subrange(seg, at);
    let rest = m.skip(at);
    assert(m.skip(seg) =~= blank + rest);
    lemma_drop_blank(blank, rest);
    assert(trim_start(m.skip(seg)) == rest);
    assert(m.len() - rest.len() == at);
    assert(argument_scan(m, seg, at, false) == argument_scan(m, seg, at + 1, true));
    assert(argument_scan(m, seg, end, true) == Some((at + 1, end)));
}

proof fn lemma_drop_blank(a: Seq<char>, s: Seq<char>)
    requires
        forall|i: int| 0 <= i < a.len() ==> is_space(#[trigger] a[i]),
        s.len() > 0 ==> !is_space(s[0]),
    ensures
        trim_start(a + s) == s,
    decreases a.len(),
{
    if a.len() == 0 {
        assert(a + s =~= s);
    } else {
        assert(is_space(a[0]));
        let d = a.drop_first();
        assert forall|i: int| 0 <= i < d.len() implies is_space(#[trigger] d[i]) by {
            assert(d[i] == a[i + 1]);
        }
        lemma_drop_blank(d, s);
        assert((a + s).drop_first() =~= d + s);
    }
}

/// The id of a `UID:` field is what follows, without whitespace around it.
pub proof fn law_field_is_the_id(a: Seq<char>, id: Seq<char>, b: Seq<char>)
    requires
        is_blank(a),
        is_blank(b),
        id.len() > 0,
        !is_space(id[0]),
        !is_space(id.last()),
    ensures
        id_bounds(SpecFormat::Sdoc, "UID:"@ + a + id + b) == Some(
            (4 + a.len() as int, (4 + a.len() + id.len()) as int),
        ),
{
    reveal_strlit("UID:");
    let m = "UID:"@ + a + id + b;
    assert(m.subrange(0, 4) =~= "UID:"@);
    assert(m.skip(4) =~= a + id + b);
    law_trim(a, id, b);
}

/// Other text has no id in Sdoc.
pub proof fn law_other_text_has_no_field(m: Seq<char>)
    requires
        !has_prefix(m, "UID:"@),
    ensures
        id_bounds(SpecFormat::Sdoc, m) is None,
{
}

/// A quoted attribute that stands first in the first list is found, with
/// whitespace before it allowed.
pub proof fn law_attribute_is_found(m: Seq<char>, key: Seq<char>, open: int, at: int, end: int)
    requires
        0 <= open < at,
        m[open] == '[',
        forall|i: int| 0 <= i < open ==> #[trigger] m[i] != '[',
        forall|i: int| open < i < at ==> is_space(#[trigger] m[i]),
        is_key(key),
        at + key.len() + 1 < end < m.len(),
        m.subrange(at, at + key.len()) == key,
        m[at + key.len()] == '=',
        m[at + key.len() + 1] == '"',
        m[end] == '"',
        forall|i: int| at + key.len() + 1 < i < end ==> #[trigger] m[i] != '"',
        end + 1 == m.len() || m[end + 1] == ',' || m[end + 1] == ']',
    ensures
        named_attr(m, key) == Some((at + key.len() + 2, end)),
{
    lemma_find_char(m, '[', 0);
    lemma_attribute(m, key, open + 1, at, end);
}

/// An attribute behind another one, quoted or not, is found too, whatever stands
/// between the quotes of the other.
pub proof fn law_later_attribute_is_found(
    m: Seq<char>,
    key: Seq<char>,
    open: int,
    q1: int,
    q2: int,
    comma: int,
    at: int,
    end: int,
)
    requires
        0 <= open < q1 < q2 < comma < at,
        m[open] == '[',
        forall|i: int| 0 <= i < open ==> #[trigger] m[i] != '[',
        !is_space(m[open + 1]),
        is_key(key),
        at + key.len() + 1 < end < m.len(),
        forall|i: int| open < i < q1 ==> is_bare(#[trigger] m[i]),
        m[q1] == '"',
        forall|i: int| q1 < i < q2 ==> #[trigger] m[i] != '"',
        m[q2] == '"',
        forall|i: int| q2 < i < comma ==> is_bare(#[trigger] m[i]),
        m[comma] == ',',
        !has_prefix(m.subrange(open + 1, comma), key),
        forall|i: int| comma < i < at ==> is_space(#[trigger] m[i]),
        m.subrange(at, at + key.len()) == key,
        m[at + key.len()] == '=',
        m[at + key.len() + 1] == '"',
        m[end] == '"',
        forall|i: int| at + key.len() + 1 < i < end ==> #[trigger] m[i] != '"',
        end + 1 == m.len() || m[end + 1] == ',' || m[end + 1] == ']',
    ensures
        named_attr(m, key) == Some((at + key.len() + 2, end)),
{
    lemma_find_char(m, '[', 0);
    let seg = open + 1;
    lemma_bare_run(m, key, seg, seg, q1);
    assert(attr_scan(m, key, seg, q1, None) == attr_scan(m, key, seg, q1 + 1, Some('"')));
    lemma_inside_quotes(m, key, seg, q1 + 1, q2);
    assert(attr_scan(m, key, seg, q2, Some('"')) == attr_scan(m, key, seg, q2 + 1, None));
    lemma_bare_run(m, key, seg, q2 + 1, comma);
    let t = m.subrange(seg, comma);
    assert(t[0] == m[seg]);
    assert(trim_start(t) == t);
    assert(value_in_segment(m, seg, comma, key) is None);
    assert(attr_scan(m, key, seg, comma, None) == attr_scan(m, key, comma + 1, comma + 1, None));
    lemma_attribute(m, key, comma + 1, at, end);
}

/// A key that can stand before `=`.
pub open spec fn is_key(key: Seq<char>) -> bool {
    &&& key.len() > 0
    &&& !is_space(key[0])
    &&& forall|i: int| 0 <= i < key.len() ==> is_bare(#[trigger] key[i])
}

/// A character that ends no attribute and begins no quoted text.
pub open spec fn is_bare(c: char) -> bool {
    c != '"' && c != '\'' && c != ',' && c != ']'
}

proof fn lemma_bare_run(m: Seq<char>, key: Seq<char>, seg: int, pos: int, to: int)
    requires
        0 <= pos <= to <= m.len(),
        forall|i: int| pos <= i < to ==> is_bare(#[trigger] m[i]),
    ensures
        attr_scan(m, key, seg, pos, None) == attr_scan(m, key, seg, to, None),
    decreases to - pos,
{
    if pos < to {
        assert(is_bare(m[pos]));
        lemma_bare_run(m, key, seg, pos + 1, to);
    }
}

proof fn lemma_inside_quotes(m: Seq<char>, key: Seq<char>, seg: int, pos: int, to: int)
    requires
        0 <= pos <= to <= m.len(),
        forall|i: int| pos <= i < to ==> #[trigger] m[i] != '"',
    ensures
        attr_scan(m, key, seg, pos, Some('"')) == attr_scan(m, key, seg, to, Some('"')),
    decreases to - pos,
{
    if pos < to {
        assert(m[pos] != '"');
        lemma_inside_quotes(m, key, seg, pos + 1, to);
    }
}

proof fn lemma_attribute(m: Seq<char>, key: Seq<char>, seg: int, at: int, end: int)
    requires
        0 <= seg <= at,
        is_key(key),
        at + key.len() + 1 < end < m.len(),
        forall|i: int| seg <= i < at ==> is_space(#[trigger] m[i]),
        m.subrange(at, at + key.len()) == key,
        m[at + key.len()] == '=',
        m[at + key.len() + 1] == '"',
        m[end] == '"',
        forall|i: int| at + key.len() + 1 < i < end ==> #[trigger] m[i] != '"',
        end + 1 == m.len() || m[end + 1] == ',' || m[end + 1] == ']',
    ensures
        attr_scan(m, key, seg, seg, None) == Some((at + key.len() + 2, end)),
{
    let q = at + key.len() + 1;
    assert forall|i: int| seg <= i < q implies is_bare(#[trigger] m[i]) by {
        if i < at {
            assert(is_space(m[i]));
        } else if i < at + key.len() {
            assert(m.subrange(at, at + key.len())[i - at] == key[i - at]);
            assert(is_bare(key[i - at]));
        }
    }
    lemma_bare_run(m, key, seg, seg, q);
    assert(attr_scan(m, key, seg, q, None) == attr_scan(m, key, seg, q + 1, Some('"')));
    lemma_inside_quotes(m, key, seg, q + 1, end);
    assert(attr_scan(m, key, seg, end, Some('"')) == attr_scan(m, key, seg, end + 1, None));
    let b = end + 1;
    let blank = m.subrange(seg, at);
    let rest = m.subrange(at, b);
    assert(m.subrange(at, at + key.len())[0] == key[0]);
    assert(m.subrange(seg, b) =~= blank + rest);
    lemma_drop_blank(blank, rest);
    assert(rest.subrange(0, key.len() as int) =~= m.subrange(at, at + key.len()));
    let head = m.take(b);
    lemma_find_char(head, '"', q + 1);
    assert(head[end] == '"');
    let found = find_char(head, '"', q + 1)->0;
    assert(head[found] == m[found]);
    assert(found == end);
    assert(value_in_segment(m, seg, b, key) == Some((q + 1, end)));
}

/// Where roles are used, an attribute is found at its first place behind `[`, `,` or
/// a space, or at the very beginning: quoted up to the next quote, else up to the
/// end of the attribute.
pub proof fn law_role_attribute_is_found(m: Seq<char>, key: Seq<char>, at: int, end: int)
    requires
        key.len() > 0,
        occurs_at(m, key, at),
        forall|i: int| 0 <= i < at ==> !#[trigger] occurs_at(m, key, i),
        at == 0 || m[at - 1] == '[' || m[at - 1] == ',' || m[at - 1] == ' ',
        at + key.len() < m.len(),
        m[at + key.len()] == '=',
        at + key.len() < end <= m.len(),
    ensures
        at + key.len() + 1 < end < m.len() && m[at + key.len() + 1] == '"' && m[end] == '"' && (
        forall|i: int| at + key.len() + 1 < i < end ==> #[trigger] m[i] != '"') ==> boundary_attr(
            m,
            key,
            0,
        ) == Some((at + key.len() + 2, end)),
        (at + key.len() + 1 < m.len() ==> m[at + key.len() + 1] != '"') && (forall|i: int|
            at + key.len() < i < end ==> #[trigger] m[i] != ',' && m[i] != ']') && (end == m.len()
            || m[end] == ',' || m[end] == ']') ==> boundary_attr(m, key, 0) == Some(
            (at + key.len() + 1, end),
        ),
{
    lemma_find_from(m, key, 0);
    assert(find_from(m, key, 0) == Some(at));
    lemma_find_char(m, '"', at + key.len() + 2);
    if (forall|i: int| at + key.len() < i < end ==> #[trigger] m[i] != ',' && m[i] != ']') && (end
        == m.len() || m[end] == ',' || m[end] == ']') {
        lemma_value_end(m, at + key.len() + 1, end);
    }
}

proof fn lemma_value_end(m: Seq<char>, from: int, end: int)
    requires
        0 <= from <= end <= m.len(),
        forall|i: int| from <= i < end ==> #[trigger] m[i] != ',' && m[i] != ']',
        end == m.len() || m[end] == ',' || m[end] == ']',
    ensures
        value_end(m, from) == end,
    decreases end - from,
{
    if from < end {
        assert(m[from] != ',' && m[from] != ']');
        lemma_value_end(m, from + 1, end);
    }
}

/// A key that is the end of a longer name, or that no `=` follows, is passed over.
pub proof fn law_longer_name_is_passed_over(m: Seq<char>, key: Seq<char>, at: int)
    requires
        key.len() > 0,
        occurs_at(m, key, at),
        forall|i: int| 0 <= i < at ==> !#[trigger] occurs_at(m, key, i),
        (at > 0 && m[at - 1] != '[' && m[at - 1] != ',' && m[at - 1] != ' ') || at + key.len()
            == m.len() || m[at + key.len()] != '=',
    ensures
        boundary_attr(m, key, 0) == boundary_attr(m, key, at + key.len()),
{
    lemma_find_from(m, key, 0);
    assert(find_from(m, key, 0) == Some(at));
}

/// The prefix that an attribute list names is the prefix of the marker, and `r`
/// where it is empty.
pub proof fn law_named_prefix(m: Seq<char>, open: int, at: int, end: int)
    requires
        0 <= open < at,
        m[open] == '[',
        forall|i: int| 0 <= i < open ==> #[trigger] m[i] != '[',
        forall|i: int| open < i < at ==> is_space(#[trigger] m[i]),
        at + 7 < end < m.len(),
        m.subrange(at, at + 6) == "prefix"@,
        m[at + 6] == '=',
        m[at + 7] == '"',
        m[end] == '"',
        forall|i: int| at + 7 < i < end ==> #[trigger] m[i] != '"',
        end + 1 == m.len() || m[end + 1] == ',' || m[end + 1] == ']',
    ensures
        attr_prefix(m) == if end == at + 8 {
            "r"@
        } else {
            m.subrange(at + 8, end)
        },
{
    reveal_strlit("prefix");
    law_attribute_is_found(m, "prefix"@, open, at, end);
}

/// A line `:weight: N` sets the weight where no blank line, no title and no other
/// such line stands before it.
pub proof fn law_weight_line_counts(ls: Seq<Seq<char>>, k: int)
    requires
        0 <= k < ls.len(),
        forall|i: int| 0 <= i < k ==> is_passed(#[trigger] ls[i]),
        has_prefix(trim(ls[k]), ":weight:"@),
        parse_i32(trim(trim(ls[k]).skip(8))) is Some,
    ensures
        attribute_weight(ls) == parse_i32(trim(trim(ls[k]).skip(8)))->0,
    decreases k,
{
    if k > 0 {
        assert(is_passed(ls[0]));
        let d = ls.drop_first();
        assert(d[k - 1] == ls[k]);
        assert forall|i: int| 0 <= i < k - 1 implies is_passed(#[trigger] d[i]) by {
            assert(d[i] == ls[i + 1]);
        }
        law_weight_line_counts(d, k - 1);
    } else {
        let line = trim(ls[0]);
        reveal_strlit(":weight:");
        assert(line.subrange(0, 8)[0] == ":weight:"@[0]);
        assert(line[0] == ':');
    }
}

/// Without such a line before the first blank line or title, the weight is 0.
pub proof fn law_no_weight_line(ls: Seq<Seq<char>>, k: int)
    requires
        0 <= k <= ls.len(),
        forall|i: int| 0 <= i < k ==> is_passed(#[trigger] ls[i]),
        k < ls.len() ==> trim(ls[k]).len() == 0 || trim(ls[k])[0] == '=',
    ensures
        attribute_weight(ls) == 0,
    decreases k,
{
    if k > 0 {
        assert(is_passed(ls[0]));
        let d = ls.drop_first();
        if k < ls.len() {
            assert(d[k - 1] == ls[k]);
        }
        assert forall|i: int| 0 <= i < k - 1 implies is_passed(#[trigger] d[i]) by {
            assert(d[i] == ls[i + 1]);
        }
        law_no_weight_line(d, k - 1);
    }
}

/// A line that neither ends the attributes of a document nor sets its weight.
pub open spec fn is_passed(line: Seq<char>) -> bool {
    let t = trim(line);
    &&& t.len() > 0
    &&& t[0] != '='
    &&& !(has_prefix(t, ":weight:"@) && parse_i32(trim(t.skip(8))) is Some)
}

/// A weight in the frontmatter counts in all formats but Sdoc; in AsciiDoc the
/// attribute of the document counts where the frontmatter has none, or 0.
pub proof fn law_weight_by_format(content: Seq<char>)
    ensures
        ({
            let front = frontmatter_weight(content);
            let w = if front is Some {
                front->0 as int
            } else {
                0
            };
            &&& doc_weight(SpecFormat::Sdoc, content) == 0
            &&& doc_weight(SpecFormat::Markdown, content) == w
            &&& doc_weight(SpecFormat::Typst, content) == w
            &&& w != 0 ==> doc_weight(SpecFormat::AsciiDoc, content) == w
            &&& w == 0 ==> doc_weight(SpecFormat::AsciiDoc, content) == attribute_weight(
                lines(content),
            )
            &&& doc_weight(SpecFormat::AsciiDocRoles, content) == doc_weight(
                SpecFormat::AsciiDoc,
                content,
            )
        }),
{
}

} // verus!
