//! Text as sequences of characters: searching, trimming, splitting, and the
//! UTF-8 byte offsets that source positions are given in.

use vstd::prelude::*;

verus! {

/// `String::push` appends one character.
pub assume_specification[ String::push ](s: &mut String, ch: char)
    ensures
        final(s)@ == old(s)@.push(ch),
;

/// Number of bytes that `c` takes in UTF-8.
pub open spec fn char_width(c: char) -> nat {
    let u = c as u32;
    if u <= 0x7f {
        1
    } else if u <= 0x7ff {
        2
    } else if u <= 0xffff {
        3
    } else {
        4
    }
}

/// Number of bytes that `s` takes in UTF-8.
pub open spec fn byte_len(s: Seq<char>) -> nat
    decreases s.len(),
{
    if s.len() == 0 {
        0
    } else {
        byte_len(s.drop_last()) + char_width(s.last())
    }
}

/// A position found by executable code is the one that the model names.
pub open spec fn same_index(found: Option<usize>, model: Option<int>) -> bool {
    match (found, model) {
        (Some(i), Some(j)) => i as int == j,
        (None, None) => true,
        _ => false,
    }
}

/// The pattern `p` stands in `s` at position `i`.
pub open spec fn occurs_at(s: Seq<char>, p: Seq<char>, i: int) -> bool {
    0 <= i && i + p.len() <= s.len() && s.subrange(i, i + p.len()) == p
}

/// First position at or after `from` where `p` stands in `s`.
pub open spec fn find_from(s: Seq<char>, p: Seq<char>, from: int) -> Option<int>
    decreases s.len() + 1 - from,
{
    if from < 0 || from + p.len() > s.len() {
        None
    } else if occurs_at(s, p, from) {
        Some(from)
    } else {
        find_from(s, p, from + 1)
    }
}

/// Last position at or before `to` where `p` stands in `s`.
pub open spec fn rfind_upto(s: Seq<char>, p: Seq<char>, to: int) -> Option<int>
    decreases to + 1,
{
    if to < 0 {
        None
    } else if occurs_at(s, p, to) {
        Some(to)
    } else {
        rfind_upto(s, p, to - 1)
    }
}

/// First position at or after `from` that holds the character `c`.
pub open spec fn find_char(s: Seq<char>, c: char, from: int) -> Option<int>
    decreases s.len() - from,
{
    if from < 0 || from >= s.len() {
        None
    } else if s[from] == c {
        Some(from)
    } else {
        find_char(s, c, from + 1)
    }
}

/// Last position of the character `c`.
pub open spec fn rfind_char(s: Seq<char>, c: char) -> Option<int>
    decreases s.len(),
{
    if s.len() == 0 {
        None
    } else if s.last() == c {
        Some(s.len() - 1)
    } else {
        rfind_char(s.drop_last(), c)
    }
}

pub open spec fn has_prefix(s: Seq<char>, p: Seq<char>) -> bool {
    occurs_at(s, p, 0)
}

pub open spec fn has_suffix(s: Seq<char>, p: Seq<char>) -> bool {
    occurs_at(s, p, s.len() - p.len())
}

/// `s` without the suffix `p` where it ends in `p`, else `s` itself.
pub open spec fn without_suffix(s: Seq<char>, p: Seq<char>) -> Seq<char> {
    if has_suffix(s, p) {
        s.subrange(0, s.len() - p.len())
    } else {
        s
    }
}

/// The characters with the Unicode property White_Space.
pub open spec fn is_space(c: char) -> bool {
    let u = c as u32;
    ||| 0x09 <= u <= 0x0d
    ||| u == 0x20
    ||| u == 0x85
    ||| u == 0xa0
    ||| u == 0x1680
    ||| 0x2000 <= u <= 0x200a
    ||| u == 0x2028
    ||| u == 0x2029
    ||| u == 0x202f
    ||| u == 0x205f
    ||| u == 0x3000
}

pub open spec fn trim_start(s: Seq<char>) -> Seq<char>
    decreases s.len(),
{
    if s.len() > 0 && is_space(s[0]) {
        trim_start(s.drop_first())
    } else {
        s
    }
}

pub open spec fn trim_end(s: Seq<char>) -> Seq<char>
    decreases s.len(),
{
    if s.len() > 0 && is_space(s.last()) {
        trim_end(s.drop_last())
    } else {
        s
    }
}

pub open spec fn trim(s: Seq<char>) -> Seq<char> {
    trim_end(trim_start(s))
}

/// The texts held by a sequence of strings.
pub open spec fn texts(v: Seq<String>) -> Seq<Seq<char>> {
    v.map_values(|s: String| s@)
}

/// The text held by an optional string.
pub open spec fn opt_text(o: Option<String>) -> Option<Seq<char>> {
    match o {
        Some(s) => Some(s@),
        None => None,
    }
}

pub proof fn lemma_byte_len_add(a: Seq<char>, b: Seq<char>)
    ensures
        byte_len(a + b) == byte_len(a) + byte_len(b),
    decreases b.len(),
{
    if b.len() == 0 {
        assert(a + b =~= a);
    } else {
        assert((a + b).drop_last() =~= a + b.drop_last());
        lemma_byte_len_add(a, b.drop_last());
    }
}

/// A prefix that is longer takes more bytes.
pub proof fn lemma_byte_len_take_mono(s: Seq<char>, i: int, j: int)
    requires
        0 <= i <= j <= s.len(),
    ensures
        byte_len(s.take(i)) + (j - i) <= byte_len(s.take(j)),
        byte_len(s.take(j)) <= byte_len(s),
    decreases s.len() - i,
{
    let mid = s.subrange(i, j);
    assert(s.take(j) =~= s.take(i) + mid);
    lemma_byte_len_add(s.take(i), mid);
    lemma_byte_len_at_least_len(mid);
    let tail = s.subrange(j, s.len() as int);
    assert(s =~= s.take(j) + tail);
    lemma_byte_len_add(s.take(j), tail);
}

pub proof fn lemma_byte_len_at_least_len(s: Seq<char>)
    ensures
        s.len() <= byte_len(s),
    decreases s.len(),
{
    if s.len() > 0 {
        lemma_byte_len_at_least_len(s.drop_last());
    }
}

/// What `find_from` finds, and that nothing stands before it.
pub proof fn lemma_find_from(s: Seq<char>, p: Seq<char>, from: int)
    requires
        0 <= from,
    ensures
        match find_from(s, p, from) {
            Some(i) => from <= i && occurs_at(s, p, i) && forall|j: int|
                from <= j < i ==> !#[trigger] occurs_at(s, p, j),
            None => forall|j: int| from <= j ==> !#[trigger] occurs_at(s, p, j),
        },
    decreases s.len() + 1 - from,
{
    if from + p.len() <= s.len() && !occurs_at(s, p, from) {
        lemma_find_from(s, p, from + 1);
    }
}

/// What `rfind_upto` finds, and that nothing stands after it.
pub proof fn lemma_rfind_upto(s: Seq<char>, p: Seq<char>, to: int)
    ensures
        match rfind_upto(s, p, to) {
            Some(i) => 0 <= i <= to && occurs_at(s, p, i) && forall|j: int|
                i < j <= to ==> !#[trigger] occurs_at(s, p, j),
            None => forall|j: int| j <= to ==> !#[trigger] occurs_at(s, p, j),
        },
    decreases to + 1,
{
    if to >= 0 && !occurs_at(s, p, to) {
        lemma_rfind_upto(s, p, to - 1);
    }
}

pub proof fn lemma_find_char(s: Seq<char>, c: char, from: int)
    requires
        0 <= from,
    ensures
        match find_char(s, c, from) {
            Some(i) => from <= i < s.len() && s[i] == c && forall|j: int|
                from <= j < i ==> s[j] != c,
            None => forall|j: int| from <= j < s.len() ==> s[j] != c,
        },
    decreases s.len() - from,
{
    if from < s.len() && s[from] != c {
        lemma_find_char(s, c, from + 1);
    }
}

/// `str::len` is the number of UTF-8 bytes. std allows no value of more than
/// `isize::MAX` bytes in memory, so a string has at most as many.
#[verifier::external_body]
pub(crate) fn byte_count(s: &str) -> (n: usize)
    ensures
        n == byte_len(s@),
        n <= isize::MAX,
{
    s.len()
}

/// The characters of a string.
pub fn chars_of(s: &str) -> (v: Vec<char>)
    ensures
        v@ == s@,
        s@.len() <= byte_len(s@) <= isize::MAX,
{
    proof {
        lemma_byte_len_at_least_len(s@);
    }
    let n: usize = byte_count(s);
    let mut v: Vec<char> = Vec::new();
    for c in it: s.chars()
        invariant
            it.seq() == s@,
            v@ == s@.take(it.index()),
    {
        v.push(c);
    }
    proof {
        assert(s@.take(s@.len() as int) =~= s@);
    }
    v
}

/// The string made of the characters from `a` up to `b`.
pub fn sub_string(v: &[char], a: usize, b: usize) -> (r: String)
    requires
        a <= b <= v@.len(),
    ensures
        r@ == v@.subrange(a as int, b as int),
{
    let mut r = String::new();
    let mut i: usize = a;
    while i < b
        invariant
            a <= i <= b <= v@.len(),
            r@ == v@.subrange(a as int, i as int),
        decreases b - i,
    {
        r.push(v[i]);
        i = i + 1;
        assert(v@.subrange(a as int, i as int) =~= v@.subrange(a as int, i - 1).push(v@[i - 1]));
    }
    r
}

/// A copy of the characters from `a` up to `b`.
pub fn sub_chars(v: &[char], a: usize, b: usize) -> (r: Vec<char>)
    requires
        a <= b <= v@.len(),
    ensures
        r@ == v@.subrange(a as int, b as int),
{
    let mut r: Vec<char> = Vec::new();
    let mut i: usize = a;
    while i < b
        invariant
            a <= i <= b <= v@.len(),
            r@ == v@.subrange(a as int, i as int),
        decreases b - i,
    {
        r.push(v[i]);
        i = i + 1;
        assert(v@.subrange(a as int, i as int) =~= v@.subrange(a as int, i - 1).push(v@[i - 1]));
    }
    r
}

/// A string with the same text.
pub fn copy_str(s: &str) -> (r: String)
    ensures
        r@ == s@,
{
    s.to_owned()
}

pub fn str_eq(a: &str, b: &str) -> (r: bool)
    ensures
        r == (a@ == b@),
{
    let x = chars_of(a);
    let y = chars_of(b);
    if x.len() != y.len() {
        return false;
    }
    let mut i: usize = 0;
    while i < x.len()
        invariant
            x@ == a@,
            y@ == b@,
            x@.len() == y@.len(),
            i <= x@.len(),
            forall|j: int| 0 <= j < i ==> x@[j] == y@[j],
        decreases x@.len() - i,
    {
        if x[i] != y[i] {
            return false;
        }
        i = i + 1;
    }
    assert(x@ =~= y@);
    true
}

pub fn char_width_of(c: char) -> (w: usize)
    ensures
        w == char_width(c),
{
    let u = c as u32;
    if u <= 0x7f {
        1
    } else if u <= 0x7ff {
        2
    } else if u <= 0xffff {
        3
    } else {
        4
    }
}

/// Whether `p` stands in `s` at position `i`.
pub fn stands_at(s: &[char], p: &[char], i: usize) -> (r: bool)
    ensures
        r == occurs_at(s@, p@, i as int),
{
    if i > s.len() || s.len() - i < p.len() {
        return false;
    }
    let mut k: usize = 0;
    while k < p.len()
        invariant
            i + p@.len() <= s@.len() <= usize::MAX,
            k <= p@.len(),
            forall|j: int| 0 <= j < k ==> s@[i + j] == p@[j],
        decreases p@.len() - k,
    {
        if s[i + k] != p[k] {
            assert(s@.subrange(i as int, i + p@.len())[k as int] != p@[k as int]);
            return false;
        }
        k = k + 1;
    }
    assert(s@.subrange(i as int, i + p@.len()) =~= p@);
    true
}

pub fn find_chars(s: &[char], p: &[char], from: usize) -> (r: Option<usize>)
    ensures
        same_index(r, find_from(s@, p@, from as int)),
{
    let mut i: usize = from;
    while i <= s.len() && p.len() <= s.len() - i
        invariant
            from <= i,
            find_from(s@, p@, from as int) == find_from(s@, p@, i as int),
        decreases s@.len() + 1 - i,
    {
        if stands_at(s, p, i) {
            return Some(i);
        }
        if i == s.len() {
            assert(find_from(s@, p@, i + 1) is None);
            return None;
        }
        i = i + 1;
    }
    None
}

/// First position at or after `from` where the string `p` stands.
pub fn find_str(s: &[char], p: &str, from: usize) -> (r: Option<usize>)
    ensures
        same_index(r, find_from(s@, p@, from as int)),
        r matches Some(i) ==> from <= i && i + p@.len() <= s@.len() && occurs_at(s@, p@, i as int),
{
    let pc = chars_of(p);
    proof {
        lemma_find_from(s@, p@, from as int);
    }
    find_chars(s, &pc, from)
}

/// Last position at or before `to` where the string `p` stands.
pub fn rfind_str(s: &[char], p: &str, to: usize) -> (r: Option<usize>)
    ensures
        same_index(r, rfind_upto(s@, p@, to as int)),
        r matches Some(i) ==> i <= to && i + p@.len() <= s@.len() && occurs_at(s@, p@, i as int),
{
    let pc = chars_of(p);
    proof {
        lemma_rfind_upto(s@, p@, to as int);
    }
    let mut i: usize = to;
    loop
        invariant
            pc@ == p@,
            i <= to,
            rfind_upto(s@, p@, to as int) == rfind_upto(s@, p@, i as int),
            match rfind_upto(s@, p@, to as int) {
                Some(k) => 0 <= k <= to && occurs_at(s@, p@, k),
                None => true,
            },
        decreases i,
    {
        if stands_at(s, &pc, i) {
            return Some(i);
        }
        if i == 0 {
            assert(rfind_upto(s@, p@, -1) is None);
            return None;
        }
        i = i - 1;
    }
}

pub fn find_char_from(s: &[char], c: char, from: usize) -> (r: Option<usize>)
    ensures
        same_index(r, find_char(s@, c, from as int)),
        r matches Some(i) ==> from <= i < s@.len() && s@[i as int] == c,
{
    let mut i: usize = from;
    while i < s.len()
        invariant
            from <= i,
            find_char(s@, c, from as int) == find_char(s@, c, i as int),
        decreases s@.len() - i,
    {
        if s[i] == c {
            return Some(i);
        }
        i = i + 1;
    }
    None
}

pub fn rfind_char_in(s: &[char], c: char) -> (r: Option<usize>)
    ensures
        same_index(r, rfind_char(s@, c)),
        r matches Some(i) ==> i < s@.len() && s@[i as int] == c,
{
    let mut i: usize = s.len();
    assert(s@.take(i as int) =~= s@);
    while i > 0
        invariant
            i <= s@.len(),
            rfind_char(s@, c) == rfind_char(s@.take(i as int), c),
        decreases i,
    {
        assert(s@.take(i as int).drop_last() =~= s@.take(i - 1));
        if s[i - 1] == c {
            return Some(i - 1);
        }
        i = i - 1;
    }
    None
}

pub fn is_space_char(c: char) -> (r: bool)
    ensures
        r == is_space(c),
{
    let u = c as u32;
    (0x09 <= u && u <= 0x0d) || u == 0x20 || u == 0x85 || u == 0xa0 || u == 0x1680 || (0x2000 <= u
        && u <= 0x200a) || u == 0x2028 || u == 0x2029 || u == 0x202f || u == 0x205f || u == 0x3000
}

/// Where the trimmed text of `s[a..b]` begins.
pub fn trim_start_at(s: &[char], a: usize, b: usize) -> (r: usize)
    requires
        a <= b <= s@.len(),
    ensures
        a <= r <= b,
        trim_start(s@.subrange(a as int, b as int)) == s@.subrange(r as int, b as int),
{
    let mut i: usize = a;
    while i < b && is_space_char(s[i])
        invariant
            a <= i <= b <= s@.len(),
            trim_start(s@.subrange(a as int, b as int)) == trim_start(s@.subrange(i as int, b as int)),
        decreases b - i,
    {
        assert(s@.subrange(i as int, b as int).drop_first() =~= s@.subrange(i + 1, b as int));
        i = i + 1;
    }
    i
}

/// Where the text of `s[a..b]` ends once trailing whitespace is dropped.
pub fn trim_end_at(s: &[char], a: usize, b: usize) -> (r: usize)
    requires
        a <= b <= s@.len(),
    ensures
        a <= r <= b,
        trim_end(s@.subrange(a as int, b as int)) == s@.subrange(a as int, r as int),
{
    let mut i: usize = b;
    while a < i && is_space_char(s[i - 1])
        invariant
            a <= i <= b <= s@.len(),
            trim_end(s@.subrange(a as int, b as int)) == trim_end(s@.subrange(a as int, i as int)),
        decreases i,
    {
        assert(s@.subrange(a as int, i as int).drop_last() =~= s@.subrange(a as int, i - 1));
        i = i - 1;
    }
    i
}

/// The bounds of the trimmed text of `s[a..b]`.
pub fn trim_bounds(s: &[char], a: usize, b: usize) -> (r: (usize, usize))
    requires
        a <= b <= s@.len(),
    ensures
        a <= r.0 <= r.1 <= b,
        trim(s@.subrange(a as int, b as int)) == s@.subrange(r.0 as int, r.1 as int),
{
    let i = trim_start_at(s, a, b);
    let j = trim_end_at(s, i, b);
    (i, j)
}

/// `s` without leading and trailing whitespace.
pub fn trimmed(s: &str) -> (r: String)
    ensures
        r@ == trim(s@),
{
    let v = chars_of(s);
    let (i, j) = trim_bounds(&v, 0, v.len());
    assert(v@.subrange(0, v@.len() as int) =~= v@);
    sub_string(&v, i, j)
}

pub fn starts_with_str(s: &[char], p: &str) -> (r: bool)
    ensures
        r == has_prefix(s@, p@),
{
    let pc = chars_of(p);
    stands_at(s, &pc, 0)
}

pub fn ends_with_str(s: &[char], p: &str) -> (r: bool)
    ensures
        r == has_suffix(s@, p@),
{
    let pc = chars_of(p);
    if pc.len() > s.len() {
        return false;
    }
    stands_at(s, &pc, s.len() - pc.len())
}

/// Two texts joined.
pub fn concat2(a: &str, b: &str) -> (r: String)
    ensures
        r@ == a@ + b@,
{
    let mut out = copy_str(a);
    out.append(b);
    out
}

pub fn concat3(a: &str, b: &str, c: &str) -> (r: String)
    ensures
        r@ == a@ + b@ + c@,
{
    let mut out = copy_str(a);
    out.append(b);
    out.append(c);
    out
}

/// Byte offset of the character position `i`.
pub fn byte_offset_of(s: &[char], i: usize) -> (r: usize)
    requires
        i <= s@.len(),
        byte_len(s@) <= usize::MAX,
    ensures
        r == byte_len(s@.take(i as int)),
{
    let mut off: usize = 0;
    let mut k: usize = 0;
    while k < i
        invariant
            k <= i <= s@.len(),
            byte_len(s@) <= usize::MAX,
            off == byte_len(s@.take(k as int)),
        decreases i - k,
    {
        proof {
            assert(s@.take(k + 1).drop_last() =~= s@.take(k as int));
            lemma_byte_len_take_mono(s@, k + 1, s@.len() as int);
        }
        off = off + char_width_of(s[k]);
        k = k + 1;
    }
    off
}

/// The character position whose byte offset is `off`, where one starts or ends there.
pub open spec fn char_position(s: Seq<char>, off: int) -> Option<int>
    decreases s.len(),
{
    if byte_len(s) == off {
        Some(s.len() as int)
    } else if s.len() == 0 {
        None
    } else {
        char_position(s.drop_last(), off)
    }
}

pub proof fn lemma_char_position(s: Seq<char>, i: int)
    requires
        0 <= i <= s.len(),
    ensures
        char_position(s, byte_len(s.take(i)) as int) == Some(i),
    decreases s.len(),
{
    if i == s.len() {
        assert(s.take(i) =~= s);
    } else {
        lemma_byte_len_take_mono(s, i, s.len() as int);
        assert(s.take(s.len() as int) =~= s);
        lemma_char_position(s.drop_last(), i);
        assert(s.drop_last().take(i) =~= s.take(i));
    }
}

pub proof fn lemma_char_position_none(s: Seq<char>, off: int)
    requires
        forall|i: int| 0 <= i <= s.len() ==> byte_len(#[trigger] s.take(i)) != off,
    ensures
        char_position(s, off) is None,
    decreases s.len(),
{
    assert(s.take(s.len() as int) =~= s);
    if s.len() > 0 {
        assert forall|i: int| 0 <= i <= s.drop_last().len() implies byte_len(
            #[trigger] s.drop_last().take(i),
        ) != off by {
            assert(s.drop_last().take(i) =~= s.take(i));
        }
        lemma_char_position_none(s.drop_last(), off);
    }
}

pub proof fn lemma_char_position_some(s: Seq<char>, off: int)
    ensures
        char_position(s, off) matches Some(i) ==> 0 <= i <= s.len() && byte_len(s.take(i)) == off,
    decreases s.len(),
{
    if byte_len(s) == off {
        assert(s.take(s.len() as int) =~= s);
    } else if s.len() > 0 {
        lemma_char_position_some(s.drop_last(), off);
        if let Some(i) = char_position(s.drop_last(), off) {
            assert(s.drop_last().take(i) =~= s.take(i));
        }
    }
}

pub fn char_position_of(s: &[char], off: usize) -> (r: Option<usize>)
    requires
        byte_len(s@) <= usize::MAX,
    ensures
        same_index(r, char_position(s@, off as int)),
        r matches Some(i) ==> i <= s@.len() && byte_len(s@.take(i as int)) == off,
{
    let mut at: usize = 0;
    let mut k: usize = 0;
    while at < off && k < s.len()
        invariant
            k <= s@.len(),
            byte_len(s@) <= usize::MAX,
            at == byte_len(s@.take(k as int)),
            forall|i: int| 0 <= i < k ==> byte_len(#[trigger] s@.take(i)) < off,
        decreases s@.len() - k,
    {
        proof {
            assert(s@.take(k + 1).drop_last() =~= s@.take(k as int));
            lemma_byte_len_take_mono(s@, k + 1, s@.len() as int);
        }
        at = at + char_width_of(s[k]);
        k = k + 1;
    }
    if at == off {
        proof {
            lemma_char_position(s@, k as int);
        }
        Some(k)
    } else {
        proof {
            assert forall|i: int| 0 <= i <= s@.len() implies byte_len(#[trigger] s@.take(i))
                != off by {
                if i >= k {
                    lemma_byte_len_take_mono(s@, k as int, i);
                }
            }
            lemma_char_position_none(s@, off as int);
        }
        None
    }
}

/// The text between two byte offsets, where both fall on character boundaries.
pub open spec fn byte_slice(s: Seq<char>, a: int, b: int) -> Option<Seq<char>> {
    match (char_position(s, a), char_position(s, b)) {
        (Some(i), Some(j)) => if i <= j {
            Some(s.subrange(i, j))
        } else {
            None
        },
        _ => None,
    }
}

/// `str::get` with a range of byte offsets.
pub fn byte_slice_of(s: &[char], a: usize, b: usize) -> (r: Option<String>)
    requires
        byte_len(s@) <= usize::MAX,
    ensures
        opt_text(r) == byte_slice(s@, a as int, b as int),
{
    match (char_position_of(s, a), char_position_of(s, b)) {
        (Some(i), Some(j)) => if i <= j {
            Some(sub_string(s, i, j))
        } else {
            None
        },
        _ => None,
    }
}

} // verus!
