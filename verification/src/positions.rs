//! Lines and columns.

use vstd::prelude::*;

use crate::text::{byte_len, char_position, char_position_of, chars_of};

verus! {

/// A number clamped to what `u32` holds.
pub open spec fn clamped(n: nat) -> u32 {
    if n <= u32::MAX {
        n as u32
    } else {
        u32::MAX
    }
}

/// A 0-indexed column counted from 1.
pub open spec fn one_based(n: u32) -> usize {
    if n < usize::MAX {
        (n + 1) as usize
    } else {
        usize::MAX
    }
}

/// The 0-indexed line and column behind the first `k` characters.
pub open spec fn line_col(c: Seq<char>, k: int) -> (nat, nat)
    decreases k,
{
    if k <= 0 || k > c.len() {
        (0, 0)
    } else {
        let (line, col) = line_col(c, k - 1);
        if c[k - 1] == '\n' {
            (line + 1, 0)
        } else {
            (line, col + 1)
        }
    }
}

/// The position of the character that starts at the byte offset `off`.
pub open spec fn char_start(c: Seq<char>, off: int) -> Option<int> {
    match char_position(c, off) {
        Some(k) => if k < c.len() {
            Some(k)
        } else {
            None
        },
        None => None,
    }
}

pub open spec fn clamped_pair(p: (nat, nat)) -> (u32, u32) {
    (clamped(p.0), clamped(p.1))
}

/// The range of a span: start line and column, end line and column, all
/// 0-indexed. A span that ends where no character starts ends with the text;
/// one that does not start at a character either is empty there.
pub open spec fn span_range(c: Seq<char>, offset: usize, length: usize) -> (u32, u32, u32, u32) {
    let start = char_start(c, offset as int);
    let last = clamped_pair(line_col(c, c.len() as int));
    match char_start(c, offset + length) {
        Some(e) => {
            let s = match start {
                Some(k) => clamped_pair(line_col(c, k)),
                None => (0u32, 0u32),
            };
            let e2 = clamped_pair(line_col(c, e));
            (s.0, s.1, e2.0, e2.1)
        },
        None => {
            let s = match start {
                Some(k) => clamped_pair(line_col(c, k)),
                None => last,
            };
            (s.0, s.1, last.0, last.1)
        },
    }
}

/// The line and column behind the first `k` characters.
pub fn line_col_of(c: &[char], k: usize) -> (r: (u32, u32))
    requires
        k <= c@.len(),
    ensures
        r == clamped_pair(line_col(c@, k as int)),
{
    let mut line: u32 = 0;
    let mut col: u32 = 0;
    let mut i: usize = 0;
    while i < k
        invariant
            i <= k <= c@.len(),
            (line, col) == clamped_pair(line_col(c@, i as int)),
        decreases k - i,
    {
        if c[i] == '\n' {
            line = line.saturating_add(1);
            col = 0;
        } else {
            col = col.saturating_add(1);
        }
        i = i + 1;
    }
    (line, col)
}

fn char_start_of(c: &[char], off: usize) -> (r: Option<usize>)
    requires
        byte_len(c@) <= isize::MAX,
    ensures
        match (r, char_start(c@, off as int)) {
            (Some(a), Some(b)) => a == b && a < c@.len(),
            (None, None) => true,
            _ => false,
        },
{
    match char_position_of(c, off) {
        Some(k) => if k < c.len() {
            Some(k)
        } else {
            None
        },
        None => None,
    }
}

/// The range of a span as start line and column, end line and column.
pub fn span_to_range(content: &str, offset: usize, length: usize) -> (r: (u32, u32, u32, u32))
    ensures
        r == span_range(content@, offset, length),
{
    let c = chars_of(content);
    let start = char_start_of(&c, offset);
    let end = match offset.checked_add(length) {
        Some(e) => char_start_of(&c, e),
        None => {
            proof {
                lemma_no_char_beyond(c@, offset + length);
            }
            None
        },
    };
    match end {
        Some(e) => {
            let s = match start {
                Some(k) => line_col_of(&c, k),
                None => (0, 0),
            };
            let e2 = line_col_of(&c, e);
            (s.0, s.1, e2.0, e2.1)
        },
        None => {
            let last = line_col_of(&c, c.len());
            let s = match start {
                Some(k) => line_col_of(&c, k),
                None => last,
            };
            (s.0, s.1, last.0, last.1)
        },
    }
}

proof fn lemma_no_char_beyond(c: Seq<char>, off: int)
    requires
        off > byte_len(c),
    ensures
        char_position(c, off) is None,
    decreases c.len(),
{
    if c.len() > 0 {
        lemma_no_char_beyond(c.drop_last(), off);
    }
}

/// A span that starts at a character ends no earlier than it starts.
pub proof fn law_range_in_order(c: Seq<char>, a: int, b: int)
    requires
        0 <= a <= b <= c.len(),
    ensures
        line_col(c, a).0 <= line_col(c, b).0,
        line_col(c, a).0 == line_col(c, b).0 ==> line_col(c, a).1 <= line_col(c, b).1,
    decreases b - a,
{
    if a < b {
        law_range_in_order(c, a, b - 1);
    }
}

} // verus!
