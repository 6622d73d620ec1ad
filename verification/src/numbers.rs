//! Decimal numbers in text.

use vstd::prelude::*;

verus! {

/// The decimal digit of `d`.
pub open spec fn digit(d: nat) -> char {
    if d == 0 {
        '0'
    } else if d == 1 {
        '1'
    } else if d == 2 {
        '2'
    } else if d == 3 {
        '3'
    } else if d == 4 {
        '4'
    } else if d == 5 {
        '5'
    } else if d == 6 {
        '6'
    } else if d == 7 {
        '7'
    } else if d == 8 {
        '8'
    } else {
        '9'
    }
}

/// `n` written in decimal, without leading zeros.
pub open spec fn decimal(n: nat) -> Seq<char>
    decreases n,
{
    if n < 10 {
        seq![digit(n)]
    } else {
        decimal(n / 10).push(digit(n % 10))
    }
}

pub open spec fn is_digit(c: char) -> bool {
    '0' <= c && c <= '9'
}

/// `s` is one or more decimal digits.
pub open spec fn is_decimal(s: Seq<char>) -> bool {
    s.len() > 0 && forall|i: int| 0 <= i < s.len() ==> is_digit(#[trigger] s[i])
}

/// The number that a run of digits writes.
pub open spec fn decimal_value(s: Seq<char>) -> nat
    decreases s.len(),
{
    if s.len() == 0 {
        0
    } else {
        decimal_value(s.drop_last()) * 10 + (s.last() as u32 - '0' as u32) as nat
    }
}

/// What `str::parse::<i32>` reads: digits with an optional sign, in range.
pub open spec fn parse_i32(s: Seq<char>) -> Option<int> {
    if s.len() == 0 {
        None
    } else {
        let signed = s[0] == '-' || s[0] == '+';
        let body = if signed {
            s.drop_first()
        } else {
            s
        };
        let value = if s[0] == '-' {
            -(decimal_value(body) as int)
        } else {
            decimal_value(body) as int
        };
        if is_decimal(body) && i32::MIN <= value <= i32::MAX {
            Some(value)
        } else {
            None
        }
    }
}

/// Reading back what was written gives the number.
pub proof fn lemma_decimal_value(n: nat)
    ensures
        is_decimal(decimal(n)),
        decimal_value(decimal(n)) == n,
        n > 0 ==> decimal(n)[0] != '0',
    decreases n,
{
    if n < 10 {
        let s = decimal(n);
        assert(s.drop_last() =~= Seq::<char>::empty());
        assert(decimal_value(s.drop_last()) == 0);
        assert(s.last() as u32 - '0' as u32 == n);
    } else {
        lemma_decimal_value(n / 10);
        let s = decimal(n);
        assert(s.drop_last() =~= decimal(n / 10));
        assert(s.last() as u32 - '0' as u32 == n % 10);
    }
}

/// Two numbers written alike are equal.
pub proof fn lemma_decimal_injective(m: nat, n: nat)
    requires
        decimal(m) == decimal(n),
    ensures
        m == n,
{
    lemma_decimal_value(m);
    lemma_decimal_value(n);
}

proof fn lemma_decimal_value_mono(s: Seq<char>, i: int)
    requires
        0 <= i <= s.len(),
        is_decimal(s),
    ensures
        decimal_value(s.take(i)) <= decimal_value(s),
    decreases s.len(),
{
    if i < s.len() {
        if s.len() > 1 {
            assert(s.drop_last().take(i) =~= s.take(i));
            assert(is_decimal(s.drop_last()));
            lemma_decimal_value_mono(s.drop_last(), i);
        } else {
            assert(s.take(i) =~= Seq::<char>::empty());
        }
    } else {
        assert(s.take(i) =~= s);
    }
}

fn digit_char(d: u128) -> (c: char)
    requires
        d < 10,
    ensures
        c == digit(d as nat),
{
    if d == 0 {
        '0'
    } else if d == 1 {
        '1'
    } else if d == 2 {
        '2'
    } else if d == 3 {
        '3'
    } else if d == 4 {
        '4'
    } else if d == 5 {
        '5'
    } else if d == 6 {
        '6'
    } else if d == 7 {
        '7'
    } else if d == 8 {
        '8'
    } else {
        '9'
    }
}

/// `n` in decimal.
pub fn decimal_of(n: u128) -> (r: String)
    ensures
        r@ == decimal(n as nat),
    decreases n,
{
    if n < 10 {
        let mut r = String::new();
        r.push(digit_char(n));
        assert(r@ =~= decimal(n as nat));
        r
    } else {
        let mut r = decimal_of(n / 10);
        r.push(digit_char(n % 10));
        r
    }
}

/// `n` in decimal.
pub fn decimal_of_usize(n: usize) -> (r: String)
    ensures
        r@ == decimal(n as nat),
{
    decimal_of(n as u128)
}

/// The number that the digits of `v[from..]` write, where it is at most `max`.
pub fn decimal_value_of(v: &[char], from: usize, max: u64) -> (r: Option<u64>)
    requires
        from <= v@.len(),
        max <= 0xffff_ffff_ffff,
    ensures
        ({
            let s = v@.subrange(from as int, v@.len() as int);
            match r {
                Some(n) => is_decimal(s) && decimal_value(s) == n && n <= max,
                None => !is_decimal(s) || decimal_value(s) > max,
            }
        }),
{
    let ghost s = v@.subrange(from as int, v@.len() as int);
    if from == v.len() {
        return None;
    }
    let mut acc: u64 = 0;
    let mut i: usize = from;
    while i < v.len()
        invariant
            from <= i <= v@.len(),
            s == v@.subrange(from as int, v@.len() as int),
            max <= 0xffff_ffff_ffff,
            forall|j: int| 0 <= j < i - from ==> is_digit(#[trigger] s[j]),
            acc == decimal_value(s.take(i - from)),
            acc <= max,
        decreases v@.len() - i,
    {
        let c = v[i];
        assert(c == s[i - from]);
        if !('0' <= c && c <= '9') {
            return None;
        }
        let d: u64 = (c as u32 - '0' as u32) as u64;
        assert(s.take(i + 1 - from).drop_last() =~= s.take(i - from));
        acc = acc * 10 + d;
        i = i + 1;
        if acc > max {
            proof {
                if is_decimal(s) {
                    lemma_decimal_value_mono(s, i - from);
                }
            }
            return None;
        }
    }
    assert(s.take(i - from) =~= s);
    Some(acc)
}

pub fn parse_i32_of(s: &[char]) -> (r: Option<i32>)
    ensures
        match (r, parse_i32(s@)) {
            (Some(a), Some(b)) => a == b,
            (None, None) => true,
            _ => false,
        },
{
    if s.len() == 0 {
        return None;
    }
    let c = s[0];
    if c == '-' {
        assert(s@.subrange(1, s@.len() as int) =~= s@.drop_first());
        match decimal_value_of(s, 1, 0x8000_0000) {
            Some(n) => Some((-(n as i64)) as i32),
            None => None,
        }
    } else if c == '+' {
        assert(s@.subrange(1, s@.len() as int) =~= s@.drop_first());
        match decimal_value_of(s, 1, 0x7fff_ffff) {
            Some(n) => Some(n as i32),
            None => None,
        }
    } else {
        assert(s@.subrange(0, s@.len() as int) =~= s@);
        match decimal_value_of(s, 0, 0x7fff_ffff) {
            Some(n) => Some(n as i32),
            None => None,
        }
    }
}

} // verus!
