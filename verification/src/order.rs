//! Stable sorting by a weight, a text and a number.

use vstd::prelude::*;

use crate::text::chars_of;

verus! {

/// What items are ordered by: the weight first, then the text, then the number.
pub struct SortKey {
    pub weight: i64,
    pub text: String,
    pub number: u32,
}

/// A sort key as mathematical values.
pub struct KeyModel {
    pub weight: int,
    pub text: Seq<char>,
    pub number: int,
}

impl View for SortKey {
    type V = KeyModel;

    open spec fn view(&self) -> KeyModel {
        KeyModel { weight: self.weight as int, text: self.text@, number: self.number as int }
    }
}

pub open spec fn key_models(v: Seq<SortKey>) -> Seq<KeyModel> {
    v.map_values(|k: SortKey| k@)
}

/// `a` comes before `b` or equals it, character by character from position `i`;
/// a text comes before those that extend it.
pub open spec fn text_le(a: Seq<char>, b: Seq<char>, i: int) -> bool
    decreases a.len() - i,
{
    if i < 0 || i >= a.len() {
        true
    } else if i >= b.len() {
        false
    } else if a[i] != b[i] {
        a[i] < b[i]
    } else {
        text_le(a, b, i + 1)
    }
}

/// `a` is ordered before `b`, or the two are equal.
pub open spec fn key_le(a: KeyModel, b: KeyModel) -> bool {
    if a.weight != b.weight {
        a.weight < b.weight
    } else if a.text != b.text {
        text_le(a.text, b.text, 0)
    } else {
        a.number <= b.number
    }
}

/// `order` with the position `k` inserted behind all that come before it or
/// equal it.
pub open spec fn insert_sorted(order: Seq<int>, keys: Seq<KeyModel>, k: int) -> Seq<int>
    decreases order.len(),
{
    if order.len() == 0 || key_le(keys[order.last()], keys[k]) {
        order.push(k)
    } else {
        insert_sorted(order.drop_last(), keys, k).push(order.last())
    }
}

/// The positions of the first `n` keys in sorted order, equal keys in the order
/// in which they stand.
pub open spec fn sorted_order(keys: Seq<KeyModel>, n: int) -> Seq<int>
    decreases n,
{
    if n <= 0 {
        Seq::empty()
    } else {
        insert_sorted(sorted_order(keys, n - 1), keys, n - 1)
    }
}

/// The items in sorted order of their keys.
pub open spec fn in_order<T>(items: Seq<T>, keys: Seq<KeyModel>) -> Seq<T> {
    let order = sorted_order(keys, keys.len() as int);
    Seq::new(order.len(), |i: int| items[order[i]])
}

pub fn text_le_of(a: &str, b: &str) -> (r: bool)
    ensures
        r == text_le(a@, b@, 0),
{
    let x = chars_of(a);
    let y = chars_of(b);
    let mut i: usize = 0;
    while i < x.len()
        invariant
            x@ == a@,
            y@ == b@,
            i <= x@.len(),
            text_le(a@, b@, 0) == text_le(a@, b@, i as int),
        decreases x@.len() - i,
    {
        if i >= y.len() {
            return false;
        }
        if x[i] != y[i] {
            return x[i] < y[i];
        }
        i = i + 1;
    }
    true
}

fn key_le_of(a: &SortKey, b: &SortKey) -> (r: bool)
    ensures
        r == key_le(a@, b@),
{
    if a.weight != b.weight {
        a.weight < b.weight
    } else if !crate::text::str_eq(a.text.as_str(), b.text.as_str()) {
        text_le_of(a.text.as_str(), b.text.as_str())
    } else {
        a.number <= b.number
    }
}

/// The positions that executable code found.
pub open spec fn positions(v: Seq<usize>) -> Seq<int> {
    v.map_values(|i: usize| i as int)
}

/// The positions of the keys in sorted order.
pub fn sort_positions(keys: &Vec<SortKey>) -> (r: Vec<usize>)
    ensures
        positions(r@) == sorted_order(key_models(keys@), keys@.len() as int),
        r@.len() == keys@.len(),
        forall|i: int| 0 <= i < r@.len() ==> #[trigger] r@[i] < keys@.len(),
{
    let ghost ks = key_models(keys@);
    let mut out: Vec<usize> = Vec::new();
    let mut k: usize = 0;
    assert(positions(out@) =~= Seq::<int>::empty());
    while k < keys.len()
        invariant
            k <= keys@.len(),
            ks == key_models(keys@),
            positions(out@) == sorted_order(ks, k as int),
            out@.len() == k,
            forall|i: int| 0 <= i < out@.len() ==> #[trigger] out@[i] < k,
        decreases keys@.len() - k,
    {
        let ghost order = positions(out@);
        let mut p: usize = out.len();
        assert(order.take(p as int) =~= order);
        assert(insert_sorted(order, ks, k as int) + order.skip(p as int) =~= insert_sorted(
            order,
            ks,
            k as int,
        ));
        while p > 0 && !key_le_of(&keys[out[p - 1]], &keys[k])
            invariant
                p <= out@.len(),
                k < keys@.len(),
                ks == key_models(keys@),
                order == positions(out@),
                forall|i: int| 0 <= i < out@.len() ==> #[trigger] out@[i] < k,
                insert_sorted(order, ks, k as int) == insert_sorted(
                    order.take(p as int),
                    ks,
                    k as int,
                ) + order.skip(p as int),
            decreases p,
        {
            proof {
                assert(order.take(p as int).last() == out@[p - 1]);
                assert(order.take(p as int).drop_last() =~= order.take(p - 1));
                assert(order.take(p as int).last() == order[p - 1]);
                assert(insert_sorted(order.take(p - 1), ks, k as int).push(order[p - 1])
                    + order.skip(p as int) =~= insert_sorted(order.take(p - 1), ks, k as int)
                    + order.skip(p - 1));
            }
            p = p - 1;
        }
        proof {
            if p > 0 {
                assert(order.take(p as int).last() == out@[p - 1]);
                assert(ks[out@[p - 1] as int] == keys@[out@[p - 1] as int]@);
            }
            assert(insert_sorted(order.take(p as int), ks, k as int) == order.take(p as int).push(
                k as int,
            ));
        }
        out.insert(p, k);
        assert(positions(out@) =~= order.take(p as int).push(k as int) + order.skip(p as int));
        k = k + 1;
    }
    out
}

pub proof fn lemma_text_le_total(a: Seq<char>, b: Seq<char>, i: int)
    requires
        0 <= i,
    ensures
        text_le(a, b, i) || text_le(b, a, i),
    decreases a.len() - i,
{
    if i < a.len() && i < b.len() && a[i] == b[i] {
        lemma_text_le_total(a, b, i + 1);
    }
}

pub proof fn lemma_text_le_antisymmetric(a: Seq<char>, b: Seq<char>, i: int)
    requires
        0 <= i,
        i <= a.len(),
        i <= b.len(),
        a.take(i) == b.take(i),
        text_le(a, b, i),
        text_le(b, a, i),
    ensures
        a == b,
    decreases a.len() - i,
{
    if i < a.len() && i < b.len() {
        assert(a[i] == b[i]);
        assert(a.take(i + 1) =~= a.take(i).push(a[i]));
        assert(b.take(i + 1) =~= b.take(i).push(b[i]));
        lemma_text_le_antisymmetric(a, b, i + 1);
    } else {
        assert(a.len() == i && b.len() == i);
        assert(a.take(i) =~= a);
        assert(b.take(i) =~= b);
    }
}

pub proof fn lemma_text_le_transitive(a: Seq<char>, b: Seq<char>, c: Seq<char>, i: int)
    requires
        0 <= i,
        text_le(a, b, i),
        text_le(b, c, i),
    ensures
        text_le(a, c, i),
    decreases a.len() - i,
{
    if i < a.len() && i < b.len() && i < c.len() && a[i] == b[i] && b[i] == c[i] {
        lemma_text_le_transitive(a, b, c, i + 1);
    }
}

/// The order is total.
pub proof fn law_order_total(a: KeyModel, b: KeyModel)
    ensures
        key_le(a, b) || key_le(b, a),
{
    lemma_text_le_total(a.text, b.text, 0);
}

/// The order is transitive.
pub proof fn law_order_transitive(a: KeyModel, b: KeyModel, c: KeyModel)
    requires
        key_le(a, b),
        key_le(b, c),
    ensures
        key_le(a, c),
{
    if a.weight == b.weight && b.weight == c.weight {
        if a.text != b.text && b.text != c.text {
            lemma_text_le_transitive(a.text, b.text, c.text, 0);
            if a.text == c.text {
                assert(a.text.take(0) =~= b.text.take(0));
                lemma_text_le_antisymmetric(a.text, b.text, 0);
            }
        }
    }
}

/// Sorted positions are a rearrangement, in order.
pub open spec fn is_sorted_order(order: Seq<int>, keys: Seq<KeyModel>, n: int) -> bool {
    &&& order.len() == n
    &&& order.no_duplicates()
    &&& forall|i: int| 0 <= i < n ==> 0 <= #[trigger] order[i] < n
    &&& forall|i: int, j: int|
        0 <= i < j < n ==> key_le(keys[#[trigger] order[i]], keys[#[trigger] order[j]])
}

proof fn lemma_insert_sorted(order: Seq<int>, keys: Seq<KeyModel>, k: int)
    requires
        order.no_duplicates(),
        forall|i: int| 0 <= i < order.len() ==> 0 <= #[trigger] order[i] < k,
        forall|i: int, j: int|
            0 <= i < j < order.len() ==> key_le(
                keys[#[trigger] order[i]],
                keys[#[trigger] order[j]],
            ),
    ensures
        ({
            let r = insert_sorted(order, keys, k);
            &&& r.len() == order.len() + 1
            &&& r.no_duplicates()
            &&& forall|i: int| 0 <= i < r.len() ==> r[i] == k || order.contains(#[trigger] r[i])
            &&& forall|i: int, j: int|
                0 <= i < j < r.len() ==> key_le(keys[#[trigger] r[i]], keys[#[trigger] r[j]])
        }),
    decreases order.len(),
{
    let r = insert_sorted(order, keys, k);
    if order.len() == 0 {
    } else if key_le(keys[order.last()], keys[k]) {
        assert forall|i: int, j: int| 0 <= i < j < r.len() implies key_le(
            keys[#[trigger] r[i]],
            keys[#[trigger] r[j]],
        ) by {
            if j == order.len() {
                if i < order.len() - 1 {
                    assert(key_le(keys[order[i]], keys[order[order.len() - 1]]));
                    law_order_transitive(keys[order[i]], keys[order.last()], keys[k]);
                }
            } else {
                assert(key_le(keys[order[i]], keys[order[j]]));
            }
        }
        assert forall|i: int| 0 <= i < r.len() implies r[i] == k || order.contains(
            #[trigger] r[i],
        ) by {
            if i < order.len() {
                assert(order[i] == r[i]);
            }
        }
    } else {
        let o = order.drop_last();
        lemma_insert_sorted(o, keys, k);
        let q = insert_sorted(o, keys, k);
        law_order_total(keys[order.last()], keys[k]);
        assert forall|i: int| 0 <= i < r.len() implies r[i] == k || order.contains(
            #[trigger] r[i],
        ) by {
            if i < q.len() {
                if q[i] != k {
                    assert(o.contains(q[i]));
                    let m = choose|m: int| 0 <= m < o.len() && o[m] == q[i];
                    assert(order[m] == r[i]);
                }
            } else {
                assert(order[order.len() - 1] == r[i]);
            }
        }
        assert forall|i: int, j: int| 0 <= i < j < r.len() implies key_le(
            keys[#[trigger] r[i]],
            keys[#[trigger] r[j]],
        ) by {
            if j == q.len() {
                if q[i] != k {
                    assert(o.contains(q[i]));
                    let m = choose|m: int| 0 <= m < o.len() && o[m] == q[i];
                    assert(key_le(keys[order[m]], keys[order[order.len() - 1]]));
                }
            } else {
                assert(key_le(keys[q[i]], keys[q[j]]));
            }
        }
        assert forall|i: int, j: int| 0 <= i < r.len() && 0 <= j < r.len() && i != j implies r[i]
            != r[j] by {
            let (lo, hi) = if i < j {
                (i, j)
            } else {
                (j, i)
            };
            if hi == q.len() {
                if q[lo] != k {
                    assert(o.contains(q[lo]));
                    let m = choose|m: int| 0 <= m < o.len() && o[m] == q[lo];
                    assert(order[m] != order[order.len() - 1]);
                }
            } else {
                assert(q[lo] != q[hi]);
            }
        }
    }
}

/// Sorting gives a rearrangement of all positions in which the keys do not
/// decrease.
pub proof fn law_sorted(keys: Seq<KeyModel>, n: int)
    requires
        0 <= n <= keys.len(),
    ensures
        is_sorted_order(sorted_order(keys, n), keys, n),
    decreases n,
{
    if n > 0 {
        law_sorted(keys, n - 1);
        let o = sorted_order(keys, n - 1);
        lemma_insert_sorted(o, keys, n - 1);
        let r = sorted_order(keys, n);
        assert forall|i: int| 0 <= i < n implies 0 <= #[trigger] r[i] < n by {
            if r[i] != n - 1 {
                assert(o.contains(r[i]));
                let m = choose|m: int| 0 <= m < o.len() && o[m] == r[i];
                assert(0 <= o[m] < n - 1);
            }
        }
    }
}

} // verus!
