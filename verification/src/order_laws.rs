//! What it means that things are put in order.

use vstd::prelude::*;

use crate::order::{
    in_order, insert_sorted, key_le, law_sorted, sorted_order, text_le, KeyModel,
};
use crate::sorted_map::{
    first_values, holds, keys_in_order, last_values, law_keys_in_order, lemma_key_irreflexive,
    lemma_key_transitive, lemma_slot, lemma_values_len, slot, sorted_keys,
};

verus! {

/// The first character in which two texts differ decides their order; a text comes
/// before those that it begins.
pub proof fn law_text_order(a: Seq<char>, b: Seq<char>, k: int)
    requires
        0 <= k <= a.len(),
        k <= b.len(),
        forall|i: int| 0 <= i < k ==> #[trigger] a[i] == b[i],
    ensures
        k == a.len() ==> text_le(a, b, 0),
        k == b.len() && k < a.len() ==> !text_le(a, b, 0),
        k < a.len() && k < b.len() && a[k] < b[k] ==> text_le(a, b, 0) && !text_le(b, a, 0),
{
    lemma_text_order(a, b, k, 0);
}

proof fn lemma_text_order(a: Seq<char>, b: Seq<char>, k: int, from: int)
    requires
        0 <= from <= k <= a.len(),
        k <= b.len(),
        forall|i: int| 0 <= i < k ==> #[trigger] a[i] == b[i],
    ensures
        k == a.len() ==> text_le(a, b, from),
        k == b.len() && k < a.len() ==> !text_le(a, b, from),
        k < a.len() && k < b.len() && a[k] < b[k] ==> text_le(a, b, from) && !text_le(b, a, from),
    decreases k - from,
{
    if from < k {
        lemma_text_order(a, b, k, from + 1);
        assert(a[from] == b[from]);
    }
}

/// The smaller weight comes first; with equal weights the smaller text, and with
/// equal texts the smaller number.
pub proof fn law_key_order(a: KeyModel, b: KeyModel)
    ensures
        a.weight < b.weight ==> key_le(a, b) && !key_le(b, a),
        a.weight == b.weight && a.text != b.text ==> (key_le(a, b) == text_le(a.text, b.text, 0)),
        a.weight == b.weight && a.text == b.text ==> (key_le(a, b) == (a.number <= b.number)),
{
}

/// Putting things in order keeps each of them, once; one with a greater key stands
/// nowhere before one with a smaller, and those with equal keys stay as they
/// stood.
pub proof fn law_put_in_order<T>(items: Seq<T>, keys: Seq<KeyModel>)
    requires
        items.len() == keys.len(),
    ensures
        exists|at: Seq<int>| #[trigger]
            is_arrangement(at, items.len() as int) && in_order(items, keys) == Seq::new(
                items.len(),
                |i: int| items[at[i]],
            ) && forall|i: int, j: int|
                0 <= i < j < items.len() ==> key_le(keys[#[trigger] at[i]], keys[#[trigger] at[j]])
                    && (key_le(keys[at[j]], keys[at[i]]) ==> at[i] < at[j]),
{
    let n = keys.len() as int;
    let at = sorted_order(keys, n);
    law_sorted(keys, n);
    lemma_stable(keys, n);
    assert forall|x: int| 0 <= x < n implies #[trigger] at.contains(x) by {
        crate::spec_diagnostic_laws::lemma_all_positions(keys, n, x);
    }
    assert(is_arrangement(at, n));
    assert(in_order(items, keys) =~= Seq::new(items.len(), |i: int| items[at[i]]));
}

/// Each of the first `n` positions occurs, once.
pub open spec fn is_arrangement(at: Seq<int>, n: int) -> bool {
    &&& at.len() == n
    &&& at.no_duplicates()
    &&& forall|i: int| 0 <= i < n ==> 0 <= #[trigger] at[i] < n
    &&& forall|x: int| 0 <= x < n ==> #[trigger] at.contains(x)
}

proof fn lemma_stable(keys: Seq<KeyModel>, n: int)
    requires
        0 <= n <= keys.len(),
    ensures
        ({
            let o = sorted_order(keys, n);
            forall|i: int, j: int|
                0 <= i < j < o.len() && key_le(keys[#[trigger] o[j]], keys[#[trigger] o[i]])
                    ==> o[i] < o[j]
        }),
    decreases n,
{
    if n > 0 {
        lemma_stable(keys, n - 1);
        law_sorted(keys, n - 1);
        lemma_insert_stable(sorted_order(keys, n - 1), keys, n - 1);
    }
}

proof fn lemma_insert_stable(o: Seq<int>, keys: Seq<KeyModel>, k: int)
    requires
        0 <= k < keys.len(),
        forall|i: int| 0 <= i < o.len() ==> 0 <= #[trigger] o[i] < k,
        forall|i: int, j: int|
            0 <= i < j < o.len() ==> key_le(keys[#[trigger] o[i]], keys[#[trigger] o[j]]),
        forall|i: int, j: int|
            0 <= i < j < o.len() && key_le(keys[#[trigger] o[j]], keys[#[trigger] o[i]]) ==> o[i]
                < o[j],
    ensures
        ({
            let r = insert_sorted(o, keys, k);
            &&& r.len() == o.len() + 1
            &&& forall|i: int| 0 <= i < r.len() ==> #[trigger] r[i] == k || o.contains(r[i])
            &&& forall|i: int, j: int|
                0 <= i < j < r.len() && key_le(keys[#[trigger] r[j]], keys[#[trigger] r[i]])
                    ==> r[i] < r[j]
        }),
    decreases o.len(),
{
    let r = insert_sorted(o, keys, k);
    if o.len() == 0 {
    } else if key_le(keys[o.last()], keys[k]) {
        assert forall|i: int| 0 <= i < r.len() implies #[trigger] r[i] == k || o.contains(r[i]) by {
            if i < o.len() {
                assert(o[i] == r[i]);
            }
        }
        assert forall|i: int, j: int|
            0 <= i < j < r.len() && key_le(keys[#[trigger] r[j]], keys[#[trigger] r[i]]) implies r[i]
            < r[j] by {
            assert(r[i] == o[i]);
            if j < o.len() {
                assert(r[j] == o[j]);
            }
        }
    } else {
        let d = o.drop_last();
        assert forall|i: int| 0 <= i < d.len() implies 0 <= #[trigger] d[i] < k by {
            assert(d[i] == o[i]);
        }
        assert forall|i: int, j: int| 0 <= i < j < d.len() implies key_le(
            keys[#[trigger] d[i]],
            keys[#[trigger] d[j]],
        ) by {
            assert(d[i] == o[i] && d[j] == o[j]);
        }
        assert forall|i: int, j: int|
            0 <= i < j < d.len() && key_le(keys[#[trigger] d[j]], keys[#[trigger] d[i]]) implies d[i]
            < d[j] by {
            assert(d[i] == o[i] && d[j] == o[j]);
        }
        lemma_insert_stable(d, keys, k);
        let q = insert_sorted(d, keys, k);
        assert(r == q.push(o.last()));
        assert forall|i: int| 0 <= i < r.len() implies #[trigger] r[i] == k || o.contains(r[i]) by {
            if i < q.len() {
                assert(r[i] == q[i]);
                if q[i] != k {
                    assert(d.contains(q[i]));
                    let m = choose|m: int| 0 <= m < d.len() && d[m] == q[i];
                    assert(o[m] == r[i]);
                }
            } else {
                assert(o[o.len() - 1] == r[i]);
            }
        }
        assert forall|i: int, j: int|
            0 <= i < j < r.len() && key_le(keys[#[trigger] r[j]], keys[#[trigger] r[i]]) implies r[i]
            < r[j] by {
            assert(r[i] == q[i]);
            if j < q.len() {
                assert(r[j] == q[j]);
            } else {
                assert(r[j] == o[o.len() - 1]);
                if q[i] != k {
                    assert(d.contains(q[i]));
                    let m = choose|m: int| 0 <= m < d.len() && d[m] == q[i];
                    assert(o[m] == r[i]);
                }
            }
        }
    }
}

/// The position `j` is the first that holds the key.
pub open spec fn is_first(keys: Seq<Seq<Seq<char>>>, j: int, k: Seq<Seq<char>>) -> bool {
    &&& 0 <= j < keys.len()
    &&& keys[j] == k
    &&& forall|i: int| 0 <= i < j ==> #[trigger] keys[i] != k
}

/// The position `j` is the last below `n` that holds the key.
pub open spec fn is_last(keys: Seq<Seq<Seq<char>>>, n: int, j: int, k: Seq<Seq<char>>) -> bool {
    &&& 0 <= j < n
    &&& keys[j] == k
    &&& forall|i: int| j < i < n ==> #[trigger] keys[i] != k
}

proof fn lemma_holds(keys: Seq<Seq<Seq<char>>>, k: Seq<Seq<char>>)
    requires
        keys_in_order(keys),
    ensures
        holds(keys, k) == keys.contains(k),
        forall|i: int, j: int| 0 <= i < j < keys.len() ==> #[trigger] keys[i] != #[trigger] keys[j],
{
    lemma_slot(keys, k);
    assert forall|i: int, j: int| 0 <= i < j < keys.len() implies #[trigger] keys[i]
        != #[trigger] keys[j] by {
        assert(key_lt_at(keys, i, j));
        lemma_key_irreflexive(keys[i], 0);
    }
    if keys.contains(k) {
        let i = choose|i: int| 0 <= i < keys.len() && keys[i] == k;
        lemma_key_irreflexive(k, 0);
        let p = slot(keys, k);
        if i < p {
            assert(crate::sorted_map::key_lt(keys[i], k, 0));
        } else if p < i {
            assert(keys[p] == k || crate::sorted_map::key_lt(k, keys[p], 0));
            assert(key_lt_at(keys, p, i));
            if keys[p] != k {
                lemma_key_transitive(k, keys[p], k, 0);
            }
        }
    }
}

spec fn key_lt_at(keys: Seq<Seq<Seq<char>>>, i: int, j: int) -> bool {
    crate::sorted_map::key_lt(keys[i], keys[j], 0)
}

/// A map holds every key that was put in, and no other; each stands once.
pub proof fn law_map_holds_keys(keys: Seq<Seq<Seq<char>>>, n: int)
    requires
        0 <= n <= keys.len(),
    ensures
        sorted_keys(keys, n).no_duplicates(),
        forall|k: Seq<Seq<char>>| #[trigger]
            sorted_keys(keys, n).contains(k) <==> exists|i: int|
                0 <= i < n && #[trigger] keys[i] == k,
    decreases n,
{
    law_keys_in_order(keys, n);
    lemma_holds(sorted_keys(keys, n), Seq::empty());
    if n > 0 {
        law_map_holds_keys(keys, n - 1);
        law_keys_in_order(keys, n - 1);
        let before = sorted_keys(keys, n - 1);
        let after = sorted_keys(keys, n);
        lemma_holds(before, keys[n - 1]);
        lemma_slot(before, keys[n - 1]);
        assert forall|k: Seq<Seq<char>>| #[trigger] after.contains(k) <==> exists|i: int|
            0 <= i < n && #[trigger] keys[i] == k by {
            let p = slot(before, keys[n - 1]);
            if before.contains(k) {
                let x = before.index_of(k);
                if !holds(before, keys[n - 1]) {
                    if x < p {
                        assert(after[x] == k);
                    } else {
                        assert(after[x + 1] == k);
                    }
                }
                let i = choose|i: int| 0 <= i < n - 1 && #[trigger] keys[i] == k;
                assert(keys[i] == k);
            }
            if k == keys[n - 1] && !holds(before, k) {
                assert(after[p] == k);
            }
            if after.contains(k) && k != keys[n - 1] {
                let x = after.index_of(k);
                if !holds(before, keys[n - 1]) {
                    if x < p {
                        assert(before[x] == k);
                    } else {
                        assert(before[x - 1] == k);
                    }
                }
                assert(before.contains(k));
            }
        }
    }
}

/// Of several values for a key the first is kept, at the place of its key.
pub proof fn law_first_value_is_kept<T>(keys: Seq<Seq<Seq<char>>>, values: Seq<T>, n: int)
    requires
        0 <= n <= keys.len(),
        keys.len() == values.len(),
    ensures
        first_values(keys, values, n).len() == sorted_keys(keys, n).len(),
        forall|x: int, j: int|
            0 <= x < sorted_keys(keys, n).len() && j < n && #[trigger] is_first(
                keys,
                j,
                #[trigger] sorted_keys(keys, n)[x],
            ) ==> first_values(keys, values, n)[x] == values[j],
    decreases n,
{
    lemma_values_len(keys, values, n);
    if n > 0 {
        law_first_value_is_kept(keys, values, n - 1);
        lemma_values_len(keys, values, n - 1);
        law_keys_in_order(keys, n - 1);
        law_map_holds_keys(keys, n - 1);
        let before = sorted_keys(keys, n - 1);
        let after = sorted_keys(keys, n);
        let k = keys[n - 1];
        lemma_holds(before, k);
        lemma_slot(before, k);
        let p = slot(before, k);
        assert forall|x: int, j: int|
            0 <= x < after.len() && j < n && #[trigger] is_first(
                keys,
                j,
                #[trigger] after[x],
            ) implies first_values(keys, values, n)[x] == values[j] by {
            if holds(before, k) {
                assert(before[x] == after[x]);
                assert(before.contains(before[x]));
                if j == n - 1 {
                    let i = choose|i: int| 0 <= i < n - 1 && #[trigger] keys[i] == before[x];
                    assert(keys[i] == after[x]);
                }
                assert(is_first(keys, j, before[x]));
            } else if x == p {
                if j < n - 1 {
                    assert(keys[j] == k);
                    assert(before.contains(k));
                }
            } else {
                let y = if x < p {
                    x
                } else {
                    x - 1
                };
                assert(before[y] == after[x]);
                assert(before.contains(before[y]));
                if j == n - 1 {
                    assert(before.contains(k));
                }
                assert(is_first(keys, j, before[y]));
            }
        }
    }
}

/// Of several values for a key the last is kept, at the place of its key.
pub proof fn law_last_value_is_kept<T>(keys: Seq<Seq<Seq<char>>>, values: Seq<T>, n: int)
    requires
        0 <= n <= keys.len(),
        keys.len() == values.len(),
    ensures
        last_values(keys, values, n).len() == sorted_keys(keys, n).len(),
        forall|x: int, j: int|
            0 <= x < sorted_keys(keys, n).len() && #[trigger] is_last(
                keys,
                n,
                j,
                #[trigger] sorted_keys(keys, n)[x],
            ) ==> last_values(keys, values, n)[x] == values[j],
    decreases n,
{
    lemma_values_len(keys, values, n);
    if n > 0 {
        law_last_value_is_kept(keys, values, n - 1);
        lemma_values_len(keys, values, n - 1);
        law_keys_in_order(keys, n - 1);
        law_map_holds_keys(keys, n - 1);
        let before = sorted_keys(keys, n - 1);
        let after = sorted_keys(keys, n);
        let k = keys[n - 1];
        lemma_holds(before, k);
        lemma_slot(before, k);
        let p = slot(before, k);
        assert forall|x: int, j: int|
            0 <= x < after.len() && #[trigger] is_last(
                keys,
                n,
                j,
                #[trigger] after[x],
            ) implies last_values(keys, values, n)[x] == values[j] by {
            if x == p {
                assert(after[x] == k);
                if j < n - 1 {
                    assert(keys[n - 1] != after[x]);
                }
            } else {
                let y = if x < p || holds(before, k) {
                    x
                } else {
                    x - 1
                };
                assert(before[y] == after[x]);
                assert(before.contains(before[y]));
                if j == n - 1 {
                    assert(before[y] == k);
                    assert(before[p] == k);
                }
                assert(is_last(keys, n - 1, j, before[y]));
            }
        }
    }
}

} // verus!
