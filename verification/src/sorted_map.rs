//! Maps that keep their entries in the order of their keys.
//!
//! A key is a list of texts, ordered part by part. The key of a path lists its
//! components, so that paths are ordered as the directory tree is.

use vstd::prelude::*;

use crate::api::ImplKey;
use crate::order::{
    lemma_text_le_antisymmetric, lemma_text_le_total, lemma_text_le_transitive, text_le, text_le_of,
};
use crate::paths::{components, components_of};
use crate::text::{concat2, copy_str, str_eq, texts};

verus! {

/// The key `a` comes before the key `b`, part by part from part `i`; a key
/// comes before those that extend it.
pub open spec fn key_lt(a: Seq<Seq<char>>, b: Seq<Seq<char>>, i: int) -> bool
    decreases b.len() - i,
{
    if i < 0 || i >= b.len() {
        false
    } else if i >= a.len() {
        true
    } else if a[i] == b[i] {
        key_lt(a, b, i + 1)
    } else {
        text_le(a[i], b[i], 0)
    }
}

/// Where a key belongs: behind the last key that comes before it.
pub open spec fn slot(keys: Seq<Seq<Seq<char>>>, k: Seq<Seq<char>>) -> int
    decreases keys.len(),
{
    if keys.len() == 0 || key_lt(keys.last(), k, 0) {
        keys.len() as int
    } else {
        slot(keys.drop_last(), k)
    }
}

/// The key has an entry.
pub open spec fn holds(keys: Seq<Seq<Seq<char>>>, k: Seq<Seq<char>>) -> bool {
    slot(keys, k) < keys.len() && keys[slot(keys, k)] == k
}

/// The keys after an entry for `k` is put in.
pub open spec fn put_key(keys: Seq<Seq<Seq<char>>>, k: Seq<Seq<char>>) -> Seq<Seq<Seq<char>>> {
    if holds(keys, k) {
        keys
    } else {
        keys.insert(slot(keys, k), k)
    }
}

/// The values after `v` is put in for `k`, in place of an earlier one.
pub open spec fn put_value<T>(
    keys: Seq<Seq<Seq<char>>>,
    values: Seq<T>,
    k: Seq<Seq<char>>,
    v: T,
) -> Seq<T> {
    if holds(keys, k) {
        values.update(slot(keys, k), v)
    } else {
        values.insert(slot(keys, k), v)
    }
}

/// The values after `v` is put in for `k`, unless there is an earlier one.
pub open spec fn put_new_value<T>(
    keys: Seq<Seq<Seq<char>>>,
    values: Seq<T>,
    k: Seq<Seq<char>>,
    v: T,
) -> Seq<T> {
    if holds(keys, k) {
        values
    } else {
        values.insert(slot(keys, k), v)
    }
}

/// The keys of a map.
pub open spec fn key_views(v: Seq<Vec<String>>) -> Seq<Seq<Seq<char>>> {
    v.map_values(|k: Vec<String>| texts(k@))
}

/// Entries in the order of their keys.
pub struct SortedMap<T> {
    pub keys: Vec<Vec<String>>,
    pub values: Vec<T>,
}

fn key_lt_of(a: &Vec<String>, b: &Vec<String>) -> (r: bool)
    ensures
        r == key_lt(texts(a@), texts(b@), 0),
{
    let ghost x = texts(a@);
    let ghost y = texts(b@);
    let mut i: usize = 0;
    while i < b.len()
        invariant
            i <= b@.len(),
            x == texts(a@),
            y == texts(b@),
            key_lt(x, y, 0) == key_lt(x, y, i as int),
        decreases b@.len() - i,
    {
        assert(y[i as int] == b@[i as int]@);
        if i >= a.len() {
            return true;
        }
        assert(x[i as int] == a@[i as int]@);
        if !str_eq(a[i].as_str(), b[i].as_str()) {
            return text_le_of(a[i].as_str(), b[i].as_str());
        }
        i = i + 1;
    }
    false
}

fn same_key(a: &Vec<String>, b: &Vec<String>) -> (r: bool)
    ensures
        r == (texts(a@) == texts(b@)),
{
    let ghost x = texts(a@);
    let ghost y = texts(b@);
    if a.len() != b.len() {
        assert(x.len() != y.len());
        return false;
    }
    let mut i: usize = 0;
    while i < a.len()
        invariant
            i <= a@.len(),
            a@.len() == b@.len(),
            x == texts(a@),
            y == texts(b@),
            forall|j: int| 0 <= j < i ==> x[j] == y[j],
        decreases a@.len() - i,
    {
        if !str_eq(a[i].as_str(), b[i].as_str()) {
            assert(x[i as int] != y[i as int]);
            return false;
        }
        i = i + 1;
    }
    assert(x =~= y);
    true
}

impl<T> SortedMap<T> {
    /// There is one value for each key.
    pub open spec fn wf(&self) -> bool {
        self.keys@.len() == self.values@.len()
    }

    /// An empty map.
    pub fn new() -> (r: SortedMap<T>)
        ensures
            r.wf(),
            key_views(r.keys@) == Seq::<Seq<Seq<char>>>::empty(),
            r.values@ == Seq::<T>::empty(),
    {
        let r = SortedMap { keys: Vec::new(), values: Vec::new() };
        assert(key_views(r.keys@) =~= Seq::<Seq<Seq<char>>>::empty());
        r
    }

    /// Where a key belongs, and whether it has an entry.
    pub fn find(&self, k: &Vec<String>) -> (r: (usize, bool))
        ensures
            r.0 == slot(key_views(self.keys@), texts(k@)),
            r.0 <= self.keys@.len(),
            r.1 == holds(key_views(self.keys@), texts(k@)),
            r.1 ==> r.0 < self.keys@.len(),
    {
        let ghost ks = key_views(self.keys@);
        let mut i: usize = self.keys.len();
        assert(ks.take(i as int) =~= ks);
        while i > 0 && !key_lt_of(&self.keys[i - 1], k)
            invariant
                i <= self.keys@.len(),
                ks == key_views(self.keys@),
                slot(ks, texts(k@)) == slot(ks.take(i as int), texts(k@)),
            decreases i,
        {
            assert(ks.take(i as int).last() == texts(self.keys@[i - 1]@));
            assert(ks.take(i as int).drop_last() =~= ks.take(i - 1));
            i = i - 1;
        }
        proof {
            if i > 0 {
                assert(ks.take(i as int).last() == texts(self.keys@[i - 1]@));
            }
            assert(ks.take(i as int).len() == i);
        }
        if i < self.keys.len() {
            assert(ks[i as int] == texts(self.keys@[i as int]@));
            (i, same_key(&self.keys[i], k))
        } else {
            (i, false)
        }
    }

    /// Put in a value, in place of an earlier one.
    pub fn put(&mut self, k: Vec<String>, v: T)
        requires
            old(self).wf(),
        ensures
            final(self).wf(),
            key_views(final(self).keys@) == put_key(key_views(old(self).keys@), texts(k@)),
            final(self).values@ == put_value(
                key_views(old(self).keys@),
                old(self).values@,
                texts(k@),
                v,
            ),
    {
        let (at, there) = self.find(&k);
        let ghost before = self.keys@;
        if there {
            self.values.set(at, v);
        } else {
            self.keys.insert(at, k);
            self.values.insert(at, v);
            assert(key_views(self.keys@) =~= key_views(before).insert(at as int, texts(k@)));
        }
    }

    /// Put in a value, unless there is an earlier one.
    pub fn put_new(&mut self, k: Vec<String>, v: T)
        requires
            old(self).wf(),
        ensures
            final(self).wf(),
            key_views(final(self).keys@) == put_key(key_views(old(self).keys@), texts(k@)),
            final(self).values@ == put_new_value(
                key_views(old(self).keys@),
                old(self).values@,
                texts(k@),
                v,
            ),
    {
        let (at, there) = self.find(&k);
        let ghost before = self.keys@;
        if !there {
            self.keys.insert(at, k);
            self.values.insert(at, v);
            assert(key_views(self.keys@) =~= key_views(before).insert(at as int, texts(k@)));
        }
    }
}

/// The keys of the first `n` entries, in order, each once.
pub open spec fn sorted_keys(keys: Seq<Seq<Seq<char>>>, n: int) -> Seq<Seq<Seq<char>>>
    decreases n,
{
    if n <= 0 {
        Seq::empty()
    } else {
        put_key(sorted_keys(keys, n - 1), keys[n - 1])
    }
}

/// The values of the first `n` entries, in the order of their keys; of several
/// values for a key the last.
pub open spec fn last_values<T>(keys: Seq<Seq<Seq<char>>>, values: Seq<T>, n: int) -> Seq<T>
    decreases n,
{
    if n <= 0 {
        Seq::empty()
    } else {
        put_value(
            sorted_keys(keys, n - 1),
            last_values(keys, values, n - 1),
            keys[n - 1],
            values[n - 1],
        )
    }
}

/// The values of the first `n` entries, in the order of their keys; of several
/// values for a key the first.
pub open spec fn first_values<T>(keys: Seq<Seq<Seq<char>>>, values: Seq<T>, n: int) -> Seq<T>
    decreases n,
{
    if n <= 0 {
        Seq::empty()
    } else {
        put_new_value(
            sorted_keys(keys, n - 1),
            first_values(keys, values, n - 1),
            keys[n - 1],
            values[n - 1],
        )
    }
}

/// The keys of entries.
pub open spec fn entry_keys<T>(v: Seq<(Vec<String>, T)>) -> Seq<Seq<Seq<char>>> {
    v.map_values(|e: (Vec<String>, T)| texts(e.0@))
}

/// The values of entries.
pub open spec fn entry_values<T>(v: Seq<(Vec<String>, T)>) -> Seq<T> {
    v.map_values(|e: (Vec<String>, T)| e.1)
}

/// The values in the order of their keys; of several values for a key the last.
pub fn last_by_key<T>(entries: Vec<(Vec<String>, T)>) -> (r: Vec<T>)
    ensures
        r@ == last_values(
            entry_keys(entries@),
            entry_values(entries@),
            entries@.len() as int,
        ),
{
    let ghost ks = entry_keys(entries@);
    let ghost vs = entry_values(entries@);
    let mut map: SortedMap<T> = SortedMap::new();
    for e in it: entries
        invariant
            it.seq() == entries@,
            ks == entry_keys(entries@),
            vs == entry_values(entries@),
            map.wf(),
            key_views(map.keys@) == sorted_keys(ks, it.index()),
            map.values@ == last_values(ks, vs, it.index()),
    {
        proof {
            assert(ks[it.index()] == texts(e.0@));
            assert(vs[it.index()] == e.1);
        }
        map.put(e.0, e.1);
    }
    map.values
}

/// The values in the order of their keys; of several values for a key the
/// first.
pub fn first_by_key<T>(entries: Vec<(Vec<String>, T)>) -> (r: Vec<T>)
    ensures
        r@ == first_values(
            entry_keys(entries@),
            entry_values(entries@),
            entries@.len() as int,
        ),
{
    let ghost ks = entry_keys(entries@);
    let ghost vs = entry_values(entries@);
    let mut map: SortedMap<T> = SortedMap::new();
    for e in it: entries
        invariant
            it.seq() == entries@,
            ks == entry_keys(entries@),
            vs == entry_values(entries@),
            map.wf(),
            key_views(map.keys@) == sorted_keys(ks, it.index()),
            map.values@ == first_values(ks, vs, it.index()),
    {
        proof {
            assert(ks[it.index()] == texts(e.0@));
            assert(vs[it.index()] == e.1);
        }
        map.put_new(e.0, e.1);
    }
    map.values
}

pub proof fn lemma_slot_bounds(keys: Seq<Seq<Seq<char>>>, k: Seq<Seq<char>>)
    ensures
        0 <= slot(keys, k) <= keys.len(),
    decreases keys.len(),
{
    if keys.len() > 0 && !key_lt(keys.last(), k, 0) {
        lemma_slot_bounds(keys.drop_last(), k);
    }
}

/// There is one value for each key.
pub proof fn lemma_values_len<T>(keys: Seq<Seq<Seq<char>>>, values: Seq<T>, n: int)
    requires
        0 <= n <= keys.len(),
        keys.len() == values.len(),
    ensures
        last_values(keys, values, n).len() == sorted_keys(keys, n).len(),
        first_values(keys, values, n).len() == sorted_keys(keys, n).len(),
    decreases n,
{
    if n > 0 {
        lemma_values_len(keys, values, n - 1);
        lemma_slot_bounds(sorted_keys(keys, n - 1), keys[n - 1]);
    }
}

/// Seeing each value in another way does not change which are kept.
pub proof fn lemma_values_mapped<A, B>(
    keys: Seq<Seq<Seq<char>>>,
    values: Seq<A>,
    f: spec_fn(A) -> B,
    n: int,
)
    requires
        0 <= n <= keys.len(),
        keys.len() == values.len(),
    ensures
        last_values(keys, values.map_values(f), n) == last_values(keys, values, n).map_values(f),
        first_values(keys, values.map_values(f), n) == first_values(keys, values, n).map_values(f),
    decreases n,
{
    if n > 0 {
        lemma_values_mapped(keys, values, f, n - 1);
        lemma_values_len(keys, values, n - 1);
        let before = sorted_keys(keys, n - 1);
        lemma_slot_bounds(before, keys[n - 1]);
        assert(last_values(keys, values.map_values(f), n) =~= last_values(
            keys,
            values,
            n,
        ).map_values(f));
        assert(first_values(keys, values.map_values(f), n) =~= first_values(
            keys,
            values,
            n,
        ).map_values(f));
    } else {
        assert(Seq::<A>::empty().map_values(f) =~= Seq::<B>::empty());
    }
}

/// The key of a path component: the root comes first, then `.` and `..`, then
/// names.
pub open spec fn component_key(c: Seq<char>) -> Seq<char> {
    if c == "/"@ {
        "0"@
    } else if c == "."@ {
        "1"@
    } else if c == ".."@ {
        "2"@
    } else {
        "3"@ + c
    }
}

/// The key of a path.
pub open spec fn path_key(p: Seq<char>) -> Seq<Seq<char>> {
    components(p).map_values(|c: Seq<char>| component_key(c))
}

/// The key of a path.
pub fn path_key_of(p: &str) -> (r: Vec<String>)
    ensures
        texts(r@) == path_key(p@),
{
    let parts = components_of(p);
    let mut out: Vec<String> = Vec::new();
    let mut i: usize = 0;
    while i < parts.len()
        invariant
            i <= parts@.len(),
            texts(parts@) == components(p@),
            out@.len() == i,
            forall|k: int| 0 <= k < i ==> (#[trigger] out@[k])@ == path_key(p@)[k],
        decreases parts@.len() - i,
    {
        let c = parts[i].as_str();
        assert(texts(parts@)[i as int] == c@);
        let key = if str_eq(c, "/") {
            copy_str("0")
        } else if str_eq(c, ".") {
            copy_str("1")
        } else if str_eq(c, "..") {
            copy_str("2")
        } else {
            concat2("3", c)
        };
        out.push(key);
        i = i + 1;
    }
    assert(texts(parts@).len() == parts@.len());
    assert(texts(out@) =~= path_key(p@));
    out
}

/// The key of an implementation: the spec, then the implementation.
pub open spec fn impl_key(k: (Seq<char>, Seq<char>)) -> Seq<Seq<char>> {
    seq![k.0, k.1]
}

/// The key of an implementation.
pub fn impl_key_of(k: &ImplKey) -> (r: Vec<String>)
    ensures
        texts(r@) == impl_key(k@),
{
    let mut out: Vec<String> = Vec::new();
    out.push(copy_str(k.spec_name.as_str()));
    out.push(copy_str(k.impl_name.as_str()));
    assert(texts(out@) =~= impl_key(k@));
    out
}

/// The keys stand in order, each once.
pub open spec fn keys_in_order(keys: Seq<Seq<Seq<char>>>) -> bool {
    forall|i: int, j: int|
        0 <= i < j < keys.len() ==> key_lt(#[trigger] keys[i], #[trigger] keys[j], 0)
}

proof fn lemma_key_total(a: Seq<Seq<char>>, b: Seq<Seq<char>>, i: int)
    requires
        0 <= i <= a.len(),
        i <= b.len(),
        a.take(i) == b.take(i),
    ensures
        key_lt(a, b, i) || key_lt(b, a, i) || a == b,
    decreases b.len() - i,
{
    if i < a.len() && i < b.len() {
        if a[i] == b[i] {
            assert(a.take(i + 1) =~= a.take(i).push(a[i]));
            assert(b.take(i + 1) =~= b.take(i).push(b[i]));
            lemma_key_total(a, b, i + 1);
        } else {
            lemma_text_le_total(a[i], b[i], 0);
        }
    } else if i == a.len() && i == b.len() {
        assert(a.take(i) =~= a);
        assert(b.take(i) =~= b);
    }
}

pub proof fn lemma_key_transitive(a: Seq<Seq<char>>, b: Seq<Seq<char>>, c: Seq<Seq<char>>, i: int)
    requires
        0 <= i,
        key_lt(a, b, i),
        key_lt(b, c, i),
    ensures
        key_lt(a, c, i),
    decreases c.len() - i,
{
    if i < a.len() && i < b.len() && i < c.len() {
        if a[i] == b[i] && b[i] == c[i] {
            lemma_key_transitive(a, b, c, i + 1);
        } else if a[i] != b[i] && b[i] != c[i] {
            lemma_text_le_transitive(a[i], b[i], c[i], 0);
            if a[i] == c[i] {
                assert(a[i].take(0) =~= b[i].take(0));
                lemma_text_le_antisymmetric(a[i], b[i], 0);
            }
        }
    }
}

pub proof fn lemma_slot(keys: Seq<Seq<Seq<char>>>, k: Seq<Seq<char>>)
    requires
        keys_in_order(keys),
    ensures
        0 <= slot(keys, k) <= keys.len(),
        forall|i: int| 0 <= i < slot(keys, k) ==> key_lt(#[trigger] keys[i], k, 0),
        forall|i: int|
            slot(keys, k) <= i < keys.len() ==> #[trigger] keys[i] == k || key_lt(k, keys[i], 0),
    decreases keys.len(),
{
    if keys.len() > 0 {
        let last = keys.last();
        if key_lt(last, k, 0) {
            assert forall|i: int| 0 <= i < keys.len() implies key_lt(#[trigger] keys[i], k, 0) by {
                if i < keys.len() - 1 {
                    assert(key_lt(keys[i], keys[keys.len() - 1], 0));
                    lemma_key_transitive(keys[i], last, k, 0);
                }
            }
        } else {
            let front = keys.drop_last();
            assert forall|i: int, j: int| 0 <= i < j < front.len() implies key_lt(
                #[trigger] front[i],
                #[trigger] front[j],
                0,
            ) by {
                assert(key_lt(keys[i], keys[j], 0));
            }
            lemma_slot(front, k);
            assert(last.take(0) =~= k.take(0));
            lemma_key_total(last, k, 0);
            let p = slot(keys, k);
            assert forall|i: int| 0 <= i < p implies key_lt(#[trigger] keys[i], k, 0) by {
                assert(front[i] == keys[i]);
            }
            assert forall|i: int| p <= i < keys.len() implies #[trigger] keys[i] == k || key_lt(
                k,
                keys[i],
                0,
            ) by {
                if i < front.len() {
                    assert(front[i] == keys[i]);
                }
            }
        }
    }
}

/// Putting an entry in keeps the keys in order, each once.
pub proof fn law_put_keeps_order(keys: Seq<Seq<Seq<char>>>, k: Seq<Seq<char>>)
    requires
        keys_in_order(keys),
    ensures
        keys_in_order(put_key(keys, k)),
{
    lemma_slot(keys, k);
    if !holds(keys, k) {
        let p = slot(keys, k);
        let after = keys.insert(p, k);
        assert forall|i: int, j: int| 0 <= i < j < after.len() implies key_lt(
            #[trigger] after[i],
            #[trigger] after[j],
            0,
        ) by {
            if j < p {
                assert(key_lt(keys[i], keys[j], 0));
            } else if j == p {
                assert(key_lt(keys[i], k, 0));
            } else if i < p {
                assert(key_lt(keys[i], keys[j - 1], 0));
            } else if i == p {
                assert(keys[j - 1] == k || key_lt(k, keys[j - 1], 0));
                if keys[j - 1] == k {
                    if j - 1 > p {
                        assert(keys[p] == k || key_lt(k, keys[p], 0));
                        assert(key_lt(keys[p], keys[j - 1], 0));
                        lemma_key_transitive(k, keys[p], k, 0);
                        lemma_key_irreflexive(k, 0);
                    }
                }
            } else {
                assert(key_lt(keys[i - 1], keys[j - 1], 0));
            }
        }
    }
}

/// The keys of a map stand in order, each once, whatever was put in.
pub proof fn law_keys_in_order(keys: Seq<Seq<Seq<char>>>, n: int)
    ensures
        keys_in_order(sorted_keys(keys, n)),
    decreases n,
{
    if n > 0 {
        law_keys_in_order(keys, n - 1);
        law_put_keeps_order(sorted_keys(keys, n - 1), keys[n - 1]);
    }
}

pub proof fn lemma_key_irreflexive(k: Seq<Seq<char>>, i: int)
    requires
        0 <= i,
    ensures
        !key_lt(k, k, i),
    decreases k.len() - i,
{
    if i < k.len() {
        lemma_key_irreflexive(k, i + 1);
    }
}

/// What is put in for a key is found there.
pub proof fn law_put_is_found<T>(
    keys: Seq<Seq<Seq<char>>>,
    values: Seq<T>,
    k: Seq<Seq<char>>,
    v: T,
)
    requires
        keys_in_order(keys),
        keys.len() == values.len(),
    ensures
        ({
            let after = put_key(keys, k);
            let found = put_value(keys, values, k, v);
            &&& after.len() == found.len()
            &&& exists|i: int| 0 <= i < after.len() && after[i] == k && #[trigger] found[i] == v
        }),
{
    lemma_slot(keys, k);
    let p = slot(keys, k);
    assert(put_value(keys, values, k, v)[p] == v);
    assert(put_key(keys, k)[p] == k);
}

} // verus!
