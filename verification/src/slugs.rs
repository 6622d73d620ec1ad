//! Anchor ids: the requirement-anchor namespace and unique heading slugs.

use vstd::prelude::*;

use crate::numbers::{decimal, decimal_of, lemma_decimal_injective, lemma_decimal_value};
use crate::text::{
    chars_of, concat2, concat3, copy_str, has_prefix, opt_text, str_eq, sub_string, texts,
};

verus! {

/// Prefix for requirement anchor ids in rendered HTML (`id="r--auth.login"`).
pub const REQ_ANCHOR_PREFIX: &'static str = "r--";

/// The anchor id of the requirement `id`.
pub open spec fn anchor_id(id: Seq<char>) -> Seq<char> {
    "r--"@ + id
}

/// `s` lies in the requirement-anchor namespace.
pub open spec fn is_req_anchor(s: Seq<char>) -> bool {
    has_prefix(s, "r--"@)
}

/// The part of a requirement anchor behind the prefix.
pub open spec fn anchored_id(anchor: Seq<char>) -> Option<Seq<char>> {
    if is_req_anchor(anchor) {
        Some(anchor.subrange("r--"@.len() as int, anchor.len() as int))
    } else {
        None
    }
}

/// Build the HTML anchor id for a requirement (`"r--{id}"`).
pub fn req_anchor_id(id: &str) -> (r: String)
    ensures
        r@ == anchor_id(id@),
{
    concat2("r--", id)
}

/// Recover the requirement id from an anchor id, or `None` if `anchor` is not a
/// requirement anchor.
pub fn req_anchor_to_id(anchor: &str) -> (r: Option<String>)
    ensures
        opt_text(r) == anchored_id(anchor@),
{
    let v = chars_of(anchor);
    proof {
        reveal_strlit("r--");
    }
    if v.len() >= 3 && v[0] == 'r' && v[1] == '-' && v[2] == '-' {
        assert(v@.subrange(0, 3) =~= "r--"@);
        Some(sub_string(&v, 3, v.len()))
    } else {
        proof {
            if is_req_anchor(anchor@) {
                assert(anchor@.subrange(0, 3)[0] == 'r');
                assert(anchor@.subrange(0, 3)[1] == '-');
                assert(anchor@.subrange(0, 3)[2] == '-');
            }
        }
        None
    }
}

/// An anchor built for an id gives that id back.
pub proof fn law_anchor_roundtrip(id: Seq<char>)
    ensures
        anchored_id(anchor_id(id)) == Some(id),
{
    let a = anchor_id(id);
    let n = "r--"@.len() as int;
    assert(a.subrange(0, n) =~= "r--"@);
    assert(a.subrange(n, a.len() as int) =~= id);
}

/// Different requirements have different anchors.
pub proof fn law_anchor_injective(a: Seq<char>, b: Seq<char>)
    requires
        anchor_id(a) == anchor_id(b),
    ensures
        a == b,
{
    law_anchor_roundtrip(a);
    law_anchor_roundtrip(b);
}

/// A slug outside the requirement-anchor namespace is no requirement's anchor.
pub proof fn law_slug_is_no_anchor(slug: Seq<char>, id: Seq<char>)
    requires
        !is_req_anchor(slug),
    ensures
        slug != anchor_id(id),
{
    law_anchor_roundtrip(id);
}

/// A base outside the requirement-anchor namespace is kept as it is.
pub proof fn law_other_bases_untouched(base: Seq<char>)
    requires
        !is_req_anchor(base),
    ensures
        normalised(base) == base,
        candidate(normalised(base), 1) == base,
{
}

/// A slug moved out of the requirement-anchor namespace: `r--foo` becomes
/// `h-foo`, a bare `r--` becomes `section`, all else stays.
pub open spec fn normalised(s: Seq<char>) -> Seq<char> {
    match anchored_id(s) {
        Some(rest) => if rest.len() == 0 {
            "section"@
        } else {
            "h-"@ + rest
        },
        None => s,
    }
}

/// The `n`-th slug tried for `base`: the base itself, then `-2`, `-3` and so
/// on, kept out of the requirement-anchor namespace.
pub open spec fn candidate(base: Seq<char>, n: nat) -> Seq<char> {
    if n <= 1 {
        base
    } else {
        normalised(base + "-"@ + decimal(n))
    }
}

/// What an allocator remembers: the next suffix to try per base, and every
/// slug that it handed out.
#[verifier::ext_equal]
pub struct SlugState {
    pub next: Map<Seq<char>, nat>,
    pub emitted: Set<Seq<char>>,
}

/// The next suffix that is tried for `base` (1 = bare, 2 = `-2`, ...).
pub open spec fn next_suffix(s: SlugState, base: Seq<char>) -> nat {
    if s.next.dom().contains(base) {
        s.next[base]
    } else {
        1
    }
}

/// `m` is the first suffix from `n` on whose slug has not been handed out.
pub open spec fn is_first_free(emitted: Set<Seq<char>>, base: Seq<char>, n: nat, m: nat) -> bool {
    &&& n <= m
    &&& !emitted.contains(candidate(base, m))
    &&& forall|k: nat| n <= k < m ==> emitted.contains(#[trigger] candidate(base, k))
}

/// The suffix that the next slug for `base` gets.
pub open spec fn chosen_suffix(s: SlugState, base: Seq<char>) -> nat {
    choose|m: nat| is_first_free(s.emitted, base, next_suffix(s, base), m)
}

/// The next slug for an input.
pub open spec fn allocated_slug(s: SlugState, input: Seq<char>) -> Seq<char> {
    candidate(normalised(input), chosen_suffix(s, normalised(input)))
}

/// The allocator after it handed out the next slug for an input.
pub open spec fn after_allocation(s: SlugState, input: Seq<char>) -> SlugState {
    SlugState {
        next: s.next.insert(normalised(input), chosen_suffix(s, normalised(input)) + 1),
        emitted: s.emitted.insert(allocated_slug(s, input)),
    }
}

/// An allocator that has handed out nothing.
pub open spec fn fresh_slugs() -> SlugState {
    SlugState { next: Map::empty(), emitted: Set::empty() }
}

/// Every suffix below a counter has been handed out, and no slug lies in the
/// requirement-anchor namespace.
pub open spec fn slugs_ok(s: SlugState) -> bool {
    &&& s.emitted.finite()
    &&& forall|b: Seq<char>| #[trigger] next_suffix(s, b) >= 1
    &&& forall|b: Seq<char>, k: nat|
        1 <= k < next_suffix(s, b) ==> s.emitted.contains(#[trigger] candidate(b, k))
    &&& forall|x: Seq<char>| #[trigger] s.emitted.contains(x) ==> !is_req_anchor(x)
}

/// The last entry for each base.
spec fn entries(v: Seq<(String, u128)>) -> Map<Seq<char>, nat>
    decreases v.len(),
{
    if v.len() == 0 {
        Map::empty()
    } else {
        entries(v.drop_last()).insert(v.last().0@, v.last().1 as nat)
    }
}

/// Allocates globally-unique heading slugs across a multi-file spec.
///
/// Each backend slugifies headings independently, so two files (or two format
/// runs) can produce the same slug. Threading a single allocator through the
/// whole render keeps every anchor unique without a post-hoc dedup pass.
pub struct SlugAllocator {
    /// Next suffix to try per base (1 = bare, 2 = `-2`, ...).
    next: Vec<(String, u128)>,
    /// Every slug ever returned. A literal `foo-2` input must not collide with
    /// a suffix already handed out for `foo`, so the suffix probe consults
    /// this rather than just the per-base counter.
    emitted: Vec<String>,
}

impl View for SlugAllocator {
    type V = SlugState;

    closed spec fn view(&self) -> SlugState {
        SlugState { next: entries(self.next@), emitted: texts(self.emitted@).to_set() }
    }
}

impl SlugAllocator {
    /// The allocator keeps what uniqueness rests on.
    pub open spec fn wf(&self) -> bool {
        slugs_ok(self@)
    }

    /// An allocator that has handed out nothing.
    pub fn new() -> (r: Self)
        ensures
            r.wf(),
            r@ == fresh_slugs(),
    {
        let r = SlugAllocator { next: Vec::new(), emitted: Vec::new() };
        assert(texts(r.emitted@) =~= Seq::<Seq<char>>::empty());
        assert(r@ =~= fresh_slugs());
        r
    }

    /// Accepts any string; returns a slug unique among all prior results and
    /// never starting with [`REQ_ANCHOR_PREFIX`].
    ///
    /// Inputs already in the requirement-anchor namespace are rewritten
    /// (`r--foo` to `h-foo`, bare `r--` to `section`) so heading anchors and
    /// requirement anchors stay disjoint regardless of how the caller built
    /// the slug. Other `--` joins (e.g. `auth--login`) pass through untouched.
    /// Repeats are suffixed `-2`, `-3`, ..., skipping any value already
    /// emitted; a suffixed slug that would land in the requirement-anchor
    /// namespace is rewritten like an input.
    pub fn allocate(&mut self, base: &str) -> (r: String)
        requires
            old(self).wf(),
        ensures
            final(self).wf(),
            r@ == allocated_slug(old(self)@, base@),
            final(self)@ == after_allocation(old(self)@, base@),
            !is_req_anchor(r@),
            !old(self)@.emitted.contains(r@),
    {
        let b = normalise(base);
        let ghost g = b@;
        let ghost st = self@;
        let mut n: u128 = self.next_suffix_of(b.as_str());
        let handed_out: usize = self.emitted.len();
        loop
            invariant
                self.emitted@.len() == handed_out,
                self@ == st,
                st == old(self)@,
                slugs_ok(st),
                st.emitted == texts(self.emitted@).to_set(),
                b@ == g,
                g == normalised(base@),
                !is_req_anchor(g),
                next_suffix(st, g) <= n,
                1 <= n <= handed_out + 1,
                forall|k: nat| 1 <= k < n ==> st.emitted.contains(#[trigger] candidate(g, k)),
            decreases handed_out + 1 - n,
        {
            let c = candidate_of(b.as_str(), n);
            if !self.was_emitted(c.as_str()) {
                let r = copy_str(c.as_str());
                proof {
                    lemma_candidate_free(g, n as nat);
                    assert(is_first_free(st.emitted, g, next_suffix(st, g), n as nat));
                    let m = chosen_suffix(st, g);
                    assert(is_first_free(st.emitted, g, next_suffix(st, g), m));
                    if m < n {
                        assert(st.emitted.contains(candidate(g, m)));
                    }
                    assert(m == n);
                    law_allocation_keeps_state(st, base@);
                }
                self.record(b, n + 1, c);
                return r;
            }
            proof {
                assert forall|k: nat| 1 <= k < n + 1 implies st.emitted.contains(
                    #[trigger] candidate(g, k),
                ) by {
                    if k == n {
                        assert(candidate(g, k) == c@);
                    }
                }
                lemma_emitted_bound(st.emitted, g, (n + 1) as nat);
                texts(self.emitted@).lemma_cardinality_of_set();
            }
            n = n + 1;
        }
    }

    fn next_suffix_of(&self, b: &str) -> (n: u128)
        requires
            self.wf(),
        ensures
            n == next_suffix(self@, b@),
            1 <= n <= self.emitted@.len() + 1,
    {
        proof {
            lemma_emitted_bound(self@.emitted, b@, next_suffix(self@, b@));
            texts(self.emitted@).lemma_cardinality_of_set();
        }
        let mut i: usize = self.next.len();
        assert(self.next@.take(i as int) =~= self.next@);
        while i > 0
            invariant
                i <= self.next@.len(),
                self.wf(),
                next_suffix(self@, b@) == next_suffix(
                    SlugState { next: entries(self.next@.take(i as int)), emitted: self@.emitted },
                    b@,
                ),
                next_suffix(self@, b@) <= self.emitted@.len() + 1,
            decreases i,
        {
            assert(self.next@.take(i as int).drop_last() =~= self.next@.take(i - 1));
            if str_eq(self.next[i - 1].0.as_str(), b) {
                return self.next[i - 1].1;
            }
            i = i - 1;
        }
        assert(self.next@.take(0) =~= Seq::<(String, u128)>::empty());
        1
    }

    fn was_emitted(&self, s: &str) -> (r: bool)
        ensures
            r == self@.emitted.contains(s@),
    {
        let ghost all = texts(self.emitted@);
        let mut i: usize = 0;
        while i < self.emitted.len()
            invariant
                i <= self.emitted@.len(),
                all == texts(self.emitted@),
                forall|j: int| 0 <= j < i ==> #[trigger] all[j] != s@,
            decreases self.emitted@.len() - i,
        {
            if str_eq(self.emitted[i].as_str(), s) {
                assert(all[i as int] == s@);
                assert(all.contains(s@));
                return true;
            }
            i = i + 1;
        }
        assert(!all.contains(s@));
        false
    }

    fn record(&mut self, b: String, n: u128, slug: String)
        ensures
            final(self)@ == (SlugState {
                next: old(self)@.next.insert(b@, n as nat),
                emitted: old(self)@.emitted.insert(slug@),
            }),
    {
        let ghost old_emitted = self.emitted@;
        self.emitted.push(slug);
        proof {
            lemma_to_set_push(old_emitted, slug);
        }
        let ghost before = self.next@;
        let mut i: usize = self.next.len();
        while i > 0
            invariant
                i <= self.next@.len(),
                self.next@ == before,
                before == old(self).next@,
                texts(self.emitted@).to_set() == texts(old(self).emitted@).to_set().insert(slug@),
                forall|j: int| i <= j < before.len() ==> (#[trigger] before[j]).0@ != b@,
            decreases i,
        {
            if str_eq(self.next[i - 1].0.as_str(), b.as_str()) {
                self.next.set(i - 1, (b, n));
                proof {
                    lemma_entries_update(before, i - 1, (b, n));
                }
                return;
            }
            i = i - 1;
        }
        self.next.push((b, n));
        proof {
            assert(self.next@.drop_last() =~= before);
        }
    }
}

impl Default for SlugAllocator {
    fn default() -> (r: Self)
        ensures
            r.wf(),
            r@ == fresh_slugs(),
    {
        SlugAllocator::new()
    }
}

fn candidate_of(base: &str, n: u128) -> (r: String)
    requires
        n >= 1,
    ensures
        r@ == candidate(base@, n as nat),
{
    if n == 1 {
        copy_str(base)
    } else {
        let d = decimal_of(n);
        let s = concat3(base, "-", d.as_str());
        normalise(s.as_str())
    }
}

/// Allocating keeps the allocator in order, and yields a slug that was not
/// handed out before and that is no requirement anchor.
pub proof fn law_allocation_keeps_state(s: SlugState, input: Seq<char>)
    requires
        slugs_ok(s),
    ensures
        slugs_ok(after_allocation(s, input)),
        !s.emitted.contains(allocated_slug(s, input)),
        !is_req_anchor(allocated_slug(s, input)),
{
    let b = normalised(input);
    lemma_normalised_is_free(input);
    lemma_free_suffix_exists(s, b);
    let m = chosen_suffix(s, b);
    lemma_candidate_free(b, m);
    let t = after_allocation(s, input);
    assert forall|c: Seq<char>, k: nat| 1 <= k < next_suffix(t, c) implies t.emitted.contains(
        #[trigger] candidate(c, k),
    ) by {
        if c == b {
            if k < next_suffix(s, b) {
                assert(s.emitted.contains(candidate(c, k)));
            } else if k < m {
                assert(s.emitted.contains(candidate(b, k)));
            }
        } else {
            assert(next_suffix(t, c) == next_suffix(s, c));
        }
    }
    assert forall|c: Seq<char>| #[trigger] next_suffix(t, c) >= 1 by {
        if c != b {
            assert(next_suffix(t, c) == next_suffix(s, c));
        }
    }
}

/// The slugs handed out for a run of inputs.
pub open spec fn allocated_run(s: SlugState, inputs: Seq<Seq<char>>) -> (Seq<Seq<char>>, SlugState)
    decreases inputs.len(),
{
    if inputs.len() == 0 {
        (Seq::empty(), s)
    } else {
        let (slugs, t) = allocated_run(s, inputs.drop_last());
        (slugs.push(allocated_slug(t, inputs.last())), after_allocation(t, inputs.last()))
    }
}

/// However often and with whatever inputs an allocator is asked, no two slugs
/// that it hands out are equal, and none is a requirement anchor.
pub proof fn law_slugs_are_unique(s: SlugState, inputs: Seq<Seq<char>>)
    requires
        slugs_ok(s),
    ensures
        ({
            let (slugs, t) = allocated_run(s, inputs);
            &&& slugs_ok(t)
            &&& slugs.len() == inputs.len()
            &&& slugs.no_duplicates()
            &&& forall|i: int|
                0 <= i < slugs.len() ==> !is_req_anchor(#[trigger] slugs[i]) && !s.emitted.contains(
                    slugs[i],
                )
            &&& forall|x: Seq<char>| #[trigger]
                t.emitted.contains(x) <==> s.emitted.contains(x) || slugs.contains(x)
        }),
    decreases inputs.len(),
{
    if inputs.len() > 0 {
        law_slugs_are_unique(s, inputs.drop_last());
        let (before, t) = allocated_run(s, inputs.drop_last());
        law_allocation_keeps_state(t, inputs.last());
        let slug = allocated_slug(t, inputs.last());
        let (slugs, u) = allocated_run(s, inputs);
        assert forall|x: Seq<char>| #[trigger] u.emitted.contains(x) <==> s.emitted.contains(x)
            || slugs.contains(x) by {
            if before.contains(x) {
                let i = choose|i: int| 0 <= i < before.len() && before[i] == x;
                assert(slugs[i] == x);
            }
            if x == slug {
                assert(slugs[slugs.len() - 1] == x);
            }
            if slugs.contains(x) && x != slug {
                let i = choose|i: int| 0 <= i < slugs.len() && slugs[i] == x;
                assert(before[i] == x);
            }
        }
        assert forall|i: int, j: int| 0 <= i < slugs.len() && 0 <= j < slugs.len() && i
            != j implies slugs[i] != slugs[j] by {
            if i < before.len() {
                assert(before.contains(before[i]));
            }
            if j < before.len() {
                assert(before.contains(before[j]));
            }
        }
    }
}

/// Some suffix is free: only finitely many slugs have been handed out.
proof fn lemma_free_suffix_exists(s: SlugState, b: Seq<char>)
    requires
        slugs_ok(s),
    ensures
        is_first_free(s.emitted, b, next_suffix(s, b), chosen_suffix(s, b)),
{
    let n = next_suffix(s, b);
    lemma_first_free_from(s.emitted, b, n, n);
    let m = choose|m: nat| is_first_free(s.emitted, b, n, m);
    assert(is_first_free(s.emitted, b, n, m));
}

proof fn lemma_first_free_from(e: Set<Seq<char>>, b: Seq<char>, n: nat, at: nat)
    requires
        e.finite(),
        1 <= n <= at,
        forall|k: nat| 1 <= k < at ==> e.contains(#[trigger] candidate(b, k)),
    ensures
        exists|m: nat| is_first_free(e, b, n, m),
    decreases e.len() + 2 - at,
{
    lemma_emitted_bound(e, b, at);
    if e.contains(candidate(b, at)) {
        assert forall|k: nat| 1 <= k < at + 1 implies e.contains(#[trigger] candidate(b, k)) by {}
        lemma_first_free_from(e, b, n, at + 1);
    } else {
        assert(is_first_free(e, b, n, at));
    }
}

proof fn lemma_to_set_push(v: Seq<String>, x: String)
    ensures
        texts(v.push(x)).to_set() == texts(v).to_set().insert(x@),
{
    let a = texts(v.push(x));
    let b = texts(v);
    assert(a =~= b.push(x@));
    assert forall|t: Seq<char>| a.contains(t) <==> b.contains(t) || t == x@ by {
        if b.contains(t) {
            let i = choose|i: int| 0 <= i < b.len() && b[i] == t;
            assert(a[i] == t);
        }
        if t == x@ {
            assert(a[b.len() as int] == t);
        }
    }
    assert(a.to_set() =~= b.to_set().insert(x@));
}

/// Moves a slug out of the requirement-anchor namespace.
fn normalise(s: &str) -> (r: String)
    ensures
        r@ == normalised(s@),
        !is_req_anchor(r@),
{
    proof {
        lemma_normalised_is_free(s@);
    }
    match req_anchor_to_id(s) {
        Some(rest) => if rest.as_str().is_empty() {
            copy_str("section")
        } else {
            concat2("h-", rest.as_str())
        },
        None => copy_str(s),
    }
}

proof fn lemma_normalised_is_free(s: Seq<char>)
    ensures
        !is_req_anchor(normalised(s)),
{
    reveal_strlit("r--");
    reveal_strlit("h-");
    reveal_strlit("section");
    let t = normalised(s);
    if is_req_anchor(s) {
        assert(t[0] != 'r');
        if is_req_anchor(t) {
            assert(t.subrange(0, 3)[0] == 'r');
        }
    }
}

proof fn lemma_candidate_free(b: Seq<char>, n: nat)
    requires
        !is_req_anchor(b),
    ensures
        !is_req_anchor(candidate(b, n)),
{
    if n > 1 {
        lemma_normalised_is_free(b + "-"@ + decimal(n));
    }
}

/// Normalising tells two suffixed forms of one base apart.
proof fn lemma_suffixed_normalised(b: Seq<char>, k: nat)
    requires
        k >= 1,
    ensures
        ({
            let s = b + "-"@ + decimal(k);
            &&& is_req_anchor(s) ==> s.len() > 3 && b.len() >= 2 && b[0] == 'r' && normalised(s)
                == "h-"@ + s.subrange(3, s.len() as int)
            &&& is_req_anchor(s) <==> b.len() >= 2 && (b + "-"@).subrange(0, 3) == "r--"@
        }),
{
    reveal_strlit("r--");
    reveal_strlit("-");
    lemma_decimal_value(k);
    let s = b + "-"@ + decimal(k);
    let d = decimal(k);
    assert(s.last() == d.last());
    assert(crate::numbers::is_digit(d[d.len() - 1]));
    if is_req_anchor(s) {
        let t = s.subrange(0, 3);
        assert(t[0] == 'r' && t[1] == '-' && t[2] == '-');
        if b.len() == 0 {
            assert(s[0] == '-');
        } else if b.len() == 1 {
            assert(s[2] == d[0]);
            assert(crate::numbers::is_digit(d[0]));
        } else {
            assert((b + "-"@).subrange(0, 3) =~= t);
            assert(b[0] == s[0]);
        }
        if s.len() == 3 {
            assert(s.last() == t[2]);
        }
    }
    if b.len() >= 2 && (b + "-"@).subrange(0, 3) == "r--"@ {
        assert(s.subrange(0, 3) =~= (b + "-"@).subrange(0, 3));
    }
}

/// Two different suffixes give two different slugs.
proof fn lemma_candidate_injective(b: Seq<char>, j: nat, k: nat)
    requires
        1 <= j < k,
    ensures
        candidate(b, j) != candidate(b, k),
{
    reveal_strlit("h-");
    reveal_strlit("-");
    lemma_suffixed_normalised(b, k);
    let sk = b + "-"@ + decimal(k);
    if j == 1 {
        if is_req_anchor(sk) {
            assert(candidate(b, k)[0] == 'h');
        }
    } else {
        lemma_suffixed_normalised(b, j);
        let sj = b + "-"@ + decimal(j);
        let n = b.len() as int;
        if candidate(b, j) == candidate(b, k) {
            if is_req_anchor(sk) {
                let cj = candidate(b, j);
                assert(cj.subrange(2, cj.len() as int) =~= sj.subrange(3, sj.len() as int));
                assert(cj.subrange(2, cj.len() as int) =~= sk.subrange(3, sk.len() as int));
                assert(sj =~= sj.subrange(0, 3) + sj.subrange(3, sj.len() as int));
                assert(sk =~= sk.subrange(0, 3) + sk.subrange(3, sk.len() as int));
            }
            assert(sj == sk);
            assert(sj.subrange(n + 1, sj.len() as int) =~= decimal(j));
            assert(sk.subrange(n + 1, sk.len() as int) =~= decimal(k));
            lemma_decimal_injective(j, k);
        }
    }
}

/// A counter is at most one more than the number of slugs handed out.
proof fn lemma_emitted_bound(e: Set<Seq<char>>, b: Seq<char>, n: nat)
    requires
        e.finite(),
        n >= 1,
        forall|k: nat| 1 <= k < n ==> e.contains(#[trigger] candidate(b, k)),
    ensures
        n <= e.len() + 1,
    decreases n,
{
    if n > 1 {
        let last = (n - 1) as nat;
        assert(e.contains(candidate(b, last)));
        let f = e.remove(candidate(b, last));
        assert forall|k: nat| 1 <= k < last implies f.contains(#[trigger] candidate(b, k)) by {
            lemma_candidate_injective(b, k, last);
        }
        lemma_emitted_bound(f, b, last);
    }
}

proof fn lemma_entries_update(v: Seq<(String, u128)>, i: int, e: (String, u128))
    requires
        0 <= i < v.len(),
        v[i].0@ == e.0@,
        forall|j: int| i < j < v.len() ==> (#[trigger] v[j]).0@ != e.0@,
    ensures
        entries(v.update(i, e)) == entries(v).insert(e.0@, e.1 as nat),
    decreases v.len(),
{
    let w = v.update(i, e);
    if i == v.len() - 1 {
        assert(w.drop_last() =~= v.drop_last());
        assert(entries(w) =~= entries(v).insert(e.0@, e.1 as nat));
    } else {
        assert(w.drop_last() =~= v.drop_last().update(i, e));
        assert(w.last() == v.last());
        assert(v[v.len() - 1].0@ != e.0@);
        lemma_entries_update(v.drop_last(), i, e);
        assert(entries(w) =~= entries(v).insert(e.0@, e.1 as nat));
    }
}

} // verus!
