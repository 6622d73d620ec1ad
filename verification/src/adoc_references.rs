//! Cross references between the anchors of an AsciiDoc document.
//!
//! In the place of a cross reference stands the text of the anchor that it leads
//! to. Inside such a text the first cross reference is not followed and all
//! others are, so that the text can lead back to itself.

use vstd::prelude::*;

use crate::adoc_tree::{AdocAnchor, AdocInline, InlineKind};
use crate::cycles::{find_cycles, has_edge, is_cycle, is_walk};
use crate::text::{chars_of, find_char, find_char_from, str_eq, sub_string, texts};

verus! {

/// The id that a cross reference leads to: what stands behind the first `#` of
/// its target, or all of it.
pub open spec fn target_id(t: Seq<char>) -> Seq<char> {
    match find_char(t, '#', 0) {
        Some(i) => t.skip(i + 1),
        None => t,
    }
}

fn id_of_target(t: &str) -> (r: String)
    ensures
        r@ == target_id(t@),
{
    let c = chars_of(t);
    match find_char_from(&c, '#', 0) {
        Some(i) => {
            assert(c@.subrange(i + 1, c@.len() as int) =~= t@.skip(i + 1));
            sub_string(&c, i + 1, c.len())
        },
        None => {
            assert(c@.subrange(0, c@.len() as int) =~= t@);
            sub_string(&c, 0, c.len())
        },
    }
}

/// The ids that the cross references in a node lead to, in order.
pub open spec fn node_targets(n: AdocInline) -> Seq<Seq<char>>
    decreases n, 0int,
{
    let inner = targets(n.children@, n.children@.len() as int);
    if n.kind == InlineKind::Xref {
        seq![target_id(n.text@)] + inner
    } else {
        inner
    }
}

/// The ids that the cross references in the first `k` nodes lead to, in order.
pub open spec fn targets(v: Seq<AdocInline>, k: int) -> Seq<Seq<char>>
    decreases v, k,
{
    if k <= 0 || k > v.len() {
        Seq::empty()
    } else {
        targets(v, k - 1) + node_targets(v[k - 1])
    }
}

fn collect_targets(v: &Vec<AdocInline>, out: &mut Vec<String>)
    ensures
        texts(final(out)@) == texts(old(out)@) + targets(v@, v@.len() as int),
    decreases v@,
{
    let ghost start = texts(out@);
    let mut i: usize = 0;
    assert(start + targets(v@, 0) =~= start);
    while i < v.len()
        invariant
            i <= v@.len(),
            texts(out@) == start + targets(v@, i as int),
        decreases v@.len() - i,
    {
        let n = &v[i];
        let ghost before = texts(out@);
        if n.kind == InlineKind::Xref {
            let ghost held = out@;
            let id = id_of_target(n.text.as_str());
            out.push(id);
            assert(texts(out@) =~= texts(held).push(id@));
        }
        proof {
            assert(decreases_to!(v@ => v@[i as int].children@));
        }
        collect_targets(&n.children, out);
        assert(texts(out@) =~= before + node_targets(*n));
        assert(start + targets(v@, i as int) + node_targets(*n) =~= start + targets(v@, i + 1));
        i = i + 1;
    }
}

/// The ids that the text of an anchor leads to.
pub open spec fn anchor_targets(a: AdocAnchor) -> Seq<Seq<char>> {
    match a.reftext {
        Some(t) => targets(t@, t@.len() as int),
        None => targets(a.title@, a.title@.len() as int),
    }
}

/// The text of one anchor has the text of another put into it.
pub open spec fn leads_to(anchors: Seq<AdocAnchor>, u: usize, v: usize) -> bool {
    u < anchors.len() && v < anchors.len() && exists|k: int|
        1 <= k < anchor_targets(anchors[u as int]).len() && #[trigger] anchor_targets(
            anchors[u as int],
        )[k] == anchors[v as int].id@
}

/// A chain of anchors, each with the text of the next put into its own, that
/// ends where it began.
pub open spec fn is_round(anchors: Seq<AdocAnchor>, w: Seq<usize>) -> bool {
    w.len() >= 2 && w[0] == w.last() && forall|i: int|
        0 <= i < w.len() - 1 ==> leads_to(anchors, #[trigger] w[i], w[i + 1])
}

/// No chain of cross references leads back to where it began.
pub open spec fn references_end(anchors: Seq<AdocAnchor>) -> bool {
    forall|w: Seq<usize>| !is_round(anchors, w)
}

/// Where no text of an anchor holds more than one cross reference, all of them
/// come to an end.
pub proof fn law_single_references_end(anchors: Seq<AdocAnchor>)
    requires
        forall|i: int|
            0 <= i < anchors.len() ==> anchor_targets(#[trigger] anchors[i]).len() <= 1,
    ensures
        references_end(anchors),
{
    assert forall|w: Seq<usize>| !is_round(anchors, w) by {
        if is_round(anchors, w) {
            assert(leads_to(anchors, w[0], w[1]));
            assert(anchor_targets(anchors[w[0] as int]).len() <= 1);
        }
    }
}

/// The anchors that the text of an anchor has put into it.
fn edges_of(anchors: &Vec<AdocAnchor>, u: usize) -> (r: Vec<usize>)
    requires
        u < anchors@.len(),
    ensures
        forall|v: usize| #[trigger] r@.contains(v) <==> leads_to(anchors@, u, v),
        forall|i: int| 0 <= i < r@.len() ==> (#[trigger] r@[i]) < anchors@.len(),
{
    let mut ids: Vec<String> = Vec::new();
    assert(texts(ids@) =~= Seq::<Seq<char>>::empty());
    match &anchors[u].reftext {
        Some(t) => collect_targets(t, &mut ids),
        None => collect_targets(&anchors[u].title, &mut ids),
    }
    assert(texts(ids@) =~= anchor_targets(anchors@[u as int]));
    let ghost ts = anchor_targets(anchors@[u as int]);
    let mut out: Vec<usize> = Vec::new();
    let mut v: usize = 0;
    while v < anchors.len()
        invariant
            v <= anchors@.len(),
            u < anchors@.len(),
            texts(ids@) == ts,
            ts == anchor_targets(anchors@[u as int]),
            forall|i: int| 0 <= i < out@.len() ==> (#[trigger] out@[i]) < v,
            forall|x: usize| #[trigger] out@.contains(x) ==> leads_to(anchors@, u, x),
            forall|x: usize| x < v && #[trigger] leads_to(anchors@, u, x) ==> out@.contains(x),
        decreases anchors@.len() - v,
    {
        let mut found = false;
        let mut k: usize = 1;
        while k < ids.len()
            invariant
                1 <= k,
                v < anchors@.len(),
                u < anchors@.len(),
                texts(ids@) == ts,
                ts == anchor_targets(anchors@[u as int]),
                found <==> exists|j: int| 1 <= j < k && j < ts.len() && #[trigger] ts[j]
                    == anchors@[v as int].id@,
            decreases ids@.len() - k,
        {
            assert(ts[k as int] == ids@[k as int]@);
            if str_eq(ids[k].as_str(), anchors[v].id.as_str()) {
                found = true;
            }
            k = k + 1;
        }
        assert(ts.len() == ids@.len());
        assert(found <==> leads_to(anchors@, u, v));
        let ghost before = out@;
        if found {
            out.push(v);
            assert(out@[out@.len() - 1] == v);
            assert forall|x: usize| before.contains(x) implies out@.contains(x) by {
                let i = before.index_of(x);
                assert(out@[i] == x);
            }
        }
        assert forall|x: usize| #[trigger] out@.contains(x) implies leads_to(anchors@, u, x) by {
            let i = out@.index_of(x);
            if i < before.len() {
                assert(before[i] == x);
                assert(before.contains(x));
            }
        }
        v = v + 1;
    }
    assert forall|x: usize| #[trigger] out@.contains(x) <==> leads_to(anchors@, u, x) by {}
    out
}

/// Check whether cross references come to an end.
pub fn check_references(anchors: &Vec<AdocAnchor>) -> (r: bool)
    ensures
        r == references_end(anchors@),
{
    let mut graph: Vec<Vec<usize>> = Vec::new();
    let mut u: usize = 0;
    while u < anchors.len()
        invariant
            u <= anchors@.len(),
            graph@.len() == u,
            forall|x: int, k: int|
                0 <= x < u && 0 <= k < graph@[x]@.len() ==> (#[trigger] graph@[x]@[k])
                    < anchors@.len(),
            forall|x: usize, y: usize|
                x < u ==> (#[trigger] has_edge(graph@, x, y) <==> leads_to(anchors@, x, y)),
        decreases anchors@.len() - u,
    {
        let edges = edges_of(anchors, u);
        let ghost before = graph@;
        graph.push(edges);
        assert forall|x: usize, y: usize| x < u + 1 implies (#[trigger] has_edge(graph@, x, y)
            <==> leads_to(anchors@, x, y)) by {
            if x < u {
                assert(graph@[x as int] == before[x as int]);
                assert(has_edge(before, x, y) == has_edge(graph@, x, y));
            } else {
                assert(graph@[x as int] == edges);
            }
        }
        u = u + 1;
    }
    let rounds = find_cycles(&graph);
    proof {
        lemma_same_cycles(anchors@, graph@);
    }
    rounds.len() == 0
}

/// Chains of anchors that end where they began are cycles of their graph.
proof fn lemma_same_cycles(anchors: Seq<AdocAnchor>, g: Seq<Vec<usize>>)
    requires
        g.len() == anchors.len(),
        forall|x: usize, y: usize|
            x < g.len() ==> (#[trigger] has_edge(g, x, y) <==> leads_to(anchors, x, y)),
    ensures
        references_end(anchors) <==> forall|w: Seq<usize>| !is_cycle(g, w),
{
    assert forall|w: Seq<usize>| is_cycle(g, w) <==> is_round(anchors, w) by {
        if is_cycle(g, w) {
            assert forall|i: int| 0 <= i < w.len() - 1 implies leads_to(
                anchors,
                #[trigger] w[i],
                w[i + 1],
            ) by {
                assert(has_edge(g, w[i], w[i + 1]));
            }
        }
        if is_round(anchors, w) {
            assert forall|i: int| 0 <= i < w.len() - 1 implies has_edge(g, #[trigger] w[i], w[i + 1]) by {
                assert(leads_to(anchors, w[i], w[i + 1]));
            }
            assert(is_walk(g, w));
        }
    }
}

} // verus!
