//! Which documents can be rendered, seen from their parts.

use vstd::prelude::*;

use crate::adoc_references::{
    anchor_targets, leads_to, node_targets, references_end, target_id, targets,
};
use crate::adoc_renderable::{
    block_renders, blocks_render, body_renders, cell_renders, cells_render,
    content_is_unread, document_renders, item_renders, items_render, part_renders, parts_render,
    section_renders, sections_render,
};
use crate::adoc_tree::{
    AdocAnchor, AdocBlock, AdocBody, AdocCell, AdocContent, AdocDocument,
    AdocInline, AdocItem, AdocPart, AdocSection, InlineKind,
};
use crate::build_laws::lemma_flat;
use crate::text::lemma_find_char;

verus! {

/// Blocks can be rendered exactly where each of them can; so can sections.
pub proof fn law_every_block_is_taken(bs: Seq<AdocBlock>, k: int)
    requires
        0 <= k <= bs.len(),
    ensures
        blocks_render(bs, k) <==> forall|i: int| 0 <= i < k ==> block_renders(#[trigger] bs[i]),
    decreases k,
{
    if k > 0 {
        law_every_block_is_taken(bs, k - 1);
        assert(bs[k - 1] == bs[k - 1]);
    }
}

/// Sections can be rendered exactly where each of them can.
pub proof fn law_every_section_is_taken(ss: Seq<AdocSection>, k: int)
    requires
        0 <= k <= ss.len(),
    ensures
        sections_render(ss, k) <==> forall|i: int| 0 <= i < k ==> section_renders(#[trigger] ss[i]),
    decreases k,
{
    if k > 0 {
        law_every_section_is_taken(ss, k - 1);
        assert(ss[k - 1] == ss[k - 1]);
    }
}

/// A section can be rendered exactly where it is at most six levels deep and each
/// of its blocks can.
pub proof fn law_deep_section_is_not_taken(s: AdocSection)
    ensures
        section_renders(s) <==> s.level <= 6 && forall|i: int|
            0 <= i < s.blocks@.len() ==> block_renders(#[trigger] s.blocks@[i]),
{
    law_every_block_is_taken(s.blocks@, s.blocks@.len() as int);
}

/// A list can be rendered only where each block of each item can, in the
/// descriptions too.
pub proof fn law_every_item_is_taken(v: Seq<AdocItem>, k: int)
    requires
        0 <= k <= v.len(),
    ensures
        items_render(v, k) <==> forall|i: int| 0 <= i < k ==> item_renders(#[trigger] v[i]),
        forall|i: int|
            0 <= i < k && #[trigger] item_renders(v[i]) ==> {
                &&& forall|j: int|
                    0 <= j < v[i].blocks@.len() ==> block_renders(#[trigger] v[i].blocks@[j])
                &&& v[i].described is Some ==> forall|j: int|
                    0 <= j < v[i].described->0@.len() ==> block_renders(
                        #[trigger] v[i].described->0@[j],
                    )
            },
    decreases k,
{
    if k > 0 {
        law_every_item_is_taken(v, k - 1);
        let last = v[k - 1];
        law_every_block_is_taken(last.blocks@, last.blocks@.len() as int);
        if last.described is Some {
            law_every_block_is_taken(last.described->0@, last.described->0@.len() as int);
        }
        assert(v[k - 1] == last);
    }
}

/// A table can be rendered exactly where the document in each of its cells can.
pub proof fn law_every_cell_is_taken(v: Seq<AdocCell>, k: int)
    requires
        0 <= k <= v.len(),
    ensures
        cells_render(v, k) <==> forall|i: int|
            0 <= i < k ==> ((#[trigger] v[i]) is Document ==> body_renders(v[i]->Document_0)),
    decreases k,
{
    if k > 0 {
        law_every_cell_is_taken(v, k - 1);
        assert(cell_renders(v[k - 1]) == (v[k - 1] is Document ==> body_renders(
            v[k - 1]->Document_0,
        )));
    }
}

/// The parts of a book can be rendered exactly where each of them can.
pub proof fn law_every_part_is_taken(v: Seq<AdocPart>, k: int)
    requires
        0 <= k <= v.len(),
    ensures
        parts_render(v, k) <==> forall|i: int| 0 <= i < k ==> part_renders(#[trigger] v[i]),
    decreases k,
{
    if k > 0 {
        law_every_part_is_taken(v, k - 1);
        assert(v[k - 1] == v[k - 1]);
    }
}

/// A document can be rendered only where all of its blocks and sections can, and
/// its cross references come to an end.
pub proof fn law_whole_document_is_taken(d: AdocDocument)
    ensures
        document_renders(d) ==> references_end(d.anchors@),
        document_renders(d) ==> match d.body {
            AdocBody::Blocks(bs) => forall|i: int|
                0 <= i < bs@.len() ==> block_renders(#[trigger] bs@[i]),
            AdocBody::Sections(p, ss) => {
                &&& forall|i: int| 0 <= i < ss@.len() ==> section_renders(#[trigger] ss@[i])
                &&& p is Some ==> forall|i: int|
                    0 <= i < p->0@.len() ==> block_renders(#[trigger] p->0@[i])
            },
            AdocBody::Parts(b) => {
                &&& forall|i: int| 0 <= i < b.parts@.len() ==> part_renders(#[trigger] b.parts@[i])
                &&& forall|i: int|
                    0 <= i < b.opening@.len() ==> section_renders(#[trigger] b.opening@[i])
                &&& forall|i: int|
                    0 <= i < b.closing@.len() ==> section_renders(#[trigger] b.closing@[i])
            },
        },
{
    match d.body {
        AdocBody::Blocks(bs) => {
            law_every_block_is_taken(bs@, bs@.len() as int);
        },
        AdocBody::Sections(p, ss) => {
            law_every_section_is_taken(ss@, ss@.len() as int);
            if p is Some {
                law_every_block_is_taken(p->0@, p->0@.len() as int);
            }
        },
        AdocBody::Parts(b) => {
            law_every_part_is_taken(b.parts@, b.parts@.len() as int);
            law_every_section_is_taken(b.opening@, b.opening@.len() as int);
            law_every_section_is_taken(b.closing@, b.closing@.len() as int);
        },
    }
}

/// A block whose content is looked at can be rendered only where all that stands in
/// it can.
pub proof fn law_nested_blocks_are_taken(b: AdocBlock)
    requires
        block_renders(b),
        !content_is_unread(b.context@),
    ensures
        match b.content {
            AdocContent::Compound(bs) => forall|i: int|
                0 <= i < bs@.len() ==> block_renders(#[trigger] bs@[i]),
            AdocContent::Section(s) => b.context@ == "Section"@ && section_renders(s),
            AdocContent::List(items) => forall|i: int|
                0 <= i < items@.len() ==> item_renders(#[trigger] items@[i]),
            AdocContent::Table(cells) => b.context@ == "Table"@ && forall|i: int|
                0 <= i < cells@.len() ==> ((#[trigger] cells@[i]) is Document ==> body_renders(
                    cells@[i]->Document_0,
                )),
            AdocContent::Empty(e) => !(e is Nothing) && !(e is Comment),
            _ => true,
        },
{
    match b.content {
        AdocContent::Compound(bs) => {
            law_every_block_is_taken(bs@, bs@.len() as int);
        },
        AdocContent::List(items) => {
            law_every_item_is_taken(items@, items@.len() as int);
        },
        AdocContent::Table(cells) => {
            law_every_cell_is_taken(cells@, cells@.len() as int);
        },
        _ => {},
    }
}

/// The cross references of nodes are those of each node, in order.
pub proof fn law_targets_of_all_nodes(v: Seq<AdocInline>, k: int)
    requires
        0 <= k <= v.len(),
    ensures
        targets(v, k) == v.take(k).map_values(|n: AdocInline| node_targets(n)).flatten(),
    decreases k,
{
    let f = |n: AdocInline| node_targets(n);
    let parts = v.take(k).map_values(f);
    if k > 0 {
        law_targets_of_all_nodes(v, k - 1);
        assert(parts.drop_last() =~= v.take(k - 1).map_values(f));
        assert(parts.last() == node_targets(v[k - 1]));
        lemma_flat(parts);
    } else {
        assert(parts =~= Seq::<Seq<Seq<char>>>::empty());
        assert(parts.flatten() =~= Seq::<Seq<char>>::empty());
    }
}

/// A cross reference leads to its own target, and then to those of the nodes in it;
/// any other node only to these.
pub proof fn law_targets_of_a_node(n: AdocInline)
    ensures
        ({
            let inner = n.children@.map_values(|c: AdocInline| node_targets(c)).flatten();
            &&& n.kind == InlineKind::Xref ==> node_targets(n) == seq![target_id(n.text@)] + inner
            &&& n.kind != InlineKind::Xref ==> node_targets(n) == inner
        }),
{
    law_targets_of_all_nodes(n.children@, n.children@.len() as int);
    assert(n.children@.take(n.children@.len() as int) =~= n.children@);
}

/// The id of a target is what stands behind its first `#`, or all of it.
pub proof fn law_target_id(file: Seq<char>, id: Seq<char>)
    requires
        !file.contains('#'),
    ensures
        target_id(file + seq!['#'] + id) == id,
        target_id(file) == file,
{
    let t = file + seq!['#'] + id;
    lemma_find_char(t, '#', 0);
    lemma_find_char(file, '#', 0);
    assert(t[file.len() as int] == '#');
    let i = crate::text::find_char(t, '#', 0)->0;
    if i < file.len() {
        assert(file[i] == '#');
    }
    assert(t.skip(i + 1) =~= id);
}

/// An anchor that has a text of its own leads where that text does, any other where
/// its title does.
pub proof fn law_anchor_leads_by_its_text(a: AdocAnchor)
    ensures
        a.reftext is Some ==> anchor_targets(a) == a.reftext->0@.map_values(
            |n: AdocInline| node_targets(n),
        ).flatten(),
        a.reftext is None ==> anchor_targets(a) == a.title@.map_values(
            |n: AdocInline| node_targets(n),
        ).flatten(),
{
    if a.reftext is Some {
        let t = a.reftext->0@;
        law_targets_of_all_nodes(t, t.len() as int);
        assert(t.take(t.len() as int) =~= t);
    } else {
        law_targets_of_all_nodes(a.title@, a.title@.len() as int);
        assert(a.title@.take(a.title@.len() as int) =~= a.title@);
    }
}

/// References that lead from an anchor back to it, directly or by way of another,
/// have no end.
pub proof fn law_round_reference_has_no_end(anchors: Seq<AdocAnchor>, u: usize, v: usize)
    requires
        leads_to(anchors, u, v),
        leads_to(anchors, v, u) || u == v,
    ensures
        !references_end(anchors),
{
    if u == v {
        let w = seq![u, u];
        assert(crate::adoc_references::is_round(anchors, w));
    } else {
        let w = seq![u, v, u];
        assert(crate::adoc_references::is_round(anchors, w));
    }
}

} // verus!
