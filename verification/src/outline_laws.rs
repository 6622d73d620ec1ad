//! What an outline counts, in terms of the elements of a document.

use vstd::prelude::*;

use crate::api::RuleModel;
use crate::badge::coverage_of;
use crate::document::{ElementModel, HeadingModel, Paragraph};
use crate::outline::{
    aggregated, direct_entries, entry_is, subtree_end, sum_direct, EntryModel, OutlineEntry,
};
use crate::requirement::ReqModel;
use crate::rule_id::rule_text;

verus! {

/// A heading opens an entry that counts nothing yet. A requirement behind it
/// counts once, once more as implemented where its rule has an implementation, and
/// once more as verified where its rule has a verification; other entries stay as
/// they are. Paragraphs count nothing, nor do requirements before any heading.
pub proof fn law_outline_counts(
    elements: Seq<ElementModel>,
    rules: Seq<RuleModel>,
    h: HeadingModel,
    r: ReqModel,
    p: Paragraph,
)
    ensures
        ({
            let before = direct_entries(elements, rules);
            let heading = direct_entries(elements.push(ElementModel::Heading(h)), rules);
            let req = direct_entries(elements.push(ElementModel::Req(r)), rules);
            let n = before.len() as int;
            let c = coverage_of(rules, rule_text(r.id));
            &&& heading.len() == n + 1
            &&& heading.drop_last() == before
            &&& heading.last().title == h.title && heading.last().slug == h.id
                && heading.last().level == h.level
            &&& heading.last().direct.total == 0 && heading.last().direct.impl_count == 0
                && heading.last().direct.verify_count == 0
            &&& direct_entries(elements.push(ElementModel::Paragraph(p)), rules) == before
            &&& req.len() == n
            &&& (n > 0 ==> req.drop_last() == before.drop_last() && req.last().title
                == before.last().title && req.last().slug == before.last().slug && req.last().level
                == before.last().level && req.last().direct.total == before.last().direct.total + 1
                && req.last().direct.impl_count == before.last().direct.impl_count + if c is Some && (
            c->0).impl_refs.len() > 0 {
                1int
            } else {
                0int
            } && req.last().direct.verify_count == before.last().direct.verify_count + if c is Some
                && (c->0).verify_refs.len() > 0 {
                1int
            } else {
                0int
            })
        }),
{
    assert(elements.push(ElementModel::Heading(h)).drop_last() =~= elements);
    assert(elements.push(ElementModel::Req(r)).drop_last() =~= elements);
    assert(elements.push(ElementModel::Paragraph(p)).drop_last() =~= elements);
    let before = direct_entries(elements, rules);
    let heading = direct_entries(elements.push(ElementModel::Heading(h)), rules);
    let req = direct_entries(elements.push(ElementModel::Req(r)), rules);
    assert(heading.drop_last() =~= before);
    if before.len() > 0 {
        assert(req.drop_last() =~= before.drop_last());
    }
}

proof fn lemma_subtree_end(entries: Seq<EntryModel>, level: u8, j: int)
    requires
        0 <= j <= entries.len(),
    ensures
        ({
            let e = subtree_end(entries, level, j);
            &&& j <= e <= entries.len()
            &&& (e < entries.len() ==> entries[e].level <= level)
            &&& forall|k: int| j <= k < e ==> (#[trigger] entries[k]).level > level
        }),
    decreases entries.len() - j,
{
    if j < entries.len() && entries[j].level > level {
        lemma_subtree_end(entries, level, j + 1);
    }
}

/// What is counted under a heading with all below it is the sum over the heading
/// and the deeper headings behind it, up to the next that is not deeper.
pub proof fn law_outline_adds_up(entries: Seq<EntryModel>, i: int, e: int)
    requires
        0 <= i < e <= entries.len(),
        forall|k: int| i < k < e ==> (#[trigger] entries[k]).level > entries[i].level,
        e == entries.len() || entries[e].level <= entries[i].level,
    ensures
        aggregated(entries, i) == sum_direct(entries, i, e),
        sum_direct(entries, i, i).total == 0,
        sum_direct(entries, i, i).impl_count == 0,
        sum_direct(entries, i, i).verify_count == 0,
        forall|k: int|
            i <= k < e ==> (#[trigger] sum_direct(entries, i, k + 1)).total == sum_direct(
                entries,
                i,
                k,
            ).total + entries[k].direct.total && sum_direct(entries, i, k + 1).impl_count
                == sum_direct(entries, i, k).impl_count + entries[k].direct.impl_count
                && sum_direct(entries, i, k + 1).verify_count == sum_direct(
                entries,
                i,
                k,
            ).verify_count + entries[k].direct.verify_count,
{
    lemma_subtree_end(entries, entries[i].level, i + 1);
    let s = subtree_end(entries, entries[i].level, i + 1);
    if s < e {
        assert(entries[s].level > entries[i].level);
    }
    if e < s {
        assert(entries[e].level > entries[i].level);
    }
}

/// An outline entry tells its heading, what is counted directly under it, and what
/// is counted with all below it.
pub proof fn law_entry_tells_both_counts(e: OutlineEntry, entries: Seq<EntryModel>, i: int, end: int)
    requires
        entry_is(e, entries, i),
        0 <= i < end <= entries.len(),
        forall|k: int| i < k < end ==> (#[trigger] entries[k]).level > entries[i].level,
        end == entries.len() || entries[end].level <= entries[i].level,
    ensures
        e.title@ == entries[i].title,
        e.slug@ == entries[i].slug,
        e.level == entries[i].level,
        e.coverage.total == entries[i].direct.total,
        e.coverage.impl_count == entries[i].direct.impl_count,
        e.coverage.verify_count == entries[i].direct.verify_count,
        e.aggregated.total == sum_direct(entries, i, end).total,
        e.aggregated.impl_count == sum_direct(entries, i, end).impl_count,
        e.aggregated.verify_count == sum_direct(entries, i, end).verify_count,
{
    law_outline_adds_up(entries, i, end);
}

} // verus!
