//! Document outlines with coverage.

use vstd::prelude::*;

use crate::api::{rule_models, ApiRule, RuleModel};
use crate::badge::{coverage_of, find_coverage, CoverageModel};
use crate::document::{element_models, DocElement, ElementModel};
use crate::rule_id::rule_text;
use crate::text::copy_str;

verus! {

/// How many requirements there are, and how many are implemented and verified.
#[derive(Debug, Clone, Copy, PartialEq, Eq, Structural)]
pub struct OutlineCoverage {
    pub impl_count: usize,
    pub verify_count: usize,
    pub total: usize,
}

/// A heading with its coverage.
#[derive(Debug, Clone, PartialEq, Eq)]
pub struct OutlineEntry {
    pub title: String,
    pub slug: String,
    pub level: u8,
    /// The requirements directly under the heading.
    pub coverage: OutlineCoverage,
    /// Those, and the requirements under all deeper headings that follow, up
    /// to the next heading of the same level or above.
    pub aggregated: OutlineCoverage,
}

/// Counts as mathematical numbers.
#[verifier::ext_equal]
pub struct CountModel {
    pub impl_count: nat,
    pub verify_count: nat,
    pub total: nat,
}

pub open spec fn counts(c: OutlineCoverage) -> CountModel {
    CountModel {
        impl_count: c.impl_count as nat,
        verify_count: c.verify_count as nat,
        total: c.total as nat,
    }
}

pub open spec fn no_counts() -> CountModel {
    CountModel { impl_count: 0, verify_count: 0, total: 0 }
}

pub open spec fn plus(a: CountModel, b: CountModel) -> CountModel {
    CountModel {
        impl_count: a.impl_count + b.impl_count,
        verify_count: a.verify_count + b.verify_count,
        total: a.total + b.total,
    }
}

/// A heading with the counts directly under it.
#[verifier::ext_equal]
pub struct EntryModel {
    pub title: Seq<char>,
    pub slug: Seq<char>,
    pub level: u8,
    pub direct: CountModel,
}

/// What one requirement adds.
pub open spec fn req_counts(c: Option<CoverageModel>) -> CountModel {
    CountModel {
        impl_count: if c is Some && (c->0).impl_refs.len() > 0 {
            1
        } else {
            0
        },
        verify_count: if c is Some && (c->0).verify_refs.len() > 0 {
            1
        } else {
            0
        },
        total: 1,
    }
}

/// The headings among the first elements, each with the requirements that
/// follow it before the next heading.
pub open spec fn direct_entries(elements: Seq<ElementModel>, rules: Seq<RuleModel>) -> Seq<EntryModel>
    decreases elements.len(),
{
    if elements.len() == 0 {
        Seq::empty()
    } else {
        let before = direct_entries(elements.drop_last(), rules);
        match elements.last() {
            ElementModel::Heading(h) => before.push(
                EntryModel { title: h.title, slug: h.id, level: h.level, direct: no_counts() },
            ),
            ElementModel::Req(r) => if before.len() == 0 {
                before
            } else {
                let e = before.last();
                before.update(
                    before.len() - 1,
                    EntryModel {
                        direct: plus(e.direct, req_counts(coverage_of(rules, rule_text(r.id)))),
                        ..e
                    },
                )
            },
            ElementModel::Paragraph(_) => before,
        }
    }
}

/// Position of the first heading from `j` on whose level is `level` or above.
pub open spec fn subtree_end(entries: Seq<EntryModel>, level: u8, j: int) -> int
    decreases entries.len() - j,
{
    if j < 0 || j >= entries.len() || entries[j].level <= level {
        j
    } else {
        subtree_end(entries, level, j + 1)
    }
}

/// The counts directly under the headings from `i` up to `j`.
pub open spec fn sum_direct(entries: Seq<EntryModel>, i: int, j: int) -> CountModel
    decreases j - i,
{
    if j <= i || i < 0 || j > entries.len() {
        no_counts()
    } else {
        plus(sum_direct(entries, i, j - 1), entries[j - 1].direct)
    }
}

/// The counts under a heading and all deeper headings that follow it.
pub open spec fn aggregated(entries: Seq<EntryModel>, i: int) -> CountModel {
    sum_direct(entries, i, subtree_end(entries, entries[i].level, i + 1))
}

/// An outline entry is what the model says.
pub open spec fn entry_is(e: OutlineEntry, entries: Seq<EntryModel>, i: int) -> bool {
    &&& e.title@ == entries[i].title
    &&& e.slug@ == entries[i].slug
    &&& e.level == entries[i].level
    &&& counts(e.coverage) == entries[i].direct
    &&& counts(e.aggregated) == aggregated(entries, i)
}

/// Number of requirements in all entries; no more than there are elements.
proof fn lemma_sum_bounded(elements: Seq<ElementModel>, rules: Seq<RuleModel>)
    ensures
        ({
            let es = direct_entries(elements, rules);
            let s = sum_direct(es, 0, es.len() as int);
            &&& s.total <= elements.len()
            &&& s.impl_count <= elements.len()
            &&& s.verify_count <= elements.len()
        }),
    decreases elements.len(),
{
    if elements.len() > 0 {
        lemma_sum_bounded(elements.drop_last(), rules);
        let before = direct_entries(elements.drop_last(), rules);
        let after = direct_entries(elements, rules);
        match elements.last() {
            ElementModel::Heading(h) => {
                lemma_sum_prefix(before, after, before.len() as int);
            },
            ElementModel::Req(r) => {
                if before.len() > 0 {
                    lemma_sum_prefix(before, after, before.len() - 1);
                }
            },
            ElementModel::Paragraph(_) => {},
        }
    }
}

/// Sums of equal beginnings are equal.
proof fn lemma_sum_prefix(a: Seq<EntryModel>, b: Seq<EntryModel>, n: int)
    requires
        0 <= n <= a.len(),
        n <= b.len(),
        forall|i: int| 0 <= i < n ==> a[i] == b[i],
    ensures
        sum_direct(a, 0, n) == sum_direct(b, 0, n),
    decreases n,
{
    if n > 0 {
        lemma_sum_prefix(a, b, n - 1);
    }
}

/// A part of the headings has no more under it than all.
proof fn lemma_sum_part(entries: Seq<EntryModel>, i: int, j: int, n: int)
    requires
        0 <= i <= j <= n <= entries.len(),
    ensures
        sum_direct(entries, i, j).total <= sum_direct(entries, 0, n).total,
        sum_direct(entries, i, j).impl_count <= sum_direct(entries, 0, n).impl_count,
        sum_direct(entries, i, j).verify_count <= sum_direct(entries, 0, n).verify_count,
    decreases n,
{
    if j < n {
        lemma_sum_part(entries, i, j, n - 1);
    } else if i < j {
        lemma_sum_part(entries, i, j - 1, n - 1);
    }
}

fn add_counts(a: OutlineCoverage, b: OutlineCoverage) -> (r: OutlineCoverage)
    requires
        a.impl_count + b.impl_count <= usize::MAX,
        a.verify_count + b.verify_count <= usize::MAX,
        a.total + b.total <= usize::MAX,
    ensures
        counts(r) == plus(counts(a), counts(b)),
{
    OutlineCoverage {
        impl_count: a.impl_count + b.impl_count,
        verify_count: a.verify_count + b.verify_count,
        total: a.total + b.total,
    }
}

/// Build an outline with coverage info from document elements.
/// Returns a flat list of outline entries with both direct and aggregated
/// coverage.
pub fn build_outline(elements: &Vec<DocElement>, rules: &Vec<ApiRule>) -> (r: Vec<OutlineEntry>)
    ensures
        ({
            let es = direct_entries(element_models(elements@), rule_models(rules@));
            &&& r@.len() == es.len()
            &&& forall|i: int| 0 <= i < es.len() ==> entry_is(#[trigger] r@[i], es, i)
        }),
{
    let ghost els = element_models(elements@);
    let ghost rs = rule_models(rules@);
    let none = OutlineCoverage { impl_count: 0, verify_count: 0, total: 0 };
    let mut out: Vec<OutlineEntry> = Vec::new();
    let mut i: usize = 0;
    let count: usize = elements.len();
    while i < elements.len()
        invariant
            i <= elements@.len() == count,
            els == element_models(elements@),
            rs == rule_models(rules@),
            counts(none) == no_counts(),
            out@.len() == direct_entries(els.take(i as int), rs).len(),
            forall|k: int|
                0 <= k < out@.len() ==> ({
                    let e = direct_entries(els.take(i as int), rs)[k];
                    &&& (#[trigger] out@[k]).title@ == e.title
                    &&& out@[k].slug@ == e.slug
                    &&& out@[k].level == e.level
                    &&& counts(out@[k].coverage) == e.direct
                }),
        decreases elements@.len() - i,
    {
        proof {
            assert(els.take(i + 1).drop_last() =~= els.take(i as int));
            assert(els.take(i + 1).last() == elements@[i as int]@);
            lemma_sum_bounded(els.take(i as int), rs);
        }
        let ghost before = direct_entries(els.take(i as int), rs);
        match &elements[i] {
            DocElement::Heading(h) => {
                out.push(
                    OutlineEntry {
                        title: copy_str(h.title.as_str()),
                        slug: copy_str(h.id.as_str()),
                        level: h.level,
                        coverage: none,
                        aggregated: none,
                    },
                );
            },
            DocElement::Req(r) => {
                if out.len() > 0 {
                    let idx = out.len() - 1;
                    let text = r.id.text();
                    let cov = find_coverage(rules, text.as_str());
                    let (has_impl, has_verify) = match &cov {
                        Some(c) => (c.impl_refs.len() > 0, c.verify_refs.len() > 0),
                        None => (false, false),
                    };
                    let one = OutlineCoverage {
                        impl_count: if has_impl {
                            1
                        } else {
                            0
                        },
                        verify_count: if has_verify {
                            1
                        } else {
                            0
                        },
                        total: 1,
                    };
                    proof {
                        let model = coverage_of(rs, rule_text(r.id@));
                        match cov {
                            Some(c) => {
                                assert(c@.impl_refs.len() == c.impl_refs@.len());
                                assert(c@.verify_refs.len() == c.verify_refs@.len());
                            },
                            None => {},
                        }
                        assert(counts(one) =~= req_counts(model));
                        lemma_sum_part(before, idx as int, idx + 1, before.len() as int);
                        assert(sum_direct(before, idx as int, idx as int) == no_counts());
                    }
                    let sum = add_counts(out[idx].coverage, one);
                    let entry = OutlineEntry {
                        title: copy_str(out[idx].title.as_str()),
                        slug: copy_str(out[idx].slug.as_str()),
                        level: out[idx].level,
                        coverage: sum,
                        aggregated: none,
                    };
                    out.set(idx, entry);
                }
            },
            DocElement::Paragraph(_) => {},
        }
        i = i + 1;
    }
    assert(els.take(i as int) =~= els);
    let ghost es = direct_entries(els, rs);
    proof {
        lemma_sum_bounded(els, rs);
    }
    let mut k: usize = 0;
    while k < out.len()
        invariant
            k <= out@.len(),
            out@.len() == es.len(),
            count == els.len(),
            sum_direct(es, 0, es.len() as int).total <= count,
            sum_direct(es, 0, es.len() as int).impl_count <= count,
            sum_direct(es, 0, es.len() as int).verify_count <= count,
            forall|m: int|
                0 <= m < out@.len() ==> ({
                    &&& (#[trigger] out@[m]).title@ == es[m].title
                    &&& out@[m].slug@ == es[m].slug
                    &&& out@[m].level == es[m].level
                    &&& counts(out@[m].coverage) == es[m].direct
                }),
            forall|m: int| 0 <= m < k ==> entry_is(#[trigger] out@[m], es, m),
        decreases out@.len() - k,
    {
        let level = out[k].level;
        let mut sum = out[k].coverage;
        let mut j: usize = k + 1;
        assert(sum_direct(es, k as int, k as int) == no_counts());
        assert(counts(sum) =~= sum_direct(es, k as int, j as int));
        while j < out.len() && out[j].level > level
            invariant
                k < j <= out@.len(),
                out@.len() == es.len(),
                count == els.len(),
                level == es[k as int].level,
                sum_direct(es, 0, es.len() as int).total <= count,
                sum_direct(es, 0, es.len() as int).impl_count <= count,
                sum_direct(es, 0, es.len() as int).verify_count <= count,
                forall|m: int|
                    0 <= m < out@.len() ==> ({
                        &&& (#[trigger] out@[m]).level == es[m].level
                        &&& counts(out@[m].coverage) == es[m].direct
                    }),
                counts(sum) == sum_direct(es, k as int, j as int),
                subtree_end(es, level, k + 1) == subtree_end(es, level, j as int),
            decreases out@.len() - j,
        {
            proof {
                lemma_sum_part(es, k as int, j + 1, es.len() as int);
            }
            sum = add_counts(sum, out[j].coverage);
            j = j + 1;
        }
        let entry = OutlineEntry {
            title: copy_str(out[k].title.as_str()),
            slug: copy_str(out[k].slug.as_str()),
            level,
            coverage: out[k].coverage,
            aggregated: sum,
        };
        out.set(k, entry);
        k = k + 1;
    }
    out
}

proof fn lemma_subtree_end(entries: Seq<EntryModel>, level: u8, j: int)
    requires
        0 <= j <= entries.len(),
    ensures
        j <= subtree_end(entries, level, j) <= entries.len(),
    decreases entries.len() - j,
{
    if j < entries.len() && entries[j].level > level {
        lemma_subtree_end(entries, level, j + 1);
    }
}

/// A heading's aggregated counts take in at least what stands directly under it.
pub proof fn law_aggregated_covers_direct(entries: Seq<EntryModel>, i: int)
    requires
        0 <= i < entries.len(),
    ensures
        entries[i].direct.total <= aggregated(entries, i).total,
        entries[i].direct.impl_count <= aggregated(entries, i).impl_count,
        entries[i].direct.verify_count <= aggregated(entries, i).verify_count,
{
    let end = subtree_end(entries, entries[i].level, i + 1);
    lemma_subtree_end(entries, entries[i].level, i + 1);
    lemma_sum_from_first(entries, i, end);
}

proof fn lemma_sum_from_first(entries: Seq<EntryModel>, i: int, j: int)
    requires
        0 <= i < j <= entries.len(),
    ensures
        entries[i].direct.total <= sum_direct(entries, i, j).total,
        entries[i].direct.impl_count <= sum_direct(entries, i, j).impl_count,
        entries[i].direct.verify_count <= sum_direct(entries, i, j).verify_count,
    decreases j - i,
{
    if j > i + 1 {
        lemma_sum_from_first(entries, i, j - 1);
    }
}

/// A heading that nothing deeper follows has the same counts both ways.
pub proof fn law_leaf_aggregates_itself(entries: Seq<EntryModel>, i: int)
    requires
        0 <= i < entries.len(),
        i + 1 == entries.len() || entries[i + 1].level <= entries[i].level,
    ensures
        aggregated(entries, i) == entries[i].direct,
{
    assert(subtree_end(entries, entries[i].level, i + 1) == i + 1);
    assert(sum_direct(entries, i, i) == no_counts());
    assert(plus(no_counts(), entries[i].direct) =~= entries[i].direct);
}

} // verus!
