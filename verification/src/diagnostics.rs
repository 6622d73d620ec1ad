//! Diagnostics for source files.

use vstd::prelude::*;

use crate::api::{
    forward_models, rule_models, spec_infos, ApiConfig, ApiSpecForward, DiagnosticModel, ImplKey,
    LspDiagnostic, RuleModel, SpecInfoModel,
};
use crate::positions::{span_range, span_to_range};
use crate::refs::{
    ref_models, unknown_verb, verb_word, warning_models, ParseWarning, RefModel, RefVerb,
    ReqReference, Reqs, WarningKind, WarningModel,
};
use crate::rule_id::{
    classify_reference_for_rule, id_views, opt_id, reference_match, rule_text, RuleId, RuleIdMatch,
};
use crate::text::{
    byte_len, byte_slice, byte_slice_of, chars_of, concat2, concat3, copy_str, find_char,
    find_char_from, has_prefix, opt_text, starts_with_str, str_eq,
};

verus! {

pub const STALE_IMPLEMENTATION_MUST_CHANGE_PREFIX: &'static str =
    "Implementation must be changed to match updated rule text — and ONLY ONCE THAT'S DONE must the code annotation be bumped";

/// How a reference relates to all known rules.
#[derive(Debug, Clone, PartialEq, Eq)]
pub enum KnownRuleMatch {
    /// A known rule has this id and version.
    Exact,
    /// Some known rule has a newer version; the last such rule.
    Stale(RuleId),
    /// No known rule has this id.
    Missing,
}

/// The last rule that has a newer version of what the reference names.
pub open spec fn newer_rule(reference: (Seq<char>, u32), known: Seq<(Seq<char>, u32)>) -> Option<
    (Seq<char>, u32),
>
    decreases known.len(),
{
    if known.len() == 0 {
        None
    } else if reference_match(known.last(), reference) == RuleIdMatch::Stale {
        Some(known.last())
    } else {
        newer_rule(reference, known.drop_last())
    }
}

/// How a reference relates to all known rules: `Ok(None)` for an exact match,
/// `Ok(Some(rule))` for a stale one, `Err` for none.
pub open spec fn known_match(reference: (Seq<char>, u32), known: Seq<(Seq<char>, u32)>) -> Result<
    Option<(Seq<char>, u32)>,
    (),
> {
    if known.contains(reference) {
        Ok(None)
    } else {
        match newer_rule(reference, known) {
            Some(r) => Ok(Some(r)),
            None => Err(()),
        }
    }
}

pub open spec fn match_model(m: KnownRuleMatch) -> Result<Option<(Seq<char>, u32)>, ()> {
    match m {
        KnownRuleMatch::Exact => Ok(None),
        KnownRuleMatch::Stale(r) => Ok(Some(r@)),
        KnownRuleMatch::Missing => Err(()),
    }
}

/// Classify a reference against all known rules.
pub fn classify_reference_against_known_rules(
    reference_id: &RuleId,
    known_rule_ids: &Vec<RuleId>,
) -> (r: KnownRuleMatch)
    ensures
        match_model(r) == known_match(reference_id@, id_views(known_rule_ids@)),
{
    let ghost known = id_views(known_rule_ids@);
    let mut stale_target: Option<RuleId> = None;
    let mut i: usize = 0;
    while i < known_rule_ids.len()
        invariant
            i <= known_rule_ids@.len(),
            known == id_views(known_rule_ids@),
            forall|j: int| 0 <= j < i ==> known[j] != reference_id@,
            opt_id(stale_target) == newer_rule(reference_id@, known.take(i as int)),
        decreases known_rule_ids@.len() - i,
    {
        let rule = &known_rule_ids[i];
        proof {
            assert(known[i as int] == rule@);
            assert(known.take(i + 1).drop_last() =~= known.take(i as int));
            assert(known.take(i + 1).last() == rule@);
        }
        match classify_reference_for_rule(rule, reference_id) {
            RuleIdMatch::Exact => {
                assert(known[i as int] == reference_id@);
                assert(known.contains(reference_id@));
                return KnownRuleMatch::Exact;
            },
            RuleIdMatch::Stale => {
                stale_target = Some(rule.copy());
            },
            RuleIdMatch::NoMatch => {},
        }
        i = i + 1;
    }
    assert(known.take(i as int) =~= known);
    match stale_target {
        Some(rule) => KnownRuleMatch::Stale(rule),
        None => KnownRuleMatch::Missing,
    }
}

/// A reference is stale only against a rule with the same base and a newer
/// version that is known, and only where no known rule matches it exactly.
pub proof fn law_stale_means_newer(reference: (Seq<char>, u32), known: Seq<(Seq<char>, u32)>)
    ensures
        known_match(reference, known) matches Ok(Some(rule)) ==> {
            &&& known.contains(rule)
            &&& rule.0 == reference.0
            &&& reference.1 < rule.1
            &&& !known.contains(reference)
        },
        known_match(reference, known) is Err ==> forall|i: int|
            0 <= i < known.len() ==> (#[trigger] known[i]).0 != reference.0 || known[i].1
                < reference.1,
{
    lemma_newer_rule(reference, known);
}

proof fn lemma_newer_rule(reference: (Seq<char>, u32), known: Seq<(Seq<char>, u32)>)
    ensures
        match newer_rule(reference, known) {
            Some(rule) => known.contains(rule) && rule.0 == reference.0 && reference.1 < rule.1,
            None => forall|i: int|
                0 <= i < known.len() ==> (#[trigger] known[i]).0 != reference.0 || known[i].1
                    <= reference.1,
        },
        newer_rule(reference, known) is None && !known.contains(reference) ==> forall|i: int|
            0 <= i < known.len() ==> (#[trigger] known[i]).0 != reference.0 || known[i].1
                < reference.1,
    decreases known.len(),
{
    if known.len() > 0 {
        if reference_match(known.last(), reference) == RuleIdMatch::Stale {
            assert(known[known.len() - 1] == known.last());
        } else {
            let rest = known.drop_last();
            lemma_newer_rule(reference, rest);
            if let Some(rule) = newer_rule(reference, rest) {
                let i = choose|i: int| 0 <= i < rest.len() && rest[i] == rule;
                assert(known[i] == rule);
            } else {
                assert forall|i: int| 0 <= i < known.len() implies (#[trigger] known[i]).0
                    != reference.0 || known[i].1 <= reference.1 by {
                    if i < rest.len() {
                        assert(rest[i] == known[i]);
                    }
                }
                if !known.contains(reference) {
                    assert forall|i: int| 0 <= i < known.len() implies (#[trigger] known[i]).0
                        != reference.0 || known[i].1 < reference.1 by {
                        if known[i].0 == reference.0 && known[i].1 == reference.1 {
                            assert(known[i] == reference);
                        }
                    }
                }
            }
        }
    }
}

/// What is said of a stale reference.
pub open spec fn stale_message(
    reference: (Seq<char>, u32),
    current: Option<(Seq<char>, u32)>,
) -> Seq<char> {
    match current {
        Some(rule) => STALE_IMPLEMENTATION_MUST_CHANGE_PREFIX@ + ". Reference '"@ + rule_text(
            reference,
        ) + "' is stale; current rule is '"@ + rule_text(rule) + "'."@,
        None => STALE_IMPLEMENTATION_MUST_CHANGE_PREFIX@
            + ". The referenced annotation is stale, but the latest matching rule could not be loaded."@,
    }
}

/// What is said of a stale reference.
pub fn stale_diagnostic_message_short(
    reference_rule_id: &RuleId,
    current_rule: Option<&RuleId>,
) -> (r: String)
    ensures
        r@ == stale_message(
            reference_rule_id@,
            match current_rule {
                Some(c) => Some(c@),
                None => None,
            },
        ),
{
    let mut m = copy_str(STALE_IMPLEMENTATION_MUST_CHANGE_PREFIX);
    match current_rule {
        Some(c) => {
            m.append(". Reference '");
            let t = reference_rule_id.text();
            m.append(t.as_str());
            m.append("' is stale; current rule is '");
            let u = c.text();
            m.append(u.as_str());
            m.append("'.");
        },
        None => {
            m.append(
                ". The referenced annotation is stale, but the latest matching rule could not be loaded.",
            );
        },
    }
    m
}

/// How many characters two texts begin with in common, from position `i` on.
pub open spec fn common_prefix(a: Seq<char>, b: Seq<char>, i: int) -> int
    decreases a.len() - i,
{
    if 0 <= i < a.len() && i < b.len() && a[i] == b[i] {
        common_prefix(a, b, i + 1)
    } else {
        i
    }
}

/// A rule id resembles another: at least half of it begins alike.
pub open spec fn resembles(reference: (Seq<char>, u32), rule: (Seq<char>, u32)) -> bool {
    2 * common_prefix(reference.0, rule.0, 0) >= reference.0.len() && common_prefix(
        reference.0,
        rule.0,
        0,
    ) > 0
}

/// The ids among `known` that resemble the reference, at most `max` of them,
/// each once, in the order in which they stand.
pub open spec fn similar_ids(
    reference: (Seq<char>, u32),
    known: Seq<(Seq<char>, u32)>,
    max: nat,
) -> Seq<(Seq<char>, u32)>
    decreases known.len(),
{
    if known.len() == 0 {
        Seq::empty()
    } else {
        let before = similar_ids(reference, known.drop_last(), max);
        if before.len() < max && resembles(reference, known.last()) && !before.contains(
            known.last(),
        ) {
            before.push(known.last())
        } else {
            before
        }
    }
}

fn resembles_id(reference: &RuleId, rule: &RuleId) -> (r: bool)
    ensures
        r == resembles(reference@, rule@),
{
    let a = chars_of(reference.base.as_str());
    let b = chars_of(rule.base.as_str());
    let mut i: usize = 0;
    while i < a.len() && i < b.len() && a[i] == b[i]
        invariant
            i <= a@.len(),
            common_prefix(a@, b@, 0) == common_prefix(a@, b@, i as int),
        decreases a@.len() - i,
    {
        i = i + 1;
    }
    i > 0 && i >= a.len() - i
}

/// Suggest ids that resemble one that is not known.
pub fn suggest_similar_rule_ids(
    reference_id: &RuleId,
    known_rule_ids: &Vec<RuleId>,
    max: usize,
) -> (r: Vec<RuleId>)
    ensures
        id_views(r@) == similar_ids(reference_id@, id_views(known_rule_ids@), max as nat),
{
    let ghost known = id_views(known_rule_ids@);
    let mut out: Vec<RuleId> = Vec::new();
    let mut i: usize = 0;
    assert(id_views(out@) =~= Seq::<(Seq<char>, u32)>::empty());
    while i < known_rule_ids.len()
        invariant
            i <= known_rule_ids@.len(),
            known == id_views(known_rule_ids@),
            id_views(out@) == similar_ids(reference_id@, known.take(i as int), max as nat),
        decreases known_rule_ids@.len() - i,
    {
        let rule = &known_rule_ids[i];
        proof {
            assert(known.take(i + 1).drop_last() =~= known.take(i as int));
            assert(known.take(i + 1).last() == rule@);
            assert(id_views(out@).len() == out@.len());
        }
        if out.len() < max && resembles_id(reference_id, rule) && !id_in(&out, rule) {
            let ghost before = out@;
            out.push(rule.copy());
            assert(id_views(out@) =~= id_views(before).push(rule@));
        }
        i = i + 1;
    }
    assert(known.take(i as int) =~= known);
    out
}

fn id_in(v: &Vec<RuleId>, id: &RuleId) -> (r: bool)
    ensures
        r == id_views(v@).contains(id@),
{
    let ghost ids = id_views(v@);
    let mut i: usize = 0;
    while i < v.len()
        invariant
            i <= v@.len(),
            ids == id_views(v@),
            forall|j: int| 0 <= j < i ==> ids[j] != id@,
        decreases v@.len() - i,
    {
        if v[i].same(id) {
            assert(ids[i as int] == id@);
            return true;
        }
        i = i + 1;
    }
    false
}

/// Rule ids, separated.
pub open spec fn ids_text(ids: Seq<(Seq<char>, u32)>, separator: Seq<char>) -> Seq<char>
    decreases ids.len(),
{
    if ids.len() == 0 {
        Seq::empty()
    } else if ids.len() == 1 {
        rule_text(ids[0])
    } else {
        ids_text(ids.drop_last(), separator) + separator + rule_text(ids.last())
    }
}

pub fn join_ids(v: &Vec<RuleId>, separator: &str) -> (r: String)
    ensures
        r@ == ids_text(id_views(v@), separator@),
{
    let ghost ids = id_views(v@);
    let mut out = String::new();
    let mut i: usize = 0;
    assert(out@ =~= Seq::<char>::empty());
    while i < v.len()
        invariant
            i <= v@.len(),
            ids == id_views(v@),
            out@ == ids_text(ids.take(i as int), separator@),
        decreases v@.len() - i,
    {
        let t = v[i].text();
        proof {
            assert(ids.take(i + 1).drop_last() =~= ids.take(i as int));
            assert(ids.take(i + 1).last() == v@[i as int]@);
            assert(ids.take(i + 1)[0] == ids[0]);
        }
        if i > 0 {
            out.append(separator);
            out.append(t.as_str());
        } else {
            out.append(t.as_str());
            assert(out@ =~= t@);
        }
        i = i + 1;
    }
    assert(ids.take(i as int) =~= ids);
    out
}

/// A reference as it stands in a marker.
pub open spec fn reference_text(prefix: Seq<char>, verb: RefVerb, id: (Seq<char>, u32)) -> Seq<char> {
    prefix + "["@ + verb_word(verb) + " "@ + rule_text(id) + "]"@
}

fn reference_text_of(prefix: &str, verb: RefVerb, id: &RuleId) -> (r: String)
    ensures
        r@ == reference_text(prefix@, verb, id@),
{
    let mut out = concat3(prefix, "[", verb.as_str());
    out.append(" ");
    let t = id.text();
    out.append(t.as_str());
    out.append("]");
    out
}

/// What is said of a reference to a rule that is not known.
pub open spec fn unknown_message(
    prefix: Seq<char>,
    verb: RefVerb,
    id: (Seq<char>, u32),
    known: Seq<(Seq<char>, u32)>,
) -> Seq<char> {
    let similar = similar_ids(id, known, 3);
    let said = "Unknown rule reference "@ + reference_text(prefix, verb, id);
    if similar.len() == 0 {
        said
    } else {
        said + " (did you mean: "@ + ids_text(similar, ", "@) + ")"@
    }
}

/// What is said of a reference to a rule that is not known.
pub fn unknown_rule_message_with_context(
    prefix: &str,
    verb: RefVerb,
    reference_id: &RuleId,
    known_rule_ids: &Vec<RuleId>,
) -> (r: String)
    ensures
        r@ == unknown_message(prefix@, verb, reference_id@, id_views(known_rule_ids@)),
{
    let similar = suggest_similar_rule_ids(reference_id, known_rule_ids, 3);
    let reference = reference_text_of(prefix, verb, reference_id);
    let mut out = concat2("Unknown rule reference ", reference.as_str());
    assert(id_views(similar@).len() == similar@.len());
    if similar.len() > 0 {
        out.append(" (did you mean: ");
        let ids = join_ids(&similar, ", ");
        out.append(ids.as_str());
        out.append(")");
    }
    out
}

/// The rules that a prefix refers to.
pub struct PrefixRules {
    pub prefix: String,
    pub rules: Vec<RuleId>,
}

pub open spec fn prefix_rules(v: Seq<PrefixRules>) -> Seq<(Seq<char>, Seq<(Seq<char>, u32)>)> {
    v.map_values(|p: PrefixRules| (p.prefix@, id_views(p.rules@)))
}

/// What source files are checked against: for each spec its prefix and the ids
/// of its rules.
pub struct SourceDiagnosticContext {
    pub specs: Vec<PrefixRules>,
}

/// The ids of a spec's rules, over all its implementations.
pub open spec fn spec_rule_ids(
    name: Seq<char>,
    forward: Seq<((Seq<char>, Seq<char>), Seq<RuleModel>)>,
) -> Seq<(Seq<char>, u32)>
    decreases forward.len(),
{
    if forward.len() == 0 {
        Seq::empty()
    } else {
        let before = spec_rule_ids(name, forward.drop_last());
        if (forward.last().0).0 == name {
            before + crate::api::rule_ids(forward.last().1)
        } else {
            before
        }
    }
}

/// For each spec its prefix and the ids of its rules.
pub open spec fn context_model(
    specs: Seq<SpecInfoModel>,
    forward: Seq<((Seq<char>, Seq<char>), Seq<RuleModel>)>,
) -> Seq<(Seq<char>, Seq<(Seq<char>, u32)>)> {
    specs.map_values(|s: SpecInfoModel| (s.prefix, spec_rule_ids(s.name, forward)))
}

/// A spec uses the prefix.
pub open spec fn knows_prefix(ctx: Seq<(Seq<char>, Seq<(Seq<char>, u32)>)>, prefix: Seq<char>) -> bool {
    exists|i: int| 0 <= i < ctx.len() && (#[trigger] ctx[i]).0 == prefix
}

/// The ids of the rules of all specs that use the prefix.
pub open spec fn known_ids(
    ctx: Seq<(Seq<char>, Seq<(Seq<char>, u32)>)>,
    prefix: Seq<char>,
) -> Seq<(Seq<char>, u32)>
    decreases ctx.len(),
{
    if ctx.len() == 0 {
        Seq::empty()
    } else {
        let before = known_ids(ctx.drop_last(), prefix);
        if ctx.last().0 == prefix {
            before + ctx.last().1
        } else {
            before
        }
    }
}

fn rule_ids_of_spec(name: &str, forward: &Vec<(ImplKey, ApiSpecForward)>) -> (r: Vec<RuleId>)
    ensures
        id_views(r@) == spec_rule_ids(name@, forward_models(forward@)),
{
    let ghost fs = forward_models(forward@);
    let mut out: Vec<RuleId> = Vec::new();
    let mut i: usize = 0;
    assert(id_views(out@) =~= Seq::<(Seq<char>, u32)>::empty());
    while i < forward.len()
        invariant
            i <= forward@.len(),
            fs == forward_models(forward@),
            id_views(out@) == spec_rule_ids(name@, fs.take(i as int)),
        decreases forward@.len() - i,
    {
        proof {
            assert(fs.take(i + 1).drop_last() =~= fs.take(i as int));
            assert(fs.take(i + 1).last() == fs[i as int]);
        }
        if str_eq(forward[i].0.spec_name.as_str(), name) {
            let rules = &forward[i].1.rules;
            let ghost before = id_views(out@);
            let ghost ids = crate::api::rule_ids(rule_models(rules@));
            let mut j: usize = 0;
            assert(before + ids.take(0) =~= before);
            while j < rules.len()
                invariant
                    j <= rules@.len(),
                    ids == crate::api::rule_ids(rule_models(rules@)),
                    id_views(out@) == before + ids.take(j as int),
                decreases rules@.len() - j,
            {
                let ghost now = id_views(out@);
                out.push(rules[j].id.copy());
                assert(id_views(out@) =~= now.push(rules@[j as int].id@));
                assert(ids.take(j + 1) =~= ids.take(j as int).push(ids[j as int]));
                assert(id_views(out@) =~= before + ids.take(j + 1));
                j = j + 1;
            }
            assert(ids.take(j as int) =~= ids);
        }
        i = i + 1;
    }
    assert(fs.take(i as int) =~= fs);
    out
}

/// What source files are checked against.
pub fn build_source_diagnostic_context(
    config: &ApiConfig,
    forward_by_impl: &Vec<(ImplKey, ApiSpecForward)>,
) -> (r: SourceDiagnosticContext)
    ensures
        prefix_rules(r.specs@) == context_model(
            spec_infos(config.specs@),
            forward_models(forward_by_impl@),
        ),
{
    let ghost model = context_model(spec_infos(config.specs@), forward_models(forward_by_impl@));
    let mut specs: Vec<PrefixRules> = Vec::new();
    let mut i: usize = 0;
    while i < config.specs.len()
        invariant
            i <= config.specs@.len(),
            model == context_model(spec_infos(config.specs@), forward_models(forward_by_impl@)),
            specs@.len() == i,
            forall|k: int|
                0 <= k < i ==> ((#[trigger] specs@[k]).prefix@, id_views(specs@[k].rules@))
                    == model[k],
        decreases config.specs@.len() - i,
    {
        let one = PrefixRules {
            prefix: copy_str(config.specs[i].prefix.as_str()),
            rules: rule_ids_of_spec(config.specs[i].name.as_str(), forward_by_impl),
        };
        specs.push(one);
        i = i + 1;
    }
    assert(prefix_rules(specs@) =~= model);
    SourceDiagnosticContext { specs }
}

impl SourceDiagnosticContext {
    pub open spec fn model(&self) -> Seq<(Seq<char>, Seq<(Seq<char>, u32)>)> {
        prefix_rules(self.specs@)
    }

    /// The ids of the rules that a prefix refers to, or `None` where no spec
    /// uses it.
    pub fn rules_for(&self, prefix: &str) -> (r: Option<Vec<RuleId>>)
        ensures
            match r {
                Some(ids) => knows_prefix(self.model(), prefix@) && id_views(ids@) == known_ids(
                    self.model(),
                    prefix@,
                ),
                None => !knows_prefix(self.model(), prefix@),
            },
    {
        let ghost ctx = self.model();
        let mut out: Vec<RuleId> = Vec::new();
        let mut known = false;
        let mut i: usize = 0;
        assert(id_views(out@) =~= Seq::<(Seq<char>, u32)>::empty());
        while i < self.specs.len()
            invariant
                i <= self.specs@.len(),
                ctx == prefix_rules(self.specs@),
                known == exists|k: int| 0 <= k < i && (#[trigger] ctx[k]).0 == prefix@,
                id_views(out@) == known_ids(ctx.take(i as int), prefix@),
            decreases self.specs@.len() - i,
        {
            proof {
                assert(ctx.take(i + 1).drop_last() =~= ctx.take(i as int));
                assert(ctx.take(i + 1).last() == ctx[i as int]);
            }
            if str_eq(self.specs[i].prefix.as_str(), prefix) {
                known = true;
                assert(ctx[i as int].0 == prefix@);
                let rules = &self.specs[i].rules;
                let ghost before = id_views(out@);
                let ghost ids = id_views(rules@);
                let mut j: usize = 0;
                assert(before + ids.take(0) =~= before);
                while j < rules.len()
                    invariant
                        j <= rules@.len(),
                        ids == id_views(rules@),
                        id_views(out@) == before + ids.take(j as int),
                    decreases rules@.len() - j,
                {
                    let ghost now = id_views(out@);
                    out.push(rules[j].copy());
                    assert(id_views(out@) =~= now.push(rules@[j as int]@));
                    assert(ids.take(j + 1) =~= ids.take(j as int).push(ids[j as int]));
                    assert(id_views(out@) =~= before + ids.take(j + 1));
                    j = j + 1;
                }
                assert(ids.take(j as int) =~= ids);
            }
            i = i + 1;
        }
        assert(ctx.take(i as int) =~= ctx);
        if known {
            Some(out)
        } else {
            None
        }
    }
}

/// What kind of issue a source file has.
#[derive(Debug, Clone, PartialEq, Eq)]
pub enum SourceDiagnosticIssueCode {
    UnknownPrefix,
    Stale { current_rule_id: RuleId },
    UnknownRequirement,
    ImplInTestFile,
    ParseWarning,
}

/// What kind of issue a source file has.
pub enum IssueCode {
    UnknownPrefix,
    Stale((Seq<char>, u32)),
    UnknownRequirement,
    ImplInTestFile,
    ParseWarning,
}

impl View for SourceDiagnosticIssueCode {
    type V = IssueCode;

    open spec fn view(&self) -> IssueCode {
        match self {
            SourceDiagnosticIssueCode::UnknownPrefix => IssueCode::UnknownPrefix,
            SourceDiagnosticIssueCode::Stale { current_rule_id } => IssueCode::Stale(
                current_rule_id@,
            ),
            SourceDiagnosticIssueCode::UnknownRequirement => IssueCode::UnknownRequirement,
            SourceDiagnosticIssueCode::ImplInTestFile => IssueCode::ImplInTestFile,
            SourceDiagnosticIssueCode::ParseWarning => IssueCode::ParseWarning,
        }
    }
}

/// An issue of a source file.
#[derive(Debug, Clone, PartialEq, Eq)]
pub struct SourceDiagnosticIssue {
    pub code: SourceDiagnosticIssueCode,
    pub message: String,
    pub line: usize,
    pub start_line: u32,
    pub start_char: u32,
    pub end_line: u32,
    pub end_char: u32,
    pub reference_rule_id: Option<RuleId>,
    pub reference_text: Option<String>,
}

/// What an issue says.
pub struct IssueModel {
    pub code: IssueCode,
    pub message: Seq<char>,
    pub line: usize,
    pub range: (u32, u32, u32, u32),
    pub reference_rule_id: Option<(Seq<char>, u32)>,
    pub reference_text: Option<Seq<char>>,
}

impl View for SourceDiagnosticIssue {
    type V = IssueModel;

    open spec fn view(&self) -> IssueModel {
        IssueModel {
            code: self.code@,
            message: self.message@,
            line: self.line,
            range: (self.start_line, self.start_char, self.end_line, self.end_char),
            reference_rule_id: opt_id(self.reference_rule_id),
            reference_text: opt_text(self.reference_text),
        }
    }
}

pub open spec fn issue_models(v: Seq<SourceDiagnosticIssue>) -> Seq<IssueModel> {
    v.map_values(|i: SourceDiagnosticIssue| i@)
}

/// A marker spells out its verb. One that cannot be read as `prefix[...]`
/// counts as doing so.
pub open spec fn uses_explicit_verb(
    content: Seq<char>,
    offset: usize,
    length: usize,
    prefix: Seq<char>,
) -> bool {
    match byte_slice(content, offset as int, offset + length) {
        None => true,
        Some(s) => {
            let n = prefix.len() as int;
            if has_prefix(s, prefix) && s.len() >= n + 2 && s[n] == '[' && s.last() == ']' {
                find_char(s.subrange(n + 1, s.len() - 1), ' ', 0) is Some
            } else {
                true
            }
        },
    }
}

/// Whether a marker spells out its verb.
pub fn source_reference_uses_explicit_verb(
    content: &str,
    offset: usize,
    length: usize,
    prefix: &str,
) -> (r: bool)
    ensures
        r == uses_explicit_verb(content@, offset, length, prefix@),
{
    let c = chars_of(content);
    let end = match offset.checked_add(length) {
        Some(e) => e,
        None => {
            proof {
                lemma_slice_beyond(c@, offset as int, offset + length);
            }
            return true;
        },
    };
    let text = match byte_slice_of(&c, offset, end) {
        Some(t) => t,
        None => {
            return true;
        },
    };
    let s = chars_of(text.as_str());
    let n: usize = chars_of(prefix).len();
    if !starts_with_str(&s, prefix) || s.len() - n < 2 || s[n] != '[' || s[s.len() - 1] != ']' {
        return true;
    }
    let inner = crate::text::sub_chars(&s, n + 1, s.len() - 1);
    find_char_from(&inner, ' ', 0).is_some()
}

proof fn lemma_slice_beyond(c: Seq<char>, a: int, b: int)
    requires
        b > byte_len(c),
    ensures
        byte_slice(c, a, b) is None,
{
    crate::text::lemma_char_position_some(c, b);
    if let Some(i) = crate::text::char_position(c, b) {
        crate::text::lemma_byte_len_take_mono(c, i, c.len() as int);
        assert(c.take(c.len() as int) =~= c);
    }
}

/// The issue of a reference whose prefix no spec uses.
pub open spec fn unknown_prefix_issue(content: Seq<char>, r: RefModel) -> IssueModel {
    IssueModel {
        code: IssueCode::UnknownPrefix,
        message: "Unknown prefix: '"@ + r.prefix + "'"@,
        line: r.line,
        range: span_range(content, r.span.offset, r.span.length),
        reference_rule_id: None,
        reference_text: None,
    }
}

/// The issues of a reference whose prefix is known, other than that it
/// implements in a test file.
pub open spec fn id_issues(content: Seq<char>, r: RefModel, known: Seq<(Seq<char>, u32)>) -> Seq<
    IssueModel,
> {
    let range = span_range(content, r.span.offset, r.span.length);
    match known_match(r.req_id, known) {
        Ok(None) => Seq::empty(),
        Ok(Some(rule)) => seq![
            IssueModel {
                code: IssueCode::Stale(rule),
                message: stale_message(r.req_id, Some(rule)),
                line: r.line,
                range,
                reference_rule_id: Some(r.req_id),
                reference_text: None,
            },
        ],
        Err(_) => seq![
            IssueModel {
                code: IssueCode::UnknownRequirement,
                message: unknown_message(r.prefix, r.verb, r.req_id, known),
                line: r.line,
                range,
                reference_rule_id: Some(r.req_id),
                reference_text: Some(reference_text(r.prefix, r.verb, r.req_id)),
            },
        ],
    }
}

/// The issue of a reference that implements in a test file.
pub open spec fn test_issues(content: Seq<char>, r: RefModel, is_test: bool) -> Seq<IssueModel> {
    if is_test && r.verb == RefVerb::Impl {
        seq![
            IssueModel {
                code: IssueCode::ImplInTestFile,
                message: "Implementation reference in test file (use 'verify' instead)"@,
                line: r.line,
                range: span_range(content, r.span.offset, r.span.length),
                reference_rule_id: Some(r.req_id),
                reference_text: None,
            },
        ]
    } else {
        Seq::empty()
    }
}

/// The issues of one reference. One with a prefix that no spec uses is passed
/// over unless it spells out its verb.
pub open spec fn reference_issues(
    content: Seq<char>,
    r: RefModel,
    is_test: bool,
    ctx: Seq<(Seq<char>, Seq<(Seq<char>, u32)>)>,
) -> Seq<IssueModel> {
    if !knows_prefix(ctx, r.prefix) {
        if uses_explicit_verb(content, r.span.offset, r.span.length, r.prefix) {
            seq![unknown_prefix_issue(content, r)]
        } else {
            Seq::empty()
        }
    } else {
        id_issues(content, r, known_ids(ctx, r.prefix)) + test_issues(content, r, is_test)
    }
}

/// The issue of a marker that could not be read.
pub open spec fn warning_issue(content: Seq<char>, w: WarningModel) -> IssueModel {
    IssueModel {
        code: IssueCode::ParseWarning,
        message: match w.unknown_verb {
            Some(v) => "Unknown verb: '"@ + v + "'"@,
            None => "Malformed reference"@,
        },
        line: w.line,
        range: span_range(content, w.span.offset, w.span.length),
        reference_rule_id: None,
        reference_text: None,
    }
}

/// The issues of the first `n` references.
pub open spec fn references_issues(
    content: Seq<char>,
    refs: Seq<RefModel>,
    n: int,
    is_test: bool,
    ctx: Seq<(Seq<char>, Seq<(Seq<char>, u32)>)>,
) -> Seq<IssueModel>
    decreases n,
{
    if n <= 0 {
        Seq::empty()
    } else {
        references_issues(content, refs, n - 1, is_test, ctx) + reference_issues(
            content,
            refs[n - 1],
            is_test,
            ctx,
        )
    }
}

/// The issues of a source file: those of its references, then those of the
/// markers that could not be read. Without any spec there are none.
pub open spec fn source_issues(
    content: Seq<char>,
    refs: Seq<RefModel>,
    warnings: Seq<WarningModel>,
    is_test: bool,
    ctx: Seq<(Seq<char>, Seq<(Seq<char>, u32)>)>,
) -> Seq<IssueModel> {
    if ctx.len() == 0 {
        Seq::empty()
    } else {
        references_issues(content, refs, refs.len() as int, is_test, ctx) + warnings.map_values(
            |w: WarningModel| warning_issue(content, w),
        )
    }
}

proof fn lemma_issues_push(v: Seq<SourceDiagnosticIssue>, i: SourceDiagnosticIssue)
    ensures
        issue_models(v.push(i)) == issue_models(v).push(i@),
{
    assert(issue_models(v.push(i)) =~= issue_models(v).push(i@));
}

fn push_reference_issues(
    out: &mut Vec<SourceDiagnosticIssue>,
    content: &str,
    r: &ReqReference,
    is_test: bool,
    ctx: &SourceDiagnosticContext,
)
    ensures
        issue_models(final(out)@) == issue_models(old(out)@) + reference_issues(
            content@,
            r@,
            is_test,
            ctx.model(),
        ),
{
    let (start_line, start_char, end_line, end_char) = span_to_range(
        content,
        r.span.offset,
        r.span.length,
    );
    let ghost start = issue_models(out@);
    let known = match ctx.rules_for(r.prefix.as_str()) {
        Some(k) => k,
        None => {
            if source_reference_uses_explicit_verb(
                content,
                r.span.offset,
                r.span.length,
                r.prefix.as_str(),
            ) {
                let issue = SourceDiagnosticIssue {
                    code: SourceDiagnosticIssueCode::UnknownPrefix,
                    message: concat3("Unknown prefix: '", r.prefix.as_str(), "'"),
                    line: r.line,
                    start_line,
                    start_char,
                    end_line,
                    end_char,
                    reference_rule_id: None,
                    reference_text: None,
                };
                proof {
                    lemma_issues_push(out@, issue);
                }
                out.push(issue);
                assert(start.push(issue@) =~= start + seq![issue@]);
            } else {
                assert(start + Seq::<IssueModel>::empty() =~= start);
            }
            return;
        },
    };
    match classify_reference_against_known_rules(&r.req_id, &known) {
        KnownRuleMatch::Exact => {
            assert(start + id_issues(content@, r@, id_views(known@)) =~= start);
        },
        KnownRuleMatch::Stale(current_rule_id) => {
            let message = stale_diagnostic_message_short(&r.req_id, Some(&current_rule_id));
            let issue = SourceDiagnosticIssue {
                code: SourceDiagnosticIssueCode::Stale { current_rule_id },
                message,
                line: r.line,
                start_line,
                start_char,
                end_line,
                end_char,
                reference_rule_id: Some(r.req_id.copy()),
                reference_text: None,
            };
            proof {
                lemma_issues_push(out@, issue);
            }
            out.push(issue);
            assert(start.push(issue@) =~= start + seq![issue@]);
        },
        KnownRuleMatch::Missing => {
            let message = unknown_rule_message_with_context(
                r.prefix.as_str(),
                r.verb,
                &r.req_id,
                &known,
            );
            let issue = SourceDiagnosticIssue {
                code: SourceDiagnosticIssueCode::UnknownRequirement,
                message,
                line: r.line,
                start_line,
                start_char,
                end_line,
                end_char,
                reference_rule_id: Some(r.req_id.copy()),
                reference_text: Some(reference_text_of(r.prefix.as_str(), r.verb, &r.req_id)),
            };
            proof {
                lemma_issues_push(out@, issue);
            }
            out.push(issue);
            assert(start.push(issue@) =~= start + seq![issue@]);
        },
    }
    let ghost mid = issue_models(out@);
    assert(mid == start + id_issues(content@, r@, id_views(known@)));
    if is_test && r.verb == RefVerb::Impl {
        let issue = SourceDiagnosticIssue {
            code: SourceDiagnosticIssueCode::ImplInTestFile,
            message: copy_str("Implementation reference in test file (use 'verify' instead)"),
            line: r.line,
            start_line,
            start_char,
            end_line,
            end_char,
            reference_rule_id: Some(r.req_id.copy()),
            reference_text: None,
        };
        proof {
            lemma_issues_push(out@, issue);
        }
        out.push(issue);
        assert(mid.push(issue@) =~= mid + seq![issue@]);
    } else {
        assert(mid + Seq::<IssueModel>::empty() =~= mid);
    }
    assert(issue_models(out@) =~= start + reference_issues(content@, r@, is_test, ctx.model()));
}

/// Collect the issues of a source file.
pub fn collect_source_diagnostic_issues(
    content: &str,
    reqs: &Reqs,
    is_test: bool,
    ctx: &SourceDiagnosticContext,
) -> (r: Vec<SourceDiagnosticIssue>)
    ensures
        issue_models(r@) == source_issues(
            content@,
            reqs@.references,
            reqs@.warnings,
            is_test,
            ctx.model(),
        ),
{
    let mut out: Vec<SourceDiagnosticIssue> = Vec::new();
    assert(issue_models(out@) =~= Seq::<IssueModel>::empty());
    assert(ctx.model().len() == ctx.specs@.len());
    if ctx.specs.len() == 0 {
        return out;
    }
    let ghost refs = reqs@.references;
    let mut i: usize = 0;
    while i < reqs.references.len()
        invariant
            i <= reqs.references@.len(),
            refs == ref_models(reqs.references@),
            issue_models(out@) == references_issues(content@, refs, i as int, is_test, ctx.model()),
        decreases reqs.references@.len() - i,
    {
        push_reference_issues(&mut out, content, &reqs.references[i], is_test, ctx);
        assert(refs[i as int] == reqs.references@[i as int]@);
        i = i + 1;
    }
    let ghost first = issue_models(out@);
    let ghost ws = reqs@.warnings.map_values(|w: WarningModel| warning_issue(content@, w));
    let mut j: usize = 0;
    assert(first + ws.take(0) =~= first);
    while j < reqs.warnings.len()
        invariant
            j <= reqs.warnings@.len(),
            ws == reqs@.warnings.map_values(|w: WarningModel| warning_issue(content@, w)),
            reqs@.warnings == warning_models(reqs.warnings@),
            issue_models(out@) == first + ws.take(j as int),
        decreases reqs.warnings@.len() - j,
    {
        let w = &reqs.warnings[j];
        let (start_line, start_char, end_line, end_char) = span_to_range(
            content,
            w.span.offset,
            w.span.length,
        );
        let message = match &w.kind {
            WarningKind::UnknownVerb(verb) => concat3("Unknown verb: '", verb.as_str(), "'"),
            WarningKind::MalformedReference => copy_str("Malformed reference"),
        };
        let issue = SourceDiagnosticIssue {
            code: SourceDiagnosticIssueCode::ParseWarning,
            message,
            line: w.line,
            start_line,
            start_char,
            end_line,
            end_char,
            reference_rule_id: None,
            reference_text: None,
        };
        proof {
            lemma_issues_push(out@, issue);
            assert(ws[j as int] == warning_issue(content@, w@));
            assert(issue@ == ws[j as int]);
            assert(ws.take(j + 1) =~= ws.take(j as int).push(ws[j as int]));
        }
        out.push(issue);
        assert(issue_models(out@) =~= first + ws.take(j + 1));
        j = j + 1;
    }
    assert(ws.take(j as int) =~= ws);
    out
}

/// The severity and code that an issue has in an editor.
pub open spec fn issue_severity(code: IssueCode) -> (Seq<char>, Seq<char>) {
    match code {
        IssueCode::UnknownPrefix => ("hint"@, "unknown-prefix"@),
        IssueCode::Stale(_) => ("warning"@, "stale"@),
        IssueCode::UnknownRequirement => ("warning"@, "orphaned"@),
        IssueCode::ImplInTestFile => ("warning"@, "impl-in-test"@),
        IssueCode::ParseWarning => ("warning"@, "parse-warning"@),
    }
}

/// An issue as a diagnostic.
pub open spec fn issue_diagnostic(i: IssueModel) -> DiagnosticModel {
    DiagnosticModel {
        severity: issue_severity(i.code).0,
        code: issue_severity(i.code).1,
        message: i.message,
        range: i.range,
    }
}

/// Turn an issue into a diagnostic for an editor.
pub fn source_issue_to_lsp(issue: &SourceDiagnosticIssue) -> (r: LspDiagnostic)
    ensures
        r@ == issue_diagnostic(issue@),
{
    let (severity, code) = match &issue.code {
        SourceDiagnosticIssueCode::UnknownPrefix => ("hint", "unknown-prefix"),
        SourceDiagnosticIssueCode::Stale { .. } => ("warning", "stale"),
        SourceDiagnosticIssueCode::UnknownRequirement => ("warning", "orphaned"),
        SourceDiagnosticIssueCode::ImplInTestFile => ("warning", "impl-in-test"),
        SourceDiagnosticIssueCode::ParseWarning => ("warning", "parse-warning"),
    };
    LspDiagnostic {
        severity: copy_str(severity),
        code: copy_str(code),
        message: copy_str(issue.message.as_str()),
        start_line: issue.start_line,
        start_char: issue.start_char,
        end_line: issue.end_line,
        end_char: issue.end_char,
    }
}

} // verus!
