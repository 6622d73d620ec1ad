//! Rule identifiers with an optional version.

use vstd::prelude::*;

use crate::bindings::marq_parse_rule_id;
use crate::numbers::{decimal, decimal_of, decimal_value, is_decimal, is_digit, lemma_decimal_value};
use crate::text::{concat3, copy_str, rfind_char, str_eq};

verus! {

/// Structured rule identifier with optional version.
#[derive(Debug, Clone, PartialEq, Eq, PartialOrd, Ord, Hash)]
pub struct RuleId {
    /// Base identifier without version suffix.
    pub base: String,
    /// Version number (unversioned ids are version 1).
    pub version: u32,
}

impl View for RuleId {
    type V = (Seq<char>, u32);

    open spec fn view(&self) -> (Seq<char>, u32) {
        (self.base@, self.version)
    }
}

/// How a rule id is written: the base alone for version 1, else `base+N`.
pub open spec fn rule_text(id: (Seq<char>, u32)) -> Seq<char> {
    if id.1 == 1 {
        id.0
    } else {
        id.0 + "+"@ + decimal(id.1 as nat)
    }
}

/// The rule id that a text writes: `base`, or `base+N` with `N` at least 1.
pub open spec fn parsed_rule_id(s: Seq<char>) -> Option<(Seq<char>, u32)> {
    match rfind_char(s, '+') {
        None => if s.len() == 0 {
            None
        } else {
            Some((s, 1u32))
        },
        Some(p) => {
            let base = s.subrange(0, p);
            let number = s.subrange(p + 1, s.len() as int);
            if base.len() > 0 && !base.contains('+') && is_decimal(number) && 1 <= decimal_value(
                number,
            ) <= u32::MAX {
                Some((base, decimal_value(number) as u32))
            } else {
                None
            }
        },
    }
}

/// The ids held by a sequence of rule ids.
pub open spec fn id_views(v: Seq<RuleId>) -> Seq<(Seq<char>, u32)> {
    v.map_values(|r: RuleId| r@)
}

/// The id held by an optional rule id.
pub open spec fn opt_id(o: Option<RuleId>) -> Option<(Seq<char>, u32)> {
    match o {
        Some(r) => Some(r@),
        None => None,
    }
}

impl RuleId {
    /// The id as it is written in a marker.
    pub fn text(&self) -> (r: String)
        ensures
            r@ == rule_text(self@),
    {
        if self.version == 1 {
            copy_str(self.base.as_str())
        } else {
            let n = decimal_of(self.version as u128);
            concat3(self.base.as_str(), "+", n.as_str())
        }
    }

    /// An equal id.
    pub fn copy(&self) -> (r: RuleId)
        ensures
            r@ == self@,
    {
        RuleId { base: copy_str(self.base.as_str()), version: self.version }
    }

    /// Whether two ids have the same base and version.
    pub fn same(&self, other: &RuleId) -> (r: bool)
        ensures
            r == (self@ == other@),
    {
        self.version == other.version && str_eq(self.base.as_str(), other.base.as_str())
    }
}

/// Equal ids.
pub fn copy_ids(v: &Vec<RuleId>) -> (r: Vec<RuleId>)
    ensures
        id_views(r@) == id_views(v@),
{
    let mut out: Vec<RuleId> = Vec::new();
    let mut i: usize = 0;
    while i < v.len()
        invariant
            i <= v@.len(),
            out@.len() == i,
            forall|k: int| 0 <= k < i ==> (#[trigger] out@[k])@ == v@[k]@,
        decreases v@.len() - i,
    {
        out.push(v[i].copy());
        i = i + 1;
    }
    assert(id_views(out@) =~= id_views(v@));
    out
}

/// Parse a rule id with an optional `+N` version suffix.
pub fn parse_rule_id(id: &str) -> (r: Option<RuleId>)
    ensures
        opt_id(r) == parsed_rule_id(id@),
{
    marq_parse_rule_id(id)
}

/// How a reference relates to a rule.
#[derive(Debug, Clone, Copy, PartialEq, Eq, Structural)]
pub enum RuleIdMatch {
    /// Same base, same version.
    Exact,
    /// Same base, but the reference names an older version.
    Stale,
    /// Another rule, or a newer version than the rule has.
    NoMatch,
}

pub open spec fn reference_match(rule: (Seq<char>, u32), reference: (Seq<char>, u32)) -> RuleIdMatch {
    if rule.0 != reference.0 {
        RuleIdMatch::NoMatch
    } else if rule.1 == reference.1 {
        RuleIdMatch::Exact
    } else if reference.1 < rule.1 {
        RuleIdMatch::Stale
    } else {
        RuleIdMatch::NoMatch
    }
}

/// Classify a reference against one rule.
pub fn classify_reference_for_rule(rule: &RuleId, reference: &RuleId) -> (r: RuleIdMatch)
    ensures
        r == reference_match(rule@, reference@),
{
    if !str_eq(rule.base.as_str(), reference.base.as_str()) {
        RuleIdMatch::NoMatch
    } else if rule.version == reference.version {
        RuleIdMatch::Exact
    } else if reference.version < rule.version {
        RuleIdMatch::Stale
    } else {
        RuleIdMatch::NoMatch
    }
}

/// An id can be written and read back.
pub open spec fn writable(id: (Seq<char>, u32)) -> bool {
    id.0.len() > 0 && !id.0.contains('+') && id.1 >= 1
}

/// Every id that parsing yields can be written.
pub proof fn law_parsed_is_writable(s: Seq<char>)
    ensures
        parsed_rule_id(s) matches Some(id) ==> writable(id),
{
    lemma_rfind_char(s, '+');
}

/// Writing an id and parsing the text gives the id back.
pub proof fn law_rule_text_roundtrip(id: (Seq<char>, u32))
    requires
        writable(id),
    ensures
        parsed_rule_id(rule_text(id)) == Some(id),
{
    reveal_strlit("+");
    let s = rule_text(id);
    lemma_rfind_char(s, '+');
    if id.1 == 1 {
        if let Some(p) = rfind_char(s, '+') {
            assert(s.contains(s[p]));
        }
    } else {
        lemma_decimal_value(id.1 as nat);
        let d = decimal(id.1 as nat);
        let n = id.0.len() as int;
        assert(s[n] == '+');
        let p = rfind_char(s, '+')->0;
        assert(rfind_char(s, '+') is Some);
        if p > n {
            assert(s[p] == d[p - n - 1]);
            assert(is_digit(d[p - n - 1]));
        }
        assert(p == n);
        assert(s.subrange(0, p) =~= id.0);
        assert(s.subrange(p + 1, s.len() as int) =~= d);
    }
}

/// Different ids are written differently.
pub proof fn law_rule_text_injective(a: (Seq<char>, u32), b: (Seq<char>, u32))
    requires
        writable(a),
        writable(b),
        rule_text(a) == rule_text(b),
    ensures
        a == b,
{
    law_rule_text_roundtrip(a);
    law_rule_text_roundtrip(b);
}

proof fn lemma_rfind_char(s: Seq<char>, c: char)
    ensures
        match rfind_char(s, c) {
            Some(i) => 0 <= i < s.len() && s[i] == c && forall|j: int| i < j < s.len() ==> s[j] != c,
            None => forall|j: int| 0 <= j < s.len() ==> s[j] != c,
        },
    decreases s.len(),
{
    if s.len() > 0 && s.last() != c {
        lemma_rfind_char(s.drop_last(), c);
        assert forall|j: int| 0 <= j < s.len() - 1 implies s[j] == s.drop_last()[j] by {}
    }
}

} // verus!
