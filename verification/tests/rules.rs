use tracey::diagnostics::{
    classify_reference_against_known_rules, stale_diagnostic_message_short,
    suggest_similar_rule_ids, unknown_rule_message_with_context, KnownRuleMatch,
};
use tracey::refs::RefVerb;
use tracey::rule_id::{classify_reference_for_rule, parse_rule_id, RuleId, RuleIdMatch};
use tracey::validation::is_valid_rule_id;

fn rid(s: &str) -> RuleId {
    parse_rule_id(s).expect("valid rule id")
}

#[test]
fn rule_ids_are_read_and_written() {
    assert_eq!(rid("auth.login").version, 1);
    assert_eq!(rid("auth.login+3").version, 3);
    assert_eq!(rid("auth.login+3").base, "auth.login");
    for s in ["auth.login", "auth.login+2", "a+4294967295"] {
        assert_eq!(rid(s).text(), s);
    }
    for s in ["", "+2", "a+", "a+0", "a+x", "a+b+2", "a+4294967296"] {
        assert_eq!(parse_rule_id(s), None, "{s}");
    }
}

#[test]
fn references_are_classified_by_version() {
    assert_eq!(classify_reference_for_rule(&rid("a+2"), &rid("a+2")), RuleIdMatch::Exact);
    assert_eq!(classify_reference_for_rule(&rid("a+2"), &rid("a")), RuleIdMatch::Stale);
    assert_eq!(classify_reference_for_rule(&rid("a"), &rid("a+2")), RuleIdMatch::NoMatch);
    assert_eq!(classify_reference_for_rule(&rid("a"), &rid("b")), RuleIdMatch::NoMatch);
}

#[test]
fn a_reference_is_stale_only_where_a_newer_rule_is_known() {
    let known = vec![rid("b"), rid("a+2"), rid("a+3")];
    assert_eq!(
        classify_reference_against_known_rules(&rid("a"), &known),
        KnownRuleMatch::Stale(rid("a+3"))
    );
    assert_eq!(
        classify_reference_against_known_rules(&rid("a+3"), &known),
        KnownRuleMatch::Exact
    );
    assert_eq!(
        classify_reference_against_known_rules(&rid("c"), &known),
        KnownRuleMatch::Missing
    );
}

#[test]
fn stale_messages_name_both_versions() {
    let m = stale_diagnostic_message_short(&rid("a"), Some(&rid("a+2")));
    assert!(m.ends_with(". Reference 'a' is stale; current rule is 'a+2'."), "{m}");
    assert!(m.starts_with("Implementation must be changed to match updated rule text"));
    let m = stale_diagnostic_message_short(&rid("a"), None);
    assert!(m.ends_with("but the latest matching rule could not be loaded."), "{m}");
}

#[test]
fn unknown_references_get_suggestions() {
    let known = vec![rid("auth.login"), rid("billing.pay")];
    let found = suggest_similar_rule_ids(&rid("auth.logn"), &known, 3);
    assert_eq!(found.first(), Some(&rid("auth.login")));
    let m = unknown_rule_message_with_context("r", RefVerb::Impl, &rid("auth.logn"), &known);
    assert_eq!(m, "Unknown rule reference r[impl auth.logn] (did you mean: auth.login)");
    let m = unknown_rule_message_with_context("r", RefVerb::Verify, &rid("zzz"), &vec![]);
    assert_eq!(m, "Unknown rule reference r[verify zzz]");
}

#[test]
fn rule_names_follow_the_convention() {
    assert!(is_valid_rule_id(&rid("auth.login-flow")));
    assert!(!is_valid_rule_id(&rid("auth..login")));
    assert!(!is_valid_rule_id(&rid("auth.log in")));
}
