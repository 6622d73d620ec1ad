//! Completions inside markers.

use vstd::prelude::*;

use crate::api::{forward_models, rule_models, ApiSpecForward, ImplKey, RuleModel, SpecInfoModel};
use crate::lsp::{ProjectModel, ProjectView};
use crate::rule_id::rule_text;
use crate::split::{lines, lines_of};
use crate::text::{
    byte_len, char_position, char_position_of, chars_of, concat2, copy_str, find_char,
    find_char_from, has_prefix, opt_text, rfind_str, rfind_upto, sub_chars,
};

verus! {

/// Something that may be inserted.
#[derive(Debug, Clone, PartialEq, Eq)]
pub struct LspCompletionItem {
    pub label: String,
    pub kind: String,
    pub detail: Option<String>,
    pub documentation: Option<String>,
    pub insert_text: Option<String>,
}

/// Something that may be inserted.
#[verifier::ext_equal]
pub struct ItemModel {
    pub label: Seq<char>,
    pub kind: Seq<char>,
    pub detail: Option<Seq<char>>,
    pub documentation: Option<Seq<char>>,
    pub insert_text: Option<Seq<char>>,
}

impl View for LspCompletionItem {
    type V = ItemModel;

    open spec fn view(&self) -> ItemModel {
        ItemModel {
            label: self.label@,
            kind: self.kind@,
            detail: opt_text(self.detail),
            documentation: opt_text(self.documentation),
            insert_text: opt_text(self.insert_text),
        }
    }
}

pub open spec fn item_models(v: Seq<LspCompletionItem>) -> Seq<ItemModel> {
    v.map_values(|i: LspCompletionItem| i@)
}

/// The text of a line before a column, which counts bytes.
pub open spec fn before_column(line: Seq<char>, column: u32) -> Option<Seq<char>> {
    let at = if column <= byte_len(line) {
        column as int
    } else {
        byte_len(line) as int
    };
    match char_position(line, at) {
        Some(k) => Some(line.take(k)),
        None => None,
    }
}

/// What follows the last `prefix[` of a text.
pub open spec fn after_marker(before: Seq<char>, prefix: Seq<char>) -> Option<Seq<char>> {
    let pattern = prefix + "["@;
    match rfind_upto(before, pattern, before.len() as int) {
        Some(k) => Some(before.skip(k + pattern.len())),
        None => None,
    }
}

/// What follows the last marker of the first spec, from the `i`-th on, whose
/// marker stands in a text.
pub open spec fn after_first_marker(before: Seq<char>, specs: Seq<SpecInfoModel>, i: int) -> Option<
    Seq<char>,
>
    decreases specs.len() - i,
{
    if i < 0 || i >= specs.len() {
        None
    } else {
        match after_marker(before, specs[i].prefix) {
            Some(a) => Some(a),
            None => after_first_marker(before, specs, i + 1),
        }
    }
}

/// A verb that may be inserted: nothing where it does not begin with what was
/// typed.
pub open spec fn verb_item(verb: Seq<char>, description: Seq<char>, typed: Seq<char>) -> Seq<ItemModel> {
    if has_prefix(verb + " "@, typed) {
        seq![
            ItemModel {
                label: verb,
                kind: "verb"@,
                detail: Some(description),
                documentation: None,
                insert_text: Some(verb + " "@),
            },
        ]
    } else {
        Seq::empty()
    }
}

/// The verbs that may be inserted.
pub open spec fn verb_items(typed: Seq<char>) -> Seq<ItemModel> {
    verb_item("impl"@, "Implementation of a requirement"@, typed) + verb_item(
        "verify"@,
        "Test/verification of a requirement"@,
        typed,
    ) + verb_item("depends"@, "Dependency on another requirement"@, typed) + verb_item(
        "related"@,
        "Related requirement"@,
        typed,
    )
}

/// The rules of all implementations, each with the name of its spec.
pub open spec fn named_rules(forward: Seq<((Seq<char>, Seq<char>), Seq<RuleModel>)>) -> Seq<
    (Seq<char>, RuleModel),
>
    decreases forward.len(),
{
    if forward.len() == 0 {
        Seq::empty()
    } else {
        named_rules(forward.drop_last()) + forward.last().1.map_values(
            |r: RuleModel| (forward.last().0.0, r),
        )
    }
}

/// The rules whose base begins with what was typed.
pub open spec fn rule_items(rules: Seq<(Seq<char>, RuleModel)>, query: Seq<char>) -> Seq<ItemModel>
    decreases rules.len(),
{
    if rules.len() == 0 {
        Seq::empty()
    } else {
        let before = rule_items(rules.drop_last(), query);
        let (spec_name, r) = rules.last();
        if has_prefix(r.id.0, query) {
            before.push(
                ItemModel {
                    label: rule_text(r.id),
                    kind: "rule"@,
                    detail: Some(spec_name),
                    documentation: Some(r.raw),
                    insert_text: None,
                },
            )
        } else {
            before
        }
    }
}

/// What may be inserted behind what was typed in a marker: verbs as long as
/// there is no space, and rules; nothing behind a closed marker.
pub open spec fn items_for(typed: Seq<char>, rules: Seq<(Seq<char>, RuleModel)>) -> Seq<ItemModel> {
    if find_char(typed, ']', 0) is Some {
        Seq::empty()
    } else {
        match find_char(typed, ' ', 0) {
            Some(k) => rule_items(rules, typed.skip(k + 1)),
            None => verb_items(typed) + rule_items(rules, typed),
        }
    }
}

/// What may be inserted at a position.
pub open spec fn completions(p: ProjectModel, content: Seq<char>, line: u32, character: u32) -> Seq<
    ItemModel,
> {
    let all = lines(content);
    if line >= all.len() {
        Seq::empty()
    } else {
        match before_column(all[line as int], character) {
            None => Seq::empty(),
            Some(before) => match after_first_marker(before, p.specs, 0) {
                Some(typed) => items_for(typed, named_rules(p.forward)),
                None => Seq::empty(),
            },
        }
    }
}

fn push_verb(out: &mut Vec<LspCompletionItem>, verb: &str, description: &str, typed: &Vec<char>)
    ensures
        item_models(final(out)@) == item_models(old(out)@) + verb_item(
            verb@,
            description@,
            typed@,
        ),
{
    let ghost start = item_models(out@);
    let text = concat2(verb, " ");
    let chars = chars_of(text.as_str());
    if crate::text::stands_at(&chars, typed, 0) {
        let one = LspCompletionItem {
            label: copy_str(verb),
            kind: copy_str("verb"),
            detail: Some(copy_str(description)),
            documentation: None,
            insert_text: Some(text),
        };
        let ghost before = out@;
        out.push(one);
        assert(item_models(out@) =~= item_models(before) + seq![one@]);
    } else {
        assert(start + Seq::<ItemModel>::empty() =~= start);
    }
}

fn push_rules(
    out: &mut Vec<LspCompletionItem>,
    forward: &Vec<(ImplKey, ApiSpecForward)>,
    query: &Vec<char>,
)
    ensures
        item_models(final(out)@) == item_models(old(out)@) + rule_items(
            named_rules(forward_models(forward@)),
            query@,
        ),
{
    let ghost head = item_models(out@);
    let ghost fs = forward_models(forward@);
    let mut i: usize = 0;
    proof {
        assert(fs.take(0) =~= Seq::<((Seq<char>, Seq<char>), Seq<RuleModel>)>::empty());
        assert(head + rule_items(named_rules(fs.take(0)), query@) =~= head);
    }
    while i < forward.len()
        invariant
            i <= forward@.len(),
            fs == forward_models(forward@),
            item_models(out@) == head + rule_items(named_rules(fs.take(i as int)), query@),
        decreases forward@.len() - i,
    {
        let rules = &forward[i].1.rules;
        let spec_name = forward[i].0.spec_name.as_str();
        let ghost rs = rule_models(rules@).map_values(|r: RuleModel| (spec_name@, r));
        let ghost start = named_rules(fs.take(i as int));
        proof {
            assert(fs.take(i + 1).drop_last() =~= fs.take(i as int));
            assert(fs.take(i + 1).last() == fs[i as int]);
            assert(named_rules(fs.take(i + 1)) =~= start + rs);
            assert(start + rs.take(0) =~= start);
        }
        let mut j: usize = 0;
        while j < rules.len()
            invariant
                j <= rules@.len(),
                rs == rule_models(rules@).map_values(|r: RuleModel| (spec_name@, r)),
                item_models(out@) == head + rule_items(start + rs.take(j as int), query@),
            decreases rules@.len() - j,
        {
            let rule = &rules[j];
            proof {
                assert(rs[j as int] == (spec_name@, rule@));
                assert((start + rs.take(j + 1)).drop_last() =~= start + rs.take(j as int));
                assert((start + rs.take(j + 1)).last() == (spec_name@, rule@));
            }
            let base = chars_of(rule.id.base.as_str());
            if crate::text::stands_at(&base, query, 0) {
                let one = LspCompletionItem {
                    label: rule.id.text(),
                    kind: copy_str("rule"),
                    detail: Some(copy_str(spec_name)),
                    documentation: Some(copy_str(rule.raw.as_str())),
                    insert_text: None,
                };
                let ghost before = out@;
                out.push(one);
                proof {
                    assert(item_models(out@) =~= item_models(before).push(one@));
                    assert(item_models(out@) =~= head + rule_items(start + rs.take(j + 1), query@));
                }
            }
            j = j + 1;
        }
        assert(rs.take(j as int) =~= rs);
        i = i + 1;
    }
    assert(fs.take(i as int) =~= fs);
}

fn typed_after_marker(before: &Vec<char>, prefix: &str) -> (r: Option<Vec<char>>)
    ensures
        match (r, after_marker(before@, prefix@)) {
            (Some(a), Some(b)) => a@ == b,
            (None, None) => true,
            _ => false,
        },
{
    let pattern = concat2(prefix, "[");
    let n: usize = pattern.as_str().unicode_len();
    match rfind_str(before, pattern.as_str(), before.len()) {
        Some(k) => {
            let rest = sub_chars(before, k + n, before.len());
            assert(before@.subrange(k + n, before@.len() as int) =~= before@.skip(k + n));
            Some(rest)
        },
        None => None,
    }
}

/// Get completions for a position. The column counts bytes of the line.
pub fn lsp_completions(p: &ProjectView<'_>, content: &str, line: u32, character: u32) -> (r: Vec<
    LspCompletionItem,
>)
    requires
        line < lines(content@).len() ==> before_column(
            lines(content@)[line as int],
            character,
        ) is Some,
    ensures
        item_models(r@) == completions(p@, content@, line, character),
{
    let mut out: Vec<LspCompletionItem> = Vec::new();
    assert(item_models(out@) =~= Seq::<ItemModel>::empty());
    let all = lines_of(content);
    assert(lines(content@).len() == all@.len());
    if line as usize >= all.len() {
        return out;
    }
    assert(lines(content@)[line as int] == all@[line as int]@);
    let text = chars_of(all[line as usize].as_str());
    let size = crate::text::byte_offset_of(&text, text.len());
    assert(text@.take(text@.len() as int) =~= text@);
    let column: usize = if character as usize <= size {
        character as usize
    } else {
        size
    };
    let at = match char_position_of(&text, column) {
        Some(k) => k,
        None => {
            return out;
        },
    };
    let before = sub_chars(&text, 0, at);
    assert(text@.subrange(0, at as int) =~= text@.take(at as int));
    let ghost specs = p@.specs;
    let mut i: usize = 0;
    while i < p.config.specs.len()
        invariant
            i <= p.config.specs@.len(),
            specs == p@.specs,
            specs == crate::api::spec_infos(p.config.specs@),
            item_models(out@) == Seq::<ItemModel>::empty(),
            after_first_marker(before@, specs, 0) == after_first_marker(before@, specs, i as int),
            completions(p@, content@, line, character) == match after_first_marker(
                before@,
                specs,
                0,
            ) {
                Some(typed) => items_for(typed, named_rules(p@.forward)),
                None => Seq::empty(),
            },
        decreases p.config.specs@.len() - i,
    {
        assert(specs[i as int] == p.config.specs@[i as int]@);
        match typed_after_marker(&before, p.config.specs[i].prefix.as_str()) {
            Some(typed) => {
                if find_char_from(&typed, ']', 0).is_some() {
                    return out;
                }
                match find_char_from(&typed, ' ', 0) {
                    Some(k) => {
                        let query = sub_chars(&typed, k + 1, typed.len());
                        assert(typed@.subrange(k + 1, typed@.len() as int) =~= typed@.skip(k + 1));
                        push_rules(&mut out, p.forward, &query);
                        assert(item_models(out@) =~= items_for(typed@, named_rules(p@.forward)));
                    },
                    None => {
                        push_verb(&mut out, "impl", "Implementation of a requirement", &typed);
                        push_verb(
                            &mut out,
                            "verify",
                            "Test/verification of a requirement",
                            &typed,
                        );
                        push_verb(
                            &mut out,
                            "depends",
                            "Dependency on another requirement",
                            &typed,
                        );
                        push_verb(&mut out, "related", "Related requirement", &typed);
                        assert(item_models(out@) =~= verb_items(typed@));
                        push_rules(&mut out, p.forward, &typed);
                    },
                }
                return out;
            },
            None => {},
        }
        i = i + 1;
    }
    out
}

} // verus!
