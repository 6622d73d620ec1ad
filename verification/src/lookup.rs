//! Finding rules and references by position.

use vstd::prelude::*;

use crate::api::{forward_models, rule_models, ApiSpecForward, ImplKey, RuleModel};
use crate::document::{code_spans, DocModel, InlineCodeSpan, SpecDoc};
use crate::format::{path_format, SpecFormat};
use crate::paths::{components, components_of, same_path};
use crate::positions::{char_start, line_col, span_range};
use crate::refs::{ref_models, RefModel, Reqs};
use crate::requirement::{req_models, ReqDefinition, ReqModel, SourceSpan};
use crate::rule_id::{parse_rule_id, parsed_rule_id, rule_text, RuleId};
use crate::spec_diagnostics::{inline_reference, parse_inline_rule_reference};
use crate::split::{split_char, split_char_of};
use crate::text::{
    byte_len, byte_offset_of, chars_of, copy_str, lemma_char_position_some, same_index, str_eq, texts,
};
use crate::validation::{source_models, SourceFile, SourceModel};

verus! {

/// Position of the first character behind the `n`-th line break from position
/// `from` on.
pub open spec fn line_start(c: Seq<char>, n: nat, from: int) -> Option<int>
    decreases c.len() - from,
{
    if n == 0 {
        Some(from)
    } else if from < 0 || from >= c.len() {
        None
    } else if c[from] == '\n' {
        line_start(c, (n - 1) as nat, from + 1)
    } else {
        line_start(c, n, from + 1)
    }
}

/// Position of the line break that ends the line at `from`, or the end.
pub open spec fn line_end(c: Seq<char>, from: int) -> int
    decreases c.len() - from,
{
    if from < 0 || from >= c.len() || c[from] == '\n' {
        from
    } else {
        line_end(c, from + 1)
    }
}

/// The byte offset of a 0-indexed line and column; a column past the end of the
/// line stands for the end of the line.
pub open spec fn offset_at(c: Seq<char>, line: u32, col: u32) -> Option<int> {
    match line_start(c, line as nat, 0) {
        None => None,
        Some(s) => {
            let e = line_end(c, s);
            let at = if s + col <= e {
                s + col
            } else {
                e
            };
            Some(byte_len(c.take(at)) as int)
        },
    }
}

/// Convert line/column (0-indexed) to byte offset.
pub fn line_col_to_offset(content: &str, line: u32, col: u32) -> (r: Option<usize>)
    ensures
        same_index(r, offset_at(content@, line, col)),
{
    let c = chars_of(content);
    let mut n: u32 = line;
    let mut i: usize = 0;
    while n > 0 && i < c.len()
        invariant
            c@ == content@,
            i <= c@.len(),
            line_start(c@, line as nat, 0) == line_start(c@, n as nat, i as int),
        decreases c@.len() - i,
    {
        if c[i] == '\n' {
            n = n - 1;
        }
        i = i + 1;
    }
    if n > 0 {
        return None;
    }
    let start = i;
    let mut k: u32 = 0;
    let mut at: usize = start;
    while k < col && at < c.len() && c[at] != '\n'
        invariant
            start <= at <= c@.len(),
            at == start + k,
            k <= col,
            line_end(c@, start as int) == line_end(c@, at as int),
        decreases c@.len() - at,
    {
        at = at + 1;
        k = k + 1;
    }
    proof {
        lemma_line_end_at_least(c@, at as int);
    }
    Some(byte_offset_of(&c, at))
}

proof fn lemma_line_end_at_least(c: Seq<char>, from: int)
    requires
        0 <= from <= c.len(),
    ensures
        from <= line_end(c, from) <= c.len(),
    decreases c.len() - from,
{
    if from < c.len() && c[from] != '\n' {
        lemma_line_end_at_least(c, from + 1);
    }
}

/// One more line break is the next one.
proof fn lemma_next_line_start(c: Seq<char>, n: nat, from: int, s: int)
    requires
        0 <= from,
        line_start(c, n, from) == Some(s),
    ensures
        from <= s,
        line_start(c, n + 1, from) == line_start(c, 1, s),
    decreases c.len() - from,
{
    if n > 0 {
        if c[from] == '\n' {
            lemma_next_line_start(c, (n - 1) as nat, from + 1, s);
        } else {
            lemma_next_line_start(c, n, from + 1, s);
        }
    }
}

/// A line without breaks before `k` ends no earlier, and the break at `k` ends
/// it.
proof fn lemma_line_up_to(c: Seq<char>, s: int, k: int)
    requires
        0 <= s <= k <= c.len(),
        forall|j: int| s <= j < k ==> c[j] != '\n',
    ensures
        line_end(c, s) >= k,
        k < c.len() && c[k] == '\n' ==> line_start(c, 1, s) == Some(k + 1),
    decreases k - s,
{
    if s < k {
        lemma_line_up_to(c, s + 1, k);
    } else {
        lemma_line_end_at_least(c, s);
        if k < c.len() && c[k] == '\n' {
            assert(line_start(c, 0, k + 1) == Some(k + 1));
        }
    }
}

/// The line of a position starts as many characters before it as its column
/// says.
proof fn lemma_line_start_of(c: Seq<char>, k: int)
    requires
        0 <= k <= c.len(),
    ensures
        ({
            let (line, col) = line_col(c, k);
            &&& col <= k
            &&& line_start(c, line, 0) == Some(k - col)
            &&& forall|j: int| k - col <= j < k ==> c[j] != '\n'
        }),
    decreases k,
{
    if k > 0 {
        lemma_line_start_of(c, k - 1);
        let (line, col) = line_col(c, k - 1);
        if c[k - 1] == '\n' {
            let s = k - 1 - col;
            lemma_next_line_start(c, line, 0, s);
            lemma_line_up_to(c, s, k - 1);
        }
    }
}

/// The start of a span's range leads back to the span: for an offset at which a
/// character starts, the offset of the range's first line and column is that
/// offset.
pub proof fn law_offset_of_range_start(content: Seq<char>, offset: usize, length: usize)
    requires
        char_start(content, offset as int) is Some,
        line_col(content, char_start(content, offset as int)->0).0 <= u32::MAX,
        line_col(content, char_start(content, offset as int)->0).1 <= u32::MAX,
    ensures
        ({
            let (line, col, _, _) = span_range(content, offset, length);
            offset_at(content, line, col) == Some(offset as int)
        }),
{
    let k = char_start(content, offset as int)->0;
    lemma_char_position_some(content, offset as int);
    lemma_line_start_of(content, k);
    let (line, col) = line_col(content, k);
    lemma_line_up_to(content, k - col, k);
}

/// A byte offset lies in a span.
pub open spec fn in_span(offset: int, s: SourceSpan) -> bool {
    s.offset <= offset < s.offset + s.length
}

fn lies_in(offset: usize, s: SourceSpan) -> (r: bool)
    ensures
        r == in_span(offset as int, s),
{
    offset >= s.offset && offset - s.offset < s.length
}

/// The first reference whose span holds the byte offset.
pub open spec fn ref_at(refs: Seq<RefModel>, offset: int, i: int) -> Option<int>
    decreases refs.len() - i,
{
    if i < 0 || i >= refs.len() {
        None
    } else if in_span(offset, refs[i].span) {
        Some(i)
    } else {
        ref_at(refs, offset, i + 1)
    }
}

/// Find a reference at the given position in the content (for source files
/// only).
pub fn find_ref_at_position(reqs: &Reqs, content: &str, line: u32, character: u32) -> (r: Option<
    usize,
>)
    ensures
        same_index(
            r,
            match offset_at(content@, line, character) {
                Some(o) => ref_at(reqs@.references, o, 0),
                None => None,
            },
        ),
        r matches Some(i) ==> i < reqs.references@.len(),
{
    let target = match line_col_to_offset(content, line, character) {
        Some(t) => t,
        None => {
            return None;
        },
    };
    let ghost rs = reqs@.references;
    let mut i: usize = 0;
    while i < reqs.references.len()
        invariant
            i <= reqs.references@.len(),
            rs == ref_models(reqs.references@),
            offset_at(content@, line, character) == Some(target as int),
            ref_at(rs, target as int, 0) == ref_at(rs, target as int, i as int),
        decreases reqs.references@.len() - i,
    {
        assert(rs[i as int] == reqs.references@[i as int]@);
        if lies_in(target, reqs.references[i].span) {
            return Some(i);
        }
        i = i + 1;
    }
    None
}

/// A rule reference or definition at a cursor position.
#[derive(Debug, Clone, PartialEq, Eq)]
pub struct RuleAtPosition {
    pub req_id: RuleId,
    /// Prefix for references (e.g. `r`); `None` for definitions.
    pub prefix: Option<String>,
    pub span: SourceSpan,
}

/// A rule reference or definition at a cursor position.
#[verifier::ext_equal]
pub struct AtModel {
    pub req_id: (Seq<char>, u32),
    pub prefix: Option<Seq<char>>,
    pub span: SourceSpan,
}

impl View for RuleAtPosition {
    type V = AtModel;

    open spec fn view(&self) -> AtModel {
        AtModel {
            req_id: self.req_id@,
            prefix: crate::text::opt_text(self.prefix),
            span: self.span,
        }
    }
}

/// What was found agrees with the model.
pub open spec fn at_matches(r: Option<RuleAtPosition>, m: Option<AtModel>) -> bool {
    match (r, m) {
        (Some(a), Some(b)) => a@ == b,
        (None, None) => true,
        _ => false,
    }
}

/// The first definition whose span holds the byte offset and whose id can be
/// read.
pub open spec fn definition_at(reqs: Seq<ReqModel>, offset: int, i: int) -> Option<AtModel>
    decreases reqs.len() - i,
{
    if i < 0 || i >= reqs.len() {
        None
    } else if in_span(offset, reqs[i].span) && parsed_rule_id(rule_text(reqs[i].id)) is Some {
        Some(
            AtModel {
                req_id: parsed_rule_id(rule_text(reqs[i].id))->0,
                prefix: None,
                span: reqs[i].span,
            },
        )
    } else {
        definition_at(reqs, offset, i + 1)
    }
}

/// The first inline reference whose span holds the byte offset.
pub open spec fn inline_at(spans: Seq<(Seq<char>, SourceSpan)>, offset: int, i: int) -> Option<AtModel>
    decreases spans.len() - i,
{
    if i < 0 || i >= spans.len() {
        None
    } else if inline_reference(spans[i].0) is Some && in_span(offset, spans[i].1) {
        let (prefix, id) = inline_reference(spans[i].0)->0;
        Some(AtModel { req_id: id, prefix: Some(prefix), span: spans[i].1 })
    } else {
        inline_at(spans, offset, i + 1)
    }
}

fn find_definition(reqs: &Vec<ReqDefinition>, target: usize) -> (r: Option<RuleAtPosition>)
    ensures
        at_matches(r, definition_at(req_models(reqs@), target as int, 0)),
{
    let ghost rs = req_models(reqs@);
    let mut i: usize = 0;
    while i < reqs.len()
        invariant
            i <= reqs@.len(),
            rs == req_models(reqs@),
            definition_at(rs, target as int, 0) == definition_at(rs, target as int, i as int),
        decreases reqs@.len() - i,
    {
        assert(rs[i as int] == reqs@[i as int]@);
        if lies_in(target, reqs[i].span) {
            let text = reqs[i].id.text();
            match parse_rule_id(text.as_str()) {
                Some(id) => {
                    let at = RuleAtPosition { req_id: id, prefix: None, span: reqs[i].span };
                    return Some(at);
                },
                None => {},
            }
        }
        i = i + 1;
    }
    None
}

fn find_inline(spans: &Vec<InlineCodeSpan>, target: usize) -> (r: Option<RuleAtPosition>)
    ensures
        at_matches(r, inline_at(code_spans(spans@), target as int, 0)),
{
    let ghost ss = code_spans(spans@);
    let mut i: usize = 0;
    while i < spans.len()
        invariant
            i <= spans@.len(),
            ss == code_spans(spans@),
            inline_at(ss, target as int, 0) == inline_at(ss, target as int, i as int),
        decreases spans@.len() - i,
    {
        assert(ss[i as int] == (spans@[i as int].content@, spans@[i as int].span));
        match parse_inline_rule_reference(spans[i].content.as_str()) {
            Some((prefix, id)) => {
                if lies_in(target, spans[i].span) {
                    let at = RuleAtPosition {
                        req_id: id,
                        prefix: Some(prefix),
                        span: spans[i].span,
                    };
                    return Some(at);
                }
            },
            None => {},
        }
        i = i + 1;
    }
    None
}

/// A file as an editor shows it.
pub struct FileView {
    pub path: String,
    /// What the path resolves to.
    pub canonical: String,
    pub content: String,
    /// What parsing the content gave, for a spec document that could be parsed.
    pub doc: Option<SpecDoc>,
}

/// What parsing the shown content gave.
pub open spec fn doc_of(v: FileView) -> Option<DocModel> {
    match v.doc {
        Some(d) => Some(d@),
        None => None,
    }
}

/// The source file with the given path.
pub open spec fn source_with_path(files: Seq<SourceModel>, path: Seq<char>, i: int) -> Option<int>
    decreases files.len() - i,
{
    if i < 0 || i >= files.len() {
        None
    } else if components(files[i].path) == components(path) {
        Some(i)
    } else {
        source_with_path(files, path, i + 1)
    }
}

/// What the build knows of a shown source file: by what its path resolves to,
/// or else by its path.
pub open spec fn shown_source(files: Seq<SourceModel>, v: FileView) -> Option<int> {
    match source_with_path(files, v.canonical@, 0) {
        Some(i) => Some(i),
        None => source_with_path(files, v.path@, 0),
    }
}

fn find_source_with_path(files: &Vec<SourceFile>, path: &str) -> (r: Option<usize>)
    ensures
        same_index(r, source_with_path(source_models(files@), path@, 0)),
        r matches Some(i) ==> i < files@.len(),
{
    let ghost fs = source_models(files@);
    let parts = components_of(path);
    let mut i: usize = 0;
    while i < files.len()
        invariant
            i <= files@.len(),
            fs == source_models(files@),
            texts(parts@) == components(path@),
            source_with_path(fs, path@, 0) == source_with_path(fs, path@, i as int),
        decreases files@.len() - i,
    {
        assert(fs[i as int] == files@[i as int]@);
        if same_path(&parts, files[i].path.as_str()) {
            return Some(i);
        }
        i = i + 1;
    }
    None
}

/// A listed path has the same components as the given one.
pub open spec fn lists_path(paths: Seq<Seq<char>>, path: Seq<char>) -> bool {
    exists|i: int| 0 <= i < paths.len() && components(#[trigger] paths[i]) == components(path)
}

/// Check whether a path is one of a list of files, such as the test files.
pub fn is_listed_file(paths: &Vec<String>, path: &str) -> (r: bool)
    ensures
        r == lists_path(texts(paths@), path@),
{
    let ghost ps = texts(paths@);
    let parts = components_of(path);
    let mut i: usize = 0;
    while i < paths.len()
        invariant
            i <= paths@.len(),
            ps == texts(paths@),
            texts(parts@) == components(path@),
            forall|j: int| 0 <= j < i ==> components(#[trigger] ps[j]) != components(path@),
        decreases paths@.len() - i,
    {
        if same_path(&parts, paths[i].as_str()) {
            assert(components(ps[i as int]) == components(path@));
            return true;
        }
        i = i + 1;
    }
    false
}

/// Look up what the build knows of a source file. `None` where the file was not
/// part of the build's scan.
pub fn lookup_source_reqs(files: &Vec<SourceFile>, v: &FileView) -> (r: Option<usize>)
    ensures
        same_index(r, shown_source(source_models(files@), *v)),
        r matches Some(i) ==> i < files@.len(),
{
    match find_source_with_path(files, v.canonical.as_str()) {
        Some(i) => Some(i),
        None => find_source_with_path(files, v.path.as_str()),
    }
}

/// The rule at a position: in a spec document a definition, or else an inline
/// reference; in a source file a reference that the build knows of.
pub open spec fn rule_at(files: Seq<SourceModel>, v: FileView, line: u32, character: u32) -> Option<
    AtModel,
> {
    match offset_at(v.content@, line, character) {
        None => None,
        Some(o) => if path_format(v.path@) is Some {
            match doc_of(v) {
                None => None,
                Some(d) => match definition_at(d.reqs, o, 0) {
                    Some(a) => Some(a),
                    None => inline_at(d.inline_code_spans, o, 0),
                },
            }
        } else {
            match shown_source(files, v) {
                None => None,
                Some(i) => match ref_at(files[i].reqs.references, o, 0) {
                    None => None,
                    Some(k) => {
                        let r = files[i].reqs.references[k];
                        Some(AtModel { req_id: r.req_id, prefix: Some(r.prefix), span: r.span })
                    },
                },
            }
        },
    }
}

/// Find a rule (reference or definition) at the given position.
///
/// For source files only what the build saw counts.
pub fn find_rule_at_position(files: &Vec<SourceFile>, v: &FileView, line: u32, character: u32) -> (r:
    Option<RuleAtPosition>)
    ensures
        at_matches(r, rule_at(source_models(files@), *v, line, character)),
{
    match SpecFormat::from_path(v.path.as_str()) {
        Some(_) => {
            let target = match line_col_to_offset(v.content.as_str(), line, character) {
                Some(t) => t,
                None => {
                    return None;
                },
            };
            match &v.doc {
                None => None,
                Some(d) => match find_definition(&d.reqs, target) {
                    Some(a) => Some(a),
                    None => find_inline(&d.inline_code_spans, target),
                },
            }
        },
        None => {
            let at = match lookup_source_reqs(files, v) {
                Some(i) => i,
                None => {
                    return None;
                },
            };
            let reqs = &files[at].reqs;
            assert(source_models(files@)[at as int] == files@[at as int]@);
            match find_ref_at_position(reqs, v.content.as_str(), line, character) {
                Some(k) => {
                    let r = &reqs.references[k];
                    assert(reqs@.references[k as int] == r@);
                    let found = RuleAtPosition {
                        req_id: r.req_id.copy(),
                        prefix: Some(copy_str(r.prefix.as_str())),
                        span: r.span,
                    };
                    Some(found)
                },
                None => None,
            }
        },
    }
}

/// The best rule with the given base among the first `n` of an implementation's
/// rules and what was found before: the one with the greatest version, of equals
/// the first.
pub open spec fn better_rule(
    spec_name: Seq<char>,
    rules: Seq<RuleModel>,
    n: int,
    base: Seq<char>,
    before: Option<(Seq<char>, RuleModel)>,
) -> Option<(Seq<char>, RuleModel)>
    decreases n,
{
    if n <= 0 {
        before
    } else {
        let best = better_rule(spec_name, rules, n - 1, base, before);
        let r = rules[n - 1];
        if r.id.0 == base && (best matches Some(b) ==> b.1.id.1 < r.id.1) {
            Some((spec_name, r))
        } else {
            best
        }
    }
}

/// The best rule with the given base among the first `n` implementations, with
/// the name of its spec.
pub open spec fn found_rule(
    forward: Seq<((Seq<char>, Seq<char>), Seq<RuleModel>)>,
    n: int,
    base: Seq<char>,
) -> Option<(Seq<char>, RuleModel)>
    decreases n,
{
    if n <= 0 {
        None
    } else {
        better_rule(
            forward[n - 1].0.0,
            forward[n - 1].1,
            forward[n - 1].1.len() as int,
            base,
            found_rule(forward, n - 1, base),
        )
    }
}

/// A rule that was found agrees with the model.
pub open spec fn found_matches(
    forward: Seq<(ImplKey, ApiSpecForward)>,
    r: Option<(usize, usize)>,
    m: Option<(Seq<char>, RuleModel)>,
) -> bool {
    match (r, m) {
        (Some((i, j)), Some((s, rule))) => i < forward.len() && j
            < forward[i as int].1.rules@.len() && forward[i as int].0@.0 == s
            && forward[i as int].1.rules@[j as int]@ == rule,
        (None, None) => true,
        _ => false,
    }
}

/// Find a rule by the base of its id: the position of its implementation and its
/// position there. Of several versions the greatest is found.
pub fn find_rule_in_data(forward: &Vec<(ImplKey, ApiSpecForward)>, rule_id: &RuleId) -> (r: Option<
    (usize, usize),
>)
    ensures
        found_matches(
            forward@,
            r,
            found_rule(forward_models(forward@), forward@.len() as int, rule_id@.0),
        ),
{
    let ghost fs = forward_models(forward@);
    let ghost base = rule_id@.0;
    let mut best: Option<(usize, usize)> = None;
    let mut i: usize = 0;
    while i < forward.len()
        invariant
            i <= forward@.len(),
            fs == forward_models(forward@),
            base == rule_id.base@,
            found_matches(forward@, best, found_rule(fs, i as int, base)),
        decreases forward@.len() - i,
    {
        let rules = &forward[i].1.rules;
        let ghost rs = rule_models(rules@);
        let ghost start = found_rule(fs, i as int, base);
        assert(fs[i as int] == (forward@[i as int].0@, rs));
        let mut j: usize = 0;
        while j < rules.len()
            invariant
                i < forward@.len(),
                rules == forward@[i as int].1.rules,
                rs == rule_models(rules@),
                fs == forward_models(forward@),
                base == rule_id.base@,
                j <= rules@.len(),
                found_matches(
                    forward@,
                    best,
                    better_rule(forward@[i as int].0@.0, rs, j as int, base, start),
                ),
            decreases rules@.len() - j,
        {
            assert(rs[j as int] == rules@[j as int]@);
            if str_eq(rules[j].id.base.as_str(), rule_id.base.as_str()) {
                let newer = match best {
                    Some((a, b)) => forward[a].1.rules[b].id.version < rules[j].id.version,
                    None => true,
                };
                if newer {
                    best = Some((i, j));
                }
            }
            j = j + 1;
        }
        i = i + 1;
    }
    best
}

/// The rule that is found has the base that was asked for, and no rule of any
/// implementation with that base is newer.
pub proof fn law_found_is_latest(
    forward: Seq<((Seq<char>, Seq<char>), Seq<RuleModel>)>,
    base: Seq<char>,
)
    ensures
        ({
            let found = found_rule(forward, forward.len() as int, base);
            &&& found matches Some(f) ==> f.1.id.0 == base
            &&& forall|i: int, j: int|
                0 <= i < forward.len() && 0 <= j < forward[i].1.len() && (
                #[trigger] forward[i].1[j]).id.0 == base ==> found is Some && forward[i].1[j].id.1
                    <= (found->0).1.id.1
        }),
{
    lemma_found_is_latest(forward, forward.len() as int, base);
}

proof fn lemma_better_is_latest(
    spec_name: Seq<char>,
    rules: Seq<RuleModel>,
    n: int,
    base: Seq<char>,
    before: Option<(Seq<char>, RuleModel)>,
)
    requires
        0 <= n <= rules.len(),
        before matches Some(b) ==> b.1.id.0 == base,
    ensures
        ({
            let best = better_rule(spec_name, rules, n, base, before);
            &&& best matches Some(b) ==> b.1.id.0 == base
            &&& before matches Some(b) ==> best is Some && b.1.id.1 <= (best->0).1.id.1
            &&& forall|j: int|
                0 <= j < n && (#[trigger] rules[j]).id.0 == base ==> best is Some && rules[j].id.1
                    <= (best->0).1.id.1
        }),
    decreases n,
{
    if n > 0 {
        lemma_better_is_latest(spec_name, rules, n - 1, base, before);
    }
}

proof fn lemma_found_is_latest(
    forward: Seq<((Seq<char>, Seq<char>), Seq<RuleModel>)>,
    n: int,
    base: Seq<char>,
)
    requires
        0 <= n <= forward.len(),
    ensures
        ({
            let found = found_rule(forward, n, base);
            &&& found matches Some(f) ==> f.1.id.0 == base
            &&& forall|i: int, j: int|
                0 <= i < n && 0 <= j < forward[i].1.len() && (#[trigger] forward[i].1[j]).id.0
                    == base ==> found is Some && forward[i].1[j].id.1 <= (found->0).1.id.1
        }),
    decreases n,
{
    if n > 0 {
        lemma_found_is_latest(forward, n - 1, base);
        lemma_better_is_latest(
            forward[n - 1].0.0,
            forward[n - 1].1,
            forward[n - 1].1.len() as int,
            base,
            found_rule(forward, n - 1, base),
        );
    }
}

/// A character that a new rule id may hold.
pub open spec fn is_new_id_char(c: char) -> bool {
    ('a' <= c && c <= 'z') || ('0' <= c && c <= '9') || c == '-'
}

/// A segment of a new rule id: lowercase letters, digits and hyphens, beginning
/// with a letter.
pub open spec fn is_new_segment(s: Seq<char>) -> bool {
    &&& s.len() > 0
    &&& 'a' <= s[0] && s[0] <= 'z'
    &&& forall|i: int| 0 <= i < s.len() ==> is_new_id_char(#[trigger] s[i])
}

/// Every segment of the base is one of a new rule id.
pub open spec fn is_new_base(base: Seq<char>) -> bool {
    let segments = split_char(base, '.');
    forall|i: int| 0 <= i < segments.len() ==> is_new_segment(#[trigger] segments[i])
}

fn new_segment_ok(s: &str) -> (r: bool)
    ensures
        r == is_new_segment(s@),
{
    let c = chars_of(s);
    if c.len() == 0 || !('a' <= c[0] && c[0] <= 'z') {
        return false;
    }
    let mut i: usize = 0;
    while i < c.len()
        invariant
            c@ == s@,
            i <= c@.len(),
            forall|j: int| 0 <= j < i ==> is_new_id_char(#[trigger] s@[j]),
        decreases c@.len() - i,
    {
        let x = c[i];
        if !(('a' <= x && x <= 'z') || ('0' <= x && x <= '9') || x == '-') {
            assert(!is_new_id_char(s@[i as int]));
            return false;
        }
        i = i + 1;
    }
    true
}

/// Whether a rule may be renamed to this id: its segments are lowercase letters,
/// digits and hyphens, and begin with a letter.
pub fn is_valid_new_id(id: &RuleId) -> (r: bool)
    ensures
        r == is_new_base(id.base@),
{
    let segments = split_char_of(id.base.as_str(), '.');
    let ghost ss = split_char(id.base@, '.');
    let mut i: usize = 0;
    while i < segments.len()
        invariant
            i <= segments@.len(),
            ss == split_char(id.base@, '.'),
            texts(segments@) == ss,
            forall|j: int| 0 <= j < i ==> is_new_segment(#[trigger] ss[j]),
        decreases segments@.len() - i,
    {
        assert(ss[i as int] == segments@[i as int]@);
        if !new_segment_ok(segments[i].as_str()) {
            return false;
        }
        i = i + 1;
    }
    true
}

} // verus!
