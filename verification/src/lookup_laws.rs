//! What is found at a place in a text, and what patterns stand for.

use vstd::prelude::*;

use crate::completion::{after_first_marker, before_column, completions, items_for, named_rules};
use crate::globs::{before_slashes, directory_end, glob_split, is_wildcard, wildcard_at};
use crate::lookup::{
    inline_at, is_new_base, line_end, line_start, offset_at, shown_source, source_with_path,
    FileView,
};
use crate::lsp::{hover_holds, HoverInfo, ProjectModel};
use crate::paths::components;
use crate::path_laws::lemma_split_concat;
use crate::positions::line_col;
use crate::requirement::SourceSpan;
use crate::languages::{comment_style, Language};
use crate::source_view::{file_at, shown_source_html, shows_unit, ApiCodeUnit, update_refusal, UpdateError};
use crate::api::CodeUnit;
use crate::html::escaped;
use crate::spec_diagnostics::inline_reference;
use crate::split::{lines, split_char};
use crate::text::{byte_len, lemma_char_position, opt_text, texts};
use crate::text_laws::law_split;
use crate::validation::SourceModel;

verus! {

/// A line and a column stand for the byte before which that many lines end, and
/// that many characters of the line stand.
pub proof fn law_offset_of_position(c: Seq<char>, start: int, line: u32, col: u32)
    requires
        0 <= start <= c.len(),
        start > 0 ==> c[start - 1] == '\n',
        line_col(c, start).0 == line,
    ensures
        start + col <= c.len() && (forall|i: int|
            start <= i < start + col ==> #[trigger] c[i] != '\n') ==> offset_at(c, line, col)
            == Some(byte_len(c.take(start + col)) as int),
        forall|e: int|
            start <= e <= c.len() && e < start + col && (forall|i: int|
                start <= i < e ==> #[trigger] c[i] != '\n') && (e == c.len() || c[e] == '\n')
                ==> offset_at(c, line, col) == Some(byte_len(#[trigger] c.take(e)) as int),
{
    lemma_line_start(c, line as nat, 0, start);
    if start + col <= c.len() && (forall|i: int|
        start <= i < start + col ==> #[trigger] c[i] != '\n') {
        lemma_line_end_after(c, start, start + col);
    }
    assert forall|e: int|
        start <= e <= c.len() && e < start + col && (forall|i: int|
            start <= i < e ==> #[trigger] c[i] != '\n') && (e == c.len() || c[e] == '\n') implies offset_at(
    c, line, col) == Some(byte_len(#[trigger] c.take(e)) as int) by {
        lemma_line_end_after(c, start, e);
        assert(line_end(c, e) == e);
    }
}

proof fn lemma_line_end_after(c: Seq<char>, from: int, e: int)
    requires
        0 <= from <= e <= c.len(),
        forall|i: int| from <= i < e ==> #[trigger] c[i] != '\n',
    ensures
        line_end(c, from) == line_end(c, e),
        line_end(c, e) >= e,
    decreases e - from,
{
    lemma_line_end_behind(c, e);
    if from < e {
        assert(c[from] != '\n');
        lemma_line_end_after(c, from + 1, e);
    }
}

proof fn lemma_line_end_behind(c: Seq<char>, e: int)
    requires
        0 <= e <= c.len(),
    ensures
        line_end(c, e) >= e,
    decreases c.len() - e,
{
    if e < c.len() && c[e] != '\n' {
        lemma_line_end_behind(c, e + 1);
    }
}

proof fn lemma_lines_grow(c: Seq<char>, a: int, b: int)
    requires
        0 <= a <= b <= c.len(),
    ensures
        line_col(c, a).0 <= line_col(c, b).0,
    decreases b - a,
{
    if a < b {
        lemma_lines_grow(c, a, b - 1);
    }
}

proof fn lemma_line_start(c: Seq<char>, n: nat, from: int, start: int)
    requires
        0 <= from <= start <= c.len(),
        start > from ==> c[start - 1] == '\n',
        line_col(c, start).0 == line_col(c, from).0 + n,
    ensures
        line_start(c, n, from) == Some(start),
    decreases start - from,
{
    if start > from {
        lemma_lines_grow(c, from, start - 1);
        assert(line_col(c, start).0 == line_col(c, start - 1).0 + 1);
        assert(n > 0);
        if c[from] == '\n' {
            assert(line_col(c, from + 1).0 == line_col(c, from).0 + 1);
            if start > from + 1 {
                lemma_line_start(c, (n - 1) as nat, from + 1, start);
            } else {
                assert(n == 1);
            }
        } else {
            assert(line_col(c, from + 1).0 == line_col(c, from).0);
            lemma_line_start(c, n, from + 1, start);
        }
    }
}

/// A line that a text does not have stands for nothing.
pub proof fn law_no_offset_behind_the_text(c: Seq<char>, line: u32, col: u32)
    requires
        line_col(c, c.len() as int).0 < line,
    ensures
        offset_at(c, line, col) is None,
{
    lemma_no_line(c, line as nat, 0);
}

proof fn lemma_no_line(c: Seq<char>, n: nat, from: int)
    requires
        0 <= from <= c.len(),
        line_col(c, c.len() as int).0 < line_col(c, from).0 + n,
    ensures
        line_start(c, n, from) is None,
    decreases c.len() - from,
{
    lemma_lines_grow(c, from, c.len() as int);
    if from < c.len() {
        if c[from] == '\n' {
            assert(line_col(c, from + 1).0 == line_col(c, from).0 + 1);
            lemma_lines_grow(c, from + 1, c.len() as int);
            lemma_no_line(c, (n - 1) as nat, from + 1);
        } else {
            assert(line_col(c, from + 1).0 == line_col(c, from).0);
            lemma_no_line(c, n, from + 1);
        }
    }
}

/// Of the inline references whose span holds an offset the first counts.
pub proof fn law_inline_reference_at(
    spans: Seq<(Seq<char>, SourceSpan)>,
    offset: int,
    k: int,
    from: int,
)
    requires
        0 <= from <= k < spans.len(),
        inline_reference(spans[k].0) is Some,
        spans[k].1.offset <= offset < spans[k].1.offset + spans[k].1.length,
        forall|j: int|
            from <= j < k ==> inline_reference((#[trigger] spans[j]).0) is None || !(
            spans[j].1.offset <= offset < spans[j].1.offset + spans[j].1.length),
    ensures
        inline_at(spans, offset, from) is Some,
        (inline_at(spans, offset, from)->0).prefix == Some((inline_reference(spans[k].0)->0).0),
        (inline_at(spans, offset, from)->0).req_id == (inline_reference(spans[k].0)->0).1,
        (inline_at(spans, offset, from)->0).span == spans[k].1,
    decreases k - from,
{
    if from < k {
        assert(inline_reference(spans[from].0) is None || !(spans[from].1.offset <= offset
            < spans[from].1.offset + spans[from].1.length));
        law_inline_reference_at(spans, offset, k, from + 1);
    }
}

/// A source file is known by its path, however that is written; what the path
/// resolves to counts first.
pub proof fn law_source_by_path(files: Seq<SourceModel>, v: FileView)
    ensures
        forall|i: int|
            0 <= i < files.len() && components((#[trigger] files[i]).path) == components(
                v.canonical@,
            ) && (forall|j: int|
                0 <= j < i ==> components((#[trigger] files[j]).path) != components(v.canonical@))
                ==> shown_source(files, v) == Some(i),
        forall|i: int|
            0 <= i < files.len() && components((#[trigger] files[i]).path) == components(v.path@)
                && (forall|j: int|
                0 <= j < i ==> components((#[trigger] files[j]).path) != components(v.path@)) && (
            forall|j: int|
                0 <= j < files.len() ==> components((#[trigger] files[j]).path) != components(
                    v.canonical@,
                )) ==> shown_source(files, v) == Some(i),
        (forall|i: int|
            0 <= i < files.len() ==> components((#[trigger] files[i]).path) != components(v.path@)
                && components(files[i].path) != components(v.canonical@)) ==> shown_source(files, v)
            is None,
{
    lemma_source_first(files, v.canonical@, 0);
    lemma_source_first(files, v.path@, 0);
}

proof fn lemma_source_first(files: Seq<SourceModel>, path: Seq<char>, from: int)
    requires
        0 <= from <= files.len(),
    ensures
        match source_with_path(files, path, from) {
            Some(i) => from <= i < files.len() && components(files[i].path) == components(path)
                && forall|j: int|
                from <= j < i ==> components((#[trigger] files[j]).path) != components(path),
            None => forall|j: int|
                from <= j < files.len() ==> components((#[trigger] files[j]).path) != components(
                    path,
                ),
        },
    decreases files.len() - from,
{
    if from < files.len() && components(files[from].path) != components(path) {
        lemma_source_first(files, path, from + 1);
    }
}

/// The units of a file are those of the first file with the same components.
pub proof fn law_units_by_path(
    files: Seq<(Seq<char>, Seq<CodeUnit>)>,
    path: Seq<char>,
    k: int,
    from: int,
)
    requires
        0 <= from <= k < files.len(),
        components(files[k].0) == components(path),
        forall|j: int| from <= j < k ==> components((#[trigger] files[j]).0) != components(path),
    ensures
        file_at(files, path, from) == Some(k),
    decreases k - from,
{
    if from < k {
        assert(components(files[from].0) != components(path));
        law_units_by_path(files, path, k, from + 1);
    }
}

/// A new id is made of segments with dots between them; each begins with
/// a lowercase letter and holds only those, digits and hyphens.
pub proof fn law_new_id(a: Seq<char>, b: Seq<char>)
    ensures
        is_new_base(a + seq!['.'] + b) <==> is_new_base(a) && is_new_base(b),
        !a.contains('.') ==> (is_new_base(a) <==> a.len() > 0 && 'a' <= a[0] <= 'z' && forall|
            i: int,
        |
            0 <= i < a.len() ==> ('a' <= #[trigger] a[i] && a[i] <= 'z') || ('0' <= a[i] && a[i]
                <= '9') || a[i] == '-'),
{
    lemma_split_concat(a, '.', b);
    let x = split_char(a, '.');
    let y = split_char(b, '.');
    let both = split_char(a + seq!['.'] + b, '.');
    assert(both == x + y);
    if is_new_base(a + seq!['.'] + b) {
        assert forall|i: int| 0 <= i < x.len() implies crate::lookup::is_new_segment(
            #[trigger] x[i],
        ) by {
            assert(both[i] == x[i]);
        }
        assert forall|i: int| 0 <= i < y.len() implies crate::lookup::is_new_segment(
            #[trigger] y[i],
        ) by {
            assert(both[x.len() + i] == y[i]);
        }
    }
    if is_new_base(a) && is_new_base(b) {
        assert forall|i: int| 0 <= i < both.len() implies crate::lookup::is_new_segment(
            #[trigger] both[i],
        ) by {
            if i < x.len() {
                assert(both[i] == x[i]);
            } else {
                assert(both[i] == y[i - x.len()]);
            }
        }
    }
    if !a.contains('.') {
        law_split(a, '.', b);
        assert(x == seq![a]);
        assert(x[0] == a);
        if is_new_base(a) {
            assert(crate::lookup::is_new_segment(x[0]));
            assert forall|i: int| 0 <= i < a.len() implies ('a' <= #[trigger] a[i] && a[i] <= 'z')
                || ('0' <= a[i] && a[i] <= '9') || a[i] == '-' by {
                assert(crate::lookup::is_new_id_char(a[i]));
            }
        }
    }
}

/// A glob is cut at the last slash before its first wildcard; one without wildcards
/// is all directory, and one whose first part has a wildcard is none.
pub proof fn law_glob_is_cut(dir: Seq<char>, rest: Seq<char>, w: int)
    requires
        forall|i: int| 0 <= i < dir.len() ==> !is_wildcard(#[trigger] dir[i]),
        0 <= w < rest.len(),
        is_wildcard(rest[w]),
        forall|i: int| 0 <= i < w ==> #[trigger] rest[i] != '/' && !is_wildcard(rest[i]),
    ensures
        glob_split(dir) == (dir.len() as int, dir.len() as int),
        glob_split(rest) == (0int, 0int),
        dir.len() > 0 && dir.last() != '/' ==> glob_split(dir + seq!['/'] + rest) == (
            dir.len() as int,
            dir.len() as int + 1,
        ),
{
    lemma_wildcard(dir, 0, dir.len() as int);
    lemma_wildcard(rest, 0, w);
    lemma_directory(rest, 0, w);
    if dir.len() > 0 && dir.last() != '/' {
        let p = dir + seq!['/'] + rest;
        let n = dir.len() as int;
        assert forall|i: int| 0 <= i < n + 1 + w implies !is_wildcard(#[trigger] p[i]) by {
            if i < n {
                assert(p[i] == dir[i]);
            } else if i > n {
                assert(p[i] == rest[i - n - 1]);
            }
        }
        assert(p[n + 1 + w] == rest[w]);
        lemma_wildcard(p, 0, n + 1 + w);
        assert forall|i: int| n + 1 <= i < n + 1 + w implies #[trigger] p[i] != '/' by {
            assert(p[i] == rest[i - n - 1]);
        }
        lemma_directory(p, n + 1, n + 1 + w);
        assert(p[n] == '/');
        assert(directory_end(p, n + 1) == n + 1);
        assert(p[n - 1] == dir[n - 1]);
        assert(before_slashes(p, n) == n);
        assert(before_slashes(p, n + 1) == n);
    }
}

proof fn lemma_wildcard(p: Seq<char>, from: int, w: int)
    requires
        0 <= from <= w <= p.len(),
        forall|i: int| from <= i < w ==> !is_wildcard(#[trigger] p[i]),
        w == p.len() || is_wildcard(p[w]),
    ensures
        wildcard_at(p, from) == w,
    decreases w - from,
{
    if from < w {
        assert(!is_wildcard(p[from]));
        lemma_wildcard(p, from + 1, w);
    }
}

proof fn lemma_directory(p: Seq<char>, a: int, end: int)
    requires
        0 <= a <= end <= p.len(),
        forall|i: int| a <= i < end ==> #[trigger] p[i] != '/',
    ensures
        directory_end(p, end) == directory_end(p, a),
    decreases end - a,
{
    if a < end {
        assert(p[end - 1] != '/');
        lemma_directory(p, a, end - 1);
    }
}

/// What is offered at a position goes by what stands on the line before it; where
/// there is no such line nothing is.
pub proof fn law_offer_at_position(
    p: ProjectModel,
    content: Seq<char>,
    line: u32,
    k: int,
    character: u32,
)
    ensures
        line >= lines(content).len() ==> completions(p, content, line, character).len() == 0,
        line < lines(content).len() && 0 <= k <= lines(content)[line as int].len() && byte_len(
            lines(content)[line as int].take(k),
        ) == character ==> match after_first_marker(
            lines(content)[line as int].take(k),
            p.specs,
            0,
        ) {
            Some(typed) => completions(p, content, line, character) == items_for(
                typed,
                named_rules(p.forward),
            ),
            None => completions(p, content, line, character).len() == 0,
        },
{
    if line < lines(content).len() && 0 <= k <= lines(content)[line as int].len() {
        let l = lines(content)[line as int];
        if byte_len(l.take(k)) == character {
            lemma_char_position(l, k);
            crate::text::lemma_byte_len_take_mono(l, k, l.len() as int);
            assert(l.take(l.len() as int) =~= l);
        }
    }
}

/// A column behind the end of the line stands for its end.
pub proof fn law_column_behind_the_line(line: Seq<char>, column: u32)
    requires
        column > byte_len(line),
    ensures
        before_column(line, column) == Some(line),
{
    assert(line.take(line.len() as int) =~= line);
    lemma_char_position(line, line.len() as int);
}

/// What an editor shows of a rule is what is known of it: the counts are those of
/// the references shown.
pub proof fn law_hover_tells_the_rule(
    h: HoverInfo,
    p: ProjectModel,
    content: Seq<char>,
    at: crate::lookup::AtModel,
    found: (Seq<char>, crate::api::RuleModel),
)
    requires
        hover_holds(h, p, content, at, found),
    ensures
        h.rule_id@ == found.1.id,
        h.raw@ == found.1.raw,
        h.spec_name@ == found.0,
        h.impl_count == h.impl_refs@.len(),
        h.verify_count == h.verify_refs@.len(),
        forall|i: int|
            0 <= i < h.impl_refs@.len() ==> (#[trigger] h.impl_refs@[i]).file@
                == found.1.impl_refs[i].0 && h.impl_refs@[i].line == found.1.impl_refs[i].1,
        forall|i: int|
            0 <= i < h.verify_refs@.len() ==> (#[trigger] h.verify_refs@[i]).file@
                == found.1.verify_refs[i].0 && h.verify_refs@[i].line == found.1.verify_refs[i].1,
        h.previous is Some ==> {
            &&& found.1.source_file == Some(h.previous->0.source_file@)
            &&& h.previous->0.rule_id@.0 == found.1.id.0
            &&& h.previous->0.rule_id@.1 < found.1.id.1
        },
{
    crate::editor_laws::law_compared_version(found.1, at.req_id);
    let a = crate::api::code_refs(h.impl_refs@);
    let b = crate::api::code_refs(h.verify_refs@);
    assert(a.len() == h.impl_refs@.len() && b.len() == h.verify_refs@.len());
    assert forall|i: int| 0 <= i < h.impl_refs@.len() implies (#[trigger] h.impl_refs@[i]).file@
        == found.1.impl_refs[i].0 && h.impl_refs@[i].line == found.1.impl_refs[i].1 by {
        assert(a[i] == h.impl_refs@[i]@);
    }
    assert forall|i: int| 0 <= i < h.verify_refs@.len() implies (#[trigger] h.verify_refs@[i]).file@
        == found.1.verify_refs[i].0 && h.verify_refs@[i].line == found.1.verify_refs[i].1 by {
        assert(b[i] == h.verify_refs@[i]@);
    }
}

/// A change is made exactly where the file is the one that was seen, and the range
/// lies in it; a file that changed is told first.
pub proof fn law_update_is_refused(
    actual: Seq<char>,
    expected: Seq<char>,
    length: nat,
    start: usize,
    end: usize,
    e: Option<UpdateError>,
)
    requires
        update_refusal(actual, expected, length, start, end, e),
    ensures
        e is None <==> actual == expected && start <= end <= length,
        actual != expected ==> e is Some && e->0 is Modified,
        e is Some && e->0 is InvalidRange ==> actual == expected && !(start <= end <= length),
{
}

/// A source text is shown highlighted where that could be done, else escaped.
pub proof fn law_shown_source(h: Seq<char>, content: Seq<char>)
    ensures
        shown_source_html(Some(h), content) == h,
        shown_source_html(None, content) == escaped(content),
{
}

/// A shown unit has the kind, the name, the lines and the references of the unit of
/// the code.
pub proof fn law_unit_is_shown(a: ApiCodeUnit, u: CodeUnit)
    requires
        shows_unit(a, u),
    ensures
        a.kind@ == u.kind@,
        opt_text(a.name) == opt_text(u.name),
        a.start_line == u.start_line,
        a.end_line == u.end_line,
        texts(a.rule_refs@) == texts(u.req_refs@),
{
}

/// Lean comments begin with dashes, those of scripts with a hash, Svelte has those
/// of markup, and Rust and its like those with slashes.
pub proof fn law_comments_by_language()
    ensures
        comment_style(Language::Lean) is Dash,
        comment_style(Language::Nix) is HashBlock,
        comment_style(Language::Svelte) is Markup,
        forall|l: Language|
            #[trigger] comment_style(l) is Hash <==> l is Python || l is Ruby || l is Shell
                || l is Yaml,
        forall|l: Language|
            #[trigger] comment_style(l) is Slash <==> !(l is Python || l is Ruby || l is Shell
                || l is Yaml || l is Nix || l is Lean || l is Svelte),
{
}

} // verus!
