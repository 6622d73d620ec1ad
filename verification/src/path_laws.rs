//! What paths say of each other.

use vstd::prelude::*;

use crate::paths::{
    components, components_from, extension, file_name, is_absolute, joined, lists_path,
    name_extension, path_join, relative_or_self, relative_to,
};
use crate::split::split_char;
use crate::text::{find_char, lemma_find_char, rfind_char};
use crate::text_laws::law_split;

verus! {

/// A name behind a path adds one component to it.
pub proof fn law_name_adds_a_component(a: Seq<char>, name: Seq<char>)
    requires
        a.len() > 0,
        is_name(name),
    ensures
        components(a + "/"@ + name) == components(a).push(name),
{
    reveal_strlit("/");
    let p = a + "/"@ + name;
    assert("/"@ =~= seq!['/']);
    lemma_split_concat(a, '/', name);
    law_split(name, '/', Seq::empty());
    let segs = split_char(a, '/');
    assert(split_char(p, '/') =~= segs.push(name));
    assert(p[0] == a[0]);
    lemma_split_some(a, '/');
    lemma_components_push(segs, name, 0, !is_absolute(a));
    assert(components(p) =~= components(a).push(name));
}

/// A text that can name a file or a directory.
pub open spec fn is_name(s: Seq<char>) -> bool {
    s.len() > 0 && !s.contains('/') && s != "."@
}

proof fn lemma_split_some(s: Seq<char>, c: char)
    ensures
        split_char(s, c).len() > 0,
{
    lemma_find_char(s, c, 0);
}

pub proof fn lemma_split_concat(a: Seq<char>, c: char, b: Seq<char>)
    ensures
        split_char(a + seq![c] + b, c) == split_char(a, c) + split_char(b, c),
    decreases a.len(),
{
    lemma_find_char(a, c, 0);
    match find_char(a, c, 0) {
        Some(i) => {
            let first = a.take(i);
            let rest = a.skip(i + 1);
            assert(!first.contains(c)) by {
                if first.contains(c) {
                    let j = first.index_of(c);
                    assert(a[j] == c);
                }
            }
            assert(a =~= first + seq![c] + rest);
            law_split(first, c, rest);
            assert(a + seq![c] + b =~= first + seq![c] + (rest + seq![c] + b));
            law_split(first, c, rest + seq![c] + b);
            lemma_split_concat(rest, c, b);
            assert(split_char(a + seq![c] + b, c) =~= split_char(a, c) + split_char(b, c));
        },
        None => {
            assert(!a.contains(c)) by {
                if a.contains(c) {
                    let j = a.index_of(c);
                    assert(a[j] == c);
                }
            }
            law_split(a, c, b);
        },
    }
}

proof fn lemma_components_push(segs: Seq<Seq<char>>, name: Seq<char>, i: int, relative: bool)
    requires
        0 <= i <= segs.len(),
        segs.len() > 0,
        name.len() > 0,
        name != "."@,
    ensures
        components_from(segs.push(name), i, relative) == components_from(segs, i, relative).push(
            name,
        ),
    decreases segs.len() - i,
{
    if i < segs.len() {
        lemma_components_push(segs, name, i + 1, relative);
        assert(segs.push(name)[i] == segs[i]);
        assert(components_from(segs.push(name), i, relative) =~= components_from(
            segs,
            i,
            relative,
        ).push(name));
    } else {
        assert(segs.push(name)[i] == name);
        assert(components_from(segs.push(name), i + 1, relative) =~= Seq::<Seq<char>>::empty());
        assert(components_from(segs.push(name), i, relative) =~= components_from(
            segs,
            i,
            relative,
        ).push(name));
    }
}

/// A file in a directory is seen from there by its name, and its name is what
/// stands behind the directory.
pub proof fn law_file_in_a_directory(a: Seq<char>, name: Seq<char>)
    requires
        a.len() > 0,
        is_name(name),
        name != ".."@,
    ensures
        relative_to(a + "/"@ + name, a) == Some(name),
        relative_or_self(a + "/"@ + name, a) == name,
        file_name(a + "/"@ + name) == Some(name),
        extension(a + "/"@ + name) == name_extension(name),
{
    law_name_adds_a_component(a, name);
    let c = components(a + "/"@ + name);
    let b = components(a);
    assert(c.take(b.len() as int) =~= b);
    assert(c.skip(b.len() as int) =~= seq![name]);
    assert(joined(seq![name]) == name);
    reveal_strlit("/");
    if name == "/"@ {
        assert(name[0] == '/');
        assert(name.contains('/'));
    }
}

/// A path is seen from another exactly where it begins with all components of it;
/// else it is shown as it is.
pub proof fn law_relative_by_components(p: Seq<char>, base: Seq<char>)
    ensures
        relative_to(p, base) is Some <==> exists|rest: Seq<Seq<char>>|
            components(p) == #[trigger] (components(base) + rest),
        relative_to(p, base) is None ==> relative_or_self(p, base) == p,
        forall|rest: Seq<Seq<char>>|
            components(p) == #[trigger] (components(base) + rest) ==> relative_or_self(p, base)
                == joined(rest),
{
    let c = components(p);
    let b = components(base);
    if relative_to(p, base) is Some {
        let rest = c.skip(b.len() as int);
        assert(c =~= b + rest);
    }
    assert forall|rest: Seq<Seq<char>>| c == #[trigger] (b + rest) implies relative_or_self(p, base)
        == joined(rest) by {
        assert(c.take(b.len() as int) =~= b);
        assert(c.skip(b.len() as int) =~= rest);
    }
    if exists|rest: Seq<Seq<char>>| c == #[trigger] (b + rest) {
        let rest = choose|rest: Seq<Seq<char>>| c == #[trigger] (b + rest);
        assert(c.take(b.len() as int) =~= b);
    }
}

/// Components are joined by one slash each.
pub proof fn law_joined(c: Seq<Seq<char>>, name: Seq<char>)
    ensures
        joined(seq![name]) == name,
        c.len() > 0 && c != seq!["/"@] ==> joined(c.push(name)) == joined(c) + "/"@ + name,
        joined(seq!["/"@].push(name)) == "/"@ + name,
{
    assert(c.push(name).drop_last() =~= c);
    assert(seq!["/"@].push(name).drop_last() =~= seq!["/"@]);
}

/// An absolute path stands for itself; any other is looked for under the base.
pub proof fn law_join(base: Seq<char>, name: Seq<char>)
    requires
        base.len() > 0,
        base.last() != '/',
    ensures
        path_join(base, seq!['/'] + name) == seq!['/'] + name,
        is_name(name) ==> components(path_join(base, name)) == components(base).push(name),
        is_name(name) && name != ".."@ ==> relative_to(path_join(base, name), base) == Some(name),
{
    if is_name(name) {
        if name[0] == '/' {
            assert(name.contains('/'));
        }
        law_name_adds_a_component(base, name);
        if name != ".."@ {
            law_file_in_a_directory(base, name);
        }
    }
}

/// The extension of a name is what stands behind its last dot; a name without a dot,
/// or with none but at its beginning, has none.
pub proof fn law_extension(stem: Seq<char>, ext: Seq<char>)
    requires
        !ext.contains('.'),
    ensures
        stem.len() > 0 ==> name_extension(stem + seq!['.'] + ext) == Some(ext),
        name_extension(seq!['.'] + ext) is None,
        name_extension(ext) is None,
{
    lemma_last_dot(stem, ext);
    lemma_last_dot(Seq::empty(), ext);
    lemma_no_dot(ext);
    let s = stem + seq!['.'] + ext;
    assert(s.subrange(stem.len() as int + 1, s.len() as int) =~= ext);
    assert(Seq::<char>::empty() + seq!['.'] + ext =~= seq!['.'] + ext);
}

proof fn lemma_no_dot(s: Seq<char>)
    requires
        !s.contains('.'),
    ensures
        rfind_char(s, '.') is None,
    decreases s.len(),
{
    if s.len() > 0 {
        assert(s[s.len() - 1] != '.');
        assert(!s.drop_last().contains('.')) by {
            if s.drop_last().contains('.') {
                let i = s.drop_last().index_of('.');
                assert(s[i] == '.');
            }
        }
        lemma_no_dot(s.drop_last());
    }
}

proof fn lemma_last_dot(stem: Seq<char>, ext: Seq<char>)
    requires
        !ext.contains('.'),
    ensures
        rfind_char(stem + seq!['.'] + ext, '.') == Some(stem.len() as int),
    decreases ext.len(),
{
    let s = stem + seq!['.'] + ext;
    if ext.len() == 0 {
        assert(s.last() == '.');
    } else {
        assert(ext[ext.len() - 1] != '.');
        assert(s.last() == ext.last());
        let d = ext.drop_last();
        assert(!d.contains('.')) by {
            if d.contains('.') {
                let i = d.index_of('.');
                assert(ext[i] == '.');
            }
        }
        lemma_last_dot(stem, d);
        assert(s.drop_last() =~= stem + seq!['.'] + d);
    }
}

/// A path is listed however it is written there.
pub proof fn law_listed_path(v: Seq<Seq<char>>, p: Seq<char>, q: Seq<char>)
    requires
        components(p) == components(q),
    ensures
        lists_path(v, p) == lists_path(v, q),
        v.contains(p) ==> lists_path(v, q),
{
    if v.contains(p) {
        let i = v.index_of(p);
        assert(components(v[i]) == components(q));
    }
}

} // verus!
