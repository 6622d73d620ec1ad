//! Paths as `/`-separated text.

use vstd::prelude::*;

use crate::split::{split_char, split_char_of};
use crate::text::{chars_of, concat2, concat3, copy_str, opt_text, rfind_char, rfind_char_in, str_eq, sub_string, texts};

verus! {

/// The components among `segs[i..]`: empty segments and `.` count for nothing,
/// except for a `.` that a relative path begins with.
pub open spec fn components_from(segs: Seq<Seq<char>>, i: int, relative: bool) -> Seq<Seq<char>>
    decreases segs.len() - i,
{
    if i < 0 || i >= segs.len() {
        Seq::empty()
    } else if segs[i].len() == 0 || (segs[i] == "."@ && !(relative && i == 0)) {
        components_from(segs, i + 1, relative)
    } else {
        seq![segs[i]] + components_from(segs, i + 1, relative)
    }
}

pub open spec fn is_absolute(p: Seq<char>) -> bool {
    p.len() > 0 && p[0] == '/'
}

/// The components of a path; the root of an absolute path is the component `/`.
pub open spec fn components(p: Seq<char>) -> Seq<Seq<char>> {
    let named = components_from(split_char(p, '/'), 0, !is_absolute(p));
    if is_absolute(p) {
        seq!["/"@] + named
    } else {
        named
    }
}

/// The last component of a path where it names a file or directory.
pub open spec fn file_name(p: Seq<char>) -> Option<Seq<char>> {
    let c = components(p);
    if c.len() == 0 || c.last() == "/"@ || c.last() == "."@ || c.last() == ".."@ {
        None
    } else {
        Some(c.last())
    }
}

/// What follows the last dot of a name, unless the name begins with that dot.
pub open spec fn name_extension(name: Seq<char>) -> Option<Seq<char>> {
    match rfind_char(name, '.') {
        Some(i) => if i > 0 {
            Some(name.subrange(i + 1, name.len() as int))
        } else {
            None
        },
        None => None,
    }
}

/// The extension of the file that a path names.
pub open spec fn extension(p: Seq<char>) -> Option<Seq<char>> {
    match file_name(p) {
        Some(name) => name_extension(name),
        None => None,
    }
}

/// The components joined by `/`.
pub open spec fn joined(c: Seq<Seq<char>>) -> Seq<char>
    decreases c.len(),
{
    if c.len() == 0 {
        Seq::empty()
    } else if c.len() == 1 {
        c[0]
    } else if c.drop_last() == seq!["/"@] {
        "/"@ + c.last()
    } else {
        joined(c.drop_last()) + "/"@ + c.last()
    }
}

/// The path from `base` to `p`, where `p` lies in `base`.
pub open spec fn relative_to(p: Seq<char>, base: Seq<char>) -> Option<Seq<char>> {
    let c = components(p);
    let b = components(base);
    if b.len() <= c.len() && c.take(b.len() as int) == b {
        Some(joined(c.skip(b.len() as int)))
    } else {
        None
    }
}

/// The path `p` seen from `base`: `p` itself where it is absolute.
pub open spec fn path_join(base: Seq<char>, p: Seq<char>) -> Seq<char> {
    if is_absolute(p) || base.len() == 0 {
        p
    } else if base.last() == '/' {
        base + p
    } else {
        base + "/"@ + p
    }
}

pub fn components_of(p: &str) -> (r: Vec<String>)
    ensures
        texts(r@) == components(p@),
{
    let v = chars_of(p);
    let absolute = v.len() > 0 && v[0] == '/';
    let segs = split_char_of(p, '/');
    let ghost all = texts(segs@);
    let mut out: Vec<String> = Vec::new();
    if absolute {
        out.push(copy_str("/"));
    }
    let ghost head = texts(out@);
    let mut i: usize = 0;
    proof {
        assert(head =~= if absolute {
            seq!["/"@]
        } else {
            Seq::<Seq<char>>::empty()
        });
        assert(texts(out@) + components_from(all, 0, !absolute) =~= components(p@));
    }
    while i < segs.len()
        invariant
            i <= segs@.len(),
            all == texts(segs@),
            texts(out@) + components_from(all, i as int, !absolute) == components(p@),
        decreases segs@.len() - i,
    {
        let s = segs[i].as_str();
        assert(s@ == all[i as int]);
        let ghost before = texts(out@);
        if s.is_empty() || (str_eq(s, ".") && !(!absolute && i == 0)) {
        } else {
            out.push(copy_str(s));
            proof {
                assert(texts(out@) =~= before.push(s@));
                assert(texts(out@) + components_from(all, i + 1, !absolute) =~= before
                    + components_from(all, i as int, !absolute));
            }
        }
        i = i + 1;
    }
    assert(texts(out@) + Seq::<Seq<char>>::empty() =~= texts(out@));
    out
}

pub fn is_absolute_path(p: &str) -> (r: bool)
    ensures
        r == is_absolute(p@),
{
    let v = chars_of(p);
    v.len() > 0 && v[0] == '/'
}

/// The file name of a path.
pub fn file_name_of(p: &str) -> (r: Option<String>)
    ensures
        opt_text(r) == file_name(p@),
{
    let c = components_of(p);
    if c.len() == 0 {
        return None;
    }
    let last = c[c.len() - 1].as_str();
    assert(last@ == texts(c@).last());
    if str_eq(last, "/") || str_eq(last, ".") || str_eq(last, "..") {
        None
    } else {
        Some(copy_str(last))
    }
}

/// The extension of a path, without the dot.
pub fn extension_of(p: &str) -> (r: Option<String>)
    ensures
        opt_text(r) == extension(p@),
{
    match file_name_of(p) {
        Some(name) => {
            let v = chars_of(name.as_str());
            match rfind_char_in(&v, '.') {
                Some(i) => if i > 0 {
                    Some(sub_string(&v, i + 1, v.len()))
                } else {
                    None
                },
                None => None,
            }
        },
        None => None,
    }
}

pub fn join_components(c: &Vec<String>, from: usize) -> (r: String)
    requires
        from <= c@.len(),
    ensures
        r@ == joined(texts(c@).skip(from as int)),
{
    let ghost all = texts(c@).skip(from as int);
    let mut out = String::new();
    let mut i: usize = from;
    while i < c.len()
        invariant
            from <= i <= c@.len(),
            all == texts(c@).skip(from as int),
            out@ == joined(all.take(i - from)),
        decreases c@.len() - i,
    {
        let ghost k = i - from;
        proof {
            assert(all.take(k + 1).drop_last() =~= all.take(k));
            assert(all.take(k + 1).last() == c@[i as int]@);
        }
        if i == from {
            out.append(c[i].as_str());
            assert(out@ =~= c@[i as int]@);
        } else if i == from + 1 && str_eq(c[from].as_str(), "/") {
            proof {
                assert(all.take(k) =~= seq!["/"@]);
            }
            out.append(c[i].as_str());
        } else {
            proof {
                if all.take(k) == seq!["/"@] {
                    assert(all.take(k).len() == 1);
                    assert(all.take(k)[0] == all[0]);
                }
            }
            out.append("/");
            out.append(c[i].as_str());
        }
        i = i + 1;
    }
    assert(all.take(i - from) =~= all);
    out
}

/// `Path::strip_prefix`: the path from `base` to `p`, or `None` where `p` does
/// not lie in `base`.
pub fn relative_path(p: &str, base: &str) -> (r: Option<String>)
    ensures
        opt_text(r) == relative_to(p@, base@),
{
    let c = components_of(p);
    let b = components_of(base);
    if b.len() > c.len() {
        assert(texts(b@).len() > texts(c@).len());
        return None;
    }
    let mut i: usize = 0;
    while i < b.len()
        invariant
            i <= b@.len() <= c@.len(),
            texts(c@) == components(p@),
            texts(b@) == components(base@),
            forall|j: int| 0 <= j < i ==> texts(c@)[j] == texts(b@)[j],
        decreases b@.len() - i,
    {
        if !str_eq(c[i].as_str(), b[i].as_str()) {
            proof {
                assert(texts(c@).take(b@.len() as int)[i as int] != texts(b@)[i as int]);
            }
            return None;
        }
        i = i + 1;
    }
    assert(texts(c@).take(b@.len() as int) =~= texts(b@));
    Some(join_components(&c, b.len()))
}

/// `path.strip_prefix(base).unwrap_or(path)`.
pub open spec fn relative_or_self(p: Seq<char>, base: Seq<char>) -> Seq<char> {
    match relative_to(p, base) {
        Some(r) => r,
        None => p,
    }
}

pub fn relative_path_or_self(p: &str, base: &str) -> (r: String)
    ensures
        r@ == relative_or_self(p@, base@),
{
    match relative_path(p, base) {
        Some(r) => r,
        None => copy_str(p),
    }
}

/// `Path::join`.
pub fn join_paths(base: &str, p: &str) -> (r: String)
    ensures
        r@ == path_join(base@, p@),
{
    let b = chars_of(base);
    if is_absolute_path(p) || b.len() == 0 {
        copy_str(p)
    } else if b[b.len() - 1] == '/' {
        concat2(base, p)
    } else {
        concat3(base, "/", p)
    }
}

/// A path lies in itself, and nothing remains.
pub proof fn law_relative_to_self(p: Seq<char>)
    ensures
        relative_to(p, p) == Some(Seq::<char>::empty()),
{
    let c = components(p);
    assert(c.take(c.len() as int) =~= c);
    assert(c.skip(c.len() as int) =~= Seq::<Seq<char>>::empty());
}

/// Whether a path has the given components.
pub fn same_path(a: &Vec<String>, b: &str) -> (r: bool)
    ensures
        r == (texts(a@) == components(b@)),
{
    let c = components_of(b);
    let ghost x = texts(a@);
    let ghost y = texts(c@);
    if a.len() != c.len() {
        assert(x.len() != y.len());
        return false;
    }
    let mut i: usize = 0;
    while i < a.len()
        invariant
            i <= a@.len(),
            a@.len() == c@.len(),
            x == texts(a@),
            y == texts(c@),
            y == components(b@),
            forall|j: int| 0 <= j < i ==> x[j] == y[j],
        decreases a@.len() - i,
    {
        if !str_eq(a[i].as_str(), c[i].as_str()) {
            assert(x[i as int] != y[i as int]);
            return false;
        }
        i = i + 1;
    }
    assert(x =~= y);
    true
}

/// A list of paths holds one with the same components.
pub open spec fn lists_path(v: Seq<Seq<char>>, p: Seq<char>) -> bool {
    exists|i: int| 0 <= i < v.len() && components(#[trigger] v[i]) == components(p)
}

/// Whether a list of paths holds a path.
pub fn path_in(v: &Vec<String>, p: &str) -> (r: bool)
    ensures
        r == lists_path(texts(v@), p@),
{
    let ghost ts = texts(v@);
    let parts = components_of(p);
    let mut i: usize = 0;
    while i < v.len()
        invariant
            i <= v@.len(),
            ts == texts(v@),
            texts(parts@) == components(p@),
            forall|j: int| 0 <= j < i ==> components(#[trigger] ts[j]) != components(p@),
        decreases v@.len() - i,
    {
        assert(ts[i as int] == v@[i as int]@);
        if same_path(&parts, v[i].as_str()) {
            return true;
        }
        i = i + 1;
    }
    false
}

} // verus!
