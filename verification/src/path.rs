//! Mapping between local paths and paths on the remote host.
//!
//! Paths are texts whose separator is `/`. Nothing here touches a file
//! system: every function is a function of its arguments.

use vstd::prelude::*;
use crate::split::{Delim, join, join_rows, skip_leading, split_tokens, tokens, without_leading};
use crate::text::{chars_of, copy_of, one_char, push_all, rows, same_text, string_of};

verus! {

/// The path separator.
pub open spec fn slash() -> Delim {
    Delim::Char('/')
}

/// The text `/`.
pub open spec fn sep() -> Seq<char> {
    seq!['/']
}

/// The name `.`, which stands for the directory itself.
pub open spec fn dot() -> Seq<char> {
    seq!['.']
}

/// The name `..`, which stands for the parent directory.
pub open spec fn dotdot() -> Seq<char> {
    seq!['.', '.']
}

/// Whether `s` starts at the root.
pub open spec fn is_absolute(s: Seq<char>) -> bool {
    s.len() > 0 && s[0] == '/'
}

/// What is left of the names `toks` once each is applied in turn: `.` changes
/// nothing, `..` takes the last name away where there is one, any other
/// name is added.
pub open spec fn clean_segments(toks: Seq<Seq<char>>) -> Seq<Seq<char>>
    decreases toks.len(),
{
    if toks.len() == 0 {
        toks
    } else {
        let before = clean_segments(toks.drop_last());
        let t = toks.last();
        if t == dotdot() {
            if before.len() > 0 {
                before.drop_last()
            } else {
                before
            }
        } else if t == dot() {
            before
        } else {
            before.push(t)
        }
    }
}

/// The path made of the names `segs`, from the root if `absolute`.
pub open spec fn render_path(absolute: bool, segs: Seq<Seq<char>>) -> Seq<char> {
    if absolute {
        sep() + join(segs, sep())
    } else {
        join(segs, sep())
    }
}

/// `s` in clean form: without `.` and `..`, empty names and a separator at the end.
pub open spec fn clean(s: Seq<char>) -> Seq<char> {
    render_path(is_absolute(s), clean_segments(tokens(s, slash())))
}

/// `rel` seen from `base`: `rel` itself where it is absolute, else `base`,
/// a separator unless `base` is empty or ends in one, and `rel`.
pub open spec fn join_path(base: Seq<char>, rel: Seq<char>) -> Seq<char> {
    if is_absolute(rel) {
        rel
    } else if base.len() == 0 || base.last() == '/' {
        base + rel
    } else {
        base + sep() + rel
    }
}

/// `raw` with a `~` at its start replaced by `home`: the tildes at the start
/// and the separators after them are taken away, and the rest is joined to
/// `home`. A text that does not start with `~` is left as it is.
pub open spec fn expand(raw: Seq<char>, home: Seq<char>) -> Seq<char> {
    if raw.len() > 0 && raw[0] == '~' {
        join_path(home, skip_leading(skip_leading(raw, Delim::Char('~')), slash()))
    } else {
        raw
    }
}

/// `path` made absolute against `cwd` where it is relative, then cleaned.
pub open spec fn normalize(path: Seq<char>, cwd: Seq<char>) -> Seq<char> {
    if is_absolute(path) {
        clean(path)
    } else {
        clean(join_path(cwd, path))
    }
}

/// The clean absolute form of what the user wrote.
pub open spec fn resolve_spec(raw: Seq<char>, cwd: Seq<char>, home: Seq<char>) -> Seq<char> {
    normalize(expand(raw, home), cwd)
}

/// `toks` without the names `.`.
pub open spec fn drop_dots(toks: Seq<Seq<char>>) -> Seq<Seq<char>>
    decreases toks.len(),
{
    if toks.len() == 0 {
        toks
    } else if toks.last() == dot() {
        drop_dots(toks.drop_last())
    } else {
        drop_dots(toks.drop_last()).push(toks.last())
    }
}

/// The components of `s`: `/` for the root where `s` is absolute, `.` where
/// `s` is relative and its first name is `.`, then its names but `.`.
pub open spec fn components(s: Seq<char>) -> Seq<Seq<char>> {
    let toks = tokens(s, slash());
    let head = if is_absolute(s) {
        seq![sep()]
    } else if toks.len() > 0 && toks[0] == dot() {
        seq![dot()]
    } else {
        Seq::empty()
    };
    head + drop_dots(toks)
}

/// The path whose components are `cs`.
pub open spec fn path_of(cs: Seq<Seq<char>>) -> Seq<char> {
    if cs.len() > 0 && cs[0] == sep() {
        sep() + join(cs.skip(1), sep())
    } else {
        join(cs, sep())
    }
}

/// Whether `local` is `home` or lies below it, component by component.
pub open spec fn is_under(local: Seq<char>, home: Seq<char>) -> bool {
    components(home).is_prefix_of(components(local))
}

/// The remote path of `local`: `~` where `local` is `home`, `~/` and what
/// follows `home` where it lies below, and `local` itself anywhere else.
pub open spec fn remote_of(local: Seq<char>, home: Seq<char>) -> Seq<char> {
    if is_under(local, home) {
        let rest = components(local).skip(components(home).len() as int);
        if rest.len() == 0 {
            seq!['~']
        } else {
            seq!['~', '/'] + join(rest, sep())
        }
    } else {
        local
    }
}

/// The path without its last component, if it has a parent: a path that
/// is empty or only the root has none.
pub open spec fn parent(s: Seq<char>) -> Option<Seq<char>> {
    let cs = components(s);
    if cs.len() == 0 || cs.last() == sep() {
        None
    } else {
        Some(path_of(cs.drop_last()))
    }
}

/// The parent of a path; a path without a parent stands for itself.
pub open spec fn parent_of(s: Seq<char>) -> Seq<char> {
    match parent(s) {
        Some(p) => p,
        None => s,
    }
}

fn is_dot(t: &Vec<char>) -> (r: bool)
    ensures
        r == (t@ == dot()),
{
    let r = t.len() == 1 && t[0] == '.';
    proof {
        if r {
            assert(t@ =~= dot());
        }
    }
    r
}

fn is_dotdot(t: &Vec<char>) -> (r: bool)
    ensures
        r == (t@ == dotdot()),
{
    let r = t.len() == 2 && t[0] == '.' && t[1] == '.';
    proof {
        if r {
            assert(t@ =~= dotdot());
        }
    }
    r
}

fn starts_at_root(s: &Vec<char>) -> (r: bool)
    ensures
        r == is_absolute(s@),
{
    s.len() > 0 && s[0] == '/'
}

/// The characters of the path made of the names `segs`.
fn render_chars(absolute: bool, segs: &Vec<Vec<char>>) -> (out: Vec<char>)
    ensures
        out@ == render_path(absolute, rows(segs@)),
{
    let mut out: Vec<char> = Vec::new();
    if absolute {
        out.push('/');
    }
    let s = one_char('/');
    let joined = join_rows(segs, &s);
    push_all(&mut out, &joined);
    proof {
        if absolute {
            assert(out@ == sep() + join(rows(segs@), sep()));
        } else {
            assert(out@ == join(rows(segs@), sep()));
        }
    }
    out
}

fn clean_chars(s: &Vec<char>) -> (out: Vec<char>)
    ensures
        out@ == clean(s@),
{
    let toks = split_tokens(s, Delim::Char('/'));
    let mut segs: Vec<Vec<char>> = Vec::new();
    let mut i: usize = 0;
    while i < toks.len()
        invariant
            i <= toks.len(),
            rows(segs@) == clean_segments(rows(toks@).take(i as int)),
        decreases toks.len() - i,
    {
        proof {
            assert(rows(toks@).take(i + 1).drop_last() == rows(toks@).take(i as int));
        }
        let ghost before = segs@;
        if is_dotdot(&toks[i]) {
            segs.pop();
            proof {
                if before.len() > 0 {
                    assert(rows(segs@) == rows(before).drop_last());
                }
            }
        } else if is_dot(&toks[i]) {
        } else {
            segs.push(copy_of(&toks[i]));
            proof {
                assert(rows(segs@) == rows(before).push(toks@[i as int]@));
            }
        }
        i += 1;
    }
    proof {
        assert(rows(toks@).take(toks.len() as int) == rows(toks@));
    }
    render_chars(starts_at_root(s), &segs)
}

/// Cleans a path lexically: names are applied from left to right, `.` is
/// dropped, `..` removes the name before it, and at the root or at the start
/// of a relative path `..` changes nothing.
pub fn clean_path(path: &str) -> (out: String)
    ensures
        out@ == clean(path@),
{
    let s = chars_of(path);
    let out = clean_chars(&s);
    string_of(&out)
}

fn join_chars(base: &Vec<char>, rel: &Vec<char>) -> (out: Vec<char>)
    ensures
        out@ == join_path(base@, rel@),
{
    if starts_at_root(rel) {
        return copy_of(rel);
    }
    let mut out = copy_of(base);
    if base.len() > 0 && base[base.len() - 1] != '/' {
        out.push('/');
    }
    push_all(&mut out, rel);
    out
}

fn expand_chars(raw: &Vec<char>, home: &Vec<char>) -> (out: Vec<char>)
    ensures
        out@ == expand(raw@, home@),
{
    if raw.len() > 0 && raw[0] == '~' {
        let a = without_leading(raw, Delim::Char('~'));
        let b = without_leading(&a, Delim::Char('/'));
        join_chars(home, &b)
    } else {
        copy_of(raw)
    }
}

/// Replaces a `~` at the start of `raw` by the home directory `home`.
pub fn expand_path(raw: &str, home: &str) -> (out: String)
    ensures
        out@ == expand(raw@, home@),
{
    let r = chars_of(raw);
    let h = chars_of(home);
    let out = expand_chars(&r, &h);
    string_of(&out)
}

fn normalize_chars(path: &Vec<char>, cwd: &Vec<char>) -> (out: Vec<char>)
    ensures
        out@ == normalize(path@, cwd@),
{
    if starts_at_root(path) {
        clean_chars(path)
    } else {
        let joined = join_chars(cwd, path);
        clean_chars(&joined)
    }
}

/// Makes `path` absolute against the working directory `cwd` where it is
/// relative, and cleans it.
pub fn normalize_path(path: &str, cwd: &str) -> (out: String)
    ensures
        out@ == normalize(path@, cwd@),
{
    let p = chars_of(path);
    let c = chars_of(cwd);
    let out = normalize_chars(&p, &c);
    string_of(&out)
}

/// Resolves what the user wrote into a clean path: expands `~` to `home`,
/// makes the result absolute against `cwd`, and cleans it.
pub fn resolve(raw: &str, cwd: &str, home: &str) -> (out: String)
    ensures
        out@ == resolve_spec(raw@, cwd@, home@),
{
    let r = chars_of(raw);
    let c = chars_of(cwd);
    let h = chars_of(home);
    let e = expand_chars(&r, &h);
    let out = normalize_chars(&e, &c);
    string_of(&out)
}

/// The components of `s`.
pub fn components_of(s: &Vec<char>) -> (out: Vec<Vec<char>>)
    ensures
        rows(out@) == components(s@),
{
    let toks = split_tokens(s, Delim::Char('/'));
    let mut out: Vec<Vec<char>> = Vec::new();
    if starts_at_root(s) {
        out.push(one_char('/'));
    } else if toks.len() > 0 && is_dot(&toks[0]) {
        out.push(one_char('.'));
    }
    let ghost head = rows(out@);
    proof {
        assert(rows(toks@)[0] == toks@[0]@ || toks.len() == 0);
        assert(head + drop_dots(rows(toks@).take(0)) == head);
    }
    let mut i: usize = 0;
    while i < toks.len()
        invariant
            i <= toks.len(),
            rows(out@) == head + drop_dots(rows(toks@).take(i as int)),
        decreases toks.len() - i,
    {
        proof {
            assert(rows(toks@).take(i + 1).drop_last() == rows(toks@).take(i as int));
        }
        if !is_dot(&toks[i]) {
            let ghost before = out@;
            out.push(copy_of(&toks[i]));
            proof {
                assert(rows(out@) == rows(before).push(toks@[i as int]@));
                assert(rows(out@) == head + drop_dots(rows(toks@).take(i + 1)));
            }
        }
        i += 1;
    }
    proof {
        assert(rows(toks@).take(toks.len() as int) == rows(toks@));
    }
    out
}

/// Whether the texts of `a` are the first texts of `b`.
fn rows_start_with(b: &Vec<Vec<char>>, a: &Vec<Vec<char>>) -> (r: bool)
    ensures
        r == rows(a@).is_prefix_of(rows(b@)),
{
    if a.len() > b.len() {
        return false;
    }
    let mut i: usize = 0;
    while i < a.len()
        invariant
            i <= a.len() <= b.len(),
            forall|k: int| 0 <= k < i ==> rows(a@)[k] == rows(b@)[k],
        decreases a.len() - i,
    {
        if !same_text(&a[i], &b[i]) {
            proof {
                assert(rows(a@)[i as int] != rows(b@)[i as int]);
            }
            return false;
        }
        i += 1;
    }
    true
}

/// Copies of the members of `v` from index `from` on.
fn rows_from(v: &Vec<Vec<char>>, from: usize, to: usize) -> (out: Vec<Vec<char>>)
    requires
        from <= to <= v.len(),
    ensures
        rows(out@) == rows(v@).subrange(from as int, to as int),
{
    let mut out: Vec<Vec<char>> = Vec::new();
    let mut i: usize = from;
    while i < to
        invariant
            from <= i <= to <= v.len(),
            rows(out@) == rows(v@).subrange(from as int, i as int),
        decreases to - i,
    {
        let ghost before = out@;
        out.push(copy_of(&v[i]));
        proof {
            assert(rows(out@) == rows(before).push(v@[i as int]@));
        }
        i += 1;
    }
    out
}

/// The characters of the path whose components are `cs`.
fn path_chars(cs: &Vec<Vec<char>>) -> (out: Vec<char>)
    ensures
        out@ == path_of(rows(cs@)),
{
    let s = one_char('/');
    if cs.len() > 0 && same_text(&cs[0], &s) {
        let tail = rows_from(cs, 1, cs.len());
        let mut out = one_char('/');
        let joined = join_rows(&tail, &s);
        push_all(&mut out, &joined);
        out
    } else {
        join_rows(cs, &s)
    }
}

/// Maps a clean local path to the path it has on the remote host: below
/// the home directory the path is written from `~`, anywhere else it is
/// reused as it stands.
pub fn map_to_remote(local: &str, home: &str) -> (out: String)
    ensures
        out@ == remote_of(local@, home@),
{
    let l = chars_of(local);
    let h = chars_of(home);
    let lc = components_of(&l);
    let hc = components_of(&h);
    if rows_start_with(&lc, &hc) {
        let rest = rows_from(&lc, hc.len(), lc.len());
        let mut out = one_char('~');
        if rest.len() > 0 {
            out.push('/');
            let joined = join_rows(&rest, &one_char('/'));
            push_all(&mut out, &joined);
            proof {
                assert(out@ == seq!['~', '/'] + join(rows(rest@), sep()));
            }
        }
        string_of(&out)
    } else {
        string_of(&l)
    }
}

/// The parent of a path, if it has one.
pub fn parent_path(path: &str) -> (out: Option<String>)
    ensures
        match out {
            Some(p) => parent(path@) == Some(p@),
            None => parent(path@) is None,
        },
{
    let s = chars_of(path);
    let cs = components_of(&s);
    if cs.len() == 0 || same_text(&cs[cs.len() - 1], &one_char('/')) {
        None
    } else {
        let front = rows_from(&cs, 0, cs.len() - 1);
        let out = path_chars(&front);
        Some(string_of(&out))
    }
}

/// The parent of a remote path; a path without a parent stands for itself.
pub fn parent_of_remote(remote_path: &str) -> (out: String)
    ensures
        out@ == parent_of(remote_path@),
{
    match parent_path(remote_path) {
        Some(p) => p,
        None => remote_path.to_owned(),
    }
}

} // verus!
