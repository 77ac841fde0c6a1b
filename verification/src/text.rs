//! Character-level text primitives shared by the rest of the library.
//!
//! Every text is modelled as a `Seq<char>`; a list of texts as a
//! `Seq<Seq<char>>`. The executable functions work on `Vec<char>` and are
//! specified against the spec functions of the same meaning.

use vstd::prelude::*;

verus! {

/// The views of a list of strings.
pub open spec fn texts(v: Seq<String>) -> Seq<Seq<char>> {
    v.map_values(|s: String| s@)
}

/// The views of a list of character vectors.
pub open spec fn rows(v: Seq<Vec<char>>) -> Seq<Seq<char>> {
    v.map_values(|r: Vec<char>| r@)
}

/// The characters of `s`, in order.
pub fn chars_of(s: &str) -> (v: Vec<char>)
    ensures
        v@ == s@,
{
    let mut v: Vec<char> = Vec::new();
    for c in it: s.chars()
        invariant
            v@ == it.seq().take(it.index()),
            it.seq() == s@,
    {
        v.push(c);
    }
    v
}

/// A `String` of the characters of `v`.
///
/// Trusted, not proved: the body is one call of the standard library's
/// `String::from_iter`, of which it is taken for granted that the string it
/// returns holds the characters it was handed, in their order, and no others.
#[verifier::external_body]
pub(crate) fn string_of(v: &Vec<char>) -> (s: String)
    ensures
        s@ == v@,
{
    String::from_iter(v.iter())
}

/// Appends the characters of `tail` to `out`.
pub fn push_all(out: &mut Vec<char>, tail: &Vec<char>)
    ensures
        final(out)@ == old(out)@ + tail@,
{
    let mut i: usize = 0;
    while i < tail.len()
        invariant
            i <= tail.len(),
            out@ == old(out)@ + tail@.take(i as int),
        decreases tail.len() - i,
    {
        out.push(tail[i]);
        i += 1;
    }
}

/// Appends the characters of the string `tail` to `out`.
pub fn push_str(out: &mut Vec<char>, tail: &str)
    ensures
        final(out)@ == old(out)@ + tail@,
{
    let t = chars_of(tail);
    push_all(out, &t);
}

/// A copy of the characters of `s` from index `from` up to, not including, `to`.
pub fn slice_of(s: &Vec<char>, from: usize, to: usize) -> (out: Vec<char>)
    requires
        from <= to <= s.len(),
    ensures
        out@ == s@.subrange(from as int, to as int),
{
    let mut out: Vec<char> = Vec::new();
    let mut i: usize = from;
    while i < to
        invariant
            from <= i <= to <= s.len(),
            out@ == s@.subrange(from as int, i as int),
        decreases to - i,
    {
        out.push(s[i]);
        i += 1;
    }
    out
}

/// Whether `p` occurs in `s` starting at index `at`.
pub open spec fn occurs_at(s: Seq<char>, p: Seq<char>, at: int) -> bool {
    0 <= at && at + p.len() <= s.len() && s.subrange(at, at + p.len()) == p
}

/// Whether `p` occurs in `s` starting at index `at`.
pub fn matches_at(s: &Vec<char>, p: &Vec<char>, at: usize) -> (b: bool)
    ensures
        b == occurs_at(s@, p@, at as int),
{
    if at > s.len() || p.len() > s.len() - at {
        return false;
    }
    let mut j: usize = 0;
    while j < p.len()
        invariant
            j <= p.len(),
            at + p.len() <= s.len(),
            s@.subrange(at as int, at + j) == p@.take(j as int),
        decreases p.len() - j,
    {
        if s[at + j] != p[j] {
            proof {
                let w = s@.subrange(at as int, at + p.len());
                assert(w[j as int] != p@[j as int]);
            }
            return false;
        }
        proof {
            assert(s@.subrange(at as int, at + j + 1) == s@.subrange(at as int, at + j).push(
                s@[at + j],
            ));
            assert(p@.take(j + 1) == p@.take(j as int).push(p@[j as int]));
        }
        j += 1;
    }
    proof {
        assert(p@.take(p.len() as int) == p@);
    }
    true
}

/// Whether `s` begins with `p`.
pub fn starts_with(s: &Vec<char>, p: &Vec<char>) -> (b: bool)
    ensures
        b == p@.is_prefix_of(s@),
{
    let b = matches_at(s, p, 0);
    proof {
        if p@.len() <= s@.len() {
            assert(s@.subrange(0, p@.len() as int) == p@ <==> p@.is_prefix_of(s@)) by {
                if p@.is_prefix_of(s@) {
                    assert(s@.subrange(0, p@.len() as int) =~= p@);
                }
            }
        }
    }
    b
}

/// The index of the first occurrence of `p` in `s` at or after `from`, if there is one.
pub open spec fn find_from(s: Seq<char>, p: Seq<char>, from: int) -> Option<int>
    decreases s.len() - from,
{
    if from < 0 || from + p.len() > s.len() {
        None
    } else if occurs_at(s, p, from) {
        Some(from)
    } else if from >= s.len() {
        None
    } else {
        find_from(s, p, from + 1)
    }
}

/// The index of the first occurrence of `p` in `s`, if there is one.
pub open spec fn find(s: Seq<char>, p: Seq<char>) -> Option<int> {
    find_from(s, p, 0)
}

/// The index of the first occurrence of `p` in `s`, if there is one.
pub fn find_first(s: &Vec<char>, p: &Vec<char>) -> (r: Option<usize>)
    ensures
        match r {
            Some(i) => find(s@, p@) == Some(i as int) && i + p.len() <= s.len(),
            None => find(s@, p@) is None,
        },
{
    if p.len() > s.len() {
        return None;
    }
    let last: usize = s.len() - p.len();
    let mut i: usize = 0;
    loop
        invariant
            i <= last,
            last == s.len() - p.len(),
            find(s@, p@) == find_from(s@, p@, i as int),
        decreases last - i,
    {
        if matches_at(s, p, i) {
            return Some(i);
        }
        if i == last {
            assert(find_from(s@, p@, i + 1) is None);
            return None;
        }
        i += 1;
    }
}

/// The characters of each string of `list`.
pub fn to_rows(list: &Vec<String>) -> (out: Vec<Vec<char>>)
    ensures
        rows(out@) == texts(list@),
{
    let mut out: Vec<Vec<char>> = Vec::new();
    let mut i: usize = 0;
    while i < list.len()
        invariant
            i <= list.len(),
            rows(out@) == texts(list@).take(i as int),
        decreases list.len() - i,
    {
        let ghost before = out@;
        out.push(chars_of(list[i].as_str()));
        proof {
            assert(rows(out@) == rows(before).push(list@[i as int]@));
            assert(texts(list@).take(i + 1) == texts(list@).take(i as int).push(
                list@[i as int]@,
            ));
        }
        i += 1;
    }
    proof {
        assert(texts(list@).take(list.len() as int) == texts(list@));
    }
    out
}

/// A string for each member of `list`.
pub fn to_texts(list: &Vec<Vec<char>>) -> (out: Vec<String>)
    ensures
        texts(out@) == rows(list@),
{
    let mut out: Vec<String> = Vec::new();
    let mut i: usize = 0;
    while i < list.len()
        invariant
            i <= list.len(),
            texts(out@) == rows(list@).take(i as int),
        decreases list.len() - i,
    {
        let ghost before = out@;
        out.push(string_of(&list[i]));
        proof {
            assert(texts(out@) == texts(before).push(list@[i as int]@));
            assert(rows(list@).take(i + 1) == rows(list@).take(i as int).push(list@[i as int]@));
        }
        i += 1;
    }
    proof {
        assert(rows(list@).take(list.len() as int) == rows(list@));
    }
    out
}

/// Whether `a` and `b` hold the same characters.
pub fn same_text(a: &Vec<char>, b: &Vec<char>) -> (r: bool)
    ensures
        r == (a@ == b@),
{
    if a.len() != b.len() {
        return false;
    }
    let mut i: usize = 0;
    while i < a.len()
        invariant
            i <= a.len(),
            a.len() == b.len(),
            a@.take(i as int) == b@.take(i as int),
        decreases a.len() - i,
    {
        if a[i] != b[i] {
            return false;
        }
        proof {
            assert(a@.take(i + 1) == a@.take(i as int).push(a@[i as int]));
            assert(b@.take(i + 1) == b@.take(i as int).push(b@[i as int]));
        }
        i += 1;
    }
    proof {
        assert(a@.take(a.len() as int) == a@);
        assert(b@.take(b.len() as int) == b@);
    }
    true
}

/// The text of one character.
pub fn one_char(c: char) -> (v: Vec<char>)
    ensures
        v@ == seq![c],
{
    let mut v: Vec<char> = Vec::new();
    v.push(c);
    v
}

/// A copy of `t`.
pub fn copy_of(t: &Vec<char>) -> (v: Vec<char>)
    ensures
        v@ == t@,
{
    proof {
        assert(t@.subrange(0, t.len() as int) == t@);
    }
    slice_of(t, 0, t.len())
}

/// Adds a copy of `s` to the end of `list`.
pub fn push_text(list: &mut Vec<String>, s: &str)
    ensures
        texts(final(list)@) == texts(old(list)@).push(s@),
{
    list.push(s.to_owned());
    proof {
        assert(texts(final(list)@) =~= texts(old(list)@).push(s@));
    }
}

} // verus!
