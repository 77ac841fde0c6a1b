//! Splitting texts into fields, tokens and lines, trimming, and joining.

use vstd::prelude::*;
use crate::text::{push_all, rows, slice_of};

verus! {

/// Whether `c` has the Unicode property White_Space.
pub open spec fn is_whitespace(c: char) -> bool {
    let n = c as u32;
    ||| 0x09 <= n <= 0x0D
    ||| n == 0x20
    ||| n == 0x85
    ||| n == 0xA0
    ||| n == 0x1680
    ||| 0x2000 <= n <= 0x200A
    ||| n == 0x2028
    ||| n == 0x2029
    ||| n == 0x202F
    ||| n == 0x205F
    ||| n == 0x3000
}

/// Whether `c` has the Unicode property White_Space.
pub fn char_is_whitespace(c: char) -> (b: bool)
    ensures
        b == is_whitespace(c),
{
    let n: u32 = c as u32;
    (0x09 <= n && n <= 0x0D) || n == 0x20 || n == 0x85 || n == 0xA0 || n == 0x1680 || (0x2000 <= n
        && n <= 0x200A) || n == 0x2028 || n == 0x2029 || n == 0x202F || n == 0x205F || n == 0x3000
}

/// What separates the pieces of a text: one given character, or any white space.
#[derive(Clone, Copy, Debug)]
pub enum Delim {
    Char(char),
    Whitespace,
}

impl Delim {
    /// Whether `c` is a separator.
    pub open spec fn hits(self, c: char) -> bool {
        match self {
            Delim::Char(d) => c == d,
            Delim::Whitespace => is_whitespace(c),
        }
    }

    /// Whether `c` is a separator.
    pub fn test(&self, c: char) -> (b: bool)
        ensures
            b == self.hits(c),
    {
        match self {
            Delim::Char(d) => c == *d,
            Delim::Whitespace => char_is_whitespace(c),
        }
    }
}

/// The pieces of `s` between separators, empty ones included: a text with
/// `n` separators has `n + 1` fields.
pub open spec fn fields(s: Seq<char>, d: Delim) -> Seq<Seq<char>>
    decreases s.len(),
{
    if s.len() == 0 {
        seq![Seq::empty()]
    } else {
        let before = fields(s.drop_last(), d);
        if d.hits(s.last()) {
            before.push(Seq::empty())
        } else {
            before.drop_last().push(before.last().push(s.last()))
        }
    }
}

/// `parts` without its empty members.
pub open spec fn drop_empty(parts: Seq<Seq<char>>) -> Seq<Seq<char>>
    decreases parts.len(),
{
    if parts.len() == 0 {
        parts
    } else if parts.last().len() == 0 {
        drop_empty(parts.drop_last())
    } else {
        drop_empty(parts.drop_last()).push(parts.last())
    }
}

/// The maximal separator-free, non-empty pieces of `s`.
pub open spec fn tokens(s: Seq<char>, d: Delim) -> Seq<Seq<char>> {
    drop_empty(fields(s, d))
}

/// A text always has at least one field.
pub proof fn lemma_fields_nonempty(s: Seq<char>, d: Delim)
    ensures
        fields(s, d).len() >= 1,
    decreases s.len(),
{
    if s.len() > 0 {
        lemma_fields_nonempty(s.drop_last(), d);
    }
}

/// The fields of `s`.
pub fn split_fields(s: &Vec<char>, d: Delim) -> (out: Vec<Vec<char>>)
    ensures
        rows(out@) == fields(s@, d),
{
    let mut done: Vec<Vec<char>> = Vec::new();
    let mut cur: Vec<char> = Vec::new();
    let mut i: usize = 0;
    while i < s.len()
        invariant
            i <= s.len(),
            rows(done@).push(cur@) == fields(s@.take(i as int), d),
        decreases s.len() - i,
    {
        let c = s[i];
        proof {
            assert(s@.take(i + 1).drop_last() == s@.take(i as int));
            assert(rows(done@).push(cur@).drop_last() == rows(done@));
        }
        if d.test(c) {
            let ghost before = done@;
            done.push(cur);
            cur = Vec::new();
            proof {
                assert(rows(done@) == rows(before).push(done@.last()@));
            }
        } else {
            cur.push(c);
        }
        i += 1;
    }
    proof {
        assert(s@.take(s.len() as int) == s@);
        assert(rows(done@.push(cur)) == rows(done@).push(cur@));
    }
    done.push(cur);
    done
}

/// The tokens of `s`.
pub fn split_tokens(s: &Vec<char>, d: Delim) -> (out: Vec<Vec<char>>)
    ensures
        rows(out@) == tokens(s@, d),
{
    let mut done: Vec<Vec<char>> = Vec::new();
    let mut cur: Vec<char> = Vec::new();
    let mut i: usize = 0;
    while i < s.len()
        invariant
            i <= s.len(),
            fields(s@.take(i as int), d).len() >= 1,
            rows(done@) == drop_empty(fields(s@.take(i as int), d).drop_last()),
            cur@ == fields(s@.take(i as int), d).last(),
        decreases s.len() - i,
    {
        let c = s[i];
        let ghost before = fields(s@.take(i as int), d);
        proof {
            assert(s@.take(i + 1).drop_last() == s@.take(i as int));
            lemma_fields_nonempty(s@.take(i + 1), d);
        }
        if d.test(c) {
            proof {
                assert(before.push(Seq::empty()).drop_last() == before);
            }
            if cur.len() > 0 {
                let ghost old_done = done@;
                done.push(cur);
                proof {
                    assert(rows(done@) == rows(old_done).push(done@.last()@));
                }
            }
            cur = Vec::new();
        } else {
            cur.push(c);
            proof {
                assert(before.drop_last().push(before.last().push(c)).drop_last()
                    == before.drop_last());
            }
        }
        i += 1;
    }
    proof {
        assert(s@.take(s.len() as int) == s@);
    }
    if cur.len() > 0 {
        let ghost old_done = done@;
        done.push(cur);
        proof {
            assert(rows(done@) == rows(old_done).push(done@.last()@));
        }
    }
    done
}

/// `line` without one carriage return at its end, if it has one.
pub open spec fn strip_cr(line: Seq<char>) -> Seq<char> {
    if line.len() > 0 && line.last() == '\r' {
        line.drop_last()
    } else {
        line
    }
}

/// The lines of `s`. A line ends at a line feed; a carriage return just
/// before that line feed belongs to the line ending. What follows the last
/// line feed is a line of its own unless it is empty.
pub open spec fn lines(s: Seq<char>) -> Seq<Seq<char>> {
    let f = fields(s, Delim::Char('\n'));
    let ended = Seq::new((f.len() - 1) as nat, |i: int| strip_cr(f[i]));
    if f.last().len() > 0 {
        ended.push(f.last())
    } else {
        ended
    }
}

/// The lines of `s`.
pub fn split_lines(s: &Vec<char>) -> (out: Vec<Vec<char>>)
    ensures
        rows(out@) == lines(s@),
{
    let f = split_fields(s, Delim::Char('\n'));
    proof {
        lemma_fields_nonempty(s@, Delim::Char('\n'));
    }
    let ghost whole = rows(f@);
    let mut out: Vec<Vec<char>> = Vec::new();
    let mut i: usize = 0;
    while i + 1 < f.len()
        invariant
            f.len() >= 1,
            i + 1 <= f.len(),
            whole == rows(f@),
            rows(out@) == Seq::new(i as nat, |k: int| strip_cr(whole[k])),
        decreases f.len() - i,
    {
        let n = f[i].len();
        let line = if n > 0 && f[i][n - 1] == '\r' {
            slice_of(&f[i], 0, n - 1)
        } else {
            slice_of(&f[i], 0, n)
        };
        proof {
            assert(f@[i as int]@.subrange(0, n as int) == f@[i as int]@);
            assert(line@ == strip_cr(whole[i as int]));
        }
        let ghost before = out@;
        out.push(line);
        proof {
            assert(rows(out@) == rows(before).push(line@));
            assert(rows(out@) =~= Seq::new((i + 1) as nat, |k: int| strip_cr(whole[k])));
        }
        i += 1;
    }
    let last = &f[f.len() - 1];
    if last.len() > 0 {
        let copy = slice_of(last, 0, last.len());
        proof {
            assert(last@.subrange(0, last.len() as int) == last@);
        }
        let ghost before = out@;
        out.push(copy);
        proof {
            assert(rows(out@) == rows(before).push(last@));
        }
    }
    out
}

/// `s` without the separators at its start.
pub open spec fn skip_leading(s: Seq<char>, d: Delim) -> Seq<char>
    decreases s.len(),
{
    if s.len() > 0 && d.hits(s[0]) {
        skip_leading(s.skip(1), d)
    } else {
        s
    }
}

/// `s` without the separators at its end.
pub open spec fn drop_trailing(s: Seq<char>, d: Delim) -> Seq<char>
    decreases s.len(),
{
    if s.len() > 0 && d.hits(s.last()) {
        drop_trailing(s.drop_last(), d)
    } else {
        s
    }
}

/// `s` without the white space at its start and at its end.
pub open spec fn trim(s: Seq<char>) -> Seq<char> {
    drop_trailing(skip_leading(s, Delim::Whitespace), Delim::Whitespace)
}

/// The number of separators at the start of `s`.
pub fn count_leading(s: &Vec<char>, d: Delim) -> (n: usize)
    ensures
        n <= s.len(),
        skip_leading(s@, d) == s@.skip(n as int),
{
    let mut a: usize = 0;
    proof {
        assert(s@.skip(0) == s@);
    }
    while a < s.len() && d.test(s[a])
        invariant
            a <= s.len(),
            skip_leading(s@, d) == skip_leading(s@.skip(a as int), d),
        decreases s.len() - a,
    {
        proof {
            assert(s@.skip(a as int).skip(1) == s@.skip(a + 1));
        }
        a += 1;
    }
    a
}

/// `s` without the separators at its start.
pub fn without_leading(s: &Vec<char>, d: Delim) -> (out: Vec<char>)
    ensures
        out@ == skip_leading(s@, d),
{
    let a = count_leading(s, d);
    slice_of(s, a, s.len())
}

/// `s` without the white space at its start and at its end.
pub fn trimmed(s: &Vec<char>) -> (out: Vec<char>)
    ensures
        out@ == trim(s@),
{
    let d = Delim::Whitespace;
    let a = count_leading(s, d);
    let mut b: usize = s.len();
    while b > a && d.test(s[b - 1])
        invariant
            a <= b <= s.len(),
            drop_trailing(s@.skip(a as int), d) == drop_trailing(
                s@.subrange(a as int, b as int),
                d,
            ),
        decreases b,
    {
        proof {
            assert(s@.subrange(a as int, b as int).drop_last() == s@.subrange(
                a as int,
                b - 1,
            ));
        }
        b -= 1;
    }
    slice_of(s, a, b)
}

/// The members of `parts` one after another, with `sep` between neighbours.
pub open spec fn join(parts: Seq<Seq<char>>, sep: Seq<char>) -> Seq<char>
    decreases parts.len(),
{
    if parts.len() == 0 {
        Seq::empty()
    } else if parts.len() == 1 {
        parts[0]
    } else {
        join(parts.drop_last(), sep) + sep + parts.last()
    }
}

/// The members of `parts` one after another, with `sep` between neighbours.
pub fn join_rows(parts: &Vec<Vec<char>>, sep: &Vec<char>) -> (out: Vec<char>)
    ensures
        out@ == join(rows(parts@), sep@),
{
    let mut out: Vec<char> = Vec::new();
    let mut i: usize = 0;
    while i < parts.len()
        invariant
            i <= parts.len(),
            out@ == join(rows(parts@).take(i as int), sep@),
        decreases parts.len() - i,
    {
        proof {
            assert(rows(parts@).take(i + 1).drop_last() == rows(parts@).take(i as int));
        }
        if i > 0 {
            push_all(&mut out, sep);
        } else {
            proof {
                assert(rows(parts@).take(0).len() == 0);
            }
        }
        push_all(&mut out, &parts[i]);
        i += 1;
    }
    proof {
        assert(rows(parts@).take(parts.len() as int) == rows(parts@));
    }
    out
}

} // verus!
