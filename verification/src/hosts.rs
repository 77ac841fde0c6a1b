//! The host aliases that a connection configuration declares.

use vstd::prelude::*;
use crate::order::{comes_before, increasing, lemma_lt_total, lemma_lt_transitive, text_lt};
use crate::split::{Delim, lines, split_lines, split_tokens, tokens, trim, trimmed};
use crate::text::{chars_of, push_all, rows, same_text, texts, to_texts};

verus! {

/// The code of `c`, with the letters `A` to `Z` taken as `a` to `z`.
pub open spec fn ascii_lower(c: char) -> u32 {
    let n = c as u32;
    if 65 <= n <= 90 {
        (n + 32) as u32
    } else {
        n
    }
}

/// Whether `a` and `b` are the same but for the case of ASCII letters.
pub open spec fn eq_ignore_case(a: Seq<char>, b: Seq<char>) -> bool {
    a.len() == b.len() && forall|i: int|
        0 <= i < a.len() ==> ascii_lower(#[trigger] a[i]) == ascii_lower(b[i])
}

/// Whether the alias `t` is a pattern: it holds `*` or `?`.
pub open spec fn is_pattern(t: Seq<char>) -> bool {
    t.contains('*') || t.contains('?')
}

/// The members of `toks` that are not patterns.
pub open spec fn plain_aliases(toks: Seq<Seq<char>>) -> Seq<Seq<char>>
    decreases toks.len(),
{
    if toks.len() == 0 {
        toks
    } else if is_pattern(toks.last()) {
        plain_aliases(toks.drop_last())
    } else {
        plain_aliases(toks.drop_last()).push(toks.last())
    }
}

/// The aliases that one line declares. A line declares aliases if, once
/// trimmed, it is not a comment (`#`) and its first word is `Host` in any
/// case; its aliases are the words after that which are not patterns.
pub open spec fn line_aliases(line: Seq<char>) -> Seq<Seq<char>> {
    let l = trim(line);
    let toks = tokens(l, Delim::Whitespace);
    if l.len() == 0 || l[0] == '#' || toks.len() == 0 || !eq_ignore_case(toks[0], "Host"@) {
        Seq::empty()
    } else {
        plain_aliases(toks.skip(1))
    }
}

/// The aliases that the lines `ls` declare, in the order in which they stand.
pub open spec fn declared_aliases(ls: Seq<Seq<char>>) -> Seq<Seq<char>>
    decreases ls.len(),
{
    if ls.len() == 0 {
        ls
    } else {
        declared_aliases(ls.drop_last()) + line_aliases(ls.last())
    }
}

fn lower_code(c: char) -> (n: u32)
    ensures
        n == ascii_lower(c),
{
    let n: u32 = c as u32;
    if 65 <= n && n <= 90 {
        n + 32
    } else {
        n
    }
}

fn same_ignoring_case(a: &Vec<char>, b: &Vec<char>) -> (r: bool)
    ensures
        r == eq_ignore_case(a@, b@),
{
    if a.len() != b.len() {
        return false;
    }
    let mut i: usize = 0;
    while i < a.len()
        invariant
            i <= a.len(),
            a.len() == b.len(),
            forall|k: int| 0 <= k < i ==> ascii_lower(#[trigger] a@[k]) == ascii_lower(b@[k]),
        decreases a.len() - i,
    {
        if lower_code(a[i]) != lower_code(b[i]) {
            return false;
        }
        i += 1;
    }
    true
}

fn holds_char(t: &Vec<char>, c: char) -> (r: bool)
    ensures
        r == t@.contains(c),
{
    let mut i: usize = 0;
    while i < t.len()
        invariant
            i <= t.len(),
            forall|k: int| 0 <= k < i ==> t@[k] != c,
        decreases t.len() - i,
    {
        if t[i] == c {
            return true;
        }
        i += 1;
    }
    false
}

/// Puts `item` at its place among the increasing texts `list`, unless it is there.
fn insert_increasing(list: &mut Vec<Vec<char>>, item: Vec<char>)
    requires
        increasing(rows(old(list)@)),
    ensures
        increasing(rows(final(list)@)),
        forall|x: Seq<char>|
            #![trigger rows(final(list)@).contains(x)]
            rows(final(list)@).contains(x) <==> (rows(old(list)@).contains(x) || x == item@),
{
    let ghost before = rows(list@);
    let mut i: usize = 0;
    while i < list.len() && comes_before(&list[i], &item)
        invariant
            i <= list.len(),
            before == rows(list@),
            forall|k: int| 0 <= k < i ==> text_lt(#[trigger] before[k], item@),
        decreases list.len() - i,
    {
        i += 1;
    }
    if i < list.len() && same_text(&list[i], &item) {
        proof {
            assert(before[i as int] == item@);
        }
        return ;
    }
    proof {
        assert forall|k: int| i <= k < before.len() implies text_lt(
            item@,
            #[trigger] before[k],
        ) by {
            lemma_lt_total(before[i as int], item@);
            if k > i {
                lemma_lt_transitive(item@, before[i as int], before[k]);
            }
        }
    }
    let ghost it = item@;
    list.insert(i, item);
    proof {
        let after = rows(list@);
        assert(after =~= before.insert(i as int, it));
        assert forall|a: int, b: int| 0 <= a < b < after.len() implies text_lt(
            #[trigger] after[a],
            #[trigger] after[b],
        ) by {
            if b < i {
                assert(after[a] == before[a] && after[b] == before[b]);
            } else if b == i {
                assert(after[a] == before[a]);
            } else if a < i {
                assert(after[a] == before[a] && after[b] == before[b - 1]);
                lemma_lt_transitive(before[a], it, before[b - 1]);
            } else if a == i {
                assert(after[b] == before[b - 1]);
            } else {
                assert(after[a] == before[a - 1] && after[b] == before[b - 1]);
            }
        }
        assert forall|x: Seq<char>| after.contains(x) <==> (before.contains(x) || x == it) by {
            if after.contains(x) {
                let k = choose|k: int| 0 <= k < after.len() && after[k] == x;
                if k < i {
                    assert(before[k] == x);
                } else if k > i {
                    assert(before[k - 1] == x);
                }
            }
            if before.contains(x) {
                let k = choose|k: int| 0 <= k < before.len() && before[k] == x;
                if k < i {
                    assert(after[k] == x);
                } else {
                    assert(after[k + 1] == x);
                }
            }
            if x == it {
                assert(after[i as int] == x);
            }
        }
    }
}

/// Takes the aliases that `line` declares into the increasing texts `list`.
fn take_line(list: &mut Vec<Vec<char>>, line: &Vec<char>)
    requires
        increasing(rows(old(list)@)),
    ensures
        increasing(rows(final(list)@)),
        forall|x: Seq<char>|
            #![trigger rows(final(list)@).contains(x)]
            rows(final(list)@).contains(x) <==> (rows(old(list)@).contains(x) || line_aliases(
                line@,
            ).contains(x)),
{
    let l = trimmed(line);
    if l.len() == 0 || l[0] == '#' {
        return ;
    }
    let toks = split_tokens(&l, Delim::Whitespace);
    if toks.len() == 0 {
        return ;
    }
    proof {
        assert(rows(toks@)[0] == toks@[0]@);
    }
    if !same_ignoring_case(&toks[0], &chars_of("Host")) {
        return ;
    }
    let ghost words = rows(toks@).skip(1);
    let ghost before = rows(list@);
    let mut j: usize = 1;
    proof {
        assert(words.take(0) =~= Seq::<Seq<char>>::empty());
    }
    while j < toks.len()
        invariant
            1 <= j <= toks.len(),
            words == rows(toks@).skip(1),
            increasing(rows(list@)),
            forall|x: Seq<char>|
                #![trigger rows(list@).contains(x)]
                rows(list@).contains(x) <==> (before.contains(x) || plain_aliases(
                    words.take(j - 1),
                ).contains(x)),
        decreases toks.len() - j,
    {
        let ghost seen = plain_aliases(words.take(j - 1));
        let ghost held = rows(list@);
        proof {
            assert(words.take(j as int).drop_last() == words.take(j - 1));
            assert(words.take(j as int).last() == toks@[j as int]@);
        }
        if !holds_char(&toks[j], '*') && !holds_char(&toks[j], '?') {
            let mut copy: Vec<char> = Vec::new();
            push_all(&mut copy, &toks[j]);
            proof {
                assert(copy@ == toks@[j as int]@);
            }
            insert_increasing(list, copy);
            proof {
                let grown = seen.push(toks@[j as int]@);
                assert(plain_aliases(words.take(j as int)) == grown);
                assert forall|x: Seq<char>| grown.contains(x) <==> (seen.contains(x) || x
                    == toks@[j as int]@) by {
                    if grown.contains(x) {
                        let k = choose|k: int| 0 <= k < grown.len() && grown[k] == x;
                        if k < seen.len() {
                            assert(seen[k] == x);
                        }
                    }
                    if seen.contains(x) {
                        let k = choose|k: int| 0 <= k < seen.len() && seen[k] == x;
                        assert(grown[k] == x);
                    }
                    if x == toks@[j as int]@ {
                        assert(grown[grown.len() - 1] == x);
                    }
                }
                assert forall|x: Seq<char>|
                    rows(list@).contains(x) <==> (before.contains(x) || grown.contains(x)) by {
                    assert(held.contains(x) <==> (before.contains(x) || seen.contains(x)));
                    assert(rows(list@).contains(x) <==> (held.contains(x) || x
                        == toks@[j as int]@));
                }
            }
        } else {
            proof {
                assert(is_pattern(toks@[j as int]@));
                assert(plain_aliases(words.take(j as int)) == seen);
            }
        }
        j += 1;
    }
    proof {
        assert(words.take(toks.len() - 1) == words);
    }
}

/// A union of two lists holds what either holds.
proof fn lemma_concat_contains(a: Seq<Seq<char>>, b: Seq<Seq<char>>)
    ensures
        forall|x: Seq<char>| (a + b).contains(x) <==> (a.contains(x) || b.contains(x)),
{
    assert forall|x: Seq<char>| (a + b).contains(x) <==> (a.contains(x) || b.contains(x)) by {
        if (a + b).contains(x) {
            let k = choose|k: int| 0 <= k < (a + b).len() && (a + b)[k] == x;
            if k < a.len() {
                assert(a[k] == x);
            } else {
                assert(b[k - a.len()] == x);
            }
        }
        if a.contains(x) {
            let k = choose|k: int| 0 <= k < a.len() && a[k] == x;
            assert((a + b)[k] == x);
        }
        if b.contains(x) {
            let k = choose|k: int| 0 <= k < b.len() && b[k] == x;
            assert((a + b)[k + a.len()] == x);
        }
    }
}

/// Reads the host aliases out of a connection configuration: every alias
/// that a `Host` line declares and that is no pattern, each once, in the
/// order of names.
pub fn parse_ssh_hosts(contents: &str) -> (hosts: Vec<String>)
    ensures
        increasing(texts(hosts@)),
        forall|x: Seq<char>|
            #![trigger texts(hosts@).contains(x)]
            texts(hosts@).contains(x) <==> declared_aliases(lines(contents@)).contains(x),
{
    let ls = split_lines(&chars_of(contents));
    let mut list: Vec<Vec<char>> = Vec::new();
    let mut i: usize = 0;
    proof {
        assert(rows(ls@).take(0) =~= Seq::<Seq<char>>::empty());
    }
    while i < ls.len()
        invariant
            i <= ls.len(),
            increasing(rows(list@)),
            forall|x: Seq<char>|
                #![trigger rows(list@).contains(x)]
                rows(list@).contains(x) <==> declared_aliases(rows(ls@).take(i as int)).contains(
                    x,
                ),
        decreases ls.len() - i,
    {
        proof {
            assert(rows(ls@).take(i + 1).drop_last() == rows(ls@).take(i as int));
            assert(rows(ls@).take(i + 1).last() == ls@[i as int]@);
            lemma_concat_contains(
                declared_aliases(rows(ls@).take(i as int)),
                line_aliases(ls@[i as int]@),
            );
        }
        let ghost held = rows(list@);
        let ghost upto = declared_aliases(rows(ls@).take(i as int));
        take_line(&mut list, &ls[i]);
        proof {
            let next = declared_aliases(rows(ls@).take(i + 1));
            assert(next == upto + line_aliases(ls@[i as int]@));
            assert forall|x: Seq<char>| rows(list@).contains(x) <==> next.contains(x) by {
                assert(held.contains(x) <==> upto.contains(x));
                assert(rows(list@).contains(x) <==> (held.contains(x) || line_aliases(
                    ls@[i as int]@,
                ).contains(x)));
                assert(next.contains(x) <==> (upto.contains(x) || line_aliases(
                    ls@[i as int]@,
                ).contains(x)));
            }
        }
        i += 1;
    }
    proof {
        assert(rows(ls@).take(ls.len() as int) == rows(ls@));
    }
    to_texts(&list)
}

} // verus!
