//! Facts about fields, tokens and joining that the laws of the library rest on.

use vstd::prelude::*;
use crate::split::{Delim, drop_empty, fields, join, lemma_fields_nonempty, tokens};

verus! {

/// Whether `x` holds no separator.
pub open spec fn plain(x: Seq<char>, d: Delim) -> bool {
    forall|i: int| 0 <= i < x.len() ==> !d.hits(#[trigger] x[i])
}

/// Whether `x` could be a token: not empty, and without a separator.
pub open spec fn proper(x: Seq<char>, d: Delim) -> bool {
    x.len() > 0 && plain(x, d)
}

/// Whether every member of `p` could be a token.
pub open spec fn all_proper(p: Seq<Seq<char>>, d: Delim) -> bool {
    forall|k: int| 0 <= k < p.len() ==> proper(#[trigger] p[k], d)
}

/// Splitting around a separator: the fields of `a`, the separator `c` and
/// `b` are the fields of `a` followed by those of `b`.
pub proof fn lemma_fields_concat(a: Seq<char>, c: char, b: Seq<char>, d: Delim)
    requires
        d.hits(c),
    ensures
        fields(a + seq![c] + b, d) == fields(a, d) + fields(b, d),
    decreases b.len(),
{
    let x = a + seq![c] + b;
    if b.len() == 0 {
        assert(x.drop_last() == a);
        assert(fields(b, d) == seq![Seq::<char>::empty()]);
        assert(fields(a, d).push(Seq::empty()) == fields(a, d) + fields(b, d));
    } else {
        let bd = b.drop_last();
        assert(x.drop_last() == a + seq![c] + bd);
        assert(x.last() == b.last());
        lemma_fields_concat(a, c, bd, d);
        lemma_fields_nonempty(bd, d);
        let fa = fields(a, d);
        let fbd = fields(bd, d);
        if d.hits(b.last()) {
            assert((fa + fbd).push(Seq::empty()) == fa + fbd.push(Seq::empty()));
        } else {
            assert((fa + fbd).drop_last() == fa + fbd.drop_last());
            assert((fa + fbd).last() == fbd.last());
            assert((fa + fbd.drop_last()).push(fbd.last().push(b.last())) == fa
                + fbd.drop_last().push(fbd.last().push(b.last())));
        }
    }
}

/// Dropping empty members goes through concatenation.
pub proof fn lemma_drop_empty_concat(p: Seq<Seq<char>>, q: Seq<Seq<char>>)
    ensures
        drop_empty(p + q) == drop_empty(p) + drop_empty(q),
    decreases q.len(),
{
    if q.len() == 0 {
        assert(p + q == p);
        assert(drop_empty(p) + drop_empty(q) == drop_empty(p));
    } else {
        lemma_drop_empty_concat(p, q.drop_last());
        assert((p + q).drop_last() == p + q.drop_last());
        assert((p + q).last() == q.last());
        if q.last().len() != 0 {
            assert((drop_empty(p) + drop_empty(q.drop_last())).push(q.last()) == drop_empty(p)
                + drop_empty(q.drop_last()).push(q.last()));
        }
    }
}

/// The tokens of `a`, a separator and `b` are the tokens of `a` followed by those of `b`.
pub proof fn lemma_tokens_concat(a: Seq<char>, c: char, b: Seq<char>, d: Delim)
    requires
        d.hits(c),
    ensures
        tokens(a + seq![c] + b, d) == tokens(a, d) + tokens(b, d),
{
    lemma_fields_concat(a, c, b, d);
    lemma_drop_empty_concat(fields(a, d), fields(b, d));
}

/// A text without a separator is its own single field.
pub proof fn lemma_fields_plain(x: Seq<char>, d: Delim)
    requires
        plain(x, d),
    ensures
        fields(x, d) == seq![x],
    decreases x.len(),
{
    if x.len() == 0 {
        assert(x == Seq::<char>::empty());
    } else {
        assert(plain(x.drop_last(), d)) by {
            assert forall|i: int| 0 <= i < x.drop_last().len() implies !d.hits(
                #[trigger] x.drop_last()[i],
            ) by {
                assert(x.drop_last()[i] == x[i]);
            }
        }
        lemma_fields_plain(x.drop_last(), d);
        assert(!d.hits(x.last()));
        assert(seq![x.drop_last()].drop_last().push(x.drop_last().push(x.last())) == seq![x]) by {
            assert(x.drop_last().push(x.last()) == x);
        }
    }
}

/// A text that could be a token is its own single token; the empty text has none.
pub proof fn lemma_tokens_plain(x: Seq<char>, d: Delim)
    requires
        plain(x, d),
    ensures
        x.len() > 0 ==> tokens(x, d) == seq![x],
        x.len() == 0 ==> tokens(x, d) == Seq::<Seq<char>>::empty(),
{
    lemma_fields_plain(x, d);
    let f = seq![x];
    assert(f.drop_last() == Seq::<Seq<char>>::empty());
    assert(drop_empty(f.drop_last()) == Seq::<Seq<char>>::empty());
    if x.len() > 0 {
        assert(Seq::<Seq<char>>::empty().push(x) == seq![x]);
    }
}

/// No field holds a separator.
pub proof fn lemma_fields_are_plain(s: Seq<char>, d: Delim)
    ensures
        forall|k: int| 0 <= k < fields(s, d).len() ==> plain(#[trigger] fields(s, d)[k], d),
    decreases s.len(),
{
    if s.len() > 0 {
        lemma_fields_are_plain(s.drop_last(), d);
        lemma_fields_nonempty(s.drop_last(), d);
        let before = fields(s.drop_last(), d);
        if !d.hits(s.last()) {
            let grown = before.last().push(s.last());
            assert(plain(grown, d)) by {
                assert forall|i: int| 0 <= i < grown.len() implies !d.hits(#[trigger] grown[i]) by {
                    if i < before.last().len() {
                        assert(grown[i] == before.last()[i]);
                    }
                }
            }
        }
    }
}

/// What `drop_empty` keeps is not empty and was there before.
pub proof fn lemma_drop_empty_members(p: Seq<Seq<char>>, d: Delim)
    requires
        forall|k: int| 0 <= k < p.len() ==> plain(#[trigger] p[k], d),
    ensures
        all_proper(drop_empty(p), d),
    decreases p.len(),
{
    if p.len() > 0 {
        assert forall|k: int| 0 <= k < p.drop_last().len() implies plain(
            #[trigger] p.drop_last()[k],
            d,
        ) by {
            assert(p.drop_last()[k] == p[k]);
        }
        lemma_drop_empty_members(p.drop_last(), d);
        assert(plain(p.last(), d));
    }
}

/// Every token is non-empty and holds no separator.
pub proof fn lemma_tokens_proper(s: Seq<char>, d: Delim)
    ensures
        all_proper(tokens(s, d), d),
{
    lemma_fields_are_plain(s, d);
    lemma_drop_empty_members(fields(s, d), d);
}

/// Joining proper names with a separator and splitting again gives the names back.
pub proof fn lemma_tokens_of_join(segs: Seq<Seq<char>>, c: char, d: Delim)
    requires
        d.hits(c),
        all_proper(segs, d),
    ensures
        tokens(join(segs, seq![c]), d) == segs,
    decreases segs.len(),
{
    if segs.len() == 0 {
        lemma_tokens_plain(Seq::empty(), d);
    } else if segs.len() == 1 {
        assert(proper(segs[0], d));
        lemma_tokens_plain(segs[0], d);
        assert(seq![segs[0]] == segs);
    } else {
        let front = segs.drop_last();
        assert(all_proper(front, d)) by {
            assert forall|k: int| 0 <= k < front.len() implies proper(#[trigger] front[k], d) by {
                assert(front[k] == segs[k]);
            }
        }
        lemma_tokens_of_join(front, c, d);
        assert(proper(segs.last(), d));
        lemma_tokens_plain(segs.last(), d);
        lemma_tokens_concat(join(front, seq![c]), c, segs.last(), d);
        assert(front + seq![segs.last()] == segs);
    }
}

/// A join of proper names starts with the first character of the first name.
pub proof fn lemma_join_first(segs: Seq<Seq<char>>, sep: Seq<char>)
    requires
        segs.len() > 0,
        segs[0].len() > 0,
    ensures
        join(segs, sep).len() > 0,
        join(segs, sep)[0] == segs[0][0],
    decreases segs.len(),
{
    if segs.len() > 1 {
        lemma_join_first(segs.drop_last(), sep);
    }
}

} // verus!
