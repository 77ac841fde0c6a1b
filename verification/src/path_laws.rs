//! Laws of the path mapping.

use vstd::prelude::*;
use crate::path::{
    clean, clean_segments, components, dot, dotdot, drop_dots, expand, is_absolute, is_under,
    join_path, remote_of, render_path, resolve_spec, sep, slash,
};
use crate::split::{Delim, join, skip_leading, tokens};
use crate::split_laws::{
    all_proper, lemma_join_first, lemma_tokens_concat, lemma_tokens_of_join, lemma_tokens_plain,
    lemma_tokens_proper, proper,
};

verus! {

/// Whether none of `segs` is `.` or `..`.
pub open spec fn no_dots(segs: Seq<Seq<char>>) -> bool {
    forall|k: int| 0 <= k < segs.len() ==> #[trigger] segs[k] != dot() && segs[k] != dotdot()
}

/// Cleaning names leaves proper names, none of them `.` or `..`.
pub proof fn lemma_clean_segments_proper(toks: Seq<Seq<char>>)
    requires
        all_proper(toks, slash()),
    ensures
        all_proper(clean_segments(toks), slash()),
        no_dots(clean_segments(toks)),
    decreases toks.len(),
{
    if toks.len() > 0 {
        let front = toks.drop_last();
        assert(all_proper(front, slash())) by {
            assert forall|k: int| 0 <= k < front.len() implies proper(
                #[trigger] front[k],
                slash(),
            ) by {
                assert(front[k] == toks[k]);
            }
        }
        lemma_clean_segments_proper(front);
        assert(proper(toks.last(), slash()));
    }
}

/// Names without `.` and `..` are clean already.
pub proof fn lemma_clean_segments_fixed(segs: Seq<Seq<char>>)
    requires
        no_dots(segs),
    ensures
        clean_segments(segs) == segs,
    decreases segs.len(),
{
    if segs.len() > 0 {
        let front = segs.drop_last();
        assert(no_dots(front)) by {
            assert forall|k: int| 0 <= k < front.len() implies #[trigger] front[k] != dot()
                && front[k] != dotdot() by {
                assert(front[k] == segs[k]);
            }
        }
        lemma_clean_segments_fixed(front);
        assert(segs.last() == segs[segs.len() - 1]);
        assert(front.push(segs.last()) == segs);
    }
}

/// A `..` at the very start has nothing to take away and is dropped: going
/// up from the root, or from the start of a relative path, changes nothing.
pub proof fn lemma_leading_parent_is_dropped(toks: Seq<Seq<char>>)
    ensures
        clean_segments(seq![dotdot()] + toks) == clean_segments(toks),
    decreases toks.len(),
{
    let all = seq![dotdot()] + toks;
    if toks.len() == 0 {
        assert(all.drop_last() == Seq::<Seq<char>>::empty());
        assert(all.last() == dotdot());
        assert(clean_segments(all.drop_last()).len() == 0);
    } else {
        lemma_leading_parent_is_dropped(toks.drop_last());
        assert(all.drop_last() == seq![dotdot()] + toks.drop_last());
        assert(all.last() == toks.last());
    }
}

/// The path made of proper names splits into those names again, and is
/// absolute exactly if it was made so.
pub proof fn lemma_render_split(absolute: bool, segs: Seq<Seq<char>>)
    requires
        all_proper(segs, slash()),
    ensures
        tokens(render_path(absolute, segs), slash()) == segs,
        is_absolute(render_path(absolute, segs)) == absolute,
{
    let j = join(segs, sep());
    lemma_tokens_of_join(segs, '/', slash());
    if absolute {
        assert(render_path(absolute, segs) == Seq::<char>::empty() + seq!['/'] + j);
        lemma_tokens_concat(Seq::empty(), '/', j, slash());
        lemma_tokens_plain(Seq::empty(), slash());
        assert(Seq::<Seq<char>>::empty() + segs == segs);
        assert(render_path(absolute, segs)[0] == '/');
    } else if segs.len() > 0 {
        assert(proper(segs[0], slash()));
        lemma_join_first(segs, sep());
        assert(!slash().hits(segs[0][0]));
    }
}

/// A cleaned path holds no `.` and no `..` among its names, stays absolute
/// or relative as it was, and is not changed by cleaning it again.
pub proof fn lemma_clean_path_is_clean(s: Seq<char>)
    ensures
        no_dots(tokens(clean(s), slash())),
        is_absolute(clean(s)) == is_absolute(s),
        clean(clean(s)) == clean(s),
{
    let cs = clean_segments(tokens(s, slash()));
    lemma_tokens_proper(s, slash());
    lemma_clean_segments_proper(tokens(s, slash()));
    lemma_render_split(is_absolute(s), cs);
    lemma_clean_segments_fixed(cs);
}

/// What `resolve` returns is clean: it holds no `.` and no `..`, and
/// resolving never fails, however many `..` the path holds.
pub proof fn lemma_resolve_is_clean(raw: Seq<char>, cwd: Seq<char>, home: Seq<char>)
    ensures
        no_dots(tokens(resolve_spec(raw, cwd, home), slash())),
        clean(resolve_spec(raw, cwd, home)) == resolve_spec(raw, cwd, home),
{
    let e = expand(raw, home);
    if is_absolute(e) {
        lemma_clean_path_is_clean(e);
    } else {
        lemma_clean_path_is_clean(join_path(cwd, e));
    }
}

/// `drop_dots` goes through concatenation.
pub proof fn lemma_drop_dots_concat(a: Seq<Seq<char>>, b: Seq<Seq<char>>)
    ensures
        drop_dots(a + b) == drop_dots(a) + drop_dots(b),
    decreases b.len(),
{
    if b.len() == 0 {
        assert(a + b == a);
        assert(drop_dots(a) + drop_dots(b) == drop_dots(a));
    } else {
        lemma_drop_dots_concat(a, b.drop_last());
        assert((a + b).drop_last() == a + b.drop_last());
        assert((a + b).last() == b.last());
        if b.last() != dot() {
            assert((drop_dots(a) + drop_dots(b.drop_last())).push(b.last()) == drop_dots(a)
                + drop_dots(b.drop_last()).push(b.last()));
        }
    }
}

/// Names without `.` are not changed by `drop_dots`.
pub proof fn lemma_drop_dots_fixed(segs: Seq<Seq<char>>)
    requires
        forall|k: int| 0 <= k < segs.len() ==> #[trigger] segs[k] != dot(),
    ensures
        drop_dots(segs) == segs,
    decreases segs.len(),
{
    if segs.len() > 0 {
        let front = segs.drop_last();
        assert forall|k: int| 0 <= k < front.len() implies #[trigger] front[k] != dot() by {
            assert(front[k] == segs[k]);
        }
        lemma_drop_dots_fixed(front);
        assert(segs.last() == segs[segs.len() - 1]);
        assert(front.push(segs.last()) == segs);
    }
}

/// A name other than `.` is still there after `drop_dots`.
pub proof fn lemma_drop_dots_keeps(toks: Seq<Seq<char>>, k: int)
    requires
        0 <= k < toks.len(),
        toks[k] != dot(),
    ensures
        drop_dots(toks).contains(toks[k]),
    decreases toks.len(),
{
    let front = toks.drop_last();
    if k == toks.len() - 1 {
        let kept = drop_dots(front).push(toks.last());
        assert(kept[kept.len() - 1] == toks[k]);
    } else {
        lemma_drop_dots_keeps(front, k);
        assert(front[k] == toks[k]);
        let i = choose|i: int| 0 <= i < drop_dots(front).len() && drop_dots(front)[i] == toks[k];
        if toks.last() != dot() {
            assert(drop_dots(front).push(toks.last())[i] == toks[k]);
        }
    }
}

/// Where no name is `..`, cleaning only drops the names `.`.
pub proof fn lemma_clean_without_parent(toks: Seq<Seq<char>>)
    requires
        forall|k: int| 0 <= k < toks.len() ==> #[trigger] toks[k] != dotdot(),
    ensures
        clean_segments(toks) == drop_dots(toks),
    decreases toks.len(),
{
    if toks.len() > 0 {
        let front = toks.drop_last();
        assert forall|k: int| 0 <= k < front.len() implies #[trigger] front[k] != dotdot() by {
            assert(front[k] == toks[k]);
        }
        lemma_clean_without_parent(front);
        assert(toks.last() == toks[toks.len() - 1]);
    }
}

/// Joining a relative path to a non-empty base joins their names.
pub proof fn lemma_tokens_of_join_path(base: Seq<char>, rel: Seq<char>)
    requires
        base.len() > 0,
        !is_absolute(rel),
    ensures
        tokens(join_path(base, rel), slash()) == tokens(base, slash()) + tokens(rel, slash()),
        is_absolute(join_path(base, rel)) == is_absolute(base),
{
    if base.last() == '/' {
        let front = base.drop_last();
        assert(base == front + seq!['/'] + Seq::<char>::empty());
        assert(base + rel == front + seq!['/'] + rel);
        lemma_tokens_concat(front, '/', Seq::empty(), slash());
        lemma_tokens_concat(front, '/', rel, slash());
        lemma_tokens_plain(Seq::empty(), slash());
        assert(tokens(front, slash()) + Seq::<Seq<char>>::empty() == tokens(front, slash()));
        assert((base + rel)[0] == base[0]);
    } else {
        lemma_tokens_concat(base, '/', rel, slash());
        assert((base + sep() + rel)[0] == base[0]);
    }
}

/// What `expand` joins to the home directory, for a path that `remote_of` wrote.
proof fn lemma_relative_part(rest: Seq<Seq<char>>)
    requires
        all_proper(rest, slash()),
    ensures
        ({
            let m = if rest.len() == 0 {
                seq!['~']
            } else {
                seq!['~', '/'] + join(rest, sep())
            };
            skip_leading(skip_leading(m, Delim::Char('~')), slash()) == join(rest, sep())
        }),
{
    let tilde = Delim::Char('~');
    let j = join(rest, sep());
    if rest.len() == 0 {
        let m = seq!['~'];
        assert(m.skip(1) == Seq::<char>::empty());
        assert(skip_leading(m.skip(1), tilde) == Seq::<char>::empty());
        assert(skip_leading(m, tilde) == Seq::<char>::empty());
    } else {
        let m = seq!['~', '/'] + j;
        assert(proper(rest[0], slash()));
        lemma_join_first(rest, sep());
        assert(!slash().hits(rest[0][0]));
        let t = m.skip(1);
        assert(t == seq!['/'] + j);
        assert(t[0] == '/');
        assert(skip_leading(t, tilde) == t);
        assert(m[0] == '~');
        assert(skip_leading(m, tilde) == t);
        assert(t.skip(1) == j);
        assert(j[0] != '/');
        assert(skip_leading(j, slash()) == j);
        assert(skip_leading(t, slash()) == j);
    }
}

/// A path below the home directory maps to a remote path that starts with
/// `~`, and resolving that remote path against the same home directory gives
/// the local path back.
pub proof fn lemma_remote_round_trip(raw: Seq<char>, cwd: Seq<char>, home: Seq<char>)
    requires
        is_absolute(home),
        is_under(resolve_spec(raw, cwd, home), home),
    ensures
        remote_of(resolve_spec(raw, cwd, home), home).len() > 0,
        remote_of(resolve_spec(raw, cwd, home), home)[0] == '~',
        resolve_spec(remote_of(resolve_spec(raw, cwd, home), home), cwd, home) == resolve_spec(
            raw,
            cwd,
            home,
        ),
{
    let e0 = expand(raw, home);
    let x = if is_absolute(e0) {
        e0
    } else {
        join_path(cwd, e0)
    };
    let r = resolve_spec(raw, cwd, home);
    assert(r == clean(x));
    let cs = clean_segments(tokens(x, slash()));
    lemma_tokens_proper(x, slash());
    lemma_clean_segments_proper(tokens(x, slash()));
    lemma_render_split(is_absolute(x), cs);
    assert(tokens(r, slash()) == cs);
    assert forall|k: int| 0 <= k < cs.len() implies #[trigger] cs[k] != dot() by {}
    lemma_drop_dots_fixed(cs);

    // The home directory is absolute, so the local path is absolute too.
    let ht = tokens(home, slash());
    let hs = drop_dots(ht);
    let ch = components(home);
    let cr = components(r);
    assert(ch == seq![sep()] + hs);
    assert(ch[0] == sep());
    assert(cr[0] == ch[0]);
    if !is_absolute(r) {
        assert(cr == Seq::<Seq<char>>::empty() + cs);
        assert(cs[0] == sep());
        assert(proper(cs[0], slash()));
        assert(slash().hits(cs[0][0]));
        assert(false);
    }
    assert(cr == seq![sep()] + cs);
    assert(hs.is_prefix_of(cs)) by {
        assert(hs.len() <= cs.len());
        assert forall|k: int| 0 <= k < hs.len() implies hs[k] == cs[k] by {
            assert(ch[k + 1] == hs[k]);
            assert(cr[k + 1] == cs[k]);
        }
    }
    let rest = cr.skip(ch.len() as int);
    assert(rest == cs.skip(hs.len() as int));
    assert(hs + rest == cs);
    assert(all_proper(rest, slash())) by {
        assert forall|k: int| 0 <= k < rest.len() implies proper(#[trigger] rest[k], slash()) by {
            assert(rest[k] == cs[k + hs.len()]);
        }
    }
    assert forall|k: int| 0 <= k < rest.len() implies #[trigger] rest[k] != dot() by {
        assert(rest[k] == cs[k + hs.len()]);
    }
    lemma_drop_dots_fixed(rest);

    // The remote path and what it expands to.
    let m = remote_of(r, home);
    let j = join(rest, sep());
    lemma_relative_part(rest);
    assert(m[0] == '~');
    if rest.len() > 0 {
        assert(proper(rest[0], slash()));
        lemma_join_first(rest, sep());
        assert(!slash().hits(rest[0][0]));
    }
    assert(!is_absolute(j));
    let e = expand(m, home);
    assert(e == join_path(home, j));
    lemma_tokens_of_join_path(home, j);
    lemma_tokens_of_join(rest, '/', slash());
    assert(tokens(e, slash()) == ht + rest);
    assert(is_absolute(e));

    // The home directory holds no `..`, so cleaning only drops its `.` names.
    assert forall|k: int| 0 <= k < ht.len() implies #[trigger] ht[k] != dotdot() by {
        if ht[k] == dotdot() {
            assert(dotdot().len() != dot().len());
            lemma_drop_dots_keeps(ht, k);
            let i = choose|i: int| 0 <= i < hs.len() && hs[i] == ht[k];
            assert(cs[i] == hs[i]);
        }
    }
    assert forall|k: int| 0 <= k < (ht + rest).len() implies #[trigger] (ht + rest)[k]
        != dotdot() by {
        if k >= ht.len() {
            assert((ht + rest)[k] == rest[k - ht.len()]);
            assert(rest[k - ht.len()] == cs[k - ht.len() + hs.len()]);
        } else {
            assert((ht + rest)[k] == ht[k]);
        }
    }
    lemma_clean_without_parent(ht + rest);
    lemma_drop_dots_concat(ht, rest);
    assert(clean_segments(tokens(e, slash())) == cs);
    assert(resolve_spec(m, cwd, home) == clean(e));
}

} // verus!
