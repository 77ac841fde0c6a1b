//! Laws of the change tree: the order of names, what insertion keeps, and
//! that the drawing depends on the set of lines alone.

use vstd::prelude::*;
use crate::order::{
    lemma_lt_asymmetric, lemma_lt_irreflexive, lemma_lt_total, lemma_lt_transitive, text_lt,
};
use crate::split::{Delim, fields, lines};
use crate::tree::{
    entry_path, insert, leaf, position, render_text, sorted, strip_dot_slash, Tree, tree_of,
    well_formed,
};

verus! {

/// Whether the path `p` leads from `t` to a node below it.
pub open spec fn has_path(t: Tree, p: Seq<Seq<char>>) -> bool
    decreases p.len(),
{
    p.len() > 0 && exists|i: int|
        0 <= i < t.children.len() && (#[trigger] t.children[i]).name == p[0] && (p.len() == 1
            || has_path(t.children[i], p.skip(1)))
}

/// Whether `p` is a start of `segs` that is not empty.
pub open spec fn is_start_of(p: Seq<Seq<char>>, segs: Seq<Seq<char>>) -> bool {
    0 < p.len() <= segs.len() && segs.take(p.len() as int) == p
}

/// Where `position` points: the children before it have names that come
/// before `name`, and the child at it, if there is one, has not.
pub proof fn lemma_position(cs: Seq<Tree>, name: Seq<char>)
    ensures
        0 <= position(cs, name) <= cs.len(),
        forall|k: int| 0 <= k < position(cs, name) ==> text_lt(#[trigger] cs[k].name, name),
        position(cs, name) < cs.len() ==> !text_lt(cs[position(cs, name)].name, name),
    decreases cs.len(),
{
    if cs.len() > 0 && text_lt(cs[0].name, name) {
        let rest = cs.skip(1);
        lemma_position(rest, name);
        let i = position(cs, name);
        assert forall|k: int| 0 <= k < i implies text_lt(#[trigger] cs[k].name, name) by {
            if k > 0 {
                assert(cs[k] == rest[k - 1]);
            }
        }
        if i < cs.len() {
            assert(cs[i] == rest[i - 1]);
        }
    }
}

/// Among children in order, a name that is not at its position is nowhere,
/// and every child from that position on has a name that comes after it.
pub proof fn lemma_position_absent(cs: Seq<Tree>, name: Seq<char>)
    requires
        sorted(cs),
        position(cs, name) == cs.len() || cs[position(cs, name)].name != name,
    ensures
        forall|k: int| 0 <= k < cs.len() ==> (#[trigger] cs[k]).name != name,
        forall|k: int| position(cs, name) <= k < cs.len() ==> text_lt(name, #[trigger] cs[k].name),
{
    let i = position(cs, name);
    lemma_position(cs, name);
    assert forall|k: int| i <= k < cs.len() implies text_lt(name, #[trigger] cs[k].name) by {
        lemma_lt_total(cs[i].name, name);
        if k > i {
            assert(text_lt(cs[i].name, cs[k].name));
            lemma_lt_transitive(name, cs[i].name, cs[k].name);
        }
    }
    assert forall|k: int| 0 <= k < cs.len() implies (#[trigger] cs[k]).name != name by {
        if k < i {
            assert(text_lt(cs[k].name, name));
            lemma_lt_irreflexive(name);
        } else {
            assert(text_lt(name, cs[k].name));
            lemma_lt_irreflexive(name);
        }
    }
}

/// Among children in order, no two have the same name.
pub proof fn lemma_sorted_distinct(cs: Seq<Tree>, i: int, j: int)
    requires
        sorted(cs),
        0 <= i < cs.len(),
        0 <= j < cs.len(),
        cs[i].name == cs[j].name,
    ensures
        i == j,
{
    lemma_lt_irreflexive(cs[i].name);
    if i < j {
        assert(text_lt(cs[i].name, cs[j].name));
    } else if j < i {
        assert(text_lt(cs[j].name, cs[i].name));
    }
}

/// What well-formedness says of one node.
pub proof fn lemma_well_formed_child(t: Tree, i: int)
    requires
        well_formed(t),
        0 <= i < t.children.len(),
    ensures
        sorted(t.children),
        well_formed(t.children[i]),
{
}

/// Insertion keeps the name of the node it starts from.
pub proof fn lemma_insert_name(t: Tree, segs: Seq<Seq<char>>)
    ensures
        insert(t, segs).name == t.name,
{
}

/// Insertion keeps the names of the children in strict order at every
/// node: no node gets two children of one name.
pub proof fn lemma_insert_well_formed(t: Tree, segs: Seq<Seq<char>>)
    requires
        well_formed(t),
    ensures
        well_formed(insert(t, segs)),
    decreases segs.len(),
{
    if segs.len() > 0 {
        let cs = t.children;
        let n = segs[0];
        let rest = segs.skip(1);
        let i = position(cs, n);
        lemma_position(cs, n);
        let after = insert(t, segs).children;
        if i < cs.len() && cs[i].name == n {
            let c = insert(cs[i], rest);
            lemma_well_formed_child(t, i);
            lemma_insert_well_formed(cs[i], rest);
            lemma_insert_name(cs[i], rest);
            assert(after == cs.update(i, c));
            assert(sorted(after)) by {
                assert forall|a: int, b: int| 0 <= a < b < after.len() implies text_lt(
                    #[trigger] after[a].name,
                    #[trigger] after[b].name,
                ) by {
                    assert(after[a].name == cs[a].name);
                    assert(after[b].name == cs[b].name);
                }
            }
            assert forall|k: int| 0 <= k < after.len() implies #[trigger] well_formed(
                after[k],
            ) by {
                if k != i {
                    assert(after[k] == cs[k]);
                    lemma_well_formed_child(t, k);
                }
            }
        } else {
            let c = insert(leaf(n), rest);
            assert(well_formed(leaf(n)));
            lemma_insert_well_formed(leaf(n), rest);
            lemma_insert_name(leaf(n), rest);
            lemma_position_absent(cs, n);
            assert(after == cs.insert(i, c));
            assert(sorted(after)) by {
                assert forall|a: int, b: int| 0 <= a < b < after.len() implies text_lt(
                    #[trigger] after[a].name,
                    #[trigger] after[b].name,
                ) by {
                    if b < i {
                        assert(after[a] == cs[a] && after[b] == cs[b]);
                    } else if b == i {
                        assert(after[a] == cs[a]);
                        assert(text_lt(cs[a].name, n));
                    } else if a < i {
                        assert(after[a] == cs[a] && after[b] == cs[b - 1]);
                        assert(text_lt(cs[a].name, n));
                        assert(text_lt(n, cs[b - 1].name));
                        lemma_lt_transitive(cs[a].name, n, cs[b - 1].name);
                    } else if a == i {
                        assert(after[b] == cs[b - 1]);
                        assert(text_lt(n, cs[b - 1].name));
                    } else {
                        assert(after[a] == cs[a - 1] && after[b] == cs[b - 1]);
                    }
                }
            }
            assert forall|k: int| 0 <= k < after.len() implies #[trigger] well_formed(
                after[k],
            ) by {
                if k < i {
                    assert(after[k] == cs[k]);
                    lemma_well_formed_child(t, k);
                } else if k > i {
                    assert(after[k] == cs[k - 1]);
                    lemma_well_formed_child(t, k - 1);
                }
            }
        }
    }
}

/// A child with the first name of a path, below which the rest of the path
/// leads on, shows that the path is there.
pub proof fn lemma_has_path_intro(t: Tree, p: Seq<Seq<char>>, i: int)
    requires
        p.len() > 0,
        0 <= i < t.children.len(),
        t.children[i].name == p[0],
        p.len() == 1 || has_path(t.children[i], p.skip(1)),
    ensures
        has_path(t, p),
{
}

/// The child through which a path leads.
pub proof fn lemma_has_path_elim(t: Tree, p: Seq<Seq<char>>) -> (i: int)
    requires
        has_path(t, p),
    ensures
        p.len() > 0,
        0 <= i < t.children.len(),
        t.children[i].name == p[0],
        p.len() == 1 || has_path(t.children[i], p.skip(1)),
{
    choose|i: int|
        0 <= i < t.children.len() && (#[trigger] t.children[i]).name == p[0] && (p.len() == 1
            || has_path(t.children[i], p.skip(1)))
}

/// A start of a path is its first name, alone or with a start of the rest.
pub proof fn lemma_start_step(p: Seq<Seq<char>>, segs: Seq<Seq<char>>)
    requires
        p.len() > 0,
        segs.len() > 0,
    ensures
        is_start_of(p, segs) == (p[0] == segs[0] && (p.len() == 1 || is_start_of(
            p.skip(1),
            segs.skip(1),
        ))),
{
    let rest = segs.skip(1);
    if is_start_of(p, segs) {
        assert(segs.take(p.len() as int)[0] == p[0]);
        if p.len() > 1 {
            assert(rest.take(p.len() - 1) =~= segs.take(p.len() as int).skip(1));
        }
    }
    if p[0] == segs[0] && (p.len() == 1 || is_start_of(p.skip(1), rest)) {
        if p.len() == 1 {
            assert(segs.take(1) =~= p);
        } else {
            assert(rest.take(p.len() - 1) == p.skip(1));
            assert forall|k: int| 0 <= k < p.len() implies segs.take(p.len() as int)[k] == p[k] by {
                if k > 0 {
                    assert(rest.take(p.len() - 1)[k - 1] == p.skip(1)[k - 1]);
                }
            }
            assert(segs.take(p.len() as int) =~= p);
        }
    }
}

/// The paths of a tree after an insertion are those it had and the starts
/// of the path that was put in.
pub proof fn lemma_insert_paths(t: Tree, segs: Seq<Seq<char>>, p: Seq<Seq<char>>)
    requires
        well_formed(t),
    ensures
        has_path(insert(t, segs), p) == (has_path(t, p) || is_start_of(p, segs)),
    decreases segs.len(),
{
    if segs.len() == 0 || p.len() == 0 {
        return ;
    }
    let cs = t.children;
    let n = segs[0];
    let rest = segs.skip(1);
    let i = position(cs, n);
    let after_tree = insert(t, segs);
    let after = after_tree.children;
    let q = p.skip(1);
    lemma_position(cs, n);
    lemma_start_step(p, segs);
    let found = i < cs.len() && cs[i].name == n;
    let below = if found {
        cs[i]
    } else {
        leaf(n)
    };
    let c = insert(below, rest);
    if found {
        lemma_well_formed_child(t, i);
        assert(after == cs.update(i, c));
    } else {
        lemma_position_absent(cs, n);
        assert(after == cs.insert(i, c));
    }
    lemma_insert_name(below, rest);
    lemma_insert_paths(below, rest, q);
    assert(after[i] == c);
    assert(!found ==> !has_path(below, q));

    if has_path(after_tree, p) {
        let k = lemma_has_path_elim(after_tree, p);
        if k == i {
            if p.len() > 1 && has_path(below, q) {
                lemma_has_path_intro(t, p, i);
            }
        } else if found {
            assert(after[k] == cs[k]);
            lemma_has_path_intro(t, p, k);
        } else if k < i {
            assert(after[k] == cs[k]);
            lemma_has_path_intro(t, p, k);
        } else {
            assert(after[k] == cs[k - 1]);
            lemma_has_path_intro(t, p, k - 1);
        }
    }
    if has_path(t, p) {
        let k = lemma_has_path_elim(t, p);
        if found {
            if k == i {
                lemma_has_path_intro(after_tree, p, i);
            } else {
                assert(after[k] == cs[k]);
                lemma_has_path_intro(after_tree, p, k);
            }
        } else if k < i {
            assert(after[k] == cs[k]);
            lemma_has_path_intro(after_tree, p, k);
        } else {
            assert(after[k + 1] == cs[k]);
            lemma_has_path_intro(after_tree, p, k + 1);
        }
    }
    if is_start_of(p, segs) {
        lemma_has_path_intro(after_tree, p, i);
    }
}

/// Whether one of `cs` has the name `x`.
pub open spec fn has_name(cs: Seq<Tree>, x: Seq<char>) -> bool {
    exists|k: int| 0 <= k < cs.len() && (#[trigger] cs[k]).name == x
}

/// Children in order that carry the same names carry them at the same places.
pub proof fn lemma_same_names(a: Seq<Tree>, b: Seq<Tree>)
    requires
        sorted(a),
        sorted(b),
        forall|i: int| 0 <= i < a.len() ==> has_name(b, (#[trigger] a[i]).name),
        forall|j: int| 0 <= j < b.len() ==> has_name(a, (#[trigger] b[j]).name),
    ensures
        a.len() == b.len(),
        forall|i: int| 0 <= i < a.len() ==> (#[trigger] a[i]).name == b[i].name,
    decreases a.len(),
{
    if a.len() == 0 {
        if b.len() > 0 {
            assert(has_name(a, b[0].name));
        }
        return ;
    }
    assert(has_name(b, a[0].name));
    let la = a.len() - 1;
    let lb = b.len() - 1;
    let am = a[la].name;
    let bm = b[lb].name;
    assert(has_name(b, a[la].name));
    let j = choose|k: int| 0 <= k < b.len() && (#[trigger] b[k]).name == am;
    assert(has_name(a, b[lb].name));
    let i = choose|k: int| 0 <= k < a.len() && (#[trigger] a[k]).name == bm;
    if j < lb {
        assert(text_lt(b[j].name, b[lb].name));
        lemma_lt_asymmetric(am, bm);
        if i < la {
            assert(text_lt(a[i].name, a[la].name));
        }
        assert(false);
    }
    assert(am == bm);
    let a1 = a.drop_last();
    let b1 = b.drop_last();
    assert(sorted(a1)) by {
        assert forall|x: int, y: int| 0 <= x < y < a1.len() implies text_lt(
            #[trigger] a1[x].name,
            #[trigger] a1[y].name,
        ) by {
            assert(a1[x] == a[x] && a1[y] == a[y]);
        }
    }
    assert(sorted(b1)) by {
        assert forall|x: int, y: int| 0 <= x < y < b1.len() implies text_lt(
            #[trigger] b1[x].name,
            #[trigger] b1[y].name,
        ) by {
            assert(b1[x] == b[x] && b1[y] == b[y]);
        }
    }
    assert forall|x: int| 0 <= x < a1.len() implies has_name(b1, (#[trigger] a1[x]).name) by {
        assert(a1[x] == a[x]);
        assert(has_name(b, a[x].name));
        let k = choose|k: int| 0 <= k < b.len() && (#[trigger] b[k]).name == a[x].name;
        assert(text_lt(a[x].name, a[la].name));
        lemma_lt_irreflexive(am);
        assert(k != lb);
        assert(b1[k] == b[k]);
    }
    assert forall|y: int| 0 <= y < b1.len() implies has_name(a1, (#[trigger] b1[y]).name) by {
        assert(b1[y] == b[y]);
        assert(has_name(a, b[y].name));
        let k = choose|k: int| 0 <= k < a.len() && (#[trigger] a[k]).name == b[y].name;
        assert(text_lt(b[y].name, b[lb].name));
        lemma_lt_irreflexive(bm);
        assert(k != la);
        assert(a1[k] == a[k]);
    }
    lemma_same_names(a1, b1);
    assert forall|x: int| 0 <= x < a.len() implies (#[trigger] a[x]).name == b[x].name by {
        if x < la {
            assert(a1[x] == a[x] && b1[x] == b[x]);
        }
    }
}

/// A tree with its names in order is determined by its name and its
/// paths: two such trees with the same name and the same paths are equal.
pub proof fn lemma_same_paths_same_tree(t1: Tree, t2: Tree)
    requires
        well_formed(t1),
        well_formed(t2),
        t1.name == t2.name,
        forall|p: Seq<Seq<char>>| has_path(t1, p) == has_path(t2, p),
    ensures
        t1 == t2,
    decreases t1,
{
    let c1 = t1.children;
    let c2 = t2.children;
    assert forall|i: int| 0 <= i < c1.len() implies has_name(c2, (#[trigger] c1[i]).name) by {
        let p = seq![c1[i].name];
        lemma_has_path_intro(t1, p, i);
        assert(has_path(t2, p));
        let k = lemma_has_path_elim(t2, p);
    }
    assert forall|j: int| 0 <= j < c2.len() implies has_name(c1, (#[trigger] c2[j]).name) by {
        let p = seq![c2[j].name];
        lemma_has_path_intro(t2, p, j);
        assert(has_path(t1, p));
        let k = lemma_has_path_elim(t1, p);
    }
    lemma_same_names(c1, c2);
    assert forall|i: int| 0 <= i < c1.len() implies c1[i] == c2[i] by {
        lemma_well_formed_child(t1, i);
        lemma_well_formed_child(t2, i);
        assert(c1[i].name == c2[i].name);
        assert forall|q: Seq<Seq<char>>| has_path(c1[i], q) == has_path(c2[i], q) by {
            if q.len() > 0 {
                let p = seq![c1[i].name] + q;
                assert(p.skip(1) =~= q);
                assert(p[0] == c1[i].name);
                if has_path(c1[i], q) {
                    lemma_has_path_intro(t1, p, i);
                    assert(has_path(t2, p));
                    let k = lemma_has_path_elim(t2, p);
                    lemma_sorted_distinct(c2, k, i);
                }
                if has_path(c2[i], q) {
                    lemma_has_path_intro(t2, p, i);
                    assert(has_path(t1, p));
                    let k = lemma_has_path_elim(t1, p);
                    lemma_sorted_distinct(c1, k, i);
                }
            }
        }
        lemma_same_paths_same_tree(c1[i], c2[i]);
    }
    assert(c1 =~= c2);
}

/// Whether one of the lines `ls` names a path that `p` is a start of.
pub open spec fn names_path(ls: Seq<Seq<char>>, p: Seq<Seq<char>>) -> bool {
    exists|k: int|
        0 <= k < ls.len() && entry_path(#[trigger] ls[k]) is Some && is_start_of(
            p,
            entry_path(ls[k])->0,
        )
}

/// The tree of a list of lines has its names in order at every node, and
/// its paths are the starts of the paths that the lines name.
pub proof fn lemma_tree_of(ls: Seq<Seq<char>>)
    ensures
        well_formed(tree_of(ls)),
        tree_of(ls).name == Seq::<char>::empty(),
        forall|p: Seq<Seq<char>>| has_path(tree_of(ls), p) == names_path(ls, p),
    decreases ls.len(),
{
    if ls.len() == 0 {
        assert forall|p: Seq<Seq<char>>| has_path(tree_of(ls), p) == names_path(ls, p) by {}
    } else {
        let prev = ls.drop_last();
        let line = ls.last();
        let t = tree_of(prev);
        lemma_tree_of(prev);
        match entry_path(line) {
            Some(segs) => {
                lemma_insert_well_formed(t, segs);
                lemma_insert_name(t, segs);
            },
            None => {},
        }
        assert forall|p: Seq<Seq<char>>| has_path(tree_of(ls), p) == names_path(ls, p) by {
            assert(has_path(t, p) == names_path(prev, p));
            match entry_path(line) {
                Some(segs) => {
                    lemma_insert_paths(t, segs, p);
                },
                None => {},
            }
            if names_path(prev, p) {
                let k = choose|k: int|
                    0 <= k < prev.len() && entry_path(#[trigger] prev[k]) is Some && is_start_of(
                        p,
                        entry_path(prev[k])->0,
                    );
                assert(ls[k] == prev[k]);
            }
            if names_path(ls, p) {
                let k = choose|k: int|
                    0 <= k < ls.len() && entry_path(#[trigger] ls[k]) is Some && is_start_of(
                        p,
                        entry_path(ls[k])->0,
                    );
                if k < prev.len() {
                    assert(ls[k] == prev[k]);
                }
            }
            if entry_path(line) is Some && is_start_of(p, entry_path(line)->0) {
                assert(ls[ls.len() - 1] == line);
            }
        }
    }
}

/// The tree depends only on which lines there are: two lists that hold the
/// same lines, in any order and any number of times, give the same tree.
pub proof fn lemma_tree_order_independent(a: Seq<Seq<char>>, b: Seq<Seq<char>>)
    requires
        forall|l: Seq<char>| a.contains(l) <==> b.contains(l),
    ensures
        tree_of(a) == tree_of(b),
{
    lemma_tree_of(a);
    lemma_tree_of(b);
    assert forall|p: Seq<Seq<char>>| names_path(a, p) implies names_path(b, p) by {
        let k = choose|k: int|
            0 <= k < a.len() && entry_path(#[trigger] a[k]) is Some && is_start_of(
                p,
                entry_path(a[k])->0,
            );
        assert(a.contains(a[k]));
        let j = choose|j: int| 0 <= j < b.len() && b[j] == a[k];
        assert(entry_path(b[j]) is Some);
    }
    assert forall|p: Seq<Seq<char>>| names_path(b, p) implies names_path(a, p) by {
        let k = choose|k: int|
            0 <= k < b.len() && entry_path(#[trigger] b[k]) is Some && is_start_of(
                p,
                entry_path(b[k])->0,
            );
        assert(b.contains(b[k]));
        let j = choose|j: int| 0 <= j < a.len() && a[j] == b[k];
        assert(entry_path(a[j]) is Some);
    }
    assert forall|p: Seq<Seq<char>>| has_path(tree_of(a), p) == has_path(tree_of(b), p) by {
        assert(has_path(tree_of(a), p) == names_path(a, p));
        assert(has_path(tree_of(b), p) == names_path(b, p));
    }
    lemma_same_paths_same_tree(tree_of(a), tree_of(b));
}

/// The drawing of a change set does not depend on the order in which its
/// lines arrive: two outputs with the same lines draw the same tree.
pub proof fn lemma_render_order_independent(x: Seq<char>, y: Seq<char>)
    requires
        forall|l: Seq<char>| lines(x).contains(l) <==> lines(y).contains(l),
    ensures
        render_text(x) == render_text(y),
{
    lemma_tree_order_independent(lines(x), lines(y));
}

/// Putting a path in a second time changes nothing.
pub proof fn lemma_insert_idempotent(t: Tree, segs: Seq<Seq<char>>)
    requires
        well_formed(t),
    ensures
        insert(insert(t, segs), segs) == insert(t, segs),
{
    let once = insert(t, segs);
    let twice = insert(once, segs);
    lemma_insert_well_formed(t, segs);
    lemma_insert_well_formed(once, segs);
    lemma_insert_name(t, segs);
    lemma_insert_name(once, segs);
    assert forall|p: Seq<Seq<char>>| has_path(twice, p) == has_path(once, p) by {
        lemma_insert_paths(t, segs, p);
        lemma_insert_paths(once, segs, p);
    }
    lemma_same_paths_same_tree(twice, once);
}

/// Whether the path of the line `line` is hidden: its second field, once
/// one `./` at its start is taken away, starts with `.`.
pub open spec fn is_hidden(line: Seq<char>) -> bool {
    let parts = fields(line, Delim::Char('|'));
    parts.len() >= 2 && strip_dot_slash(parts[1]).len() > 0 && strip_dot_slash(parts[1])[0]
        == '.'
}

/// A line with a hidden path puts no node in the tree.
pub proof fn lemma_hidden_entry_is_skipped(ls: Seq<Seq<char>>, line: Seq<char>)
    requires
        is_hidden(line),
    ensures
        entry_path(line) is None,
        tree_of(ls.push(line)) == tree_of(ls),
{
    assert(ls.push(line).drop_last() == ls);
}

} // verus!
