//! The tree of the paths that a transfer would change, and its drawing.

use vstd::prelude::*;
use crate::order::{comes_before, text_lt};
use crate::path::slash;
use crate::split::{
    Delim, fields, join, join_rows, lines, split_fields, split_lines, split_tokens, tokens, trim,
    trimmed,
};
use crate::text::{
    chars_of, push_str, push_text, rows, same_text, slice_of, string_of, texts, to_rows,
};
use crate::tree_laws::lemma_insert_well_formed;

verus! {

/// A directory or file of the change set: its name and what lies below it,
/// ordered by name. The root has the empty name.
pub struct TreeNode {
    pub name: String,
    pub children: Vec<TreeNode>,
}

/// The mathematical tree that a `TreeNode` stands for.
pub struct Tree {
    pub name: Seq<char>,
    pub children: Seq<Tree>,
}

impl View for TreeNode {
    type V = Tree;

    open spec fn view(&self) -> Tree
        decreases self,
    {
        Tree {
            name: self.name@,
            children: Seq::new(
                self.children@.len(),
                |i: int|
                    if 0 <= i < self.children@.len() {
                        self.children@[i]@
                    } else {
                        leaf(Seq::empty())
                    },
            ),
        }
    }
}

/// The view of a node is its name's view and the views of its children.
pub proof fn lemma_view(node: TreeNode)
    ensures
        node@.name == node.name@,
        node@.children.len() == node.children@.len(),
        forall|i: int|
            0 <= i < node.children@.len() ==> #[trigger] node@.children[i] == node.children@[i]@,
{
}

/// Whether the names of `cs` strictly increase: no name occurs twice, and
/// the order of the children is the order of their names.
pub open spec fn sorted(cs: Seq<Tree>) -> bool {
    forall|i: int, j: int|
        0 <= i < j < cs.len() ==> text_lt(#[trigger] cs[i].name, #[trigger] cs[j].name)
}

/// Whether at every node of `t` the names of the children strictly increase.
pub open spec fn well_formed(t: Tree) -> bool
    decreases t,
{
    sorted(t.children) && forall|i: int|
        0 <= i < t.children.len() ==> well_formed(#[trigger] t.children[i])
}

/// The place of the name `name` among the children `cs`: the number of
/// children at the start whose names come before it.
pub open spec fn position(cs: Seq<Tree>, name: Seq<char>) -> int
    decreases cs.len(),
{
    if cs.len() == 0 || !text_lt(cs[0].name, name) {
        0
    } else {
        1 + position(cs.skip(1), name)
    }
}

/// A tree of one node.
pub open spec fn leaf(name: Seq<char>) -> Tree {
    Tree { name, children: Seq::empty() }
}

/// The tree `t` with the path `segs` below it: the child named by the
/// first name is found or put in at its place, and the rest of the path goes
/// below that child. The empty path changes nothing.
pub open spec fn insert(t: Tree, segs: Seq<Seq<char>>) -> Tree
    decreases segs.len(),
{
    if segs.len() == 0 {
        t
    } else {
        let i = position(t.children, segs[0]);
        if i < t.children.len() && t.children[i].name == segs[0] {
            Tree {
                name: t.name,
                children: t.children.update(i, insert(t.children[i], segs.skip(1))),
            }
        } else {
            Tree {
                name: t.name,
                children: t.children.insert(i, insert(leaf(segs[0]), segs.skip(1))),
            }
        }
    }
}

/// The place of `name` among the children of `node`.
fn child_position(node: &TreeNode, name: &Vec<char>) -> (i: usize)
    ensures
        i == position(node@.children, name@),
        i <= node.children.len(),
{
    let ghost cs = node@.children;
    let mut i: usize = 0;
    proof {
        assert(cs.skip(0) == cs);
    }
    while i < node.children.len()
        invariant
            i <= node.children.len(),
            cs == node@.children,
            position(cs, name@) == i + position(cs.skip(i as int), name@),
        decreases node.children.len() - i,
    {
        proof {
            assert(cs.skip(i as int)[0] == cs[i as int]);
            assert(cs[i as int] == node.children[i as int]@);
            assert(cs.skip(i as int).skip(1) == cs.skip(i + 1));
        }
        let child = chars_of(node.children[i].name.as_str());
        if !comes_before(&child, name) {
            return i;
        }
        i += 1;
    }
    i
}

/// Puts the path `segs[from..]` below `node`.
fn insert_from(node: &mut TreeNode, segs: &Vec<Vec<char>>, from: usize)
    requires
        from <= segs.len(),
    ensures
        final(node)@ == insert(old(node)@, rows(segs@).skip(from as int)),
    decreases segs.len() - from,
{
    if from == segs.len() {
        return ;
    }
    let ghost before = node@;
    let ghost path = rows(segs@).skip(from as int);
    proof {
        assert(path[0] == segs@[from as int]@);
        assert(path.skip(1) == rows(segs@).skip(from + 1));
    }
    let i = child_position(node, &segs[from]);
    proof {
        lemma_view(*node);
        if i < node.children.len() {
            lemma_view(node.children@[i as int]);
        }
    }
    let found = i < node.children.len() && same_text(
        &chars_of(node.children[i].name.as_str()),
        &segs[from],
    );
    let mut child = if found {
        node.children.remove(i)
    } else {
        TreeNode { name: string_of(&segs[from]), children: Vec::new() }
    };
    proof {
        if found {
            assert(child@ == before.children[i as int]);
        } else {
            assert(child@.children =~= Seq::<Tree>::empty());
            assert(child@ == leaf(path[0]));
        }
    }
    insert_from(&mut child, segs, from + 1);
    node.children.insert(i, child);
    proof {
        lemma_view(*node);
        assert(node@.name == before.name);
        if found {
            assert(node@.children =~= before.children.update(i as int, child@));
        } else {
            assert(node@.children =~= before.children.insert(i as int, child@));
        }
    }
}

/// Puts `path` into the tree below `root`: the path is split at `/`, empty
/// names are passed over, and each name is found or created in turn.
pub fn insert_path(root: &mut TreeNode, path: &str)
    ensures
        final(root)@ == insert(old(root)@, tokens(path@, slash())),
        well_formed(old(root)@) ==> well_formed(final(root)@),
{
    let segs = split_tokens(&chars_of(path), Delim::Char('/'));
    insert_from(root, &segs, 0);
    proof {
        assert(rows(segs@).skip(0) == rows(segs@));
        if well_formed(old(root)@) {
            lemma_insert_well_formed(old(root)@, tokens(path@, slash()));
        }
    }
}

/// The glyph before a name: `+--` for the last of its siblings, `|--` for the others.
pub open spec fn branch(last: bool) -> Seq<char> {
    if last {
        "+--"@
    } else {
        "|--"@
    }
}

/// What stands before the lines below a node: the node's own prefix, and
/// under a last sibling three spaces, under any other a connector and two.
pub open spec fn child_prefix(prefix: Seq<char>, last: bool) -> Seq<char> {
    if last {
        prefix + "   "@
    } else {
        prefix + "|  "@
    }
}

/// The line of one node.
pub open spec fn node_line(name: Seq<char>, prefix: Seq<char>, last: bool) -> Seq<char> {
    prefix + branch(last) + seq![' '] + name
}

/// The lines of the node `t` and of all below it, depth first.
pub open spec fn draw(t: Tree, prefix: Seq<char>, last: bool) -> Seq<Seq<char>>
    decreases t, 0nat,
{
    seq![node_line(t.name, prefix, last)] + draw_first(
        t.children,
        child_prefix(prefix, last),
        t.children.len(),
    )
}

/// The lines of the first `k` of the siblings `cs`, each with all below it.
pub open spec fn draw_first(cs: Seq<Tree>, prefix: Seq<char>, k: nat) -> Seq<Seq<char>>
    decreases cs, k,
{
    if k == 0 || k > cs.len() {
        Seq::empty()
    } else {
        draw_first(cs, prefix, (k - 1) as nat) + draw(cs[k - 1], prefix, k == cs.len())
    }
}

/// The lines of the whole tree: those of the root's children; the root
/// itself has no line.
pub open spec fn draw_tree(root: Tree) -> Seq<Seq<char>> {
    draw_first(root.children, Seq::empty(), root.children.len())
}

/// Appends the lines of `node` and of all below it to `lines`. `prefix`
/// stands before the node's own line; `last` says that no sibling follows.
pub fn render_node(lines: &mut Vec<String>, node: &TreeNode, prefix: &str, last: bool)
    ensures
        texts(final(lines)@) == texts(old(lines)@) + draw(node@, prefix@, last),
    decreases node,
{
    let mut line = chars_of(prefix);
    push_str(&mut line, if last {
        "+--"
    } else {
        "|--"
    });
    line.push(' ');
    push_str(&mut line, node.name.as_str());
    push_text(lines, string_of(&line).as_str());
    let mut next = chars_of(prefix);
    push_str(&mut next, if last {
        "   "
    } else {
        "|  "
    });
    let next = string_of(&next);
    proof {
        lemma_view(*node);
        assert(line@ == node_line(node@.name, prefix@, last));
        assert(next@ == child_prefix(prefix@, last));
    }
    let ghost start = texts(lines@);
    let n = node.children.len();
    let mut i: usize = 0;
    while i < n
        invariant
            i <= n,
            n == node.children.len(),
            next@ == child_prefix(prefix@, last),
            texts(lines@) == start + draw_first(node@.children, next@, i as nat),
        decreases n - i,
    {
        proof {
            lemma_view(*node);
        }
        render_node(lines, &node.children[i], next.as_str(), i + 1 == n);
        i += 1;
    }
}

/// `p` without one `./` at its start, if it has one.
pub open spec fn strip_dot_slash(p: Seq<char>) -> Seq<char> {
    if seq!['.', '/'].is_prefix_of(p) {
        p.skip(2)
    } else {
        p
    }
}

/// The path that one line of itemized changes names, as its names in
/// order. A line is `code|path|size`; the path is its second field, without
/// one `./` at its start. A blank line, a line with fewer than two fields,
/// and a path that is then empty or starts with `.` name nothing.
pub open spec fn entry_path(line: Seq<char>) -> Option<Seq<Seq<char>>> {
    let parts = fields(line, Delim::Char('|'));
    if trim(line).len() == 0 || parts.len() < 2 {
        None
    } else {
        let item = strip_dot_slash(parts[1]);
        if item.len() == 0 || item[0] == '.' {
            None
        } else {
            Some(tokens(item, slash()))
        }
    }
}

/// The tree of the paths that the lines `ls` name.
pub open spec fn tree_of(ls: Seq<Seq<char>>) -> Tree
    decreases ls.len(),
{
    if ls.len() == 0 {
        leaf(Seq::empty())
    } else {
        let t = tree_of(ls.drop_last());
        match entry_path(ls.last()) {
            Some(segs) => insert(t, segs),
            None => t,
        }
    }
}

/// The drawing of the tree of the paths that the itemized changes `output`
/// name, its lines joined by line feeds.
pub open spec fn render_text(output: Seq<char>) -> Seq<char> {
    join(draw_tree(tree_of(lines(output))), seq!['\n'])
}

/// A root without children.
pub fn empty_tree() -> (root: TreeNode)
    ensures
        root@ == leaf(Seq::empty()),
        well_formed(root@),
{
    let root = TreeNode { name: String::new(), children: Vec::new() };
    proof {
        lemma_view(root);
        assert(root@.children =~= Seq::<Tree>::empty());
    }
    root
}

/// Takes one line of itemized changes into the tree below `root`.
pub fn insert_entry(root: &mut TreeNode, line: &Vec<char>)
    ensures
        final(root)@ == match entry_path(line@) {
            Some(segs) => insert(old(root)@, segs),
            None => old(root)@,
        },
        well_formed(old(root)@) ==> well_formed(final(root)@),
{
    if trimmed(line).len() == 0 {
        return ;
    }
    let parts = split_fields(line, Delim::Char('|'));
    if parts.len() < 2 {
        return ;
    }
    proof {
        assert(rows(parts@)[1] == parts@[1]@);
    }
    let field = &parts[1];
    let from: usize = if field.len() >= 2 && field[0] == '.' && field[1] == '/' {
        2
    } else {
        0
    };
    proof {
        let mark = seq!['.', '/'];
        if from == 2 {
            assert(mark =~= field@.subrange(0, 2));
        } else if mark.is_prefix_of(field@) {
            assert(field@.subrange(0, 2)[0] == mark[0]);
            assert(field@.subrange(0, 2)[1] == mark[1]);
        }
        assert(field@.skip(0) == field@);
    }
    let item = slice_of(field, from, field.len());
    proof {
        assert(item@ == strip_dot_slash(field@));
    }
    if item.len() == 0 || item[0] == '.' {
        return ;
    }
    let segs = split_tokens(&item, Delim::Char('/'));
    insert_from(root, &segs, 0);
    proof {
        assert(rows(segs@).skip(0) == rows(segs@));
        if well_formed(old(root)@) {
            lemma_insert_well_formed(old(root)@, rows(segs@));
        }
    }
}

/// The lines of the drawing of the tree below `root`.
pub fn render_lines(root: &TreeNode) -> (out: Vec<String>)
    ensures
        texts(out@) == draw_tree(root@),
{
    let mut out: Vec<String> = Vec::new();
    proof {
        assert(texts(out@) =~= Seq::<Seq<char>>::empty());
        reveal_strlit("");
        assert(""@ =~= Seq::<char>::empty());
    }
    let n = root.children.len();
    let mut i: usize = 0;
    while i < n
        invariant
            i <= n,
            n == root.children.len(),
            ""@ == Seq::<char>::empty(),
            texts(out@) == draw_first(root@.children, Seq::empty(), i as nat),
        decreases n - i,
    {
        proof {
            lemma_view(*root);
        }
        render_node(&mut out, &root.children[i], "", i + 1 == n);
        i += 1;
    }
    proof {
        lemma_view(*root);
    }
    out
}

/// Draws the tree of the paths that the itemized changes `output` name:
/// one line per directory or file, children in the order of their names
/// below their parent, nothing for an empty change set.
pub fn render_tree(output: &str) -> (out: String)
    ensures
        out@ == render_text(output@),
{
    let ls = split_lines(&chars_of(output));
    let mut root = empty_tree();
    let mut i: usize = 0;
    while i < ls.len()
        invariant
            i <= ls.len(),
            root@ == tree_of(rows(ls@).take(i as int)),
        decreases ls.len() - i,
    {
        proof {
            assert(rows(ls@).take(i + 1).drop_last() == rows(ls@).take(i as int));
            assert(rows(ls@).take(i + 1).last() == ls@[i as int]@);
        }
        insert_entry(&mut root, &ls[i]);
        i += 1;
    }
    proof {
        assert(rows(ls@).take(ls.len() as int) == rows(ls@));
    }
    let drawn = to_rows(&render_lines(&root));
    let mut nl: Vec<char> = Vec::new();
    nl.push('\n');
    let out = join_rows(&drawn, &nl);
    string_of(&out)
}

} // verus!
