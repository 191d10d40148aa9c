use vstd::prelude::*;
use crate::control_flow::NodeType;
use crate::control_flow::tree::{ControlFlowTree, TreeView, children_tv, lemma_children_tv_index, lemma_children_tv_len, access_view};
use crate::ast::text::{tabs, dec_text, push_str, push_i64, push_u64, get_indent};

verus! {

broadcast use vstd::std_specs::vec::group_vec_axioms;

/// The absolute value of a condition id.
pub open spec fn abs_of(c: isize) -> int {
    if c < 0 { -c } else { c as int }
}

/// A condition id as a literal: `cN`, or `!cN` for a negated one.
pub open spec fn lit(c: isize) -> Seq<char> {
    if c < 0 { "!c"@ + dec_text(abs_of(c)) } else { "c"@ + dec_text(c as int) }
}

/// The literals of `g` but its last, each followed by ` && `.
pub open spec fn and_prefix(g: Seq<isize>, k: int) -> Seq<char>
    decreases k,
{
    if k <= 0 {
        Seq::empty()
    } else {
        and_prefix(g, k - 1) + lit(g[k - 1]) + " && "@
    }
}

/// The text of a group of access ids that is not the last: `(a && b`
/// for a group of two or more; else the first id of the last group; then
/// `) || `.
pub open spec fn group_text(g: Seq<isize>, last: Seq<isize>) -> Seq<char> {
    (if g.len() > 1 {
        "("@ + and_prefix(g, g.len() - 1) + lit(g.last())
    } else {
        lit(last[0])
    }) + ") || "@
}

/// The texts of the groups `acc[0..k]` (see `group_text`).
pub open spec fn groups_text(acc: Seq<Seq<isize>>, k: int) -> Seq<char>
    decreases k,
{
    if k <= 0 {
        Seq::empty()
    } else {
        groups_text(acc, k - 1) + group_text(acc[k - 1], acc.last())
    }
}

/// The access condition of a node: its groups but the last (see
/// `group_text`), then the last as `(a && b)` or `a)`.
pub open spec fn access_text(acc: Seq<Seq<isize>>) -> Seq<char> {
    let g = acc.last();
    groups_text(acc, acc.len() - 1) + if g.len() > 1 {
        "("@ + and_prefix(g, g.len() - 1) + lit(g.last()) + ")"@
    } else {
        lit(g[0]) + ")"@
    }
}

/// The text of the access ids reads the first id of the last group: the
/// last group, or another, has fewer than two ids.
pub open spec fn reads_last_first(acc: Seq<Seq<isize>>) -> bool {
    acc.last().len() <= 1 || exists|i: int| 0 <= i < acc.len() - 1 && #[trigger] acc[i].len() <= 1
}

/// The access ids can be written: there is a group, each id that is read
/// is not the least `isize`, and the last group has a first id where it is
/// read.
pub open spec fn access_ok(acc: Seq<Seq<isize>>) -> bool {
    &&& acc.len() > 0
    &&& forall|i: int, j: int| 0 <= i < acc.len() && acc[i].len() > 1 && 0 <= j < acc[i].len() ==> #[trigger] acc[i][j] != isize::MIN
    &&& reads_last_first(acc) ==> acc.last().len() > 0 && acc.last()[0] != isize::MIN
}

/// The head of a branch on the condition `c`: `if(cN)` or `if(!cN)`.
pub open spec fn branch_head(c: isize, indent: nat) -> Seq<char> {
    tabs(indent) + (if c < 0 { "if(!c"@ } else { "if(c"@ }) + dec_text(abs_of(c)) + ")\n"@
}

/// A block in braces at `indent` tabs around `body`.
pub open spec fn braced(body: Seq<char>, indent: nat) -> Seq<char> {
    tabs(indent) + "{\n"@ + body + tabs(indent) + "}\n"@
}

/// The text of a control flow tree at `indent` tabs: `break;` and
/// `continue;` for the ends of loop paths; a loop head as `loop` over its
/// body, then what follows it; a block as `bN`, then its branches as
/// `if(..)` blocks and the nodes that follow it, each under an `if` on its
/// access condition where it is a sink that has one.
pub open spec fn tree_text(t: TreeView, indent: nat) -> Seq<char>
    decreases t, 1nat,
{
    let tab = tabs(indent);
    if t.node_type == NodeType::Break {
        tab + "break;\n"@
    } else if t.node_type == NodeType::Back {
        tab + "continue;\n"@
    } else if t.node_type == NodeType::Loop {
        let body = match t.loop_region {
            Some(r) => tree_text(*r, indent + 1),
            None => Seq::empty(),
        };
        tab + "loop\n"@ + braced(body, indent) + trees_text(t.next, indent)
    } else {
        tab + "b"@ + dec_text(t.id as int) + "\n"@ + branches_text(t, indent) + next_text(t.next, indent)
    }
}

/// The branches of a block on its condition, as `if(..)` blocks: the true
/// branch with the false one as its `else`, or the false branch alone.
pub open spec fn branches_text(t: TreeView, indent: nat) -> Seq<char>
    decreases t, 0nat,
{
    match t.condiction {
        Some(c) => match t.true_next {
            Some(x) => branch_head(c, indent) + braced(tree_text(*x, indent + 1), indent) + match t.false_next {
                Some(y) => tabs(indent) + "else\n"@ + braced(tree_text(*y, indent + 1), indent),
                None => Seq::empty(),
            },
            None => match t.false_next {
                Some(y) => branch_head(c, indent) + braced(tree_text(*y, indent + 1), indent),
                None => Seq::empty(),
            },
        },
        None => Seq::empty(),
    }
}

/// A node following a block: under an `if` on its access condition where
/// it is a sink that has one.
pub open spec fn next_item(n: TreeView, indent: nat) -> Seq<char>
    decreases n, 2nat,
{
    if n.is_sink && n.access.len() != 0 {
        tabs(indent) + "if("@ + access_text(n.access) + ")\n"@ + braced(tree_text(n, indent + 1), indent)
    } else {
        tree_text(n, indent)
    }
}

/// The texts of the trees `s` in turn.
pub open spec fn trees_text(s: Seq<TreeView>, indent: nat) -> Seq<char>
    decreases s, 0nat,
{
    if s.len() == 0 {
        Seq::empty()
    } else {
        trees_text(s.drop_last(), indent) + tree_text(s.last(), indent)
    }
}

/// The texts of the nodes `s` that follow a block, in turn: a sink with
/// an access condition under an `if` on it.
pub open spec fn next_text(s: Seq<TreeView>, indent: nat) -> Seq<char>
    decreases s, 0nat,
{
    if s.len() == 0 {
        Seq::empty()
    } else {
        next_text(s.drop_last(), indent) + next_item(s.last(), indent)
    }
}

/// The height of a tree: one more than that of its highest subtree.
pub open spec fn tree_height(t: TreeView) -> nat
    decreases t, 1nat,
{
    let a = match t.loop_region {
        Some(r) => tree_height(*r),
        None => 0,
    };
    let b = match t.true_next {
        Some(x) => tree_height(*x),
        None => 0,
    };
    let c = match t.false_next {
        Some(y) => tree_height(*y),
        None => 0,
    };
    let d = trees_height(t.next);
    1 + if a >= b && a >= c && a >= d {
        a
    } else if b >= c && b >= d {
        b
    } else if c >= d {
        c
    } else {
        d
    }
}

/// The height of the highest of the trees `s` (0 for none).
pub open spec fn trees_height(s: Seq<TreeView>) -> nat
    decreases s, 0nat,
{
    if s.len() == 0 {
        0
    } else {
        let a = trees_height(s.drop_last());
        let b = tree_height(s.last());
        if a >= b { a } else { b }
    }
}

/// The condition and access ids of the tree can be written (see `lit` and
/// `access_ok`).
pub open spec fn text_ok(t: TreeView) -> bool
    decreases t, 1nat,
{
    &&& (t.true_next is Some || t.false_next is Some) ==> (t.condiction matches Some(c) ==> c != isize::MIN)
    &&& (t.loop_region matches Some(r) ==> text_ok(*r))
    &&& (t.true_next matches Some(x) ==> text_ok(*x))
    &&& (t.false_next matches Some(y) ==> text_ok(*y))
    &&& texts_ok(t.next)
}

/// Each of the trees `s` can be written, with its access ids.
pub open spec fn texts_ok(s: Seq<TreeView>) -> bool
    decreases s, 0nat,
{
    s.len() == 0 || (texts_ok(s.drop_last()) && text_ok(s.last()) && (s.last().is_sink && s.last().access.len() != 0
        ==> access_ok(s.last().access)))
}

proof fn lemma_tree_height(t: TreeView)
    ensures
        t.loop_region matches Some(r) ==> tree_height(*r) < tree_height(t),
        t.true_next matches Some(x) ==> tree_height(*x) < tree_height(t),
        t.false_next matches Some(y) ==> tree_height(*y) < tree_height(t),
        trees_height(t.next) < tree_height(t),
{
}

proof fn lemma_trees_height(s: Seq<TreeView>, i: int)
    requires
        0 <= i < s.len(),
    ensures
        tree_height(s[i]) <= trees_height(s),
    decreases s.len(),
{
    if i < s.len() - 1 {
        lemma_trees_height(s.drop_last(), i);
        assert(s.drop_last()[i] == s[i]);
    }
}

proof fn lemma_texts_ok_prefix(s: Seq<TreeView>, k: int)
    requires
        texts_ok(s),
        0 <= k <= s.len(),
    ensures
        texts_ok(s.take(k)),
    decreases s.len(),
{
    if k == s.len() {
        assert(s.take(k) =~= s);
    } else {
        lemma_texts_ok_prefix(s.drop_last(), k);
        assert(s.drop_last().take(k) =~= s.take(k));
    }
}

/// Appends a condition id as a literal (see `lit`).
fn push_lit(s: &mut String, c: isize)
    requires
        c != isize::MIN,
    ensures
        final(s)@ == old(s)@ + lit(c),
{
    if c < 0 {
        push_str(s, "!c");
        push_i64(s, (-c) as i64);
    } else {
        push_str(s, "c");
        push_i64(s, c as i64);
    }
    proof {
        assert(final(s)@ =~= old(s)@ + lit(c));
    }
}

/// Appends the literals of the group `g` but its last, each followed by
/// ` && ` (see `and_prefix`).
fn push_and_prefix(s: &mut String, g: &Vec<isize>)
    requires
        g@.len() > 1,
        forall|j: int| 0 <= j < g@.len() ==> #[trigger] g@[j] != isize::MIN,
    ensures
        final(s)@ == old(s)@ + and_prefix(g@, g@.len() - 1),
{
    let mut j: usize = 0;
    proof {
        assert(old(s)@ + and_prefix(g@, 0) =~= old(s)@);
    }
    while j < g.len() - 1
        invariant
            g@.len() > 1,
            j <= g@.len() - 1,
            forall|q: int| 0 <= q < g@.len() ==> #[trigger] g@[q] != isize::MIN,
            s@ == old(s)@ + and_prefix(g@, j as int),
        decreases g@.len() - 1 - j,
    {
        push_lit(s, g[j]);
        push_str(s, " && ");
        proof {
            assert(s@ =~= old(s)@ + and_prefix(g@, j + 1));
        }
        j = j + 1;
    }
}

/// Appends the access condition `acc` (see `access_text`).
fn push_access(s: &mut String, acc: &Vec<Vec<isize>>)
    requires
        access_ok(access_view(acc@)),
    ensures
        final(s)@ == old(s)@ + access_text(access_view(acc@)),
{
    let ghost a = access_view(acc@);
    let n = acc.len();
    proof {
        assert(a.len() == n);
        assert(old(s)@ + groups_text(a, 0) =~= old(s)@);
    }
    let mut i: usize = 0;
    while i < n - 1
        invariant
            n == acc@.len(),
            n > 0,
            a == access_view(acc@),
            a.len() == n,
            access_ok(a),
            i <= n - 1,
            s@ == old(s)@ + groups_text(a, i as int),
        decreases n - 1 - i,
    {
        let g = &acc[i];
        proof {
            assert(a[i as int] == g@);
            assert(a.last() == acc@[n - 1]@);
        }
        if g.len() > 1 {
            push_str(s, "(");
            proof {
                assert forall|j: int| 0 <= j < g@.len() implies #[trigger] g@[j] != isize::MIN by {
                    assert(a[i as int][j] == g@[j]);
                }
            }
            push_and_prefix(s, g);
            push_lit(s, g[g.len() - 1]);
        } else {
            proof {
                assert(reads_last_first(a));
            }
            push_lit(s, acc[n - 1][0]);
        }
        push_str(s, ") || ");
        proof {
            assert(s@ =~= old(s)@ + groups_text(a, i + 1));
        }
        i = i + 1;
    }
    let g = &acc[n - 1];
    proof {
        assert(a.last() == g@);
    }
    if g.len() > 1 {
        push_str(s, "(");
        proof {
            assert forall|j: int| 0 <= j < g@.len() implies #[trigger] g@[j] != isize::MIN by {
                assert(a[n - 1][j] == g@[j]);
            }
        }
        push_and_prefix(s, g);
        push_lit(s, g[g.len() - 1]);
        push_str(s, ")");
    } else {
        push_lit(s, g[0]);
        push_str(s, ")");
    }
    proof {
        assert(s@ =~= old(s)@ + access_text(a));
    }
}

impl ControlFlowTree {
    /// The text of the tree (see `tree_text`).
    pub fn to_string(&self) -> (r: String)
        requires
            text_ok(self.tv()),
            tree_height(self.tv()) <= usize::MAX,
        ensures
            r@ == tree_text(self.tv(), 0),
    {
        let mut tree_str = String::new();
        self.to_string_recursion(&mut tree_str, 0);
        proof {
            assert(tree_str@ =~= tree_text(self.tv(), 0));
        }
        tree_str
    }

    /// Appends the text of the tree at `indent` tabs (see `tree_text`).
    fn to_string_recursion(&self, tree_str: &mut String, indent: usize)
        requires
            text_ok(self.tv()),
            indent + tree_height(self.tv()) <= usize::MAX,
        ensures
            final(tree_str)@ == old(tree_str)@ + tree_text(self.tv(), indent as nat),
        decreases self, 2nat,
    {
        let ghost t = self.tv();
        let ghost tab = tabs(indent as nat);
        proof {
            lemma_tree_height(t);
        }
        if self.node_type == NodeType::Break {
            get_indent(tree_str, indent);
            push_str(tree_str, "break;\n");
            proof {
                assert(tree_str@ =~= old(tree_str)@ + tree_text(t, indent as nat));
            }
        } else if self.node_type == NodeType::Back {
            get_indent(tree_str, indent);
            push_str(tree_str, "continue;\n");
            proof {
                assert(tree_str@ =~= old(tree_str)@ + tree_text(t, indent as nat));
            }
        } else if self.node_type == NodeType::Loop {
            self.loop_to_string(tree_str, indent);
        } else {
            self.block_node_to_string(tree_str, indent);
        }
    }

    /// Appends a loop head: `loop` over its body, then what follows it (see
    /// `tree_text`).
    fn loop_to_string(&self, tree_str: &mut String, indent: usize)
        requires
            self.node_type == NodeType::Loop,
            text_ok(self.tv()),
            indent + tree_height(self.tv()) <= usize::MAX,
        ensures
            final(tree_str)@ == old(tree_str)@ + tree_text(self.tv(), indent as nat),
        decreases self, 1nat,
    {
        let ghost t = self.tv();
        let ghost tab = tabs(indent as nat);
        proof {
            lemma_tree_height(t);
        }
        get_indent(tree_str, indent);
        push_str(tree_str, "loop\n");
        let ghost a1 = tree_str@;
        match &self.loop_region {
            Some(r) => {
                proof {
                    assert(decreases_to!(self => self.loop_region));
                }
                r.block_to_string(tree_str, indent);
            },
            None => {
                get_indent(tree_str, indent);
                push_str(tree_str, "{\n");
                get_indent(tree_str, indent);
                push_str(tree_str, "}\n");
            },
        }
        let ghost a2 = tree_str@;
        self.all_to_string(tree_str, indent);
        proof {
            let body = match t.loop_region {
                Some(r) => tree_text(*r, (indent + 1) as nat),
                None => Seq::empty(),
            };
            assert(a2 =~= a1 + braced(body, indent as nat));
            assert(tree_str@ =~= old(tree_str)@ + (tab + "loop\n"@ + braced(body, indent as nat) + trees_text(t.next, indent as nat)));
        }
    }

    /// Appends a block: `bN`, its branches and the nodes that follow it (see
    /// `tree_text`).
    fn block_node_to_string(&self, tree_str: &mut String, indent: usize)
        requires
            self.node_type != NodeType::Loop && self.node_type != NodeType::Back && self.node_type != NodeType::Break,
            text_ok(self.tv()),
            indent + tree_height(self.tv()) <= usize::MAX,
        ensures
            final(tree_str)@ == old(tree_str)@ + tree_text(self.tv(), indent as nat),
        decreases self, 1nat,
    {
        let ghost t = self.tv();
        proof {
            lemma_tree_height(t);
        }
        get_indent(tree_str, indent);
        push_str(tree_str, "b");
        push_u64(tree_str, self.id as u64);
        push_str(tree_str, "\n");
        self.branches_to_string(tree_str, indent);
        self.next_to_string(tree_str, indent);
        proof {
            assert(tree_str@ =~= old(tree_str)@ + (tabs(indent as nat) + "b"@ + dec_text(t.id as int) + "\n"@ + branches_text(t,
                indent as nat) + next_text(t.next, indent as nat)));
        }
    }

    /// Appends the branches of a block on its condition (see `branches_text`).
    fn branches_to_string(&self, tree_str: &mut String, indent: usize)
        requires
            text_ok(self.tv()),
            indent + tree_height(self.tv()) <= usize::MAX,
        ensures
            final(tree_str)@ == old(tree_str)@ + branches_text(self.tv(), indent as nat),
        decreases self, 0nat,
    {
        let ghost t = self.tv();
        proof {
            lemma_tree_height(t);
        }
        match self.condiction {
            Some(c_id) => {
                if let Some(true_next) = &self.true_next {
                    proof {
                        assert(decreases_to!(self => self.true_next));
                    }
                    self.push_branch_head(tree_str, c_id, indent);
                    true_next.block_to_string(tree_str, indent);
                    if let Some(false_next) = &self.false_next {
                        proof {
                            assert(decreases_to!(self => self.false_next));
                        }
                        get_indent(tree_str, indent);
                        push_str(tree_str, "else\n");
                        false_next.block_to_string(tree_str, indent);
                    }
                } else if let Some(false_next) = &self.false_next {
                    proof {
                        assert(decreases_to!(self => self.false_next));
                    }
                    self.push_branch_head(tree_str, c_id, indent);
                    false_next.block_to_string(tree_str, indent);
                }
            },
            None => {},
        }
        proof {
            assert(tree_str@ =~= old(tree_str)@ + branches_text(t, indent as nat));
        }
    }

    /// Appends the head of a branch on the condition `c` (see `branch_head`).
    fn push_branch_head(&self, tree_str: &mut String, c: isize, indent: usize)
        requires
            c != isize::MIN,
        ensures
            final(tree_str)@ == old(tree_str)@ + branch_head(c, indent as nat),
    {
        get_indent(tree_str, indent);
        if c < 0 {
            push_str(tree_str, "if(!c");
        } else {
            push_str(tree_str, "if(c");
        }
        let a: isize = if c < 0 { -c } else { c };
        push_i64(tree_str, a as i64);
        push_str(tree_str, ")\n");
        proof {
            assert(tree_str@ =~= old(tree_str)@ + branch_head(c, indent as nat));
        }
    }

    /// Appends the trees following a loop head, in turn (see `trees_text`).
    fn all_to_string(&self, tree_str: &mut String, indent: usize)
        requires
            texts_ok(self.tv().next),
            indent + trees_height(self.tv().next) <= usize::MAX,
        ensures
            final(tree_str)@ == old(tree_str)@ + trees_text(self.tv().next, indent as nat),
        decreases self, 0nat,
    {
        let ghost s = self.tv().next;
        let ghost a0 = tree_str@;
        proof {
            lemma_children_tv_len(self.next@);
            assert(s.take(0) =~= Seq::<TreeView>::empty());
            assert(a0 + trees_text(s.take(0), indent as nat) =~= a0);
        }
        let mut i: usize = 0;
        while i < self.next.len()
            invariant
                i <= self.next@.len(),
                s == children_tv(self.next@),
                s.len() == self.next@.len(),
                texts_ok(s),
                indent + trees_height(s) <= usize::MAX,
                tree_str@ == a0 + trees_text(s.take(i as int), indent as nat),
            decreases self.next@.len() - i,
        {
            proof {
                assert(decreases_to!(self => self.next));
                assert(decreases_to!(self.next => self.next@));
                assert(decreases_to!(self.next@ => self.next@[i as int]));
                lemma_children_tv_index(self.next@, i as int);
                lemma_trees_height(s, i as int);
                assert(s.take(i as int + 1).drop_last() =~= s.take(i as int));
                assert(s.take(i as int + 1).last() == s[i as int]);
                lemma_texts_ok_prefix(s, i as int + 1);
            }
            self.next[i].to_string_recursion(tree_str, indent);
            proof {
                assert(tree_str@ =~= a0 + trees_text(s.take(i as int + 1), indent as nat));
            }
            i = i + 1;
        }
        proof {
            assert(s.take(i as int) =~= s);
        }
    }

    /// Appends the tree in braces, one tab further in (see `braced`).
    fn block_to_string(&self, tree_str: &mut String, indent: usize)
        requires
            text_ok(self.tv()),
            indent + 1 + tree_height(self.tv()) <= usize::MAX,
        ensures
            final(tree_str)@ == old(tree_str)@ + braced(tree_text(self.tv(), (indent + 1) as nat), indent as nat),
        decreases self, 3nat,
    {
        get_indent(tree_str, indent);
        push_str(tree_str, "{\n");
        self.to_string_recursion(tree_str, indent + 1);
        get_indent(tree_str, indent);
        push_str(tree_str, "}\n");
        proof {
            assert(tree_str@ =~= old(tree_str)@ + braced(tree_text(self.tv(), (indent + 1) as nat), indent as nat));
        }
    }

    /// Appends a node following a block (see `next_item`).
    fn next_item_to_string(&self, tree_str: &mut String, indent: usize)
        requires
            text_ok(self.tv()),
            self.is_sink && self.access_condiction@.len() != 0 ==> access_ok(self.tv().access),
            indent + 1 + tree_height(self.tv()) <= usize::MAX,
        ensures
            final(tree_str)@ == old(tree_str)@ + next_item(self.tv(), indent as nat),
        decreases self, 4nat,
    {
        if self.is_sink && self.access_condiction.len() != 0 {
            get_indent(tree_str, indent);
            push_str(tree_str, "if(");
            push_access(tree_str, &self.access_condiction);
            push_str(tree_str, ")\n");
            self.block_to_string(tree_str, indent);
        } else {
            self.to_string_recursion(tree_str, indent);
        }
        proof {
            assert(tree_str@ =~= old(tree_str)@ + next_item(self.tv(), indent as nat));
        }
    }

    /// Appends the nodes following a block, in turn (see `next_text`).
    fn next_to_string(&self, tree_str: &mut String, indent: usize)
        requires
            texts_ok(self.tv().next),
            indent + 1 + trees_height(self.tv().next) <= usize::MAX,
        ensures
            final(tree_str)@ == old(tree_str)@ + next_text(self.tv().next, indent as nat),
        decreases self, 0nat,
    {
        let ghost s = self.tv().next;
        let ghost a0 = tree_str@;
        proof {
            lemma_children_tv_len(self.next@);
            assert(s.take(0) =~= Seq::<TreeView>::empty());
            assert(a0 + next_text(s.take(0), indent as nat) =~= a0);
        }
        let mut i: usize = 0;
        while i < self.next.len()
            invariant
                i <= self.next@.len(),
                s == children_tv(self.next@),
                s.len() == self.next@.len(),
                texts_ok(s),
                indent + 1 + trees_height(s) <= usize::MAX,
                tree_str@ == a0 + next_text(s.take(i as int), indent as nat),
            decreases self.next@.len() - i,
        {
            proof {
                assert(decreases_to!(self => self.next));
                assert(decreases_to!(self.next => self.next@));
                assert(decreases_to!(self.next@ => self.next@[i as int]));
                lemma_children_tv_index(self.next@, i as int);
                lemma_trees_height(s, i as int);
                assert(s.take(i as int + 1).drop_last() =~= s.take(i as int));
                assert(s.take(i as int + 1).last() == s[i as int]);
                lemma_texts_ok_prefix(s, i as int + 1);
            }
            self.next[i].next_item_to_string(tree_str, indent);
            proof {
                assert(tree_str@ =~= a0 + next_text(s.take(i as int + 1), indent as nat));
            }
            i = i + 1;
        }
        proof {
            assert(s.take(i as int) =~= s);
        }
    }
}

} // verus!
