use vstd::prelude::*;
use crate::control_flow::tree::{
    ControlFlowTree, TreeView, children_tv, lemma_children_tv_take, lemma_children_tv_push,
    lemma_children_tv_len, lemma_children_tv_index,
};

verus! {

broadcast use vstd::std_specs::vec::group_vec_axioms;

/// The magnitude of `v`.
pub open spec fn abs_isize(v: isize) -> isize {
    if v < 0 {
        (-v) as isize
    } else {
        v
    }
}

/// Some node of `t` outside loop bodies has id `id`.
pub open spec fn has_node_nl(t: TreeView, id: usize) -> bool
    decreases t,
{
    ||| t.id == id
    ||| (match t.true_next { Some(c) => has_node_nl(*c, id), None => false })
    ||| (match t.false_next { Some(c) => has_node_nl(*c, id), None => false })
    ||| has_node_nl_in(t.next, id)
}

/// Some node outside loop bodies of some tree of `s` has id `id`.
pub open spec fn has_node_nl_in(s: Seq<TreeView>, id: usize) -> bool
    decreases s,
{
    if s.len() == 0 {
        false
    } else {
        has_node_nl_in(s.drop_last(), id) || has_node_nl(s.last(), id)
    }
}

proof fn lemma_has_node_nl_in(s: Seq<TreeView>, id: usize, i: int)
    requires
        0 <= i < s.len(),
        has_node_nl(s[i], id),
    ensures
        has_node_nl_in(s, id),
    decreases s.len(),
{
    if i < s.len() - 1 {
        lemma_has_node_nl_in(s.drop_last(), id, i);
    }
}

proof fn lemma_has_node_nl_child(t: TreeView, id: usize)
    ensures
        (t.true_next matches Some(c) && has_node_nl(*c, id)) ==> has_node_nl(t, id),
        (t.false_next matches Some(c) && has_node_nl(*c, id)) ==> has_node_nl(t, id),
        forall|i: int| 0 <= i < t.next.len() && has_node_nl(#[trigger] t.next[i], id) ==> has_node_nl(t, id),
{
    assert forall|i: int| 0 <= i < t.next.len() && has_node_nl(#[trigger] t.next[i], id) implies has_node_nl(t, id) by {
        lemma_has_node_nl_in(t.next, id, i);
    }
}

/// Where `attach_tree` grafts `body`, the condition it takes from `body`'s
/// branch exists (and its magnitude is an `isize`).
pub open spec fn attach_tree_ok(t: TreeView, target: usize, body: TreeView) -> bool {
    has_node_nl(t, target) ==> match body.true_next {
        Some(c) => c.access.len() > 0 && c.access[0].len() > 0,
        None => match body.false_next {
            Some(c) => c.access.len() > 0 && c.access[0].len() > 0 && c.access[0][0] != isize::MIN,
            None => true,
        },
    }
}

/// Copies of the trees of `s`.
pub fn copy_children(s: &Vec<Box<ControlFlowTree>>) -> (r: Vec<Box<ControlFlowTree>>)
    ensures
        children_tv(r@) == children_tv(s@),
{
    let mut r: Vec<Box<ControlFlowTree>> = Vec::new();
    let mut i: usize = 0;
    proof {
        assert(s@.take(0) =~= Seq::<Box<ControlFlowTree>>::empty());
    }
    while i < s.len()
        invariant
            i <= s@.len(),
            children_tv(r@) == children_tv(s@.take(i as int)),
        decreases s@.len() - i,
    {
        proof {
            lemma_children_tv_take(s@, i as int);
        }
        let c = s[i].duplicate();
        let ghost prev = r@;
        r.push(Box::new(c));
        proof {
            lemma_children_tv_push(prev, Box::new(c));
        }
        i = i + 1;
    }
    proof {
        assert(s@.take(i as int) =~= s@);
    }
    r
}

/// At every node `target` (outside loop bodies) the branches of `body` take the place of the node's, the following nodes of `body` come before the node's own, the node takes the condition of `body`'s branches (its magnitude, on the false branch) and, when `new_id` is given, that id.
pub open spec fn m_attach_tree(t: TreeView, target: usize, body: TreeView, new_id: Option<usize>) -> TreeView
    decreases t,
{
    if t.id == target {
        TreeView {
            true_next: body.true_next,
            false_next: body.false_next,
            next: body.next + t.next,
            condiction: match body.true_next {
                Some(c) => Some(c.access[0][0]),
                None => match body.false_next {
                    Some(c) => Some(abs_isize(c.access[0][0])),
                    None => t.condiction,
                },
            },
            id: match new_id {
                Some(i) => i,
                None => t.id,
            },
            ..t
        }
    } else {
        TreeView {
            true_next: match t.true_next {
                Some(c) => Some(Box::new(m_attach_tree(*c, target, body, new_id))),
                None => None,
            },
            false_next: match t.false_next {
                Some(c) => Some(Box::new(m_attach_tree(*c, target, body, new_id))),
                None => None,
            },
            next: m_attach_tree_all(t.next, target, body, new_id),
            ..t
        }
    }
}

/// `m_attach_tree` on each tree of `s`.
pub open spec fn m_attach_tree_all(s: Seq<TreeView>, target: usize, body: TreeView, new_id: Option<usize>) -> Seq<TreeView>
    decreases s,
{
    if s.len() == 0 {
        Seq::empty()
    } else {
        m_attach_tree_all(s.drop_last(), target, body, new_id).push(m_attach_tree(s.last(), target, body, new_id))
    }
}

proof fn lemma_m_attach_tree_all_push(s: Seq<TreeView>, x: TreeView, target: usize, body: TreeView, new_id: Option<usize>)
    ensures
        m_attach_tree_all(s.push(x), target, body, new_id) == m_attach_tree_all(s, target, body, new_id).push(m_attach_tree(x, target, body, new_id)),
{
    assert(s.push(x).drop_last() =~= s);
}

impl ControlFlowTree {
    /// Grafts the branches and following nodes of `tree` onto each node `target` (see `m_attach_tree`).
    pub fn attach_tree(&mut self, target: usize, tree: &ControlFlowTree, id: &Option<usize>)
        requires
            attach_tree_ok(old(self).tv(), target, tree.tv()),
        ensures
            final(self).tv() == m_attach_tree(old(self).tv(), target, tree.tv(), *id),
        decreases *old(self),
    {
        if self.id == target {
            self.true_next = match &tree.true_next {
                Some(c) => Some(Box::new(c.duplicate())),
                None => None,
            };
            self.false_next = match &tree.false_next {
                Some(c) => Some(Box::new(c.duplicate())),
                None => None,
            };
            let mut old_next: Vec<Box<ControlFlowTree>> = Vec::new();
            std::mem::swap(&mut old_next, &mut self.next);
            let ghost on = old_next@;
            let mut nn = copy_children(&tree.next);
            let ghost mut k: int = 0;
            proof {
                assert(on.take(0) =~= Seq::<Box<ControlFlowTree>>::empty());
                assert(children_tv(tree.next@) + children_tv(on.take(0)) =~= children_tv(tree.next@));
            }
            for c in it: old_next.into_iter()
                invariant
                    it.seq() == on,
                    k == it.index(),
                    children_tv(nn@) == children_tv(tree.next@) + children_tv(on.take(k)),
            {
                proof {
                    assert(k < on.len());
                    assert(c == on[k]);
                    lemma_children_tv_take(on, k);
                    assert((children_tv(tree.next@) + children_tv(on.take(k))).push(on[k].tv())
                        =~= children_tv(tree.next@) + children_tv(on.take(k)).push(on[k].tv()));
                }
                let ghost prev = nn@;
                nn.push(c);
                proof {
                    lemma_children_tv_push(prev, c);
                    k = k + 1;
                }
            }
            proof {
                assert(on.take(k) =~= on);
            }
            self.next = nn;
            if let Some(c) = &tree.true_next {
                self.condiction = Some(c.access_condiction[0][0]);
            } else if let Some(c) = &tree.false_next {
                let v = c.access_condiction[0][0];
                self.condiction = Some(if v < 0 { -v } else { v });
            }
            if let Some(i) = id {
                self.id = *i;
            }
            return;
        }
        proof {
            lemma_has_node_nl_child(old(self).tv(), target);
        }
        match self.true_next.take() {
            Some(mut c) => {
                (&mut *c).attach_tree(target, tree, id);
                self.true_next = Some(c);
            },
            None => {},
        }
        match self.false_next.take() {
            Some(mut c) => {
                (&mut *c).attach_tree(target, tree, id);
                self.false_next = Some(c);
            },
            None => {},
        }
        let mut old_next: Vec<Box<ControlFlowTree>> = Vec::new();
        std::mem::swap(&mut old_next, &mut self.next);
        let ghost on = old_next@;
        proof {
            lemma_children_tv_len(on);
            assert(on.take(0) =~= Seq::<Box<ControlFlowTree>>::empty());
            assert forall|i: int| 0 <= i < on.len() implies attach_tree_ok(#[trigger] on[i].tv(), target, tree.tv()) by {
                lemma_children_tv_index(on, i);
            }
        }
        let mut new_next: Vec<Box<ControlFlowTree>> = Vec::new();
        let ghost mut k: int = 0;
        for c in it: old_next.into_iter()
            invariant
                it.seq() == on,
                on == old(self).next@,
                k == it.index(),
                forall|i: int| 0 <= i < on.len() ==> attach_tree_ok(#[trigger] on[i].tv(), target, tree.tv()),
                children_tv(new_next@) == m_attach_tree_all(children_tv(on.take(k)), target, tree.tv(), *id),
        {
            proof {
                assert(k < on.len());
                assert(c == on[k]);
                assert(decreases_to!(*old(self) => old(self).next));
                assert(decreases_to!(old(self).next => old(self).next@));
                assert(decreases_to!(old(self).next@ => old(self).next@[k]));
                lemma_children_tv_take(on, k);
                lemma_m_attach_tree_all_push(children_tv(on.take(k)), on[k].tv(), target, tree.tv(), *id);
            }
            let ghost prev = new_next@;
            let mut c = c;
            (&mut *c).attach_tree(target, tree, id);
            new_next.push(c);
            proof {
                lemma_children_tv_push(prev, c);
                k = k + 1;
            }
        }
        self.next = new_next;
        proof {
            assert(on.take(k) =~= on);
        }
    }
}

} // verus!
