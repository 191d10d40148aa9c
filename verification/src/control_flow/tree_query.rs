use vstd::prelude::*;
use std::collections::HashMap;
use crate::control_flow::tree::{
    ControlFlowTree, TreeView, children_tv, opt_tv, copy_access, lemma_children_tv_take, lemma_children_tv_push,
    lemma_children_tv_len, lemma_children_tv_index,
};
use crate::control_flow::tree_edit::m_insert_loop;

verus! {

broadcast use {vstd::std_specs::vec::group_vec_axioms, vstd::std_specs::hash::group_hash_axioms};

/// The first node with id `id` in `t`, looking at a node before what is
/// below it, and below it at the loop body, the true branch, the false
/// branch and then the following nodes in order.
pub open spec fn m_search(t: TreeView, id: usize) -> Option<TreeView>
    decreases t,
{
    if t.id == id {
        Some(t)
    } else {
        let a = match t.loop_region {
            Some(c) => m_search(*c, id),
            None => None,
        };
        let b = match t.true_next {
            Some(c) => m_search(*c, id),
            None => None,
        };
        let f = match t.false_next {
            Some(c) => m_search(*c, id),
            None => None,
        };
        if a is Some {
            a
        } else if b is Some {
            b
        } else if f is Some {
            f
        } else {
            m_search_all(t.next, id)
        }
    }
}

/// The first node with id `id` in the trees of `s`, in order.
pub open spec fn m_search_all(s: Seq<TreeView>, id: usize) -> Option<TreeView>
    decreases s,
{
    if s.len() == 0 {
        None
    } else {
        let p = m_search_all(s.drop_last(), id);
        if p is Some {
            p
        } else {
            m_search(s.last(), id)
        }
    }
}

/// Some tree of `s` has its root `id`.
pub open spec fn has_child(s: Seq<TreeView>, id: usize) -> bool {
    exists|i: int| 0 <= i < s.len() && (#[trigger] s[i]).id == id
}

/// The parent of a node `id` as found by walking down: a node one of whose
/// following nodes is `id`, else the answer of its true branch if it has
/// one, else of its false branch, else of its first following node.
pub open spec fn m_get_parent(t: TreeView, id: usize) -> Option<usize>
    decreases t,
{
    if has_child(t.next, id) {
        Some(t.id)
    } else {
        match t.true_next {
            Some(c) => m_get_parent(*c, id),
            None => match t.false_next {
                Some(c) => m_get_parent(*c, id),
                None => if t.next.len() > 0 {
                    m_get_parent(t.next[0], id)
                } else {
                    None
                },
            },
        }
    }
}

/// `r` put in the place of `old`: it keeps `old`'s sink mark and access conditions.
pub open spec fn graft(r: TreeView, old: TreeView) -> TreeView {
    TreeView { is_sink: old.is_sink, access: old.access, ..r }
}

/// Every node `id` below `t` (outside loop bodies) replaced by `r` (see
/// `graft`); the search stops at a true or false branch that is `id`.
pub open spec fn m_replace(t: TreeView, id: usize, r: TreeView) -> TreeView
    decreases t, 1nat,
{
    match t.true_next {
        Some(c) => if c.id == id {
            TreeView { true_next: Some(Box::new(graft(r, *c))), ..t }
        } else {
            m_replace_rest(t, Some(Box::new(m_replace(*c, id, r))), id, r)
        },
        None => m_replace_rest(t, None, id, r),
    }
}

/// `m_replace` after the true branch has become `tn`.
pub open spec fn m_replace_rest(t: TreeView, tn: Option<Box<TreeView>>, id: usize, r: TreeView) -> TreeView
    decreases t, 0nat,
{
    match t.false_next {
        Some(c) => if c.id == id {
            TreeView { true_next: tn, false_next: Some(Box::new(graft(r, *c))), ..t }
        } else {
            TreeView { true_next: tn, false_next: Some(Box::new(m_replace(*c, id, r))), next: m_replace_all(t.next, id, r), ..t }
        },
        None => TreeView { true_next: tn, next: m_replace_all(t.next, id, r), ..t },
    }
}

/// `m_replace` on each of the following nodes `s`, each replaced itself when it is `id`.
pub open spec fn m_replace_all(s: Seq<TreeView>, id: usize, r: TreeView) -> Seq<TreeView>
    decreases s, 0nat,
{
    if s.len() == 0 {
        Seq::empty()
    } else {
        let c = s.last();
        m_replace_all(s.drop_last(), id, r).push(if c.id == id { graft(r, c) } else { m_replace(c, id, r) })
    }
}

/// The tree `trees[0]` with, for each node `v` of `topo` in turn that heads
/// a loop (`loops[v]`), the tree of that loop as the loop body of `v`.
pub open spec fn m_merge(trees: Map<usize, TreeView>, loops: Map<usize, usize>, topo: Seq<usize>) -> TreeView
    decreases topo.len(),
{
    if topo.len() == 0 {
        trees[0]
    } else {
        let m = m_merge(trees, loops, topo.drop_last());
        let v = topo.last();
        if loops.contains_key(v) {
            m_insert_loop(m, v, trees[loops[v]])
        } else {
            m
        }
    }
}

/// The values of a map of trees.
pub open spec fn trees_tv(m: Map<usize, ControlFlowTree>) -> Map<usize, TreeView> {
    m.map_values(|t: ControlFlowTree| t.tv())
}

impl ControlFlowTree {
    /// A copy of the first node `id` and what is below it (see `m_search`).
    pub fn search(&self, id: usize) -> (r: Option<ControlFlowTree>)
        ensures
            match r {
                Some(t) => m_search(self.tv(), id) == Some(t.tv()),
                None => m_search(self.tv(), id) is None,
            },
        decreases self,
    {
        if self.id == id {
            return Some(self.duplicate());
        }
        if let Some(c) = &self.loop_region {
            if let Some(res) = c.search(id) {
                return Some(res);
            }
        }
        if let Some(c) = &self.true_next {
            if let Some(res) = c.search(id) {
                return Some(res);
            }
        }
        if let Some(c) = &self.false_next {
            if let Some(res) = c.search(id) {
                return Some(res);
            }
        }
        let mut i: usize = 0;
        proof {
            lemma_children_tv_len(self.next@);
            assert(self.next@.take(0) =~= Seq::<Box<ControlFlowTree>>::empty());
            assert(m_search(self.tv(), id) == m_search_all(children_tv(self.next@), id));
        }
        while i < self.next.len()
            invariant
                i <= self.next@.len(),
                m_search(self.tv(), id) == m_search_all(children_tv(self.next@), id),
                m_search_all(children_tv(self.next@.take(i as int)), id) is None,
            decreases self.next@.len() - i,
        {
            proof {
                assert(decreases_to!(self => self.next));
                assert(decreases_to!(self.next => self.next@));
                assert(decreases_to!(self.next@ => self.next@[i as int]));
                lemma_children_tv_take(self.next@, i as int);
                assert(children_tv(self.next@.take(i as int)).push(self.next@[i as int].tv()).drop_last()
                    =~= children_tv(self.next@.take(i as int)));
            }
            if let Some(res) = self.next[i].search(id) {
                proof {
                    assert(self.next@.take(i + 1) + self.next@.skip(i + 1) =~= self.next@);
                    lemma_search_all_prefix(self.next@, i as int + 1, id);
                }
                return Some(res);
            }
            i = i + 1;
        }
        proof {
            assert(self.next@.take(i as int) =~= self.next@);
        }
        None
    }

    /// The parent of node `id` (see `m_get_parent`).
    pub fn get_parent(&self, id: usize) -> (r: Option<usize>)
        ensures
            r == m_get_parent(self.tv(), id),
        decreases self,
    {
        let mut found = false;
        let mut i: usize = 0;
        while i < self.next.len()
            invariant
                i <= self.next@.len(),
                found <==> exists|j: int| 0 <= j < i && (#[trigger] self.next@[j]).id == id,
            decreases self.next@.len() - i,
        {
            if self.next[i].id == id {
                found = true;
            }
            i = i + 1;
        }
        proof {
            lemma_children_tv_len(self.next@);
            if found {
                let j = choose|j: int| 0 <= j < i && (#[trigger] self.next@[j]).id == id;
                lemma_children_tv_index(self.next@, j);
                assert(self.tv().next[j].id == id);
            } else {
                assert forall|j: int| 0 <= j < self.tv().next.len() implies (#[trigger] self.tv().next[j]).id != id by {
                    lemma_children_tv_index(self.next@, j);
                }
            }
        }
        if found {
            return Some(self.id);
        }
        if let Some(c) = &self.true_next {
            return c.get_parent(id);
        }
        if let Some(c) = &self.false_next {
            return c.get_parent(id);
        }
        if self.next.len() > 0 {
            proof {
                assert(decreases_to!(self => self.next));
                assert(decreases_to!(self.next => self.next@));
                assert(decreases_to!(self.next@ => self.next@[0]));
                lemma_children_tv_index(self.next@, 0);
            }
            return self.next[0].get_parent(id);
        }
        None
    }

    /// Replaces the nodes `id` by copies of `tree` (see `m_replace`).
    pub fn replace(&mut self, id: usize, tree: &ControlFlowTree)
        ensures
            final(self).tv() == m_replace(old(self).tv(), id, tree.tv()),
        decreases *old(self),
    {
        let ghost t0 = old(self).tv();
        match self.true_next.take() {
            Some(mut c) => {
                if c.id == id {
                    let mut t = tree.duplicate();
                    t.is_sink = c.is_sink;
                    t.access_condiction = copy_access(&c.access_condiction);
                    proof {
                        assert(t.tv() == graft(tree.tv(), c.tv()));
                    }
                    self.true_next = Some(Box::new(t));
                    return;
                } else {
                    (&mut *c).replace(id, tree);
                    self.true_next = Some(c);
                }
            },
            None => {},
        }
        let ghost tn = opt_tv(self.true_next);
        assert(m_replace(t0, id, tree.tv()) == m_replace_rest(t0, tn, id, tree.tv()));
        match self.false_next.take() {
            Some(mut c) => {
                if c.id == id {
                    let mut t = tree.duplicate();
                    t.is_sink = c.is_sink;
                    t.access_condiction = copy_access(&c.access_condiction);
                    proof {
                        assert(t.tv() == graft(tree.tv(), c.tv()));
                    }
                    self.false_next = Some(Box::new(t));
                    assert(self.tv() == m_replace_rest(t0, tn, id, tree.tv()));
                    return;
                } else {
                    (&mut *c).replace(id, tree);
                    self.false_next = Some(c);
                }
            },
            None => {},
        }
        let mut old_next: Vec<Box<ControlFlowTree>> = Vec::new();
        std::mem::swap(&mut old_next, &mut self.next);
        let ghost on = old_next@;
        proof {
            lemma_children_tv_len(on);
            assert(on.take(0) =~= Seq::<Box<ControlFlowTree>>::empty());
        }
        let mut new_next: Vec<Box<ControlFlowTree>> = Vec::new();
        let ghost mut k: int = 0;
        for c in it: old_next.into_iter()
            invariant
                it.seq() == on,
                on == old(self).next@,
                k == it.index(),
                children_tv(new_next@) == m_replace_all(children_tv(on.take(k)), id, tree.tv()),
        {
            proof {
                assert(k < on.len());
                assert(c == on[k]);
                assert(decreases_to!(*old(self) => old(self).next));
                assert(decreases_to!(old(self).next => old(self).next@));
                assert(decreases_to!(old(self).next@ => old(self).next@[k]));
                lemma_children_tv_take(on, k);
                assert(children_tv(on.take(k)).push(on[k].tv()).drop_last() =~= children_tv(on.take(k)));
            }
            let ghost prev = new_next@;
            let mut c = c;
            if c.id == id {
                let mut t = tree.duplicate();
                t.is_sink = c.is_sink;
                t.access_condiction = copy_access(&c.access_condiction);
                proof {
                    assert(t.tv() == graft(tree.tv(), c.tv()));
                }
                c = Box::new(t);
            } else {
                (&mut *c).replace(id, tree);
            }
            new_next.push(c);
            proof {
                lemma_children_tv_push(prev, c);
                k = k + 1;
            }
        }
        self.next = new_next;
        proof {
            assert(on.take(k) =~= on);
        }
    }

    /// Builds the tree of a function from the trees of its regions (see `m_merge`).
    pub fn merge(
        cft_trees_map: &HashMap<usize, ControlFlowTree>,
        loop_slices_map: &HashMap<usize, usize>,
        topo: &Vec<usize>,
    ) -> (r: Self)
        requires
            cft_trees_map@.contains_key(0),
            forall|v: usize| #[trigger] loop_slices_map@.contains_key(v) && topo@.contains(v)
                ==> cft_trees_map@.contains_key(loop_slices_map@[v]),
        ensures
            r.tv() == m_merge(trees_tv(cft_trees_map@), loop_slices_map@, topo@),
    {
        let mut cft = match cft_trees_map.get(&0) {
            Some(t) => t.duplicate(),
            None => ControlFlowTree::new(0),
        };
        let mut i: usize = 0;
        proof {
            assert(topo@.take(0) =~= Seq::<usize>::empty());
        }
        while i < topo.len()
            invariant
                i <= topo@.len(),
                cft_trees_map@.contains_key(0),
                forall|v: usize| #[trigger] loop_slices_map@.contains_key(v) && topo@.contains(v)
                    ==> cft_trees_map@.contains_key(loop_slices_map@[v]),
                cft.tv() == m_merge(trees_tv(cft_trees_map@), loop_slices_map@, topo@.take(i as int)),
            decreases topo@.len() - i,
        {
            let v = topo[i];
            proof {
                assert(topo@.take(i + 1).drop_last() =~= topo@.take(i as int));
                assert(topo@.take(i + 1).last() == v);
                assert(topo@.contains(v));
            }
            if let Some(loop_head) = loop_slices_map.get(&v) {
                if let Some(tree) = cft_trees_map.get(loop_head) {
                    cft.insert_loop_tree(v, tree);
                }
            }
            i = i + 1;
        }
        proof {
            assert(topo@.take(i as int) =~= topo@);
        }
        cft
    }
}

proof fn lemma_search_all_prefix(s: Seq<Box<ControlFlowTree>>, k: int, id: usize)
    requires
        0 < k <= s.len(),
        m_search_all(children_tv(s.take(k - 1)), id) is None,
    ensures
        m_search_all(children_tv(s.take(k)), id) == m_search(s[k - 1].tv(), id),
        m_search_all(children_tv(s.take(k)), id) is Some ==> m_search_all(children_tv(s), id) == m_search_all(children_tv(s.take(k)), id),
    decreases s.len() - k,
{
    lemma_children_tv_take(s, k - 1);
    assert(children_tv(s.take(k - 1)).push(s[k - 1].tv()).drop_last() =~= children_tv(s.take(k - 1)));
    if k < s.len() {
        if m_search_all(children_tv(s.take(k)), id) is Some {
            lemma_search_all_extend(s, k, id);
        }
    } else {
        assert(s.take(k) =~= s);
    }
}

proof fn lemma_search_all_extend(s: Seq<Box<ControlFlowTree>>, k: int, id: usize)
    requires
        0 < k <= s.len(),
        m_search_all(children_tv(s.take(k)), id) is Some,
    ensures
        m_search_all(children_tv(s), id) == m_search_all(children_tv(s.take(k)), id),
    decreases s.len() - k,
{
    if k < s.len() {
        lemma_children_tv_take(s, k);
        assert(children_tv(s.take(k)).push(s[k].tv()).drop_last() =~= children_tv(s.take(k)));
        lemma_search_all_extend(s, k + 1, id);
    } else {
        assert(s.take(k) =~= s);
    }
}

} // verus!
