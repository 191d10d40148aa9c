use vstd::prelude::*;
use crate::control_flow::NodeType;
use crate::control_flow::tree::{
    ControlFlowTree, TreeView, leaf, children_tv, lemma_children_tv_take, lemma_children_tv_push,
    lemma_children_tv_len,
};

verus! {

broadcast use vstd::std_specs::vec::group_vec_axioms;

/// Every node `loop_id` becomes a loop whose body is the single node `loop_start`.
pub open spec fn m_set_loop(t: TreeView, loop_id: usize, loop_start: usize) -> TreeView
    decreases t,
{
    if t.id == loop_id {
        TreeView { node_type: NodeType::Loop, loop_region: Some(Box::new(leaf(loop_start))), ..t }
    } else {
        TreeView {
            true_next: match t.true_next {
                Some(c) => Some(Box::new(m_set_loop(*c, loop_id, loop_start))),
                None => None,
            },
            false_next: match t.false_next {
                Some(c) => Some(Box::new(m_set_loop(*c, loop_id, loop_start))),
                None => None,
            },
            loop_region: match t.loop_region {
                Some(c) => Some(Box::new(m_set_loop(*c, loop_id, loop_start))),
                None => None,
            },
            next: m_set_loop_all(t.next, loop_id, loop_start),
            ..t
        }
    }
}

/// `m_set_loop` on each tree of `s`.
pub open spec fn m_set_loop_all(s: Seq<TreeView>, loop_id: usize, loop_start: usize) -> Seq<TreeView>
    decreases s,
{
    if s.len() == 0 {
        Seq::empty()
    } else {
        m_set_loop_all(s.drop_last(), loop_id, loop_start).push(m_set_loop(s.last(), loop_id, loop_start))
    }
}

proof fn lemma_m_set_loop_all_push(s: Seq<TreeView>, x: TreeView, loop_id: usize, loop_start: usize)
    ensures
        m_set_loop_all(s.push(x), loop_id, loop_start) == m_set_loop_all(s, loop_id, loop_start).push(m_set_loop(x, loop_id, loop_start)),
{
    assert(s.push(x).drop_last() =~= s);
}

impl ControlFlowTree {
    /// Makes each node `loop_id` a loop whose body is the node `loop_start` (see `m_set_loop`).
    pub fn set_loop(&mut self, loop_id: usize, loop_start: usize)
        ensures
            final(self).tv() == m_set_loop(old(self).tv(), loop_id, loop_start),
        decreases *old(self),
    {
        if self.id == loop_id {
            self.node_type = NodeType::Loop;
            let tree = ControlFlowTree::new(loop_start);
            self.loop_region = Some(Box::new(tree));
            return;
        }
        match self.true_next.take() {
            Some(mut c) => {
                (&mut *c).set_loop(loop_id, loop_start);
                self.true_next = Some(c);
            },
            None => {},
        }
        match self.false_next.take() {
            Some(mut c) => {
                (&mut *c).set_loop(loop_id, loop_start);
                self.false_next = Some(c);
            },
            None => {},
        }
        let mut old_next: Vec<Box<ControlFlowTree>> = Vec::new();
        std::mem::swap(&mut old_next, &mut self.next);
        let ghost on = old_next@;
        proof {
            lemma_children_tv_len(on);
            assert(on.take(0) =~= Seq::<Box<ControlFlowTree>>::empty());
        }
        let mut new_next: Vec<Box<ControlFlowTree>> = Vec::new();
        let ghost mut k: int = 0;
        for c in it: old_next.into_iter()
            invariant
                it.seq() == on,
                on == old(self).next@,
                k == it.index(),
                children_tv(new_next@) == m_set_loop_all(children_tv(on.take(k)), loop_id, loop_start),
        {
            proof {
                assert(k < on.len());
                assert(c == on[k]);
                assert(decreases_to!(*old(self) => old(self).next));
                assert(decreases_to!(old(self).next => old(self).next@));
                assert(decreases_to!(old(self).next@ => old(self).next@[k]));
                lemma_children_tv_take(on, k);
                lemma_m_set_loop_all_push(children_tv(on.take(k)), on[k].tv(), loop_id, loop_start);
            }
            let ghost prev = new_next@;
            let mut c = c;
            (&mut *c).set_loop(loop_id, loop_start);
            new_next.push(c);
            proof {
                lemma_children_tv_push(prev, c);
                k = k + 1;
            }
        }
        self.next = new_next;
        proof {
            assert(on.take(k) =~= on);
        }
        match self.loop_region.take() {
            Some(mut c) => {
                (&mut *c).set_loop(loop_id, loop_start);
                self.loop_region = Some(c);
            },
            None => {},
        }
    }
}

/// Every node `parent` becomes a break out of a region holding the single node `id`.
pub open spec fn m_set_break(t: TreeView, parent: usize, id: usize) -> TreeView
    decreases t,
{
    if t.id == parent {
        TreeView { node_type: NodeType::Break, loop_region: Some(Box::new(leaf(id))), ..t }
    } else {
        TreeView {
            true_next: match t.true_next {
                Some(c) => Some(Box::new(m_set_break(*c, parent, id))),
                None => None,
            },
            false_next: match t.false_next {
                Some(c) => Some(Box::new(m_set_break(*c, parent, id))),
                None => None,
            },
            loop_region: match t.loop_region {
                Some(c) => Some(Box::new(m_set_break(*c, parent, id))),
                None => None,
            },
            next: m_set_break_all(t.next, parent, id),
            ..t
        }
    }
}

/// `m_set_break` on each tree of `s`.
pub open spec fn m_set_break_all(s: Seq<TreeView>, parent: usize, id: usize) -> Seq<TreeView>
    decreases s,
{
    if s.len() == 0 {
        Seq::empty()
    } else {
        m_set_break_all(s.drop_last(), parent, id).push(m_set_break(s.last(), parent, id))
    }
}

proof fn lemma_m_set_break_all_push(s: Seq<TreeView>, x: TreeView, parent: usize, id: usize)
    ensures
        m_set_break_all(s.push(x), parent, id) == m_set_break_all(s, parent, id).push(m_set_break(x, parent, id)),
{
    assert(s.push(x).drop_last() =~= s);
}

impl ControlFlowTree {
    /// Makes each node `parent` a break to the node `id` (see `m_set_break`).
    pub fn set_break(&mut self, parent: usize, id: usize)
        ensures
            final(self).tv() == m_set_break(old(self).tv(), parent, id),
        decreases *old(self),
    {
        if self.id == parent {
            self.node_type = NodeType::Break;
            let tree = ControlFlowTree::new(id);
            self.loop_region = Some(Box::new(tree));
            return;
        }
        match self.true_next.take() {
            Some(mut c) => {
                (&mut *c).set_break(parent, id);
                self.true_next = Some(c);
            },
            None => {},
        }
        match self.false_next.take() {
            Some(mut c) => {
                (&mut *c).set_break(parent, id);
                self.false_next = Some(c);
            },
            None => {},
        }
        let mut old_next: Vec<Box<ControlFlowTree>> = Vec::new();
        std::mem::swap(&mut old_next, &mut self.next);
        let ghost on = old_next@;
        proof {
            lemma_children_tv_len(on);
            assert(on.take(0) =~= Seq::<Box<ControlFlowTree>>::empty());
        }
        let mut new_next: Vec<Box<ControlFlowTree>> = Vec::new();
        let ghost mut k: int = 0;
        for c in it: old_next.into_iter()
            invariant
                it.seq() == on,
                on == old(self).next@,
                k == it.index(),
                children_tv(new_next@) == m_set_break_all(children_tv(on.take(k)), parent, id),
        {
            proof {
                assert(k < on.len());
                assert(c == on[k]);
                assert(decreases_to!(*old(self) => old(self).next));
                assert(decreases_to!(old(self).next => old(self).next@));
                assert(decreases_to!(old(self).next@ => old(self).next@[k]));
                lemma_children_tv_take(on, k);
                lemma_m_set_break_all_push(children_tv(on.take(k)), on[k].tv(), parent, id);
            }
            let ghost prev = new_next@;
            let mut c = c;
            (&mut *c).set_break(parent, id);
            new_next.push(c);
            proof {
                lemma_children_tv_push(prev, c);
                k = k + 1;
            }
        }
        self.next = new_next;
        proof {
            assert(on.take(k) =~= on);
        }
        match self.loop_region.take() {
            Some(mut c) => {
                (&mut *c).set_break(parent, id);
                self.loop_region = Some(c);
            },
            None => {},
        }
    }
}

/// Every node `parent` is followed by a new break node `id`.
pub open spec fn m_set_back(t: TreeView, parent: usize, id: usize) -> TreeView
    decreases t,
{
    if t.id == parent {
        TreeView { next: t.next.push(TreeView { node_type: NodeType::Break, ..leaf(id) }), ..t }
    } else {
        TreeView {
            true_next: match t.true_next {
                Some(c) => Some(Box::new(m_set_back(*c, parent, id))),
                None => None,
            },
            false_next: match t.false_next {
                Some(c) => Some(Box::new(m_set_back(*c, parent, id))),
                None => None,
            },
            loop_region: match t.loop_region {
                Some(c) => Some(Box::new(m_set_back(*c, parent, id))),
                None => None,
            },
            next: m_set_back_all(t.next, parent, id),
            ..t
        }
    }
}

/// `m_set_back` on each tree of `s`.
pub open spec fn m_set_back_all(s: Seq<TreeView>, parent: usize, id: usize) -> Seq<TreeView>
    decreases s,
{
    if s.len() == 0 {
        Seq::empty()
    } else {
        m_set_back_all(s.drop_last(), parent, id).push(m_set_back(s.last(), parent, id))
    }
}

proof fn lemma_m_set_back_all_push(s: Seq<TreeView>, x: TreeView, parent: usize, id: usize)
    ensures
        m_set_back_all(s.push(x), parent, id) == m_set_back_all(s, parent, id).push(m_set_back(x, parent, id)),
{
    assert(s.push(x).drop_last() =~= s);
}

impl ControlFlowTree {
    /// Appends a break node `id` after each node `parent` (see `m_set_back`).
    pub fn set_back(&mut self, parent: usize, id: usize)
        ensures
            final(self).tv() == m_set_back(old(self).tv(), parent, id),
        decreases *old(self),
    {
        if self.id == parent {
            let mut tree = ControlFlowTree::new(id);
            tree.node_type = NodeType::Break;
            let ghost before = self.next@;
            self.next.push(Box::new(tree));
            proof {
                lemma_children_tv_push(before, Box::new(tree));
            }
            return;
        }
        match self.true_next.take() {
            Some(mut c) => {
                (&mut *c).set_back(parent, id);
                self.true_next = Some(c);
            },
            None => {},
        }
        match self.false_next.take() {
            Some(mut c) => {
                (&mut *c).set_back(parent, id);
                self.false_next = Some(c);
            },
            None => {},
        }
        let mut old_next: Vec<Box<ControlFlowTree>> = Vec::new();
        std::mem::swap(&mut old_next, &mut self.next);
        let ghost on = old_next@;
        proof {
            lemma_children_tv_len(on);
            assert(on.take(0) =~= Seq::<Box<ControlFlowTree>>::empty());
        }
        let mut new_next: Vec<Box<ControlFlowTree>> = Vec::new();
        let ghost mut k: int = 0;
        for c in it: old_next.into_iter()
            invariant
                it.seq() == on,
                on == old(self).next@,
                k == it.index(),
                children_tv(new_next@) == m_set_back_all(children_tv(on.take(k)), parent, id),
        {
            proof {
                assert(k < on.len());
                assert(c == on[k]);
                assert(decreases_to!(*old(self) => old(self).next));
                assert(decreases_to!(old(self).next => old(self).next@));
                assert(decreases_to!(old(self).next@ => old(self).next@[k]));
                lemma_children_tv_take(on, k);
                lemma_m_set_back_all_push(children_tv(on.take(k)), on[k].tv(), parent, id);
            }
            let ghost prev = new_next@;
            let mut c = c;
            (&mut *c).set_back(parent, id);
            new_next.push(c);
            proof {
                lemma_children_tv_push(prev, c);
                k = k + 1;
            }
        }
        self.next = new_next;
        proof {
            assert(on.take(k) =~= on);
        }
        match self.loop_region.take() {
            Some(mut c) => {
                (&mut *c).set_back(parent, id);
                self.loop_region = Some(c);
            },
            None => {},
        }
    }
}

/// Every node `parent` outside loop bodies is followed by a new sink node `id` (a loop when `nt` is).
pub open spec fn m_attach(t: TreeView, parent: usize, id: usize, nt: NodeType) -> TreeView
    decreases t,
{
    if t.id == parent {
        TreeView { next: t.next.push(TreeView { is_sink: true, node_type: if nt == NodeType::Loop { NodeType::Loop } else { NodeType::Plain }, ..leaf(id) }), ..t }
    } else {
        TreeView {
            true_next: match t.true_next {
                Some(c) => Some(Box::new(m_attach(*c, parent, id, nt))),
                None => None,
            },
            false_next: match t.false_next {
                Some(c) => Some(Box::new(m_attach(*c, parent, id, nt))),
                None => None,
            },
            next: m_attach_all(t.next, parent, id, nt),
            ..t
        }
    }
}

/// `m_attach` on each tree of `s`.
pub open spec fn m_attach_all(s: Seq<TreeView>, parent: usize, id: usize, nt: NodeType) -> Seq<TreeView>
    decreases s,
{
    if s.len() == 0 {
        Seq::empty()
    } else {
        m_attach_all(s.drop_last(), parent, id, nt).push(m_attach(s.last(), parent, id, nt))
    }
}

proof fn lemma_m_attach_all_push(s: Seq<TreeView>, x: TreeView, parent: usize, id: usize, nt: NodeType)
    ensures
        m_attach_all(s.push(x), parent, id, nt) == m_attach_all(s, parent, id, nt).push(m_attach(x, parent, id, nt)),
{
    assert(s.push(x).drop_last() =~= s);
}

impl ControlFlowTree {
    /// Appends a sink node `id` after each node `parent` outside loop bodies (see `m_attach`).
    pub fn attach(&mut self, parent: usize, id: usize, node_type: &NodeType)
        ensures
            final(self).tv() == m_attach(old(self).tv(), parent, id, *node_type),
        decreases *old(self),
    {
        if self.id == parent {
            let mut tree = ControlFlowTree::new(id);
            tree.is_sink = true;
            match *node_type {
                NodeType::Loop => {
                    tree.node_type = NodeType::Loop;
                },
                _ => {
                    tree.node_type = NodeType::Plain;
                },
            }
            let ghost before = self.next@;
            self.next.push(Box::new(tree));
            proof {
                lemma_children_tv_push(before, Box::new(tree));
            }
            return;
        }
        match self.true_next.take() {
            Some(mut c) => {
                (&mut *c).attach(parent, id, node_type);
                self.true_next = Some(c);
            },
            None => {},
        }
        match self.false_next.take() {
            Some(mut c) => {
                (&mut *c).attach(parent, id, node_type);
                self.false_next = Some(c);
            },
            None => {},
        }
        let mut old_next: Vec<Box<ControlFlowTree>> = Vec::new();
        std::mem::swap(&mut old_next, &mut self.next);
        let ghost on = old_next@;
        proof {
            lemma_children_tv_len(on);
            assert(on.take(0) =~= Seq::<Box<ControlFlowTree>>::empty());
        }
        let mut new_next: Vec<Box<ControlFlowTree>> = Vec::new();
        let ghost mut k: int = 0;
        for c in it: old_next.into_iter()
            invariant
                it.seq() == on,
                on == old(self).next@,
                k == it.index(),
                children_tv(new_next@) == m_attach_all(children_tv(on.take(k)), parent, id, *node_type),
        {
            proof {
                assert(k < on.len());
                assert(c == on[k]);
                assert(decreases_to!(*old(self) => old(self).next));
                assert(decreases_to!(old(self).next => old(self).next@));
                assert(decreases_to!(old(self).next@ => old(self).next@[k]));
                lemma_children_tv_take(on, k);
                lemma_m_attach_all_push(children_tv(on.take(k)), on[k].tv(), parent, id, *node_type);
            }
            let ghost prev = new_next@;
            let mut c = c;
            (&mut *c).attach(parent, id, node_type);
            new_next.push(c);
            proof {
                lemma_children_tv_push(prev, c);
                k = k + 1;
            }
        }
        self.next = new_next;
        proof {
            assert(on.take(k) =~= on);
        }
    }
}

/// The loop body of every node `parent` becomes `body`.
pub open spec fn m_insert_loop(t: TreeView, parent: usize, body: TreeView) -> TreeView
    decreases t,
{
    if t.id == parent {
        TreeView { loop_region: Some(Box::new(body)), ..t }
    } else {
        TreeView {
            true_next: match t.true_next {
                Some(c) => Some(Box::new(m_insert_loop(*c, parent, body))),
                None => None,
            },
            false_next: match t.false_next {
                Some(c) => Some(Box::new(m_insert_loop(*c, parent, body))),
                None => None,
            },
            loop_region: match t.loop_region {
                Some(c) => Some(Box::new(m_insert_loop(*c, parent, body))),
                None => None,
            },
            next: m_insert_loop_all(t.next, parent, body),
            ..t
        }
    }
}

/// `m_insert_loop` on each tree of `s`.
pub open spec fn m_insert_loop_all(s: Seq<TreeView>, parent: usize, body: TreeView) -> Seq<TreeView>
    decreases s,
{
    if s.len() == 0 {
        Seq::empty()
    } else {
        m_insert_loop_all(s.drop_last(), parent, body).push(m_insert_loop(s.last(), parent, body))
    }
}

proof fn lemma_m_insert_loop_all_push(s: Seq<TreeView>, x: TreeView, parent: usize, body: TreeView)
    ensures
        m_insert_loop_all(s.push(x), parent, body) == m_insert_loop_all(s, parent, body).push(m_insert_loop(x, parent, body)),
{
    assert(s.push(x).drop_last() =~= s);
}

impl ControlFlowTree {
    /// Makes a copy of `tree` the loop body of each node `parent` (see `m_insert_loop`).
    pub fn insert_loop_tree(&mut self, parent: usize, tree: &ControlFlowTree)
        ensures
            final(self).tv() == m_insert_loop(old(self).tv(), parent, tree.tv()),
        decreases *old(self),
    {
        if self.id == parent {
            self.loop_region = Some(Box::new(tree.duplicate()));
            return;
        }
        match self.true_next.take() {
            Some(mut c) => {
                (&mut *c).insert_loop_tree(parent, tree);
                self.true_next = Some(c);
            },
            None => {},
        }
        match self.false_next.take() {
            Some(mut c) => {
                (&mut *c).insert_loop_tree(parent, tree);
                self.false_next = Some(c);
            },
            None => {},
        }
        let mut old_next: Vec<Box<ControlFlowTree>> = Vec::new();
        std::mem::swap(&mut old_next, &mut self.next);
        let ghost on = old_next@;
        proof {
            lemma_children_tv_len(on);
            assert(on.take(0) =~= Seq::<Box<ControlFlowTree>>::empty());
        }
        let mut new_next: Vec<Box<ControlFlowTree>> = Vec::new();
        let ghost mut k: int = 0;
        for c in it: old_next.into_iter()
            invariant
                it.seq() == on,
                on == old(self).next@,
                k == it.index(),
                children_tv(new_next@) == m_insert_loop_all(children_tv(on.take(k)), parent, tree.tv()),
        {
            proof {
                assert(k < on.len());
                assert(c == on[k]);
                assert(decreases_to!(*old(self) => old(self).next));
                assert(decreases_to!(old(self).next => old(self).next@));
                assert(decreases_to!(old(self).next@ => old(self).next@[k]));
                lemma_children_tv_take(on, k);
                lemma_m_insert_loop_all_push(children_tv(on.take(k)), on[k].tv(), parent, tree.tv());
            }
            let ghost prev = new_next@;
            let mut c = c;
            (&mut *c).insert_loop_tree(parent, tree);
            new_next.push(c);
            proof {
                lemma_children_tv_push(prev, c);
                k = k + 1;
            }
        }
        self.next = new_next;
        proof {
            assert(on.take(k) =~= on);
        }
        match self.loop_region.take() {
            Some(mut c) => {
                (&mut *c).insert_loop_tree(parent, tree);
                self.loop_region = Some(c);
            },
            None => {},
        }
    }
}

} // verus!
