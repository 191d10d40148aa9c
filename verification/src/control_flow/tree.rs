use vstd::prelude::*;
use crate::control_flow::{Branch, NodeType};

verus! {

broadcast use vstd::std_specs::vec::group_vec_axioms;

/// The control flow tree of a function: each node is a basic block (by
/// id) with its branches, the loop body it heads, and what follows it.
#[derive(Debug)]
pub struct ControlFlowTree {
    pub id: usize,
    pub is_sink: bool,
    pub node_type: NodeType,
    pub access_condiction: Vec<Vec<isize>>,
    pub condiction: Option<isize>,
    pub true_next: Option<Box<ControlFlowTree>>,
    pub false_next: Option<Box<ControlFlowTree>>,
    pub loop_region: Option<Box<ControlFlowTree>>,
    pub next: Vec<Box<ControlFlowTree>>,
}

/// The mathematical value of a control flow tree.
pub struct TreeView {
    pub id: usize,
    pub is_sink: bool,
    pub node_type: NodeType,
    pub access: Seq<Seq<isize>>,
    pub condiction: Option<isize>,
    pub true_next: Option<Box<TreeView>>,
    pub false_next: Option<Box<TreeView>>,
    pub loop_region: Option<Box<TreeView>>,
    pub next: Seq<TreeView>,
}

/// The values of the access conditions.
pub open spec fn access_view(a: Seq<Vec<isize>>) -> Seq<Seq<isize>> {
    a.map_values(|v: Vec<isize>| v@)
}

impl ControlFlowTree {
    /// The value of the tree.
    pub open spec fn tv(&self) -> TreeView
        decreases self,
    {
        TreeView {
            id: self.id,
            is_sink: self.is_sink,
            node_type: self.node_type,
            access: access_view(self.access_condiction@),
            condiction: self.condiction,
            true_next: match self.true_next {
                Some(t) => Some(Box::new(t.tv())),
                None => None,
            },
            false_next: match self.false_next {
                Some(t) => Some(Box::new(t.tv())),
                None => None,
            },
            loop_region: match self.loop_region {
                Some(t) => Some(Box::new(t.tv())),
                None => None,
            },
            next: children_tv(self.next@),
        }
    }
}

/// The values of a sequence of trees.
pub open spec fn children_tv(s: Seq<Box<ControlFlowTree>>) -> Seq<TreeView>
    decreases s,
{
    if s.len() == 0 {
        Seq::empty()
    } else {
        children_tv(s.drop_last()).push(s.last().tv())
    }
}

/// The value of an optional subtree.
pub open spec fn opt_tv(o: Option<Box<ControlFlowTree>>) -> Option<Box<TreeView>> {
    match o {
        Some(t) => Some(Box::new(t.tv())),
        None => None,
    }
}

pub proof fn lemma_children_tv_take(s: Seq<Box<ControlFlowTree>>, k: int)
    requires
        0 <= k < s.len(),
    ensures
        children_tv(s.take(k + 1)) == children_tv(s.take(k)).push(s[k].tv()),
{
    assert(s.take(k + 1).drop_last() =~= s.take(k));
}

pub proof fn lemma_children_tv_push(s: Seq<Box<ControlFlowTree>>, x: Box<ControlFlowTree>)
    ensures
        children_tv(s.push(x)) == children_tv(s).push(x.tv()),
{
    assert(s.push(x).drop_last() =~= s);
}

pub proof fn lemma_children_tv_index(s: Seq<Box<ControlFlowTree>>, i: int)
    requires
        0 <= i < s.len(),
    ensures
        children_tv(s).len() == s.len(),
        children_tv(s)[i] == s[i].tv(),
    decreases s.len(),
{
    lemma_children_tv_len(s);
    if i < s.len() - 1 {
        lemma_children_tv_index(s.drop_last(), i);
    }
}

pub proof fn lemma_children_tv_len(s: Seq<Box<ControlFlowTree>>)
    ensures
        children_tv(s).len() == s.len(),
    decreases s.len(),
{
    if s.len() > 0 {
        lemma_children_tv_len(s.drop_last());
    }
}

/// A single node with id `id` and nothing below it.
pub open spec fn leaf(id: usize) -> TreeView {
    TreeView {
        id,
        is_sink: false,
        node_type: NodeType::Plain,
        access: Seq::empty(),
        condiction: None,
        true_next: None,
        false_next: None,
        loop_region: None,
        next: Seq::empty(),
    }
}

/// Some node of `t` has id `id`.
pub open spec fn has_node(t: TreeView, id: usize) -> bool
    decreases t,
{
    ||| t.id == id
    ||| (match t.true_next { Some(c) => has_node(*c, id), None => false })
    ||| (match t.false_next { Some(c) => has_node(*c, id), None => false })
    ||| (match t.loop_region { Some(c) => has_node(*c, id), None => false })
    ||| has_node_in(t.next, id)
}

/// Some node of some tree of `s` has id `id`.
pub open spec fn has_node_in(s: Seq<TreeView>, id: usize) -> bool
    decreases s,
{
    if s.len() == 0 {
        false
    } else {
        has_node_in(s.drop_last(), id) || has_node(s.last(), id)
    }
}

/// The access conditions of a child on a branch of a node with conditions
/// `access`: each of them (a single empty one when there are none) with
/// `c` appended.
pub open spec fn branch_access(access: Seq<Seq<isize>>, c: isize) -> Seq<Seq<isize>> {
    let base = if access.len() == 0 { seq![Seq::<isize>::empty()] } else { access };
    base.map_values(|a: Seq<isize>| a.push(c))
}

/// Hanging a new node `id` from the node `t` itself (see `m_insert`).
pub open spec fn insert_here(t: TreeView, id: usize, branch: Branch, cond: Option<isize>, nt: NodeType) -> TreeView {
    let cond_id: isize = match cond {
        Some(c) => c,
        None => 0,
    };
    let t1 = TreeView { condiction: cond, ..t };
    let fresh = leaf(id);
    let branch_type = match nt {
        NodeType::Break => NodeType::Break,
        NodeType::Back => NodeType::Back,
        _ => NodeType::Plain,
    };
    match branch {
        Branch::Next => match nt {
            NodeType::Plain | NodeType::SetVar => TreeView { next: t.next.push(fresh), ..t1 },
            NodeType::If => t1,
            _ => TreeView { next: t.next.push(TreeView { node_type: nt, ..fresh }), ..t1 },
        },
        Branch::True => TreeView {
            true_next: Some(Box::new(TreeView { access: branch_access(t.access, cond_id), node_type: branch_type, ..fresh })),
            ..t1
        },
        Branch::False => TreeView {
            false_next: Some(Box::new(TreeView { access: branch_access(t.access, (-cond_id) as isize), node_type: branch_type, ..fresh })),
            ..t1
        },
    }
}

/// Inserting a new node `id` under every node with id `parent`: on the
/// next branch (with the node type asked for, unless it is `If`), or on the
/// true or false branch (replacing what was there), where its access
/// conditions are its parent's with the condition (negated for false)
/// appended; the parent takes the condition `cond`.
pub open spec fn m_insert(t: TreeView, parent: usize, id: usize, branch: Branch, cond: Option<isize>, nt: NodeType) -> TreeView
    decreases t,
{
    if t.id == parent {
        insert_here(t, id, branch, cond, nt)
    } else {
        TreeView {
            true_next: match t.true_next {
                Some(c) => Some(Box::new(m_insert(*c, parent, id, branch, cond, nt))),
                None => None,
            },
            false_next: match t.false_next {
                Some(c) => Some(Box::new(m_insert(*c, parent, id, branch, cond, nt))),
                None => None,
            },
            loop_region: match t.loop_region {
                Some(c) => Some(Box::new(m_insert(*c, parent, id, branch, cond, nt))),
                None => None,
            },
            next: m_insert_all(t.next, parent, id, branch, cond, nt),
            ..t
        }
    }
}

/// `m_insert` on each tree of `s`.
pub open spec fn m_insert_all(s: Seq<TreeView>, parent: usize, id: usize, branch: Branch, cond: Option<isize>, nt: NodeType) -> Seq<TreeView>
    decreases s,
{
    if s.len() == 0 {
        Seq::empty()
    } else {
        m_insert_all(s.drop_last(), parent, id, branch, cond, nt).push(m_insert(s.last(), parent, id, branch, cond, nt))
    }
}

proof fn lemma_m_insert_all_push(s: Seq<TreeView>, x: TreeView, parent: usize, id: usize, branch: Branch, cond: Option<isize>, nt: NodeType)
    ensures
        m_insert_all(s.push(x), parent, id, branch, cond, nt) == m_insert_all(s, parent, id, branch, cond, nt).push(m_insert(x, parent, id, branch, cond, nt)),
{
    assert(s.push(x).drop_last() =~= s);
}

/// Negating the condition of the false branch cannot overflow.
pub open spec fn insert_ok(t: TreeView, parent: usize, branch: Branch, cond: Option<isize>) -> bool {
    has_node(t, parent) && branch == Branch::False ==> cond != Some(isize::MIN)
}

pub proof fn lemma_has_node_child(t: TreeView, parent: usize)
    ensures
        (t.true_next matches Some(c) && has_node(*c, parent)) ==> has_node(t, parent),
        (t.false_next matches Some(c) && has_node(*c, parent)) ==> has_node(t, parent),
        (t.loop_region matches Some(c) && has_node(*c, parent)) ==> has_node(t, parent),
        forall|i: int| 0 <= i < t.next.len() && has_node(#[trigger] t.next[i], parent) ==> has_node(t, parent),
{
    assert forall|i: int| 0 <= i < t.next.len() && has_node(#[trigger] t.next[i], parent) implies has_node(t, parent) by {
        lemma_has_node_in(t.next, parent, i);
    }
}

pub proof fn lemma_has_node_in(s: Seq<TreeView>, id: usize, i: int)
    requires
        0 <= i < s.len(),
        has_node(s[i], id),
    ensures
        has_node_in(s, id),
    decreases s.len(),
{
    if i < s.len() - 1 {
        lemma_has_node_in(s.drop_last(), id, i);
    }
}

/// Appends `c` to each access condition (see `branch_access`).
fn extend_access(access: &Vec<Vec<isize>>, c: isize) -> (r: Vec<Vec<isize>>)
    ensures
        access_view(r@) == branch_access(access_view(access@), c),
{
    let mut r: Vec<Vec<isize>> = Vec::new();
    if access.len() == 0 {
        let mut one: Vec<isize> = Vec::new();
        one.push(c);
        r.push(one);
        proof {
            assert(access_view(r@) =~= branch_access(access_view(access@), c));
        }
        return r;
    }
    let mut i: usize = 0;
    while i < access.len()
        invariant
            i <= access.len(),
            r@.len() == i,
            forall|j: int| 0 <= j < i ==> (#[trigger] r@[j])@ == access@[j]@.push(c),
        decreases access.len() - i,
    {
        let mut a = access[i].clone();
        proof {
            assert(a@ =~= access@[i as int]@);
        }
        a.push(c);
        r.push(a);
        i = i + 1;
    }
    proof {
        assert(access_view(r@) =~= branch_access(access_view(access@), c));
    }
    r
}

/// A copy of the access conditions.
pub(crate) fn copy_access(a: &Vec<Vec<isize>>) -> (r: Vec<Vec<isize>>)
    ensures
        access_view(r@) == access_view(a@),
{
    let mut r: Vec<Vec<isize>> = Vec::new();
    let mut i: usize = 0;
    while i < a.len()
        invariant
            i <= a.len(),
            r@.len() == i,
            forall|j: int| 0 <= j < i ==> (#[trigger] r@[j])@ == a@[j]@,
        decreases a.len() - i,
    {
        let x = a[i].clone();
        proof {
            assert(x@ =~= a@[i as int]@);
        }
        r.push(x);
        i = i + 1;
    }
    proof {
        assert(access_view(r@) =~= access_view(a@));
    }
    r
}

impl ControlFlowTree {
    /// A tree of the single node `root`.
    pub fn new(root: usize) -> (t: Self)
        ensures
            t.tv() == leaf(root),
    {
        let t = ControlFlowTree {
            id: root,
            is_sink: false,
            node_type: NodeType::Plain,
            access_condiction: Vec::new(),
            condiction: None,
            true_next: None,
            false_next: None,
            loop_region: None,
            next: Vec::new(),
        };
        proof {
            assert(access_view(t.access_condiction@) =~= Seq::<Seq<isize>>::empty());
            assert(children_tv(t.next@) =~= Seq::<TreeView>::empty());
        }
        t
    }

    /// A copy of the tree.
    pub fn duplicate(&self) -> (r: Self)
        ensures
            r.tv() == self.tv(),
        decreases self,
    {
        let true_next = match &self.true_next {
            Some(c) => Some(Box::new(c.duplicate())),
            None => None,
        };
        let false_next = match &self.false_next {
            Some(c) => Some(Box::new(c.duplicate())),
            None => None,
        };
        let loop_region = match &self.loop_region {
            Some(c) => Some(Box::new(c.duplicate())),
            None => None,
        };
        let mut next: Vec<Box<ControlFlowTree>> = Vec::new();
        let mut i: usize = 0;
        proof {
            assert(self.next@.take(0) =~= Seq::<Box<ControlFlowTree>>::empty());
        }
        while i < self.next.len()
            invariant
                i <= self.next@.len(),
                children_tv(next@) == children_tv(self.next@.take(i as int)),
            decreases self.next@.len() - i,
        {
            proof {
                assert(decreases_to!(self => self.next));
                assert(decreases_to!(self.next => self.next@));
                assert(decreases_to!(self.next@ => self.next@[i as int]));
                lemma_children_tv_take(self.next@, i as int);
            }
            let c = self.next[i].duplicate();
            let ghost prev = next@;
            next.push(Box::new(c));
            proof {
                lemma_children_tv_push(prev, Box::new(c));
            }
            i = i + 1;
        }
        proof {
            assert(self.next@.take(i as int) =~= self.next@);
        }
        ControlFlowTree {
            id: self.id,
            is_sink: self.is_sink,
            node_type: self.node_type,
            access_condiction: copy_access(&self.access_condiction),
            condiction: self.condiction,
            true_next,
            false_next,
            loop_region,
            next,
        }
    }

    /// Inserts a new node `id` under each node `parent` (see `m_insert`).
    pub fn insert(&mut self, parent: usize, id: usize, branch: Branch, condiction: Option<isize>, node_type: &NodeType)
        requires
            insert_ok(old(self).tv(), parent, branch, condiction),
        ensures
            final(self).tv() == m_insert(old(self).tv(), parent, id, branch, condiction, *node_type),
        decreases *old(self),
    {
        if self.id == parent {
            let mut tree = ControlFlowTree::new(id);
            self.condiction = condiction;
            let cond_id: isize = match condiction {
                Some(c) => c,
                None => 0,
            };
            match branch {
                Branch::Next => {
                    match *node_type {
                        NodeType::Plain | NodeType::SetVar => {
                            self.next.push(Box::new(tree));
                        },
                        NodeType::If => {},
                        _ => {
                            tree.node_type = *node_type;
                            self.next.push(Box::new(tree));
                        },
                    }
                    proof {
                        if self.next@.len() > old(self).next@.len() {
                            assert(self.next@ == old(self).next@.push(self.next@.last()));
                            lemma_children_tv_push(old(self).next@, self.next@.last());
                        }
                    }
                    assert(self.tv() == insert_here(old(self).tv(), id, branch, condiction, *node_type));
                },
                Branch::True => {
                    tree.access_condiction = extend_access(&self.access_condiction, cond_id);
                    match *node_type {
                        NodeType::Break => tree.node_type = NodeType::Break,
                        NodeType::Back => tree.node_type = NodeType::Back,
                        _ => {},
                    }
                    proof {
                        let bt = match *node_type {
                            NodeType::Break => NodeType::Break,
                            NodeType::Back => NodeType::Back,
                            _ => NodeType::Plain,
                        };
                        assert(children_tv(tree.next@) =~= Seq::<TreeView>::empty());
                        assert(tree.tv() == TreeView { access: branch_access(access_view(self.access_condiction@), cond_id), node_type: bt, ..leaf(id) });
                    }
                    self.true_next = Some(Box::new(tree));
                    assert(self.tv() == insert_here(old(self).tv(), id, branch, condiction, *node_type));
                },
                Branch::False => {
                    tree.access_condiction = extend_access(&self.access_condiction, -cond_id);
                    match *node_type {
                        NodeType::Break => tree.node_type = NodeType::Break,
                        NodeType::Back => tree.node_type = NodeType::Back,
                        _ => {},
                    }
                    proof {
                        let bt = match *node_type {
                            NodeType::Break => NodeType::Break,
                            NodeType::Back => NodeType::Back,
                            _ => NodeType::Plain,
                        };
                        assert(children_tv(tree.next@) =~= Seq::<TreeView>::empty());
                        assert(tree.tv() == TreeView { access: branch_access(access_view(self.access_condiction@), (-cond_id) as isize), node_type: bt, ..leaf(id) });
                    }
                    self.false_next = Some(Box::new(tree));
                    assert(self.tv() == insert_here(old(self).tv(), id, branch, condiction, *node_type));
                },
            }
            return;
        }
        let ghost t0 = old(self).tv();
        proof {
            lemma_has_node_child(t0, parent);
        }
        match self.true_next.take() {
            Some(mut c) => {
                (&mut *c).insert(parent, id, branch, condiction, node_type);
                self.true_next = Some(c);
            },
            None => {},
        }
        match self.false_next.take() {
            Some(mut c) => {
                (&mut *c).insert(parent, id, branch, condiction, node_type);
                self.false_next = Some(c);
            },
            None => {},
        }
        let mut old_next: Vec<Box<ControlFlowTree>> = Vec::new();
        std::mem::swap(&mut old_next, &mut self.next);
        let ghost on = old_next@;
        proof {
            lemma_children_tv_len(on);
            assert(children_tv(on) == t0.next);
            assert forall|i: int| 0 <= i < on.len() implies insert_ok(#[trigger] on[i].tv(), parent, branch, condiction) by {
                lemma_children_tv_index(on, i);
            }
        }
        let mut new_next: Vec<Box<ControlFlowTree>> = Vec::new();
        let ghost mut k: int = 0;
        proof {
            assert(on.take(0) =~= Seq::<Box<ControlFlowTree>>::empty());
        }
        for c in it: old_next.into_iter()
            invariant
                it.seq() == on,
                on == old(self).next@,
                k == it.index(),
                children_tv(on) == t0.next,
                on.len() == t0.next.len(),
                forall|i: int| 0 <= i < on.len() ==> insert_ok(#[trigger] on[i].tv(), parent, branch, condiction),
                children_tv(new_next@) == m_insert_all(children_tv(on.take(k)), parent, id, branch, condiction, *node_type),
        {
            proof {
                assert(k < on.len());
                assert(c == on[k]);
                assert(decreases_to!(*old(self) => old(self).next));
                assert(decreases_to!(old(self).next => old(self).next@));
                assert(decreases_to!(old(self).next@ => old(self).next@[k]));
                assert(decreases_to!(*old(self) => *c));
                lemma_children_tv_take(on, k);
                lemma_m_insert_all_push(children_tv(on.take(k)), on[k].tv(), parent, id, branch, condiction, *node_type);
            }
            let ghost prev = new_next@;
            let mut c = c;
            (&mut *c).insert(parent, id, branch, condiction, node_type);
            new_next.push(c);
            proof {
                lemma_children_tv_push(prev, c);
                k = k + 1;
            }
        }
        self.next = new_next;
        match self.loop_region.take() {
            Some(mut c) => {
                (&mut *c).insert(parent, id, branch, condiction, node_type);
                self.loop_region = Some(c);
            },
            None => {},
        }
        proof {
            assert(k == on.len());
            assert(on.take(k) =~= on);
        }
    }
}

} // verus!
