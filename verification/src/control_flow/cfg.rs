use vstd::prelude::*;
use std::collections::HashMap;
use crate::counter::Counter;
use crate::control_flow::{NodeType, EdgeType};
use crate::data_flow::DataFlowIr;
use crate::block::{Block, Condiction, CondView, condv_eq, opt_cond_view};
use crate::data_convert::map_keys;

verus! {

broadcast use {vstd::std_specs::hash::group_hash_axioms, vstd::std_specs::vec::group_vec_axioms};

/// A node of the control flow graph: a basic block with its IR.
#[derive(Debug)]
pub struct CFGNode {
    pub id: usize,
    pub index: usize,
    pub node_type: NodeType,
    pub irs: Vec<DataFlowIr>,
}

/// An edge of the control flow graph: from a block to the address of the
/// next, with the condition of the jump and the branch it is (true, false,
/// or none for a plain jump or fall-through).
#[derive(Debug)]
pub struct CFGEdge {
    pub id: usize,
    pub from: usize,
    pub to: u64,
    pub edge_type: EdgeType,
    pub condiction: Option<Condiction>,
    pub _true: Option<bool>,
}

/// The control flow graph of a function: its nodes and edges by id, and
/// the id given to each condition (a condition and its negation share one).
#[derive(Debug)]
pub struct ControlFlowGraph {
    pub nodes: HashMap<usize, CFGNode>,
    pub edges: HashMap<usize, CFGEdge>,
    pub condiction: Vec<(Condiction, isize)>,
    pub topo_index: Vec<usize>,
    pub _topo_index: Vec<Vec<usize>>,
}

/// The value of an edge, but for its id and type.
pub struct EdgeView {
    pub from: usize,
    pub to: u64,
    pub condiction: Option<CondView>,
    pub taken: Option<bool>,
}

/// The value of `e`, but for its id and type.
pub open spec fn edge_view(e: CFGEdge) -> EdgeView {
    EdgeView { from: e.from, to: e.to, condiction: opt_cond_view(e.condiction), taken: e._true }
}

/// The edges out of the block `b` with id `k`: to where it falls through or
/// jumps, then to its true and its false successor.
pub open spec fn block_edges(k: usize, b: Block) -> Seq<EdgeView> {
    let c = opt_cond_view(b.condiction);
    (match b.next {
        Some(n) => seq![EdgeView { from: k, to: n, condiction: c, taken: None }],
        None => Seq::empty(),
    }) + (match b.true_next {
        Some(n) => seq![EdgeView { from: k, to: n, condiction: c, taken: Some(true) }],
        None => Seq::empty(),
    }) + (match b.false_next {
        Some(n) => seq![EdgeView { from: k, to: n, condiction: c, taken: Some(false) }],
        None => Seq::empty(),
    })
}

/// The edges of the blocks `ks` of `blocks`, block after block.
pub open spec fn build_edges(blocks: Map<usize, Block>, ks: Seq<usize>) -> Seq<EdgeView>
    decreases ks.len(),
{
    if ks.len() == 0 {
        Seq::empty()
    } else {
        build_edges(blocks, ks.drop_last()) + block_edges(ks.last(), blocks[ks.last()])
    }
}

/// The conditions of `l` with their ids, and `c` with the next id unless it
/// is equal to one of them.
pub open spec fn register_cond(l: Seq<(CondView, isize)>, c: CondView) -> Seq<(CondView, isize)> {
    if exists|i: int| 0 <= i < l.len() && condv_eq(c, #[trigger] l[i].0) {
        l
    } else {
        l.push((c, (l.len() + 1) as isize))
    }
}

/// The conditions `l` after the block `b`: its condition is registered for
/// its true branch and again for its false branch.
pub open spec fn block_conds(l: Seq<(CondView, isize)>, b: Block) -> Seq<(CondView, isize)> {
    match b.condiction {
        Some(c) => {
            let l1 = if b.true_next is Some { register_cond(l, c@) } else { l };
            if b.false_next is Some { register_cond(l1, c@) } else { l1 }
        },
        None => l,
    }
}

/// The edges of a graph are `es`, numbered from 0.
pub open spec fn edges_match(edges: Map<usize, CFGEdge>, es: Seq<EdgeView>) -> bool {
    &&& forall|i: usize| #[trigger] edges.contains_key(i) <==> i < es.len()
    &&& forall|i: usize| #[trigger] edges.contains_key(i) ==> {
        &&& edges[i].id == i
        &&& edges[i].edge_type == EdgeType::Plain
        &&& edge_view(edges[i]) == es[i as int]
    }
}

/// The conditions of the conditional jumps of the blocks `ks` of `blocks`,
/// with their ids in the order they are met.
pub open spec fn build_conds(blocks: Map<usize, Block>, ks: Seq<usize>) -> Seq<(CondView, isize)>
    decreases ks.len(),
{
    if ks.len() == 0 {
        Seq::empty()
    } else {
        block_conds(build_conds(blocks, ks.drop_last()), blocks[ks.last()])
    }
}

/// The values of the conditions of a graph, with their ids.
pub open spec fn conds_view(l: Seq<(Condiction, isize)>) -> Seq<(CondView, isize)> {
    l.map_values(|p: (Condiction, isize)| (p.0@, p.1))
}

/// `cfg` is the graph of `blocks` taken in the order `ks`: a node for each
/// block, holding its IR; the edges of the blocks numbered in order from 0;
/// the conditions numbered in order from 1.
pub open spec fn built_from(cfg: ControlFlowGraph, blocks: Map<usize, Block>, ks: Seq<usize>) -> bool {
    &&& cfg.nodes@.dom() == blocks.dom()
    &&& forall|k: usize| #[trigger] cfg.nodes@.contains_key(k) ==> cfg.nodes@[k]
        == (CFGNode { id: k, index: 0, node_type: NodeType::Plain, irs: blocks[k].irs })
    &&& edges_match(cfg.edges@, build_edges(blocks, ks))
    &&& conds_view(cfg.condiction@) == build_conds(blocks, ks)
    &&& cfg.topo_index@ == Seq::<usize>::empty()
    &&& cfg._topo_index@ == Seq::<Vec<usize>>::empty()
}

proof fn lemma_build_lens(blocks: Map<usize, Block>, ks: Seq<usize>)
    ensures
        build_edges(blocks, ks).len() <= 3 * ks.len(),
        build_conds(blocks, ks).len() <= 2 * ks.len(),
    decreases ks.len(),
{
    if ks.len() > 0 {
        lemma_build_lens(blocks, ks.drop_last());
    }
}

/// The smallest number not in `ids`: `n` such that every smaller number is in it.
pub open spec fn smallest_free(ids: Set<usize>, n: usize) -> bool {
    !ids.contains(n) && forall|i: usize| i < n ==> ids.contains(i)
}

pub(crate) proof fn lemma_range_len(n: usize)
    ensures
        Set::new(|i: usize| i < n).finite(),
        Set::new(|i: usize| i < n).len() == n,
    decreases n,
{
    if n > 0 {
        lemma_range_len((n - 1) as usize);
        assert(Set::new(|i: usize| i < n) =~= Set::new(|i: usize| i < (n - 1) as usize).insert((n - 1) as usize));
    } else {
        assert(Set::new(|i: usize| i < n) =~= Set::<usize>::empty());
    }
}

/// The id of the condition `c` in `l`, if it has one.
fn find_cond(l: &Vec<(Condiction, isize)>, c: &Condiction) -> (r: bool)
    ensures
        r == exists|i: int| 0 <= i < l@.len() && condv_eq(c@, #[trigger] conds_view(l@)[i].0),
{
    let mut i: usize = 0;
    while i < l.len()
        invariant
            i <= l@.len(),
            forall|j: int| 0 <= j < i ==> !condv_eq(c@, #[trigger] conds_view(l@)[j].0),
        decreases l@.len() - i,
    {
        if c.eq(&l[i].0) {
            assert(condv_eq(c@, conds_view(l@)[i as int].0));
            return true;
        }
        i = i + 1;
    }
    false
}

/// Adds the edge from `from` to `to` with the condition `cond` and branch
/// `taken`, numbered by `counter`.
fn add_edge(
    edges: &mut HashMap<usize, CFGEdge>,
    counter: &mut Counter,
    from: usize,
    to: u64,
    cond: &Option<Condiction>,
    taken: Option<bool>,
    Ghost(es): Ghost<Seq<EdgeView>>,
)
    requires
        edges_match(old(edges)@, es),
        old(counter).next_value() == es.len(),
        es.len() < usize::MAX,
    ensures
        edges_match(final(edges)@, es.push(EdgeView { from, to, condiction: opt_cond_view(*cond), taken })),
        final(counter).next_value() == es.len() + 1,
{
    let eid = counter.get();
    let c = match cond {
        Some(c) => Some(c.duplicate()),
        None => None,
    };
    let edge = CFGEdge { id: eid, from, to, edge_type: EdgeType::Plain, condiction: c, _true: taken };
    edges.insert(eid, edge);
    proof {
        let es1 = es.push(EdgeView { from, to, condiction: opt_cond_view(*cond), taken });
        assert forall|i: usize| #[trigger] edges@.contains_key(i) implies edges@[i].id == i && edges@[i].edge_type == EdgeType::Plain
            && edge_view(edges@[i]) == es1[i as int] by {
            if i != eid {
                assert(old(edges)@.contains_key(i));
            }
        }
    }
}

/// Registers the condition `c` (see `register_cond`).
fn register(conds: &mut Vec<(Condiction, isize)>, next_id: &mut isize, c: &Condiction)
    requires
        *old(next_id) == old(conds)@.len() + 1,
        old(conds)@.len() + 2 < isize::MAX,
    ensures
        conds_view(final(conds)@) == register_cond(conds_view(old(conds)@), c@),
        *final(next_id) == final(conds)@.len() + 1,
        final(conds)@.len() <= old(conds)@.len() + 1,
{
    if !find_cond(conds, c) {
        let ghost l0 = conds@;
        conds.push((c.duplicate(), *next_id));
        proof {
            assert(conds_view(conds@) =~= conds_view(l0).push((c@, (l0.len() + 1) as isize)));
        }
        *next_id = *next_id + 1;
    }
}

impl ControlFlowGraph {
    /// An empty graph.
    pub fn new() -> (g: Self)
        ensures
            g.nodes@ == Map::<usize, CFGNode>::empty(),
            g.edges@ == Map::<usize, CFGEdge>::empty(),
            g.condiction@ == Seq::<(Condiction, isize)>::empty(),
            g.topo_index@ == Seq::<usize>::empty(),
            g._topo_index@ == Seq::<Vec<usize>>::empty(),
    {
        ControlFlowGraph {
            nodes: HashMap::new(),
            edges: HashMap::new(),
            condiction: Vec::new(),
            topo_index: Vec::new(),
            _topo_index: Vec::new(),
        }
    }

    /// The smallest id that no node has.
    pub fn new_node_id(&self) -> (id: usize)
        ensures
            smallest_free(self.nodes@.dom(), id),
    {
        let n = self.nodes.len();
        let mut id: usize = 0;
        loop
            invariant
                n == self.nodes@.dom().len(),
                id <= n,
                forall|i: usize| i < id ==> self.nodes@.dom().contains(i),
            decreases n - id,
        {
            if !self.nodes.contains_key(&id) {
                return id;
            }
            proof {
                lemma_range_len(id);
                let upto = Set::new(|i: usize| i <= id);
                assert(upto =~= Set::new(|i: usize| i < id).insert(id));
                assert(upto.subset_of(self.nodes@.dom()));
                vstd::set_lib::lemma_len_subset(upto, self.nodes@.dom());
            }
            id = id + 1;
        }
    }

    /// The graph of `blocks`, taken in the order `order` (see `built_from`).
    pub fn build_control_flow_graph_in_order(blocks: HashMap<usize, Block>, order: &Vec<usize>) -> (cfg: ControlFlowGraph)
        requires
            order@.to_set() == blocks@.dom(),
            order@.no_duplicates(),
            3 * order@.len() < isize::MAX,
        ensures
            built_from(cfg, blocks@, order@),
    {
        let ghost b0 = blocks@;
        let ghost ks = order@;
        let mut blocks = blocks;
        let mut cfg = ControlFlowGraph::new();
        let mut edge_counter = Counter::new();
        let mut condiction_id: isize = 1;
        let mut i: usize = 0;
        proof {
            assert(ks.take(0) =~= Seq::<usize>::empty());
        }
        while i < order.len()
            invariant
                i <= ks.len(),
                ks == order@,
                ks.to_set() == b0.dom(),
                ks.no_duplicates(),
                3 * ks.len() < isize::MAX,
                forall|k: usize| #[trigger] blocks@.contains_key(k) <==> b0.contains_key(k) && !ks.take(i as int).contains(k),
                forall|k: usize| #[trigger] blocks@.contains_key(k) ==> blocks@[k] == b0[k],
                forall|k: usize| #[trigger] cfg.nodes@.contains_key(k) <==> ks.take(i as int).contains(k),
                forall|k: usize| #[trigger] cfg.nodes@.contains_key(k) ==> cfg.nodes@[k]
                    == (CFGNode { id: k, index: 0, node_type: NodeType::Plain, irs: b0[k].irs }),
                edge_counter.next_value() == build_edges(b0, ks.take(i as int)).len(),
                edges_match(cfg.edges@, build_edges(b0, ks.take(i as int))),
                conds_view(cfg.condiction@) == build_conds(b0, ks.take(i as int)),
                condiction_id == cfg.condiction@.len() + 1,
                cfg.topo_index@ == Seq::<usize>::empty(),
                cfg._topo_index@ == Seq::<Vec<usize>>::empty(),
            decreases ks.len() - i,
        {
            let id = order[i];
            proof {
                assert(ks.to_set().contains(id));
                assert(ks.take(i + 1).drop_last() =~= ks.take(i as int));
                assert(ks.take(i + 1).last() == id);
                if ks.take(i as int).contains(id) {
                    let t = choose|t: int| 0 <= t < i && ks.take(i as int)[t] == id;
                    assert(ks[t] == ks[i as int]);
                }
                lemma_build_lens(b0, ks.take(i + 1));
                assert(ks.take(i + 1).len() <= ks.len());
            }
            let ghost es0 = build_edges(b0, ks.take(i as int));
            let ghost block0 = b0[id];
            match blocks.remove(&id) {
                Some(block) => {
                    let Block { address: _, irs, next, condiction, true_next, false_next } = block;
                    let node = CFGNode { id, index: 0, node_type: NodeType::Plain, irs };
                    cfg.nodes.insert(id, node);
                    let ghost c = opt_cond_view(condiction);
                    let ghost mut es = es0;
                    if let Some(n) = next {
                        add_edge(&mut cfg.edges, &mut edge_counter, id, n, &condiction, None, Ghost(es));
                        proof {
                            es = es.push(EdgeView { from: id, to: n, condiction: c, taken: None });
                        }
                    }
                    proof {
                        assert(es == es0 + match next {
                            Some(n) => seq![EdgeView { from: id, to: n, condiction: c, taken: None }],
                            None => Seq::<EdgeView>::empty(),
                        });
                    }
                    let ghost es_a = es;
                    if let Some(n) = true_next {
                        add_edge(&mut cfg.edges, &mut edge_counter, id, n, &condiction, Some(true), Ghost(es));
                        proof {
                            es = es.push(EdgeView { from: id, to: n, condiction: c, taken: Some(true) });
                        }
                        if let Some(cc) = &condiction {
                            register(&mut cfg.condiction, &mut condiction_id, cc);
                        }
                    }
                    let ghost es_b = es;
                    if let Some(n) = false_next {
                        add_edge(&mut cfg.edges, &mut edge_counter, id, n, &condiction, Some(false), Ghost(es));
                        proof {
                            es = es.push(EdgeView { from: id, to: n, condiction: c, taken: Some(false) });
                        }
                        if let Some(cc) = &condiction {
                            register(&mut cfg.condiction, &mut condiction_id, cc);
                        }
                    }
                    proof {
                        assert(es =~= es0 + block_edges(id, block0));
                    }
                },
                None => {},
            }
            i = i + 1;
        }
        proof {
            assert(ks.take(i as int) =~= ks);
            assert forall|k: usize| #[trigger] b0.contains_key(k) implies cfg.nodes@.contains_key(k) by {
                assert(ks.to_set().contains(k));
            }
            assert(cfg.nodes@.dom() =~= b0.dom());
        }
        cfg
    }

    /// The graph of `blocks`, taken in the order in which the map of blocks
    /// is walked (see `built_from`).
    pub fn build_control_flow_graph(blocks: HashMap<usize, Block>) -> (cfg: ControlFlowGraph)
        requires
            3 * blocks@.len() < isize::MAX,
        ensures
            exists|ks: Seq<usize>| ks.to_set() == blocks@.dom() && ks.no_duplicates() && #[trigger] built_from(cfg, blocks@, ks),
    {
        let order = map_keys(&blocks);
        proof {
            order@.unique_seq_to_set();
        }
        let ghost b0 = blocks@;
        let cfg = ControlFlowGraph::build_control_flow_graph_in_order(blocks, &order);
        proof {
            assert(built_from(cfg, b0, order@));
        }
        cfg
    }
}

} // verus!
