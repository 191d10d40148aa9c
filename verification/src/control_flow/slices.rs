use vstd::prelude::*;
use std::collections::{HashMap, HashSet};
use crate::control_flow::EdgeType;
use crate::control_flow::cfg::{ControlFlowGraph, CFGNode, CFGEdge, EdgeView, edge_view, conds_view};
use crate::block::Condiction;
use crate::data_flow::{DataFlowIr, IrView, irs_view};
use crate::data_convert::map_keys;
use crate::control_flow::graph::set_elems;

verus! {

broadcast use {vstd::std_specs::hash::group_hash_axioms, vstd::std_specs::vec::group_vec_axioms};

/// The value of a node of the control flow graph.
pub struct NodeView {
    pub id: usize,
    pub index: usize,
    pub node_type: crate::control_flow::NodeType,
    pub irs: Seq<IrView>,
}

/// The value of `n`.
pub open spec fn node_view(n: CFGNode) -> NodeView {
    NodeView { id: n.id, index: n.index, node_type: n.node_type, irs: irs_view(n.irs@) }
}

/// The value of an edge with its id and type.
pub open spec fn full_edge_view(e: CFGEdge) -> (usize, EdgeType, EdgeView) {
    (e.id, e.edge_type, edge_view(e))
}

/// A copy of a list of IR instructions.
fn copy_irs(v: &Vec<DataFlowIr>) -> (r: Vec<DataFlowIr>)
    ensures
        irs_view(r@) == irs_view(v@),
{
    let mut r: Vec<DataFlowIr> = Vec::new();
    let mut i: usize = 0;
    while i < v.len()
        invariant
            i <= v@.len(),
            r@.len() == i,
            irs_view(r@) == irs_view(v@.take(i as int)),
        decreases v@.len() - i,
    {
        let x = v[i].duplicate();
        let ghost r0 = r@;
        r.push(x);
        proof {
            assert(irs_view(r@) =~= irs_view(v@.take(i as int + 1))) by {
                assert(r@ == r0.push(x));
                assert(v@.take(i as int + 1) == v@.take(i as int).push(v@[i as int]));
                assert forall|j: int| 0 <= j < i + 1 implies #[trigger] irs_view(r@)[j] == irs_view(v@.take(i as int + 1))[j] by {
                    if j < i {
                        assert(irs_view(r0)[j] == irs_view(v@.take(i as int))[j]);
                    }
                }
            }
        }
        i = i + 1;
    }
    proof {
        assert(v@.take(i as int) =~= v@);
    }
    r
}

/// A copy of a node.
fn copy_node(n: &CFGNode) -> (r: CFGNode)
    ensures
        node_view(r) == node_view(*n),
{
    CFGNode { id: n.id, index: n.index, node_type: n.node_type, irs: copy_irs(&n.irs) }
}

/// A copy of an edge.
fn copy_edge(e: &CFGEdge) -> (r: CFGEdge)
    ensures
        full_edge_view(r) == full_edge_view(*e),
{
    CFGEdge {
        id: e.id,
        from: e.from,
        to: e.to,
        edge_type: e.edge_type,
        condiction: match &e.condiction {
            Some(c) => Some(c.duplicate()),
            None => None,
        },
        _true: e._true,
    }
}

/// A copy of the conditions of a graph.
fn copy_conds(l: &Vec<(Condiction, isize)>) -> (r: Vec<(Condiction, isize)>)
    ensures
        conds_view(r@) == conds_view(l@),
{
    let mut r: Vec<(Condiction, isize)> = Vec::new();
    let mut i: usize = 0;
    while i < l.len()
        invariant
            i <= l@.len(),
            r@.len() == i,
            conds_view(r@) == conds_view(l@.take(i as int)),
        decreases l@.len() - i,
    {
        let c = l[i].0.duplicate();
        let ghost r0 = r@;
        r.push((c, l[i].1));
        proof {
            assert(conds_view(r@) =~= conds_view(l@.take(i as int + 1))) by {
                assert(l@.take(i as int + 1) == l@.take(i as int).push(l@[i as int]));
                assert forall|j: int| 0 <= j < i + 1 implies #[trigger] conds_view(r@)[j] == conds_view(l@.take(i as int + 1))[j] by {
                    if j < i {
                        assert(conds_view(r0)[j] == conds_view(l@.take(i as int))[j]);
                    }
                }
            }
        }
        i = i + 1;
    }
    proof {
        assert(l@.take(i as int) =~= l@);
    }
    r
}

/// The edges `ks` of `edges` that do not enter a loop, each as its id,
/// source and target, in that order.
pub open spec fn plain_edges(edges: Map<usize, CFGEdge>, ks: Seq<usize>) -> Seq<(usize, usize, usize)>
    decreases ks.len(),
{
    if ks.len() == 0 {
        Seq::empty()
    } else {
        let p = plain_edges(edges, ks.drop_last());
        let e = edges[ks.last()];
        if e.edge_type == EdgeType::LoopEnter {
            p
        } else {
            p.push((ks.last(), e.from, e.to as usize))
        }
    }
}

/// The vertices and edges a depth-first walk from `v` over the edges `es`
/// reaches (it does not mark what it has seen, so `fuel` bounds its depth).
pub open spec fn dfs_reach(es: Seq<(usize, usize, usize)>, v: usize, fuel: nat) -> (Set<usize>, Set<usize>)
    decreases fuel, 0nat, 0nat,
{
    if fuel == 0 {
        (set![v], Set::empty())
    } else {
        let r = dfs_reach_from(es, v, es.len(), (fuel - 1) as nat);
        (r.0.insert(v), r.1)
    }
}

/// What the walk from `v` reaches through the first `i` edges of `es`.
pub open spec fn dfs_reach_from(es: Seq<(usize, usize, usize)>, v: usize, i: nat, fuel: nat) -> (Set<usize>, Set<usize>)
    decreases fuel, 1nat, i,
{
    if i == 0 || i > es.len() {
        (Set::empty(), Set::empty())
    } else {
        let r = dfs_reach_from(es, v, (i - 1) as nat, fuel);
        let e = es[i - 1];
        if e.1 == v {
            let r2 = dfs_reach(es, e.2, fuel);
            (r.0 + r2.0, r.1.insert(e.0) + r2.1)
        } else {
            r
        }
    }
}

/// The walk from `v` ends within `fuel` levels.
pub open spec fn dfs_ends(es: Seq<(usize, usize, usize)>, v: usize, fuel: nat) -> bool
    decreases fuel, 0nat, 0nat,
{
    fuel > 0 && dfs_ends_from(es, v, es.len(), (fuel - 1) as nat)
}

/// The walks from `v` through the first `i` edges of `es` end within `fuel` levels.
pub open spec fn dfs_ends_from(es: Seq<(usize, usize, usize)>, v: usize, i: nat, fuel: nat) -> bool
    decreases fuel, 1nat, i,
{
    if i == 0 || i > es.len() {
        true
    } else {
        dfs_ends_from(es, v, (i - 1) as nat, fuel) && (es[i - 1].1 == v ==> dfs_ends(es, es[i - 1].2, fuel))
    }
}

proof fn lemma_dfs_ends_at(es: Seq<(usize, usize, usize)>, v: usize, n: nat, fuel: nat, i: int)
    requires
        dfs_ends_from(es, v, n, fuel),
        n <= es.len(),
        0 <= i < n,
        es[i].1 == v,
    ensures
        dfs_ends(es, es[i].2, fuel),
    decreases n,
{
    if i < n - 1 {
        lemma_dfs_ends_at(es, v, (n - 1) as nat, fuel, i);
    }
}

/// Walks depth-first from `start` over the edges `es`, adding the vertices
/// and the edges it reaches (see `dfs_reach`).
fn cfg_dfs(
    es: &Vec<(usize, usize, usize)>,
    start: usize,
    nodes: &mut HashSet<usize>,
    edges: &mut HashSet<usize>,
    Ghost(fuel): Ghost<nat>,
)
    requires
        dfs_ends(es@, start, fuel),
    ensures
        final(nodes)@ == old(nodes)@ + dfs_reach(es@, start, fuel).0,
        final(edges)@ == old(edges)@ + dfs_reach(es@, start, fuel).1,
    decreases fuel,
{
    let ghost n0 = nodes@;
    let ghost e0 = edges@;
    let ghost f = (fuel - 1) as nat;
    nodes.insert(start);
    let mut i: usize = 0;
    proof {
        assert(nodes@ =~= n0.insert(start) + dfs_reach_from(es@, start, 0, f).0);
        assert(edges@ =~= e0 + dfs_reach_from(es@, start, 0, f).1);
    }
    while i < es.len()
        invariant
            i <= es@.len(),
            fuel > 0,
            f == fuel - 1,
            dfs_ends_from(es@, start, es@.len(), f),
            nodes@ == n0.insert(start) + dfs_reach_from(es@, start, i as nat, f).0,
            edges@ == e0 + dfs_reach_from(es@, start, i as nat, f).1,
        decreases es@.len() - i,
    {
        let (eid, from, to) = es[i];
        let ghost r = dfs_reach_from(es@, start, i as nat, f);
        if from == start {
            proof {
                lemma_dfs_ends_at(es@, start, es@.len(), f, i as int);
            }
            let ghost nb = nodes@;
            let ghost eb = edges@;
            edges.insert(eid);
            cfg_dfs(es, to, nodes, edges, Ghost(f));
            proof {
                let r2 = dfs_reach(es@, to, f);
                assert(nodes@ =~= n0.insert(start) + (r.0 + r2.0));
                assert(edges@ =~= e0 + (r.1.insert(eid) + r2.1));
            }
        }
        i = i + 1;
    }
    proof {
        let r = dfs_reach_from(es@, start, es@.len(), f);
        assert(nodes@ =~= n0 + r.0.insert(start));
    }
}

proof fn lemma_reach_edges(es: Seq<(usize, usize, usize)>, v: usize, fuel: nat, dom: Set<usize>)
    requires
        forall|i: int| 0 <= i < es.len() ==> dom.contains(#[trigger] es[i].0),
    ensures
        dfs_reach(es, v, fuel).1.subset_of(dom),
    decreases fuel, 0nat, 0nat,
{
    if fuel > 0 {
        lemma_reach_from_edges(es, v, es.len(), (fuel - 1) as nat, dom);
    }
}

proof fn lemma_reach_from_edges(es: Seq<(usize, usize, usize)>, v: usize, i: nat, fuel: nat, dom: Set<usize>)
    requires
        forall|j: int| 0 <= j < es.len() ==> dom.contains(#[trigger] es[j].0),
    ensures
        dfs_reach_from(es, v, i, fuel).1.subset_of(dom),
    decreases fuel, 1nat, i,
{
    if i > 0 && i <= es.len() {
        lemma_reach_from_edges(es, v, (i - 1) as nat, fuel, dom);
        let e = es[i - 1];
        if e.1 == v {
            lemma_reach_edges(es, e.2, fuel, dom);
            assert(dom.contains(es[i - 1].0));
        }
    }
}

/// The vertices that head a slice: vertex 0 and each target of an edge
/// entering a loop.
pub open spec fn loop_starts(edges: Map<usize, CFGEdge>) -> Set<usize> {
    Set::new(|s: usize| s == 0 || exists|k: usize| #[trigger] edges.contains_key(k)
        && edges[k].edge_type == EdgeType::LoopEnter && edges[k].to as usize == s)
}

/// For each source of an edge entering a loop, the loop it enters; the
/// edges `ks` are taken in order, so a later edge from the same source wins.
pub open spec fn enter_map(edges: Map<usize, CFGEdge>, ks: Seq<usize>) -> Map<usize, usize>
    decreases ks.len(),
{
    if ks.len() == 0 {
        Map::empty()
    } else {
        let m = enter_map(edges, ks.drop_last());
        let e = edges[ks.last()];
        if e.edge_type == EdgeType::LoopEnter {
            m.insert(e.from, e.to as usize)
        } else {
            m
        }
    }
}

/// `sub` is the slice of `cfg` made of the vertices and edges `r`: their
/// nodes and edges copied, all the conditions of `cfg`, no order.
pub open spec fn is_slice(sub: ControlFlowGraph, cfg: ControlFlowGraph, r: (Set<usize>, Set<usize>)) -> bool {
    &&& sub.nodes@.dom() == r.0
    &&& forall|n: usize| #[trigger] sub.nodes@.contains_key(n) ==> node_view(sub.nodes@[n]) == node_view(cfg.nodes@[n])
    &&& sub.edges@.dom() == r.1
    &&& forall|e: usize| #[trigger] sub.edges@.contains_key(e) ==> full_edge_view(sub.edges@[e]) == full_edge_view(cfg.edges@[e])
    &&& conds_view(sub.condiction@) == conds_view(cfg.condiction@)
    &&& sub.topo_index@ == Seq::<usize>::empty()
    &&& sub._topo_index@ == Seq::<Vec<usize>>::empty()
}

/// From each head of a slice the walk over the edges `ks` that enter no
/// loop ends, and reaches only nodes of `cfg`.
pub open spec fn slices_ready(cfg: ControlFlowGraph, ks: Seq<usize>) -> bool {
    forall|s: usize| #[trigger] loop_starts(cfg.edges@).contains(s) ==> exists|f: nat|
        dfs_ends(plain_edges(cfg.edges@, ks), s, f) && dfs_reach(plain_edges(cfg.edges@, ks), s, f).0.subset_of(cfg.nodes@.dom())
}

/// `slices` holds, for each head of a slice, the slice reached from it.
pub open spec fn slices_of(slices: Map<usize, ControlFlowGraph>, cfg: ControlFlowGraph, ks: Seq<usize>) -> bool {
    &&& slices.dom() == loop_starts(cfg.edges@)
    &&& forall|s: usize| #[trigger] slices.contains_key(s) ==> exists|f: nat|
        dfs_ends(plain_edges(cfg.edges@, ks), s, f) && is_slice(slices[s], cfg, dfs_reach(plain_edges(cfg.edges@, ks), s, f))
}

/// The slice of `cfg` made of the vertices `ns` and edges `es`.
fn make_slice(cfg: &ControlFlowGraph, ns: &HashSet<usize>, es: &HashSet<usize>) -> (sub: ControlFlowGraph)
    requires
        ns@.subset_of(cfg.nodes@.dom()),
        es@.subset_of(cfg.edges@.dom()),
    ensures
        is_slice(sub, *cfg, (ns@, es@)),
{
    let mut sub = ControlFlowGraph::new();
    let nv = set_elems(ns);
    let ghost nq = nv@;
    let mut i: usize = 0;
    while i < nv.len()
        invariant
            i <= nq.len(),
            nq == nv@,
            nq.to_set() == ns@,
            ns@.subset_of(cfg.nodes@.dom()),
            sub.nodes@.dom() == nq.take(i as int).to_set(),
            forall|n: usize| #[trigger] sub.nodes@.contains_key(n) ==> node_view(sub.nodes@[n]) == node_view(cfg.nodes@[n]),
            sub.edges@ == Map::<usize, CFGEdge>::empty(),
            sub.condiction@ == Seq::<(Condiction, isize)>::empty(),
            sub.topo_index@ == Seq::<usize>::empty(),
            sub._topo_index@ == Seq::<Vec<usize>>::empty(),
        decreases nq.len() - i,
    {
        let n = nv[i];
        proof {
            assert(nq.to_set().contains(n));
            assert(nq.take(i as int + 1) =~= nq.take(i as int).push(n));
            nq.take(i as int).lemma_push_to_set_commute(n);
        }
        let c = copy_node(cfg.nodes.get(&n).unwrap());
        sub.nodes.insert(n, c);
        i = i + 1;
    }
    proof {
        assert(nq.take(nq.len() as int) =~= nq);
    }
    let ev = set_elems(es);
    let ghost eq = ev@;
    let mut j: usize = 0;
    proof {
        assert(eq.take(0).to_set() =~= Set::<usize>::empty());
        assert(sub.edges@.dom() =~= Set::<usize>::empty());
    }
    while j < ev.len()
        invariant
            j <= eq.len(),
            eq == ev@,
            eq.to_set() == es@,
            es@.subset_of(cfg.edges@.dom()),
            sub.nodes@.dom() == ns@,
            forall|n: usize| #[trigger] sub.nodes@.contains_key(n) ==> node_view(sub.nodes@[n]) == node_view(cfg.nodes@[n]),
            sub.edges@.dom() == eq.take(j as int).to_set(),
            forall|e: usize| #[trigger] sub.edges@.contains_key(e) ==> full_edge_view(sub.edges@[e]) == full_edge_view(cfg.edges@[e]),
            sub.condiction@ == Seq::<(Condiction, isize)>::empty(),
            sub.topo_index@ == Seq::<usize>::empty(),
            sub._topo_index@ == Seq::<Vec<usize>>::empty(),
        decreases eq.len() - j,
    {
        let e = ev[j];
        proof {
            assert(eq.to_set().contains(e));
            assert(eq.take(j as int + 1) =~= eq.take(j as int).push(e));
            eq.take(j as int).lemma_push_to_set_commute(e);
        }
        let c = copy_edge(cfg.edges.get(&e).unwrap());
        sub.edges.insert(e, c);
        j = j + 1;
    }
    proof {
        assert(eq.take(eq.len() as int) =~= eq);
    }
    sub.condiction = copy_conds(&cfg.condiction);
    sub
}

/// The slices of `_cfg` cut at the edges that enter loops, its edges taken
/// in the order `order`: for vertex 0 and each loop that an edge enters,
/// the nodes and edges reached from it without entering a loop (see
/// `slices_of`); and for each source of such an edge, the loop it enters
/// (see `enter_map`).
pub fn get_cfg_loop_slices_in_order(_cfg: &ControlFlowGraph, order: &Vec<usize>)
    -> (r: (HashMap<usize, ControlFlowGraph>, HashMap<usize, usize>))
    requires
        order@.to_set() == _cfg.edges@.dom(),
        slices_ready(*_cfg, order@),
    ensures
        slices_of(r.0@, *_cfg, order@),
        r.1@ == enter_map(_cfg.edges@, order@),
{
    let ghost ks = order@;
    let ghost edges = _cfg.edges@;
    let mut es: Vec<(usize, usize, usize)> = Vec::new();
    let mut starts: Vec<usize> = Vec::new();
    let mut slices_map: HashMap<usize, usize> = HashMap::new();
    let mut i: usize = 0;
    proof {
        assert(ks.take(0) =~= Seq::<usize>::empty());
    }
    while i < order.len()
        invariant
            i <= ks.len(),
            ks == order@,
            ks.to_set() == edges.dom(),
            edges == _cfg.edges@,
            es@ == plain_edges(edges, ks.take(i as int)),
            slices_map@ == enter_map(edges, ks.take(i as int)),
            forall|j: int| 0 <= j < starts@.len() ==> #[trigger] loop_starts(edges).contains(starts@[j]),
            forall|k: usize| #[trigger] ks.take(i as int).contains(k) && edges[k].edge_type == EdgeType::LoopEnter
                ==> starts@.contains(edges[k].to as usize),
            forall|j: int| 0 <= j < es@.len() ==> edges.dom().contains(#[trigger] es@[j].0),
        decreases ks.len() - i,
    {
        let k = order[i];
        proof {
            assert(ks.to_set().contains(k));
            assert(ks.take(i as int + 1).drop_last() =~= ks.take(i as int));
            assert(ks.take(i as int + 1).last() == k);
        }
        let e = _cfg.edges.get(&k).unwrap();
        let ghost s0 = starts@;
        if e.edge_type == EdgeType::LoopEnter {
            starts.push(e.to as usize);
            slices_map.insert(e.from, e.to as usize);
            proof {
                assert(loop_starts(edges).contains(e.to as usize));
            }
        } else {
            es.push((k, e.from, e.to as usize));
        }
        proof {
            assert forall|q: usize| #[trigger] ks.take(i as int + 1).contains(q) && edges[q].edge_type == EdgeType::LoopEnter
                implies starts@.contains(edges[q].to as usize) by {
                if q == k {
                    assert(starts@[starts@.len() - 1] == edges[q].to as usize);
                } else {
                    assert(ks.take(i as int).contains(q)) by {
                        let p = choose|p: int| 0 <= p < i + 1 && #[trigger] ks.take(i as int + 1)[p] == q;
                        assert(ks.take(i as int)[p] == q);
                    }
                    let w = choose|w: int| 0 <= w < s0.len() && #[trigger] s0[w] == edges[q].to as usize;
                    assert(starts@[w] == s0[w]);
                }
            }
        }
        i = i + 1;
    }
    proof {
        assert(ks.take(ks.len() as int) =~= ks);
        assert(loop_starts(edges).contains(0));
    }
    let ghost s0b = starts@;
    starts.push(0);
    proof {
        assert(starts@.to_set() =~= loop_starts(edges)) by {
            assert forall|s: usize| loop_starts(edges).contains(s) implies #[trigger] starts@.to_set().contains(s) by {
                if s == 0 {
                    assert(starts@[starts@.len() - 1] == 0);
                } else {
                    let k = choose|k: usize| #[trigger] edges.contains_key(k) && edges[k].edge_type == EdgeType::LoopEnter && edges[k].to as usize == s;
                    assert(ks.to_set().contains(k));
                    assert(ks.take(ks.len() as int) == ks);
                    assert(s0b.contains(s));
                    let w = choose|w: int| 0 <= w < s0b.len() && #[trigger] s0b[w] == s;
                    assert(starts@[w] == s);
                }
            }
            assert forall|s: usize| #[trigger] starts@.to_set().contains(s) implies loop_starts(edges).contains(s) by {
                let q = choose|q: int| 0 <= q < starts@.len() && #[trigger] starts@[q] == s;
            }
        }
    }
    let ghost pe = es@;
    let mut loop_slices: HashMap<usize, ControlFlowGraph> = HashMap::new();
    let mut j: usize = 0;
    while j < starts.len()
        invariant
            j <= starts@.len(),
            edges == _cfg.edges@,
            pe == es@,
            pe == plain_edges(edges, ks),
            slices_ready(*_cfg, ks),
            forall|q: int| 0 <= q < starts@.len() ==> #[trigger] loop_starts(edges).contains(starts@[q]),
            forall|q: int| 0 <= q < pe.len() ==> edges.dom().contains(#[trigger] pe[q].0),
            loop_slices@.dom() == starts@.take(j as int).to_set(),
            starts@.to_set() == loop_starts(edges),
            forall|s: usize| #[trigger] loop_slices@.contains_key(s) ==> exists|f: nat|
                dfs_ends(pe, s, f) && is_slice(loop_slices@[s], *_cfg, dfs_reach(pe, s, f)),
        decreases starts@.len() - j,
    {
        let s = starts[j];
        proof {
            assert(loop_starts(edges).contains(s));
            assert(starts@.take(j as int + 1) =~= starts@.take(j as int).push(s));
            starts@.take(j as int).lemma_push_to_set_commute(s);
        }
        let ghost f = choose|f: nat| dfs_ends(pe, s, f) && dfs_reach(pe, s, f).0.subset_of(_cfg.nodes@.dom());
        let mut travel_node: HashSet<usize> = HashSet::new();
        let mut travel_edge: HashSet<usize> = HashSet::new();
        cfg_dfs(&es, s, &mut travel_node, &mut travel_edge, Ghost(f));
        proof {
            assert(travel_node@ =~= dfs_reach(pe, s, f).0);
            assert(travel_edge@ =~= dfs_reach(pe, s, f).1);
            lemma_reach_edges(pe, s, f, edges.dom());
        }
        let sub = make_slice(_cfg, &travel_node, &travel_edge);
        loop_slices.insert(s, sub);
        proof {
            assert forall|t: usize| #[trigger] loop_slices@.contains_key(t) implies exists|g: nat|
                dfs_ends(pe, t, g) && is_slice(loop_slices@[t], *_cfg, dfs_reach(pe, t, g)) by {
                if t == s {
                    assert(dfs_ends(pe, t, f) && is_slice(loop_slices@[t], *_cfg, dfs_reach(pe, t, f)));
                }
            }
        }
        j = j + 1;
    }
    proof {
        assert(starts@.take(starts@.len() as int) =~= starts@);
    }
    (loop_slices, slices_map)
}

/// The slices of `_cfg` cut at the edges that enter loops, its edges taken
/// in the order in which the map of edges is walked (see
/// `get_cfg_loop_slices_in_order`).
pub fn get_cfg_loop_slices(_cfg: &ControlFlowGraph) -> (r: (HashMap<usize, ControlFlowGraph>, HashMap<usize, usize>))
    requires
        forall|ks: Seq<usize>| ks.to_set() == _cfg.edges@.dom() && ks.no_duplicates() ==> #[trigger] slices_ready(*_cfg, ks),
    ensures
        exists|ks: Seq<usize>| ks.to_set() == _cfg.edges@.dom() && ks.no_duplicates()
            && #[trigger] slices_of(r.0@, *_cfg, ks) && r.1@ == enter_map(_cfg.edges@, ks),
{
    let order = map_keys(&_cfg.edges);
    proof {
        assert(slices_ready(*_cfg, order@));
    }
    let r = get_cfg_loop_slices_in_order(_cfg, &order);
    proof {
        assert(slices_of(r.0@, *_cfg, order@));
    }
    r
}

} // verus!
