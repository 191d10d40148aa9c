use vstd::prelude::*;
use std::collections::{HashMap, HashSet};
use crate::control_flow::cfg::{ControlFlowGraph, CFGEdge, lemma_range_len};
use crate::control_flow::NodeType;
use crate::data_convert::map_keys;
use vstd::std_specs::iter::IteratorSpec;

verus! {

broadcast use {vstd::std_specs::hash::group_hash_axioms, vstd::std_specs::vec::group_vec_axioms};

/// A plain directed graph: its vertices, its edges by id, and for each
/// vertex the list of its children and of its parents (an edge adds one
/// entry to each list, so a vertex can occur more than once in a list).
#[derive(Debug)]
pub struct Graph {
    pub root: usize,
    pub vertexs: HashSet<usize>,
    pub edges: HashMap<usize, (usize, usize)>,
    pub childs: HashMap<usize, Vec<usize>>,
    pub parents: HashMap<usize, Vec<usize>>,
}

/// The value of a graph.
pub struct GraphView {
    pub root: usize,
    pub vertexs: Set<usize>,
    pub edges: Map<usize, (usize, usize)>,
    pub childs: Map<usize, Seq<usize>>,
    pub parents: Map<usize, Seq<usize>>,
}

/// The lists of a map of vectors.
pub open spec fn seqs(m: Map<usize, Vec<usize>>) -> Map<usize, Seq<usize>> {
    m.map_values(|v: Vec<usize>| v@)
}

impl View for Graph {
    type V = GraphView;

    open spec fn view(&self) -> GraphView {
        GraphView {
            root: self.root,
            vertexs: self.vertexs@,
            edges: self.edges@,
            childs: seqs(self.childs@),
            parents: seqs(self.parents@),
        }
    }
}

/// The list of `k` in `m`, empty where `m` has none.
pub open spec fn list_of(m: Map<usize, Seq<usize>>, k: usize) -> Seq<usize> {
    if m.contains_key(k) {
        m[k]
    } else {
        Seq::empty()
    }
}

/// `m` with `x` added at the end of the list of `k`.
pub open spec fn push_to_list(m: Map<usize, Seq<usize>>, k: usize, x: usize) -> Map<usize, Seq<usize>> {
    m.insert(k, list_of(m, k).push(x))
}

/// The ends of a control flow edge, its target taken as a vertex.
pub open spec fn edge_ends(e: CFGEdge) -> (usize, usize) {
    (e.from, e.to as usize)
}

/// The graph of the nodes `nodes` and of the edges `ks` of `edges`, added
/// in that order: each vertex starts with empty lists, and each edge goes
/// at the end of the children of its source and of the parents of its target.
pub open spec fn simplified(nodes: Set<usize>, edges: Map<usize, CFGEdge>, ks: Seq<usize>) -> GraphView
    decreases ks.len(),
{
    if ks.len() == 0 {
        GraphView {
            root: 0,
            vertexs: nodes,
            edges: Map::empty(),
            childs: Map::new(|v: usize| nodes.contains(v), |v: usize| Seq::<usize>::empty()),
            parents: Map::new(|v: usize| nodes.contains(v), |v: usize| Seq::<usize>::empty()),
        }
    } else {
        let g = simplified(nodes, edges, ks.drop_last());
        let (f, t) = edge_ends(edges[ks.last()]);
        GraphView {
            edges: g.edges.insert(ks.last(), (f, t)),
            childs: push_to_list(g.childs, f, t),
            parents: push_to_list(g.parents, t, f),
            ..g
        }
    }
}

/// Adds `x` at the end of the list of `k`.
fn push_to(m: &mut HashMap<usize, Vec<usize>>, k: usize, x: usize)
    ensures
        seqs(final(m)@) == push_to_list(seqs(old(m)@), k, x),
{
    let mut v = match m.remove(&k) {
        Some(v) => v,
        None => Vec::new(),
    };
    v.push(x);
    m.insert(k, v);
    proof {
        assert(seqs(m@) =~= push_to_list(seqs(old(m)@), k, x));
    }
}

impl Graph {
    /// An empty graph with root 0.
    pub fn new() -> (g: Self)
        ensures
            g@.root == 0,
            g@.vertexs == Set::<usize>::empty(),
            g@.edges == Map::<usize, (usize, usize)>::empty(),
            g@.childs == Map::<usize, Seq<usize>>::empty(),
            g@.parents == Map::<usize, Seq<usize>>::empty(),
    {
        let g = Graph {
            root: 0,
            vertexs: HashSet::new(),
            edges: HashMap::new(),
            childs: HashMap::new(),
            parents: HashMap::new(),
        };
        proof {
            assert(seqs(g.childs@) =~= Map::<usize, Seq<usize>>::empty());
            assert(seqs(g.parents@) =~= Map::<usize, Seq<usize>>::empty());
        }
        g
    }
}

/// The plain graph of `cfg`, its edges added in the order `order` (see
/// `simplified`).
pub fn simplify_in_order(cfg: &ControlFlowGraph, order: &Vec<usize>) -> (g: Graph)
    requires
        order@.to_set() == cfg.edges@.dom(),
        order@.no_duplicates(),
    ensures
        g@ == simplified(cfg.nodes@.dom(), cfg.edges@, order@),
{
    let mut g = Graph::new();
    let nodes = map_keys(&cfg.nodes);
    let ghost ns = nodes@;
    let ghost dom = cfg.nodes@.dom();
    let mut i: usize = 0;
    while i < nodes.len()
        invariant
            i <= ns.len(),
            ns == nodes@,
            ns.to_set() == dom,
            g@.root == 0,
            g@.edges == Map::<usize, (usize, usize)>::empty(),
            g@.vertexs == ns.take(i as int).to_set(),
            g@.childs == Map::new(|v: usize| ns.take(i as int).to_set().contains(v), |v: usize| Seq::<usize>::empty()),
            g@.parents == Map::new(|v: usize| ns.take(i as int).to_set().contains(v), |v: usize| Seq::<usize>::empty()),
        decreases ns.len() - i,
    {
        let v = nodes[i];
        proof {
            assert(ns.take(i as int + 1) =~= ns.take(i as int).push(v));
        }
        let ghost c0 = g.childs@;
        let ghost p0 = g.parents@;
        g.vertexs.insert(v);
        let ec: Vec<usize> = Vec::new();
        let ep: Vec<usize> = Vec::new();
        let ghost ecv = ec;
        let ghost epv = ep;
        g.childs.insert(v, ec);
        g.parents.insert(v, ep);
        proof {
            let s1 = ns.take(i as int + 1).to_set();
            ns.take(i as int).lemma_push_to_set_commute(v);
            assert(g@.vertexs =~= s1);
            assert(g.childs@ == c0.insert(v, ecv));
            assert(seqs(g.childs@) =~= seqs(c0).insert(v, Seq::<usize>::empty()));
            assert(seqs(g.childs@) =~= Map::new(|w: usize| s1.contains(w), |w: usize| Seq::<usize>::empty()));
            assert(seqs(g.parents@) =~= seqs(p0).insert(v, Seq::<usize>::empty()));
            assert(seqs(g.parents@) =~= Map::new(|w: usize| s1.contains(w), |w: usize| Seq::<usize>::empty()));
        }
        i = i + 1;
    }
    proof {
        assert(ns.take(ns.len() as int) =~= ns);
        assert(simplified(dom, cfg.edges@, order@.take(0)) == simplified(dom, cfg.edges@, Seq::<usize>::empty())) by {
            assert(order@.take(0) =~= Seq::<usize>::empty());
        }
        assert(g@.childs =~= simplified(dom, cfg.edges@, order@.take(0)).childs);
        assert(g@.parents =~= simplified(dom, cfg.edges@, order@.take(0)).parents);
    }
    let ghost ks = order@;
    let mut j: usize = 0;
    while j < order.len()
        invariant
            j <= ks.len(),
            ks == order@,
            ks.to_set() == cfg.edges@.dom(),
            g@ == simplified(dom, cfg.edges@, ks.take(j as int)),
        decreases ks.len() - j,
    {
        let k = order[j];
        proof {
            assert(ks.to_set().contains(k));
            assert(ks.take(j as int + 1).drop_last() =~= ks.take(j as int));
        }
        let e = cfg.edges.get(&k).unwrap();
        let from = e.from;
        let to = e.to as usize;
        g.edges.insert(k, (from, to));
        push_to(&mut g.childs, from, to);
        push_to(&mut g.parents, to, from);
        j = j + 1;
    }
    proof {
        assert(ks.take(ks.len() as int) =~= ks);
    }
    g
}

/// The plain graph of `cfg`: its nodes as vertices and its edges, added in
/// the order in which the map of edges is walked (see `simplified`).
pub fn simplify(cfg: &ControlFlowGraph) -> (g: Graph)
    ensures
        exists|ks: Seq<usize>| ks.to_set() == cfg.edges@.dom() && ks.no_duplicates()
            && g@ == #[trigger] simplified(cfg.nodes@.dom(), cfg.edges@, ks),
{
    let order = map_keys(&cfg.edges);
    let g = simplify_in_order(cfg, &order);
    proof {
        assert(g@ == simplified(cfg.nodes@.dom(), cfg.edges@, order@));
    }
    g
}

/// The elements of `s`, each once, in the order in which the set is walked.
pub(crate) fn set_elems(s: &HashSet<usize>) -> (r: Vec<usize>)
    ensures
        r@.to_set() == s@,
        r@.no_duplicates(),
{
    let mut r: Vec<usize> = Vec::new();
    let ghost ks = vstd::std_specs::hash::spec_hash_keys_iter(s).remaining().unref();
    let ghost mut cnt: int = 0;
    for k in it: s.iter()
        invariant
            it.seq() == vstd::std_specs::hash::spec_hash_keys_iter(s).remaining(),
            ks == it.seq().unref(),
            cnt == it.index(),
            r@ == ks.take(cnt),
    {
        proof {
            assert(*k == ks[cnt]);
            assert(ks.take(cnt + 1) =~= ks.take(cnt).push(*k));
        }
        r.push(*k);
        proof {
            cnt = cnt + 1;
        }
    }
    proof {
        assert(ks.take(cnt) =~= ks);
        assert(ks.no_duplicates()) by {
            assert forall|i: int, j: int| 0 <= i < ks.len() && 0 <= j < ks.len() && i != j implies ks[i] != ks[j] by {
                let rs = vstd::std_specs::hash::spec_hash_keys_iter(s).remaining();
                assert(rs[i] != rs[j]);
            }
        }
    }
    r
}

/// `s` without the first occurrence of `v`.
pub open spec fn remove_first(s: Seq<usize>, v: usize) -> Seq<usize>
    decreases s.len(),
{
    if s.len() == 0 {
        s
    } else if s[0] == v {
        s.drop_first()
    } else {
        seq![s[0]] + remove_first(s.drop_first(), v)
    }
}

/// `s` without the first occurrence of each element of `l`.
pub open spec fn remove_each(s: Seq<usize>, l: Set<usize>) -> Seq<usize>
    decreases s.len(),
{
    if s.len() == 0 {
        s
    } else if l.contains(s[0]) {
        remove_each(s.drop_first(), l.remove(s[0]))
    } else {
        seq![s[0]] + remove_each(s.drop_first(), l)
    }
}

/// The vertices of `vs` that have no parent left in `ps`.
pub open spec fn layer(vs: Set<usize>, ps: Map<usize, Seq<usize>>) -> Set<usize> {
    vs.filter(|v: usize| list_of(ps, v).len() == 0)
}

/// The lists of `ps` without one occurrence of each vertex of `l`.
pub open spec fn strip(ps: Map<usize, Seq<usize>>, l: Set<usize>) -> Map<usize, Seq<usize>> {
    ps.map_values(|s: Seq<usize>| remove_each(s, l))
}

/// The layers of a topological sort of the vertices `vs` with the parent
/// lists `ps`: the vertices without parents, then, once they are taken out
/// (with one occurrence of each from every list), those without parents
/// left, and so on; `None` where a round finds no such vertex, or after
/// `fuel` rounds.
pub open spec fn topo_layers(vs: Set<usize>, ps: Map<usize, Seq<usize>>, fuel: nat) -> Option<Seq<Set<usize>>>
    decreases fuel,
{
    if vs.len() == 0 {
        Some(Seq::empty())
    } else if fuel == 0 {
        None
    } else {
        let l = layer(vs, ps);
        if l.len() == 0 {
            None
        } else {
            match topo_layers(vs.difference(l), strip(ps, l), (fuel - 1) as nat) {
                Some(r) => Some(seq![l] + r),
                None => None,
            }
        }
    }
}

/// The layering of the graph `g` ends: each round takes out some vertex.
pub open spec fn topo_ends(g: GraphView) -> bool {
    &&& g.vertexs.subset_of(g.parents.dom())
    &&& topo_layers(g.vertexs, g.parents, g.vertexs.len()) is Some
}

/// The lists of `ls`, one after the other.
pub open spec fn flat(ls: Seq<Vec<usize>>) -> Seq<usize>
    decreases ls.len(),
{
    if ls.len() == 0 {
        Seq::empty()
    } else {
        flat(ls.drop_last()) + ls.last()@
    }
}

/// `ls` lists the layers `sets`, each element once.
pub open spec fn lists_layers(ls: Seq<Vec<usize>>, sets: Seq<Set<usize>>) -> bool {
    &&& ls.len() == sets.len()
    &&& forall|i: int| 0 <= i < ls.len() ==> (#[trigger] ls[i])@.to_set() == sets[i] && ls[i]@.no_duplicates()
}

proof fn lemma_remove_first_index(s: Seq<usize>, v: usize, i: int)
    requires
        0 <= i < s.len(),
        s[i] == v,
        forall|j: int| 0 <= j < i ==> s[j] != v,
    ensures
        s.remove(i) == remove_first(s, v),
    decreases s.len(),
{
    if i == 0 {
        assert(s.remove(0) =~= s.drop_first());
    } else {
        lemma_remove_first_index(s.drop_first(), v, i - 1);
        assert(s.remove(i) =~= seq![s[0]] + s.drop_first().remove(i - 1));
    }
}

proof fn lemma_remove_first_absent(s: Seq<usize>, v: usize)
    requires
        forall|j: int| 0 <= j < s.len() ==> s[j] != v,
    ensures
        remove_first(s, v) == s,
    decreases s.len(),
{
    if s.len() > 0 {
        lemma_remove_first_absent(s.drop_first(), v);
        assert(seq![s[0]] + s.drop_first() =~= s);
    }
}

proof fn lemma_remove_each_empty(s: Seq<usize>)
    ensures
        remove_each(s, Set::empty()) == s,
    decreases s.len(),
{
    if s.len() > 0 {
        lemma_remove_each_empty(s.drop_first());
        assert(seq![s[0]] + s.drop_first() =~= s);
    }
}

proof fn lemma_remove_each_insert(s: Seq<usize>, a: Set<usize>, v: usize)
    requires
        !a.contains(v),
    ensures
        remove_first(remove_each(s, a), v) == remove_each(s, a.insert(v)),
    decreases s.len(),
{
    if s.len() > 0 {
        let x = s[0];
        let t = s.drop_first();
        if a.contains(x) {
            assert(a.insert(v).remove(x) =~= a.remove(x).insert(v));
            lemma_remove_each_insert(t, a.remove(x), v);
        } else if x == v {
            assert(a.insert(v).remove(x) =~= a);
            assert((seq![x] + remove_each(t, a)).drop_first() =~= remove_each(t, a));
        } else {
            lemma_remove_each_insert(t, a, v);
            assert((seq![x] + remove_each(t, a))[0] == x);
            assert((seq![x] + remove_each(t, a)).drop_first() =~= remove_each(t, a));
        }
    }
}

/// Takes out the first occurrence of `v` from `s`.
fn remove_first_in(s: &mut Vec<usize>, v: usize)
    ensures
        final(s)@ == remove_first(old(s)@, v),
{
    let mut i: usize = 0;
    while i < s.len()
        invariant
            s@ == old(s)@,
            i <= s@.len(),
            forall|j: int| 0 <= j < i ==> s@[j] != v,
        decreases s@.len() - i,
    {
        if s[i] == v {
            proof {
                lemma_remove_first_index(s@, v, i as int);
            }
            s.remove(i);
            return;
        }
        i = i + 1;
    }
    proof {
        lemma_remove_first_absent(s@, v);
    }
}

/// Takes out the first occurrence of `v` from every list of `ps`.
fn remove_from_lists(ps: &mut HashMap<usize, Vec<usize>>, v: usize)
    ensures
        seqs(final(ps)@) == seqs(old(ps)@).map_values(|s: Seq<usize>| remove_first(s, v)),
{
    let keys = map_keys(ps);
    let ghost ks = keys@;
    let ghost p0 = seqs(ps@);
    let mut i: usize = 0;
    while i < keys.len()
        invariant
            i <= ks.len(),
            ks == keys@,
            ks.to_set() == p0.dom(),
            ks.no_duplicates(),
            seqs(ps@).dom() == p0.dom(),
            forall|k: usize| #[trigger] p0.contains_key(k) ==> seqs(ps@)[k]
                == if ks.take(i as int).contains(k) { remove_first(p0[k], v) } else { p0[k] },
        decreases ks.len() - i,
    {
        let k = keys[i];
        proof {
            assert(ks.to_set().contains(k));
            assert(!ks.take(i as int).contains(k)) by {
                if ks.take(i as int).contains(k) {
                    let j = choose|j: int| 0 <= j < i && ks.take(i as int)[j] == k;
                    assert(ks[j] == ks[i as int]);
                }
            }
        }
        let ghost before = seqs(ps@);
        let mut l = ps.remove(&k).unwrap();
        proof {
            assert(l@ == before[k]);
            assert(before[k] == p0[k]);
        }
        remove_first_in(&mut l, v);
        let ghost lv = l@;
        ps.insert(k, l);
        proof {
            assert(seqs(ps@)[k] == lv);
            assert(ks.take(i as int + 1) =~= ks.take(i as int).push(k));
            assert forall|w: usize| #[trigger] p0.contains_key(w) implies seqs(ps@)[w]
                == if ks.take(i as int + 1).contains(w) { remove_first(p0[w], v) } else { p0[w] } by {
                if w == k {
                    assert(ks.take(i as int + 1)[i as int] == k);
                } else {
                    assert(ks.take(i as int + 1).contains(w) == ks.take(i as int).contains(w));
                    assert(seqs(ps@)[w] == before[w]);
                }
            }
            assert(seqs(ps@).dom() =~= p0.dom());
        }
        i = i + 1;
    }
    proof {
        assert(ks.take(ks.len() as int) =~= ks);
        assert(seqs(ps@) =~= p0.map_values(|s: Seq<usize>| remove_first(s, v)));
    }
}

/// A copy of a map of lists.
fn copy_lists(m: &HashMap<usize, Vec<usize>>) -> (r: HashMap<usize, Vec<usize>>)
    ensures
        seqs(r@) == seqs(m@),
{
    let keys = map_keys(m);
    let ghost ks = keys@;
    let mut r: HashMap<usize, Vec<usize>> = HashMap::new();
    let mut i: usize = 0;
    while i < keys.len()
        invariant
            i <= ks.len(),
            ks == keys@,
            ks.to_set() == m@.dom(),
            seqs(r@) == seqs(m@).restrict(ks.take(i as int).to_set()),
        decreases ks.len() - i,
    {
        let k = keys[i];
        proof {
            assert(ks.to_set().contains(k));
        }
        let l = m.get(&k).unwrap().clone();
        proof {
            assert(l@ =~= m@[k]@);
        }
        let ghost r0 = seqs(r@);
        r.insert(k, l);
        proof {
            assert(seqs(r@) =~= r0.insert(k, m@[k]@));
            assert(ks.take(i as int + 1) =~= ks.take(i as int).push(k));
            ks.take(i as int).lemma_push_to_set_commute(k);
            assert(seqs(r@) =~= seqs(m@).restrict(ks.take(i as int + 1).to_set()));
        }
        i = i + 1;
    }
    proof {
        assert(ks.take(ks.len() as int) =~= ks);
        assert(seqs(r@) =~= seqs(m@));
    }
    r
}

/// A copy of a set.
fn copy_set(s: &HashSet<usize>) -> (r: HashSet<usize>)
    ensures
        r@ == s@,
{
    let elems = set_elems(s);
    let ghost es = elems@;
    let mut r: HashSet<usize> = HashSet::new();
    let mut i: usize = 0;
    while i < elems.len()
        invariant
            i <= es.len(),
            es == elems@,
            r@ == es.take(i as int).to_set(),
        decreases es.len() - i,
    {
        let v = elems[i];
        r.insert(v);
        proof {
            assert(es.take(i as int + 1) =~= es.take(i as int).push(v));
            es.take(i as int).lemma_push_to_set_commute(v);
        }
        i = i + 1;
    }
    proof {
        assert(es.take(es.len() as int) =~= es);
    }
    r
}

/// The vertices of `vs` without parents left in `ps`, in the order in which
/// the set is walked; they are also added at the end of `topo`.
fn take_layer(vs: &HashSet<usize>, ps: &HashMap<usize, Vec<usize>>, topo: &mut Vec<usize>) -> (t: Vec<usize>)
    requires
        vs@.subset_of(ps@.dom()),
    ensures
        t@.to_set() == layer(vs@, seqs(ps@)),
        t@.no_duplicates(),
        final(topo)@ == old(topo)@ + t@,
{
    let elems = set_elems(vs);
    let ghost es = elems@;
    let ghost pv = seqs(ps@);
    let mut t: Vec<usize> = Vec::new();
    let mut i: usize = 0;
    while i < elems.len()
        invariant
            i <= es.len(),
            es == elems@,
            es.no_duplicates(),
            es.to_set() == vs@,
            vs@.subset_of(ps@.dom()),
            pv == seqs(ps@),
            t@.to_set() == es.take(i as int).to_set().filter(|v: usize| list_of(pv, v).len() == 0),
            t@.no_duplicates(),
            forall|j: int| 0 <= j < t@.len() ==> es.take(i as int).contains(#[trigger] t@[j]),
            topo@ == old(topo)@ + t@,
        decreases es.len() - i,
    {
        let v = elems[i];
        proof {
            assert(es.to_set().contains(v));
            assert(es.take(i as int + 1) =~= es.take(i as int).push(v));
            es.take(i as int).lemma_push_to_set_commute(v);
            assert(!es.take(i as int).contains(v)) by {
                if es.take(i as int).contains(v) {
                    let j = choose|j: int| 0 <= j < i && es.take(i as int)[j] == v;
                    assert(es[j] == es[i as int]);
                }
            }
        }
        let n = ps.get(&v).unwrap().len();
        proof {
            assert(list_of(pv, v).len() == n);
        }
        let ghost t0 = t@;
        if n == 0 {
            t.push(v);
            topo.push(v);
            proof {
                t0.lemma_push_to_set_commute(v);
                assert(t@.to_set() =~= es.take(i as int + 1).to_set().filter(|w: usize| list_of(pv, w).len() == 0));
                assert forall|j: int| 0 <= j < t@.len() implies es.take(i as int + 1).contains(#[trigger] t@[j]) by {
                    if j < t0.len() {
                        assert(es.take(i as int).contains(t0[j]));
                    } else {
                        assert(es.take(i as int + 1)[i as int] == v);
                    }
                }
                assert forall|a: int, b: int| 0 <= a < t@.len() && 0 <= b < t@.len() && a != b implies t@[a] != t@[b] by {
                    if a < t0.len() && b == t0.len() {
                        assert(es.take(i as int).contains(t0[a]));
                    }
                    if b < t0.len() && a == t0.len() {
                        assert(es.take(i as int).contains(t0[b]));
                    }
                }
                assert(topo@ =~= old(topo)@ + t@);
            }
        } else {
            proof {
                assert(t@.to_set() =~= es.take(i as int + 1).to_set().filter(|w: usize| list_of(pv, w).len() == 0));
                assert forall|j: int| 0 <= j < t@.len() implies es.take(i as int + 1).contains(#[trigger] t@[j]) by {
                    assert(es.take(i as int).contains(t@[j]));
                    let q = choose|q: int| 0 <= q < i && es.take(i as int)[q] == t@[j];
                    assert(es.take(i as int + 1)[q] == t@[j]);
                }
            }
        }
        i = i + 1;
    }
    proof {
        assert(es.take(es.len() as int) =~= es);
        assert(t@.to_set() =~= layer(vs@, seqs(ps@)));
    }
    t
}

/// Takes the vertices of `t` out of `vs`, and one occurrence of each of
/// them out of every list of `ps`.
fn take_out(vs: &mut HashSet<usize>, ps: &mut HashMap<usize, Vec<usize>>, t: &Vec<usize>)
    requires
        t@.no_duplicates(),
    ensures
        final(vs)@ == old(vs)@.difference(t@.to_set()),
        seqs(final(ps)@) == strip(seqs(old(ps)@), t@.to_set()),
{
    let ghost p0 = seqs(ps@);
    let ghost v0 = vs@;
    proof {
        assert(strip(p0, Set::empty()) =~= p0) by {
            assert forall|k: usize| #[trigger] p0.contains_key(k) implies strip(p0, Set::empty())[k] == p0[k] by {
                lemma_remove_each_empty(p0[k]);
            }
        }
        assert(t@.take(0).to_set() =~= Set::<usize>::empty());
        assert(v0.difference(Set::empty()) =~= v0);
    }
    let mut k: usize = 0;
    while k < t.len()
        invariant
            k <= t@.len(),
            t@.no_duplicates(),
            vs@ == v0.difference(t@.take(k as int).to_set()),
            seqs(ps@) == strip(p0, t@.take(k as int).to_set()),
        decreases t@.len() - k,
    {
        let v = t[k];
        let ghost a = t@.take(k as int).to_set();
        proof {
            assert(t@.take(k as int + 1) =~= t@.take(k as int).push(v));
            t@.take(k as int).lemma_push_to_set_commute(v);
            assert(!a.contains(v)) by {
                if a.contains(v) {
                    let j = choose|j: int| 0 <= j < k && t@.take(k as int)[j] == v;
                    assert(t@[j] == t@[k as int]);
                }
            }
        }
        vs.remove(&v);
        remove_from_lists(ps, v);
        proof {
            assert(vs@ =~= v0.difference(a.insert(v)));
            assert forall|w: usize| #[trigger] p0.contains_key(w) implies seqs(ps@)[w] == strip(p0, a.insert(v))[w] by {
                lemma_remove_each_insert(p0[w], a, v);
            }
            assert(seqs(ps@) =~= strip(p0, a.insert(v)));
        }
        k = k + 1;
    }
    proof {
        assert(t@.take(t@.len() as int) =~= t@);
    }
}

/// A topological sort of `graph` by layers: the vertices without parents,
/// then those whose parents are all in the first layer, and so on (see
/// `topo_layers`); each layer is listed in the order in which the set of
/// vertices is walked. The first list holds all the layers, one after the
/// other.
pub fn graph_topo_sort(graph: &Graph) -> (r: (Vec<usize>, Vec<Vec<usize>>))
    requires
        topo_ends(graph@),
    ensures
        lists_layers(r.1@, topo_layers(graph@.vertexs, graph@.parents, graph@.vertexs.len()).unwrap()),
        r.0@ == flat(r.1@),
{
    let mut topo_index: Vec<usize> = Vec::new();
    let mut layers: Vec<Vec<usize>> = Vec::new();
    let mut vs = copy_set(&graph.vertexs);
    let mut ps = copy_lists(&graph.parents);
    let ghost all = topo_layers(graph@.vertexs, graph@.parents, graph@.vertexs.len()).unwrap();
    let ghost mut fuel: nat = graph@.vertexs.len();
    let ghost dom = graph@.parents.dom();
    proof {
        assert(all.take(0) + all =~= all);
        assert(flat(layers@) =~= Seq::<usize>::empty());
    }
    while vs.len() != 0
        invariant
            vs@.subset_of(dom),
            seqs(ps@).dom() == dom,
            topo_layers(vs@, seqs(ps@), fuel) is Some,
            layers@.len() <= all.len(),
            lists_layers(layers@, all.take(layers@.len() as int)),
            all == all.take(layers@.len() as int) + topo_layers(vs@, seqs(ps@), fuel).unwrap(),
            topo_index@ == flat(layers@),
        decreases fuel,
    {
        let ghost l = layer(vs@, seqs(ps@));
        let ghost rest = topo_layers(vs@.difference(l), strip(seqs(ps@), l), (fuel - 1) as nat).unwrap();
        let ghost n = layers@.len();
        let t = take_layer(&vs, &ps, &mut topo_index);
        take_out(&mut vs, &mut ps, &t);
        let ghost tv = t@;
        let ghost lay0 = layers@;
        layers.push(t);
        proof {
            assert(all.take(n as int + 1) =~= all.take(n as int).push(l)) by {
                assert(all[n as int] == l);
            }
            assert(all =~= all.take(n as int + 1) + rest);
            assert(layers@.drop_last() =~= lay0);
            assert(layers@.take(layers@.len() as int) =~= layers@);
            assert(flat(layers@) == flat(lay0) + tv);
            assert forall|i: int| 0 <= i < layers@.len() implies (#[trigger] layers@[i])@.to_set() == all.take(n as int + 1)[i]
                && layers@[i]@.no_duplicates() by {
                if i < n {
                    assert(layers@[i] == lay0[i]);
                    assert(lay0[i]@.to_set() == all.take(n as int)[i]);
                }
            }
            fuel = (fuel - 1) as nat;
        }
    }
    proof {
        assert(all.take(layers@.len() as int) =~= all);
    }
    (topo_index, layers)
}

proof fn lemma_simplified_vertices(nodes: Set<usize>, edges: Map<usize, CFGEdge>, ks: Seq<usize>)
    ensures
        simplified(nodes, edges, ks).vertexs == nodes,
        nodes.subset_of(simplified(nodes, edges, ks).parents.dom()),
        nodes.subset_of(simplified(nodes, edges, ks).childs.dom()),
    decreases ks.len(),
{
    if ks.len() > 0 {
        lemma_simplified_vertices(nodes, edges, ks.drop_last());
    }
}

/// The layering of the graph of `cfg` ends, whatever the order in which its
/// edges are added.
pub open spec fn cfg_topo_ends(cfg: &ControlFlowGraph) -> bool {
    forall|ks: Seq<usize>| ks.to_set() == cfg.edges@.dom() && ks.no_duplicates()
        ==> topo_ends(#[trigger] simplified(cfg.nodes@.dom(), cfg.edges@, ks))
}

/// A topological sort by layers of the plain graph of `cfg` (see
/// `graph_topo_sort` and `simplify`).
pub fn topo_sort(cfg: &ControlFlowGraph) -> (r: (Vec<usize>, Vec<Vec<usize>>))
    requires
        cfg_topo_ends(cfg),
    ensures
        exists|ks: Seq<usize>| ks.to_set() == cfg.edges@.dom() && ks.no_duplicates() && {
            let g = #[trigger] simplified(cfg.nodes@.dom(), cfg.edges@, ks);
            &&& lists_layers(r.1@, topo_layers(g.vertexs, g.parents, g.vertexs.len()).unwrap())
            &&& layers_sort(g, r.1@)
        },
        r.0@ == flat(r.1@),
{
    let order = map_keys(&cfg.edges);
    let graph = simplify_in_order(cfg, &order);
    let r = graph_topo_sort(&graph);
    proof {
        let g = simplified(cfg.nodes@.dom(), cfg.edges@, order@);
        let ls = topo_layers(g.vertexs, g.parents, g.vertexs.len()).unwrap();
        assert(lists_layers(r.1@, ls));
        lemma_simplified_vertices(cfg.nodes@.dom(), cfg.edges@, order@);
        lemma_topo_layers_order(g.vertexs, g.parents, g.vertexs.len());
        assert forall|v: usize| g.vertexs.contains(v) implies exists|i: int| 0 <= i < r.1@.len() && #[trigger] r.1@[i]@.contains(v) by {
            let i = choose|i: int| 0 <= i < ls.len() && #[trigger] ls[i].contains(v);
            assert(r.1@[i]@.to_set().contains(v));
        }
        assert forall|i: int, j: int, v: usize| 0 <= i < r.1@.len() && 0 <= j < r.1@.len() && #[trigger] r.1@[i]@.contains(v)
            && #[trigger] r.1@[j]@.contains(v) implies i == j by {
            assert(r.1@[i]@.to_set().contains(v));
            assert(r.1@[j]@.to_set().contains(v));
            assert(ls[i].contains(v) && ls[j].contains(v));
        }
        assert forall|a: usize, b: usize| g.vertexs.contains(a) && g.vertexs.contains(b) && #[trigger] g.parents[b].contains(a)
            implies exists|i: int, j: int| 0 <= i < j < r.1@.len() && #[trigger] r.1@[i]@.contains(a) && #[trigger] r.1@[j]@.contains(b) by {
            let j = choose|j: int| 0 <= j < ls.len() && #[trigger] ls[j].contains(b);
            let i = choose|i: int| 0 <= i < j && #[trigger] ls[i].contains(a);
            assert(r.1@[i]@.to_set().contains(a));
            assert(r.1@[j]@.to_set().contains(b));
        }
    }
    r
}

/// The layers `ls` sort the graph `g`: each vertex is in exactly one
/// layer, and each edge goes from a vertex of an earlier layer to one of a
/// later layer.
pub open spec fn layers_sort(g: GraphView, ls: Seq<Vec<usize>>) -> bool {
    &&& forall|v: usize| g.vertexs.contains(v) ==> exists|i: int| 0 <= i < ls.len() && #[trigger] ls[i]@.contains(v)
    &&& forall|i: int, j: int, v: usize| 0 <= i < ls.len() && 0 <= j < ls.len() && #[trigger] ls[i]@.contains(v)
        && #[trigger] ls[j]@.contains(v) ==> i == j
    &&& forall|a: usize, b: usize| g.vertexs.contains(a) && g.vertexs.contains(b) && #[trigger] g.parents[b].contains(a)
        ==> exists|i: int, j: int| 0 <= i < j < ls.len() && #[trigger] ls[i]@.contains(a) && #[trigger] ls[j]@.contains(b)
}

proof fn lemma_remove_each_keeps(s: Seq<usize>, l: Set<usize>, x: usize)
    requires
        s.contains(x),
        !l.contains(x),
    ensures
        remove_each(s, l).contains(x),
    decreases s.len(),
{
    if s[0] == x {
        assert((seq![x] + remove_each(s.drop_first(), l))[0] == x);
    } else {
        let j = choose|j: int| 0 <= j < s.len() && s[j] == x;
        assert(s.drop_first()[j - 1] == x);
        if l.contains(s[0]) {
            lemma_remove_each_keeps(s.drop_first(), l.remove(s[0]), x);
        } else {
            lemma_remove_each_keeps(s.drop_first(), l, x);
            let r = remove_each(s.drop_first(), l);
            let q = choose|q: int| 0 <= q < r.len() && r[q] == x;
            assert((seq![s[0]] + r)[q + 1] == x);
        }
    }
}

/// The layers of a topological sort split the vertices: each vertex is in
/// exactly one layer; and a parent of a vertex (one of its vertices) is in
/// an earlier layer than the vertex.
pub proof fn lemma_topo_layers_order(vs: Set<usize>, ps: Map<usize, Seq<usize>>, fuel: nat)
    requires
        vs.finite(),
        vs.subset_of(ps.dom()),
        topo_layers(vs, ps, fuel) is Some,
    ensures
        ({
            let ls = topo_layers(vs, ps, fuel).unwrap();
            &&& forall|i: int| 0 <= i < ls.len() ==> (#[trigger] ls[i]).subset_of(vs)
            &&& forall|v: usize| vs.contains(v) ==> exists|i: int| 0 <= i < ls.len() && #[trigger] ls[i].contains(v)
            &&& forall|i: int, j: int, v: usize| 0 <= i < j < ls.len() && #[trigger] ls[i].contains(v) ==> !#[trigger] ls[j].contains(v)
            &&& forall|i: int, v: usize, p: usize| 0 <= i < ls.len() && #[trigger] ls[i].contains(v) && vs.contains(p)
                && #[trigger] ps[v].contains(p) ==> exists|j: int| 0 <= j < i && #[trigger] ls[j].contains(p)
        }),
    decreases fuel,
{
    let ls = topo_layers(vs, ps, fuel).unwrap();
    if vs.len() == 0 {
        assert(vs =~= Set::<usize>::empty()) by {
            if exists|v: usize| vs.contains(v) {
                let v = choose|v: usize| vs.contains(v);
                vstd::set_lib::lemma_set_empty_equivalency_len(vs);
            }
        }
    } else {
        let l = layer(vs, ps);
        let vs2 = vs.difference(l);
        let ps2 = strip(ps, l);
        let f2 = (fuel - 1) as nat;
        lemma_topo_layers_order(vs2, ps2, f2);
        let rest = topo_layers(vs2, ps2, f2).unwrap();
        assert(ls == seq![l] + rest);
        assert forall|i: int| 0 <= i < ls.len() implies (#[trigger] ls[i]).subset_of(vs) by {
            if i > 0 {
                assert(ls[i] == rest[i - 1]);
            }
        }
        assert forall|v: usize| vs.contains(v) implies exists|i: int| 0 <= i < ls.len() && #[trigger] ls[i].contains(v) by {
            if l.contains(v) {
                assert(ls[0].contains(v));
            } else {
                assert(vs2.contains(v));
                let i = choose|i: int| 0 <= i < rest.len() && #[trigger] rest[i].contains(v);
                assert(ls[i + 1].contains(v));
            }
        }
        assert forall|i: int, j: int, v: usize| 0 <= i < j < ls.len() && #[trigger] ls[i].contains(v) implies !#[trigger] ls[j].contains(v) by {
            assert(ls[j] == rest[j - 1]);
            if i > 0 {
                assert(ls[i] == rest[i - 1]);
            } else {
                assert(rest[j - 1].subset_of(vs2));
            }
        }
        assert forall|i: int, v: usize, p: usize| 0 <= i < ls.len() && #[trigger] ls[i].contains(v) && vs.contains(p)
            && #[trigger] ps[v].contains(p) implies exists|j: int| 0 <= j < i && #[trigger] ls[j].contains(p) by {
            if i == 0 {
                assert(list_of(ps, v).len() == 0);
            } else {
                assert(ls[i] == rest[i - 1]);
                assert(rest[i - 1].subset_of(vs2));
                if l.contains(p) {
                    assert(ls[0].contains(p));
                } else {
                    lemma_remove_each_keeps(ps[v], l, p);
                    assert(ps2[v].contains(p));
                    assert(vs2.contains(p));
                    let j = choose|j: int| 0 <= j < i - 1 && #[trigger] rest[j].contains(p);
                    assert(ls[j + 1].contains(p));
                }
            }
        }
    }
}

/// The index of the first occurrence of `x` in `s`.
pub open spec fn first_index(s: Seq<usize>, x: usize) -> int
    decreases s.len(),
{
    if s.len() == 0 || s[0] == x {
        0
    } else {
        1 + first_index(s.drop_first(), x)
    }
}

/// The vertices of `g` are the numbers below `n`, each with a list of
/// children that are vertices.
pub open spec fn dfs_ready(g: GraphView, n: nat) -> bool {
    &&& forall|v: usize| #[trigger] g.vertexs.contains(v) <==> v < n
    &&& forall|v: usize| #[trigger] g.vertexs.contains(v) ==> g.childs.contains_key(v)
    &&& forall|v: usize, i: int| g.vertexs.contains(v) && 0 <= i < g.childs[v].len()
        ==> #[trigger] g.childs[v][i] < n
}

/// The cycles found by a depth-first walk from `v`, entered with the path
/// `stack`, and the vertices it visits. `fuel` bounds the depth.
pub open spec fn dfs_vertex(g: GraphView, stack: Seq<usize>, v: usize, fuel: nat) -> (Seq<Seq<usize>>, Set<usize>)
    decreases fuel, 1nat, 0nat,
{
    if fuel == 0 {
        (Seq::empty(), set![v])
    } else {
        let r = dfs_children(g, stack.push(v), g.childs[v], (fuel - 1) as nat);
        (r.0, r.1.insert(v))
    }
}

/// The cycles found by walking the children `cs` in turn, on the path `s`:
/// a child on the path closes the cycle that starts at it; another child is
/// walked from.
pub open spec fn dfs_children(g: GraphView, s: Seq<usize>, cs: Seq<usize>, fuel: nat) -> (Seq<Seq<usize>>, Set<usize>)
    decreases fuel, 2nat, cs.len(),
{
    if cs.len() == 0 {
        (Seq::empty(), Set::empty())
    } else {
        let r1 = dfs_children(g, s, cs.drop_last(), fuel);
        let c = cs.last();
        if s.contains(c) {
            (r1.0.push(s.subrange(first_index(s, c), s.len() as int)), r1.1)
        } else {
            let r2 = dfs_vertex(g, s, c, fuel);
            (r1.0 + r2.0, r1.1 + r2.1)
        }
    }
}

/// The cycles found by walking from each vertex below `k` in turn that no
/// earlier walk has visited, and the vertices visited.
pub open spec fn cycle_walk(g: GraphView, n: nat, k: nat) -> (Seq<Seq<usize>>, Set<usize>)
    decreases k,
{
    if k == 0 {
        (Seq::empty(), Set::empty())
    } else {
        let r = cycle_walk(g, n, (k - 1) as nat);
        let v = (k - 1) as usize;
        if r.1.contains(v) {
            r
        } else {
            let r2 = dfs_vertex(g, Seq::empty(), v, n);
            (r.0 + r2.0, r.1 + r2.1)
        }
    }
}

/// The values of a list of vectors.
pub open spec fn views(ps: Seq<Vec<usize>>) -> Seq<Seq<usize>> {
    ps.map_values(|p: Vec<usize>| p@)
}

proof fn lemma_stack_short(s: Seq<usize>, n: nat, c: usize)
    requires
        s.no_duplicates(),
        forall|i: int| 0 <= i < s.len() ==> s[i] < n,
        c < n,
        n <= usize::MAX,
        !s.contains(c),
    ensures
        s.len() < n,
{
    let all = Set::new(|x: usize| x < n);
    lemma_range_len(n as usize);
    assert(all =~= Set::new(|x: usize| x < n as usize));
    s.unique_seq_to_set();
    assert(s.to_set().subset_of(all.remove(c)));
    vstd::set_lib::lemma_len_subset(s.to_set(), all.remove(c));
}

/// The suffix of `s` from the first occurrence of `c`.
fn cycle_from(s: &Vec<usize>, c: usize) -> (r: Vec<usize>)
    requires
        s@.contains(c),
    ensures
        r@ == s@.subrange(first_index(s@, c), s@.len() as int),
{
    let mut r: Vec<usize> = Vec::new();
    let mut cycle = false;
    let mut i: usize = 0;
    let ghost f = first_index(s@, c);
    proof {
        lemma_first_index(s@, c);
    }
    while i < s.len()
        invariant
            i <= s@.len(),
            0 <= f < s@.len(),
            s@[f] == c,
            forall|j: int| 0 <= j < f ==> s@[j] != c,
            cycle == (f < i),
            r@ == if cycle { s@.subrange(f, i as int) } else { Seq::empty() },
        decreases s@.len() - i,
    {
        if s[i] == c {
            cycle = true;
        }
        if cycle {
            r.push(s[i]);
        }
        proof {
            if f < i {
                assert(s@.subrange(f, i as int + 1) =~= s@.subrange(f, i as int).push(s@[i as int]));
            } else if f == i {
                assert(s@.subrange(f, i as int + 1) =~= seq![s@[i as int]]);
            }
        }
        i = i + 1;
    }
    r
}

proof fn lemma_first_index(s: Seq<usize>, c: usize)
    requires
        s.contains(c),
    ensures
        0 <= first_index(s, c) < s.len(),
        s[first_index(s, c)] == c,
        forall|j: int| 0 <= j < first_index(s, c) ==> s[j] != c,
    decreases s.len(),
{
    if s[0] != c {
        let j = choose|j: int| 0 <= j < s.len() && s[j] == c;
        assert(s.drop_first()[j - 1] == c);
        lemma_first_index(s.drop_first(), c);
        assert forall|j: int| 0 <= j < first_index(s, c) implies s[j] != c by {
            if j > 0 {
                assert(s[j] == s.drop_first()[j - 1]);
            }
        }
    }
}

/// Each of the `n` marks is the old one, or set for `v` or for a vertex of `vis`.
spec fn marks_ok(marked: Seq<bool>, m0: Seq<bool>, v: usize, vis: Set<usize>, n: usize) -> bool {
    forall|x: int| 0 <= x < n ==> #[trigger] marked[x] == (m0[x] || x == v || vis.contains(x as usize))
}

/// Walks depth-first from `v` on the path `stack`, adding the cycles found
/// to `paths` and marking the vertices visited (see `dfs_vertex`).
fn cycle_path_dfs(
    graph: &Graph,
    n: usize,
    v: usize,
    paths: &mut Vec<Vec<usize>>,
    stack: &mut Vec<usize>,
    instack: &mut Vec<bool>,
    marked: &mut Vec<bool>,
)
    requires
        dfs_ready(graph@, n as nat),
        v < n,
        old(stack)@.no_duplicates(),
        forall|i: int| 0 <= i < old(stack)@.len() ==> old(stack)@[i] < n,
        !old(stack)@.contains(v),
        old(instack)@.len() == n,
        forall|x: int| 0 <= x < n ==> old(instack)@[x] == old(stack)@.contains(x as usize),
        old(marked)@.len() == n,
    ensures
        final(stack)@ == old(stack)@,
        final(instack)@ == old(instack)@,
        final(marked)@.len() == n,
        ({
            let r = dfs_vertex(graph@, old(stack)@, v, (n - old(stack)@.len()) as nat);
            &&& views(final(paths)@) == views(old(paths)@) + r.0
            &&& forall|x: int| 0 <= x < n ==> final(marked)@[x] == (old(marked)@[x] || r.1.contains(x as usize))
        }),
    decreases n - old(stack)@.len(),
{
    let ghost g = graph@;
    let ghost s0 = stack@;
    let ghost p0 = paths@;
    let ghost m0 = marked@;
    let ghost i0 = instack@;
    proof {
        lemma_stack_short(s0, n as nat, v);
    }
    let ghost f = (n - s0.len()) as nat;
    instack.set(v, true);
    marked.set(v, true);
    stack.push(v);
    let ghost s2 = stack@;
    proof {
        assert(g.vertexs.contains(v));
    }
    let cs = graph.childs.get(&v).unwrap();
    let ghost csv = cs@;
    proof {
        assert(csv == g.childs[v]);
        assert(csv.take(0) =~= Seq::<usize>::empty());
        assert(views(paths@) =~= views(p0) + Seq::<Seq<usize>>::empty());
        assert forall|x: int| 0 <= x < n implies instack@[x] == s2.contains(x as usize) by {
            if x == v {
                assert(s2[s0.len() as int] == v);
            } else {
                assert(s0.contains(x as usize) == s2.contains(x as usize)) by {
                    if s2.contains(x as usize) {
                        let j = choose|j: int| 0 <= j < s2.len() && s2[j] == x as usize;
                        assert(s0[j] == x as usize);
                    }
                    if s0.contains(x as usize) {
                        let j = choose|j: int| 0 <= j < s0.len() && s0[j] == x as usize;
                        assert(s2[j] == x as usize);
                    }
                }
            }
        }
    }
    let mut i: usize = 0;
    while i < cs.len()
        invariant
            dfs_ready(g, n as nat),
            g == graph@,
            csv == cs@,
            csv == g.childs[v],
            i <= csv.len(),
            v < n,
            f >= 1,
            f - 1 == n - s2.len(),
            s0 == old(stack)@,
            s2 == s0.push(v),
            stack@ == s2,
            s2.no_duplicates(),
            forall|j: int| 0 <= j < s2.len() ==> s2[j] < n,
            instack@.len() == n,
            forall|x: int| 0 <= x < n ==> instack@[x] == s2.contains(x as usize),
            marked@.len() == n,
            views(paths@) == views(p0) + dfs_children(g, s2, csv.take(i as int), (f - 1) as nat).0,
            marks_ok(marked@, m0, v, dfs_children(g, s2, csv.take(i as int), (f - 1) as nat).1, n),
        decreases csv.len() - i,
    {
        let c = cs[i];
        proof {
            assert(c < n);
            assert(csv.take(i as int + 1).drop_last() =~= csv.take(i as int));
            assert(csv.take(i as int + 1).last() == c);
        }
        let ghost r1 = dfs_children(g, s2, csv.take(i as int), (f - 1) as nat);
        let inst = instack[c];
        proof {
            assert(inst == s2.contains(c));
        }
        if !inst {
            let ghost pb = paths@;
            let ghost mb = marked@;
            assert forall|x: int| 0 <= x < n implies mb[x] == (m0[x] || x == v || r1.1.contains(x as usize)) by {
                assert(marked@[x] == (m0[x] || x == v || r1.1.contains(x as usize)));
            }
            cycle_path_dfs(graph, n, c, paths, stack, instack, marked);
            proof {
                let r2 = dfs_vertex(g, s2, c, (f - 1) as nat);
                assert(!s2.contains(c));
                assert(dfs_children(g, s2, csv.take(i as int + 1), (f - 1) as nat) == (r1.0 + r2.0, r1.1 + r2.1));
                assert(views(paths@) =~= views(p0) + (r1.0 + r2.0));
                assert forall|x: int| 0 <= x < n implies marked@[x] == (m0[x] || x == v
                    || (r1.1 + r2.1).contains(x as usize)) by {
                    assert(marked@[x] == (mb[x] || r2.1.contains(x as usize)));
                }
                assert forall|x: int| 0 <= x < n implies marked@[x] == (m0[x] || x == v
                    || dfs_children(g, s2, csv.take(i as int + 1), (f - 1) as nat).1.contains(x as usize)) by {
                    assert(marked@[x] == (m0[x] || x == v || (r1.1 + r2.1).contains(x as usize)));
                }
            }
        } else {
            let path = cycle_from(stack, c);
            let ghost pb = paths@;
            paths.push(path);
            proof {
                assert(s2.contains(c));
                assert(dfs_children(g, s2, csv.take(i as int + 1), (f - 1) as nat)
                    == (r1.0.push(s2.subrange(first_index(s2, c), s2.len() as int)), r1.1));
                assert(views(paths@) =~= views(pb).push(s2.subrange(first_index(s2, c), s2.len() as int)));
                assert(views(paths@) =~= views(p0) + r1.0.push(s2.subrange(first_index(s2, c), s2.len() as int)));
                assert forall|x: int| 0 <= x < n implies marked@[x] == (m0[x] || x == v
                    || dfs_children(g, s2, csv.take(i as int + 1), (f - 1) as nat).1.contains(x as usize)) by {
                    assert(marked@[x] == (m0[x] || x == v || r1.1.contains(x as usize)));
                }
            }
        }
        proof {
            assert(marks_ok(marked@, m0, v, dfs_children(g, s2, csv.take(i as int + 1), (f - 1) as nat).1, n));
        }
        i = i + 1;
    }
    proof {
        assert(csv.take(csv.len() as int) =~= csv);
    }
    instack.set(v, false);
    stack.pop();
    proof {
        assert(stack@ =~= s0);
        assert(instack@ =~= i0) by {
            assert forall|x: int| 0 <= x < n implies instack@[x] == i0[x] by {
                if x == v {
                    assert(!s0.contains(v));
                } else {
                    assert(s0.contains(x as usize) == s2.contains(x as usize)) by {
                        if s2.contains(x as usize) {
                            let j = choose|j: int| 0 <= j < s2.len() && s2[j] == x as usize;
                            assert(s0[j] == x as usize);
                        }
                        if s0.contains(x as usize) {
                            let j = choose|j: int| 0 <= j < s0.len() && s0[j] == x as usize;
                            assert(s2[j] == x as usize);
                        }
                    }
                }
            }
        }
    }
}

/// `n` marks, all unset.
fn unmarked(n: usize) -> (r: Vec<bool>)
    ensures
        r@.len() == n,
        forall|i: int| 0 <= i < n ==> !r@[i],
{
    let mut r: Vec<bool> = Vec::new();
    let mut i: usize = 0;
    while i < n
        invariant
            i <= n,
            r@.len() == i,
            forall|j: int| 0 <= j < i ==> !r@[j],
        decreases n - i,
    {
        r.push(false);
        i = i + 1;
    }
    r
}

/// The nodes of `cfg` are numbered from 0 without gaps, and every edge
/// leads to a node.
pub open spec fn cycle_ready(cfg: &ControlFlowGraph) -> bool {
    &&& forall|v: usize| #[trigger] cfg.nodes@.contains_key(v) <==> v < cfg.nodes@.len()
    &&& forall|k: usize| #[trigger] cfg.edges@.contains_key(k) ==> cfg.nodes@.contains_key((cfg.edges@[k].to as usize))
}

proof fn lemma_simplified_children(nodes: Set<usize>, edges: Map<usize, CFGEdge>, ks: Seq<usize>)
    requires
        forall|i: int| 0 <= i < ks.len() ==> edges.contains_key(#[trigger] ks[i]),
        forall|k: usize| #[trigger] edges.contains_key(k) ==> nodes.contains((edges[k].to as usize)),
    ensures
        forall|v: usize, i: int| simplified(nodes, edges, ks).childs.contains_key(v) && 0 <= i < simplified(nodes, edges, ks).childs[v].len()
            ==> nodes.contains(#[trigger] simplified(nodes, edges, ks).childs[v][i]),
    decreases ks.len(),
{
    if ks.len() > 0 {
        let ks0 = ks.drop_last();
        assert forall|i: int| 0 <= i < ks0.len() implies edges.contains_key(#[trigger] ks0[i]) by {
            assert(ks0[i] == ks[i]);
        }
        lemma_simplified_children(nodes, edges, ks0);
        assert(edges.contains_key(ks[ks.len() - 1]));
        let g0 = simplified(nodes, edges, ks0);
        let g1 = simplified(nodes, edges, ks);
        let (f, t) = edge_ends(edges[ks.last()]);
        assert(nodes.contains(t));
        assert forall|v: usize, i: int| g1.childs.contains_key(v) && 0 <= i < g1.childs[v].len()
            implies nodes.contains(#[trigger] g1.childs[v][i]) by {
            if v == f {
                if i < list_of(g0.childs, f).len() {
                    assert(g0.childs.contains_key(f));
                    assert(g1.childs[v][i] == g0.childs[f][i]);
                }
            } else {
                assert(g1.childs[v] == g0.childs[v]);
            }
        }
    } else {
        let g1 = simplified(nodes, edges, ks);
        assert forall|v: usize, i: int| g1.childs.contains_key(v) && 0 <= i < g1.childs[v].len()
            implies nodes.contains(#[trigger] g1.childs[v][i]) by {
            assert(g1.childs[v].len() == 0);
        }
    }
}

/// The cycles of the plain graph of `cfg` (see `simplify`), found by
/// walking depth-first from each vertex in turn, by number, that no earlier
/// walk has visited (see `cycle_walk`); a cycle is listed from the vertex
/// where the walk closed it.
pub fn get_cycle_paths(cfg: &ControlFlowGraph) -> (r: Vec<Vec<usize>>)
    requires
        cycle_ready(cfg),
    ensures
        exists|ks: Seq<usize>| ks.to_set() == cfg.edges@.dom() && ks.no_duplicates()
            && views(r@) == cycle_walk(#[trigger] simplified(cfg.nodes@.dom(), cfg.edges@, ks),
                cfg.nodes@.len(), cfg.nodes@.len()).0
            && forall|i: int| 0 <= i < r@.len() ==> is_simple_cycle(simplified(cfg.nodes@.dom(), cfg.edges@, ks), #[trigger] r@[i]@)
            && ((exists|c: Seq<usize>| is_cycle(simplified(cfg.nodes@.dom(), cfg.edges@, ks), c)
                && cfg.nodes@.dom().contains(c[0])) ==> r@.len() > 0),
{
    let order = map_keys(&cfg.edges);
    let graph = simplify_in_order(cfg, &order);
    let ghost g = graph@;
    let ghost nodes = cfg.nodes@.dom();
    proof {
        lemma_simplified_vertices(nodes, cfg.edges@, order@);
        assert forall|i: int| 0 <= i < order@.len() implies cfg.edges@.contains_key(#[trigger] order@[i]) by {
            assert(order@.to_set().contains(order@[i]));
        }
        lemma_simplified_children(nodes, cfg.edges@, order@);
        assert(nodes.len() == cfg.nodes@.len());
    }
    let n = graph.vertexs.len();
    proof {
        assert forall|v: usize, i: int| g.vertexs.contains(v) && 0 <= i < g.childs[v].len()
            implies #[trigger] g.childs[v][i] < n by {
            assert(nodes.contains(g.childs[v][i]));
        }
        assert(dfs_ready(g, n as nat));
    }
    let mut paths: Vec<Vec<usize>> = Vec::new();
    let mut stack: Vec<usize> = Vec::new();
    let mut instack = unmarked(n);
    let mut marked = unmarked(n);
    let mut v: usize = 0;
    proof {
        assert(views(paths@) =~= Seq::<Seq<usize>>::empty());
    }
    while v < n
        invariant
            g == graph@,
            dfs_ready(g, n as nat),
            v <= n,
            stack@ == Seq::<usize>::empty(),
            instack@.len() == n,
            forall|x: int| 0 <= x < n ==> !instack@[x],
            marked@.len() == n,
            views(paths@) == cycle_walk(g, n as nat, v as nat).0,
            forall|x: int| 0 <= x < n ==> #[trigger] marked@[x] == cycle_walk(g, n as nat, v as nat).1.contains(x as usize),
        decreases n - v,
    {
        let ghost w = cycle_walk(g, n as nat, v as nat);
        if !marked[v] {
            let ghost mb = marked@;
            let ghost pb = paths@;
            cycle_path_dfs(&graph, n, v, &mut paths, &mut stack, &mut instack, &mut marked);
            proof {
                let r2 = dfs_vertex(g, Seq::empty(), v, n as nat);
                assert(!w.1.contains(v));
                assert(cycle_walk(g, n as nat, v as nat + 1) == (w.0 + r2.0, w.1 + r2.1));
                assert(views(paths@) =~= w.0 + r2.0);
                assert forall|x: int| 0 <= x < n implies #[trigger] marked@[x] == (w.1 + r2.1).contains(x as usize) by {
                    assert(mb[x] == w.1.contains(x as usize));
                }
            }
        } else {
            proof {
                assert(w.1.contains(v));
                assert(cycle_walk(g, n as nat, v as nat + 1) == w);
            }
        }
        v = v + 1;
    }
    proof {
        let gs = simplified(nodes, cfg.edges@, order@);
        assert(views(paths@) == cycle_walk(gs, cfg.nodes@.len(), cfg.nodes@.len()).0);
        lemma_cycle_walk_cycles(gs, cfg.nodes@.len(), cfg.nodes@.len());
        assert forall|i: int| 0 <= i < paths@.len() implies is_simple_cycle(gs, #[trigger] paths@[i]@) by {
            assert(views(paths@)[i] == paths@[i]@);
        }
        if exists|c: Seq<usize>| is_cycle(gs, c) && nodes.contains(c[0]) {
            let c = choose|c: Seq<usize>| is_cycle(gs, c) && nodes.contains(c[0]);
            lemma_cycle_walk_complete(gs, n as nat, c);
            assert(views(paths@).len() == paths@.len());
        }
    }
    paths
}

/// Each vertex of `s` but the last has the next one among its children.
pub open spec fn is_path(g: GraphView, s: Seq<usize>) -> bool {
    forall|j: int| 0 <= j < s.len() - 1 ==> #[trigger] g.childs[s[j]].contains(s[j + 1])
}

/// `p` is a cycle of `g`: a path whose last vertex has the first among its
/// children.
pub open spec fn is_cycle(g: GraphView, p: Seq<usize>) -> bool {
    &&& p.len() > 0
    &&& is_path(g, p)
    &&& g.childs[p.last()].contains(p[0])
}

/// A cycle of `g` that passes no vertex twice.
pub open spec fn is_simple_cycle(g: GraphView, p: Seq<usize>) -> bool {
    &&& is_cycle(g, p)
    &&& p.no_duplicates()
}

proof fn lemma_dfs_vertex_cycles(g: GraphView, stack: Seq<usize>, v: usize, fuel: nat)
    requires
        is_path(g, stack.push(v)),
        stack.push(v).no_duplicates(),
    ensures
        forall|i: int| 0 <= i < dfs_vertex(g, stack, v, fuel).0.len()
            ==> is_simple_cycle(g, #[trigger] dfs_vertex(g, stack, v, fuel).0[i]),
    decreases fuel, 1nat, 0nat,
{
    if fuel > 0 {
        let cs = g.childs[v];
        assert forall|i: int| 0 <= i < cs.len() implies g.childs[stack.push(v).last()].contains(#[trigger] cs[i]) by {
            assert(stack.push(v).last() == v);
        }
        lemma_dfs_children_cycles(g, stack.push(v), cs, (fuel - 1) as nat);
        assert(dfs_vertex(g, stack, v, fuel).0 == dfs_children(g, stack.push(v), cs, (fuel - 1) as nat).0);
    }
}

proof fn lemma_dfs_children_cycles(g: GraphView, s: Seq<usize>, cs: Seq<usize>, fuel: nat)
    requires
        s.len() > 0,
        is_path(g, s),
        s.no_duplicates(),
        forall|i: int| 0 <= i < cs.len() ==> g.childs[s.last()].contains(#[trigger] cs[i]),
    ensures
        forall|i: int| 0 <= i < dfs_children(g, s, cs, fuel).0.len()
            ==> is_simple_cycle(g, #[trigger] dfs_children(g, s, cs, fuel).0[i]),
    decreases fuel, 2nat, cs.len(),
{
    if cs.len() > 0 {
        let cs0 = cs.drop_last();
        assert forall|i: int| 0 <= i < cs0.len() implies g.childs[s.last()].contains(#[trigger] cs0[i]) by {
            assert(cs0[i] == cs[i]);
        }
        lemma_dfs_children_cycles(g, s, cs0, fuel);
        let r1 = dfs_children(g, s, cs0, fuel);
        let c = cs.last();
        assert(g.childs[s.last()].contains(c)) by {
            assert(cs[cs.len() - 1] == c);
        }
        if s.contains(c) {
            lemma_first_index(s, c);
            let fi = first_index(s, c);
            let p = s.subrange(fi, s.len() as int);
            assert(is_path(g, p)) by {
                assert forall|j: int| 0 <= j < p.len() - 1 implies #[trigger] g.childs[p[j]].contains(p[j + 1]) by {
                    assert(p[j] == s[fi + j]);
                    assert(p[j + 1] == s[fi + j + 1]);
                    assert(g.childs[s[fi + j]].contains(s[fi + j + 1]));
                }
            }
            assert(p[0] == c);
            assert(p.last() == s.last());
            assert(p.no_duplicates()) by {
                assert forall|a: int, b: int| 0 <= a < p.len() && 0 <= b < p.len() && a != b implies p[a] != p[b] by {
                    assert(p[a] == s[fi + a]);
                    assert(p[b] == s[fi + b]);
                }
            }
            let r = dfs_children(g, s, cs, fuel);
            assert(r.0 == r1.0.push(p));
            assert forall|i: int| 0 <= i < r.0.len() implies is_simple_cycle(g, #[trigger] r.0[i]) by {
                if i < r1.0.len() {
                    assert(r.0[i] == r1.0[i]);
                }
            }
        } else {
            assert(is_path(g, s.push(c))) by {
                assert forall|j: int| 0 <= j < s.push(c).len() - 1 implies #[trigger] g.childs[s.push(c)[j]].contains(s.push(c)[j + 1]) by {
                    if j < s.len() - 1 {
                        assert(s.push(c)[j] == s[j]);
                        assert(s.push(c)[j + 1] == s[j + 1]);
                    } else {
                        assert(s.push(c)[j] == s.last());
                        assert(s.push(c)[j + 1] == c);
                    }
                }
            }
            assert(s.push(c).no_duplicates()) by {
                assert forall|a: int, b: int| 0 <= a < s.push(c).len() && 0 <= b < s.push(c).len() && a != b
                    implies s.push(c)[a] != s.push(c)[b] by {
                    if a < s.len() && b < s.len() {
                        assert(s.push(c)[a] == s[a]);
                        assert(s.push(c)[b] == s[b]);
                    } else if a < s.len() {
                        assert(s.push(c)[a] == s[a]);
                    } else {
                        assert(s.push(c)[b] == s[b]);
                    }
                }
            }
            lemma_dfs_vertex_cycles(g, s, c, fuel);
            let r2 = dfs_vertex(g, s, c, fuel);
            let r = dfs_children(g, s, cs, fuel);
            assert(r.0 == r1.0 + r2.0);
            assert forall|i: int| 0 <= i < r.0.len() implies is_simple_cycle(g, #[trigger] r.0[i]) by {
                if i < r1.0.len() {
                    assert(r.0[i] == r1.0[i]);
                } else {
                    assert(r.0[i] == r2.0[i - r1.0.len()]);
                }
            }
        }
    }
}

/// Every path that the walk for cycles reports is a simple cycle of the
/// graph: a cycle that passes no vertex twice.
pub proof fn lemma_cycle_walk_cycles(g: GraphView, n: nat, k: nat)
    ensures
        forall|i: int| 0 <= i < cycle_walk(g, n, k).0.len() ==> is_simple_cycle(g, #[trigger] cycle_walk(g, n, k).0[i]),
    decreases k,
{
    if k > 0 {
        lemma_cycle_walk_cycles(g, n, (k - 1) as nat);
        let r = cycle_walk(g, n, (k - 1) as nat);
        let v = (k - 1) as usize;
        if !r.1.contains(v) {
            assert(is_path(g, Seq::<usize>::empty().push(v)));
            assert(Seq::<usize>::empty().push(v).no_duplicates());
            lemma_dfs_vertex_cycles(g, Seq::empty(), v, n);
            let r2 = dfs_vertex(g, Seq::empty(), v, n);
            let w = cycle_walk(g, n, k);
            assert(w.0 == r.0 + r2.0);
            assert forall|i: int| 0 <= i < w.0.len() implies is_simple_cycle(g, #[trigger] w.0[i]) by {
                if i < r.0.len() {
                    assert(w.0[i] == r.0[i]);
                } else {
                    assert(w.0[i] == r2.0[i - r.0.len()]);
                }
            }
        }
    }
}


/// The numbers below `n`.
pub open spec fn below_set(n: nat) -> Set<usize> {
    Set::new(|x: usize| x < n)
}

/// Every element of `s` is below `n`.
pub open spec fn all_below(s: Seq<usize>, n: nat) -> bool {
    forall|i: int| 0 <= i < s.len() ==> #[trigger] s[i] < n
}

proof fn lemma_below_set(n: nat)
    ensures
        below_set(n).finite(),
        below_set(n).len() <= n,
    decreases n,
{
    if n == 0 {
        assert(below_set(n) =~= Set::<usize>::empty());
    } else {
        let m = (n - 1) as nat;
        lemma_below_set(m);
        if m <= usize::MAX {
            assert(below_set(n) =~= below_set(m).insert(m as usize));
        } else {
            assert(below_set(n) =~= below_set(m));
        }
    }
}

/// Distinct numbers below `n` are at most `n`.
proof fn lemma_distinct_below(s: Seq<usize>, n: nat)
    requires
        s.no_duplicates(),
        all_below(s, n),
    ensures
        s.len() <= n,
{
    s.unique_seq_to_set();
    lemma_below_set(n);
    assert(s.to_set().subset_of(below_set(n)));
    vstd::set_lib::lemma_len_subset(s.to_set(), below_set(n));
}

/// The walk over the children `cs` reports a cycle where one child closes
/// one or has a walk that reports one.
proof fn lemma_dfs_children_found(g: GraphView, s: Seq<usize>, cs: Seq<usize>, fuel: nat, j: int)
    requires
        0 <= j < cs.len(),
        s.contains(cs[j]) || dfs_vertex(g, s, cs[j], fuel).0.len() > 0,
    ensures
        dfs_children(g, s, cs, fuel).0.len() > 0,
    decreases cs.len(),
{
    let r1 = dfs_children(g, s, cs.drop_last(), fuel);
    if j < cs.len() - 1 {
        assert(cs.drop_last()[j] == cs[j]);
        lemma_dfs_children_found(g, s, cs.drop_last(), fuel, j);
    }
}

/// A walk that stands at `v` on the path `stack`: the path with `v` passes
/// no vertex twice, its vertices are below `n`, and the fuel left is what
/// the depth leaves of `n`.
pub open spec fn walk_at(g: GraphView, n: nat, stack: Seq<usize>, v: usize, fuel: nat) -> bool {
    &&& dfs_ready(g, n)
    &&& stack.push(v).no_duplicates()
    &&& all_below(stack.push(v), n)
    &&& fuel + stack.len() == n
}

proof fn lemma_push_fresh(s: Seq<usize>, c: usize)
    requires
        s.no_duplicates(),
        !s.contains(c),
    ensures
        s.push(c).no_duplicates(),
{
    assert forall|a: int, b: int| 0 <= a < s.push(c).len() && 0 <= b < s.push(c).len() && a != b
        implies s.push(c)[a] != s.push(c)[b] by {
        if a < s.len() {
            assert(s.push(c)[a] == s[a]);
        }
        if b < s.len() {
            assert(s.push(c)[b] == s[b]);
        }
    }
}

/// A walk from `v` that can get from `v` back onto its path `stack` with
/// `v` (by a path of at least one edge) reports a cycle.
proof fn lemma_dfs_vertex_back(g: GraphView, n: nat, stack: Seq<usize>, v: usize, fuel: nat, p: Seq<usize>)
    requires
        walk_at(g, n, stack, v, fuel),
        p.len() >= 2,
        p[0] == v,
        is_path(g, p),
        stack.push(v).contains(p.last()),
    ensures
        dfs_vertex(g, stack, v, fuel).0.len() > 0,
    decreases fuel,
{
    lemma_distinct_below(stack.push(v), n);
    let s2 = stack.push(v);
    let cs = g.childs[v];
    let c = p[1];
    let z: int = 0;
    assert(g.childs[p[z]].contains(p[z + 1]));
    let j = choose|j: int| 0 <= j < cs.len() && cs[j] == c;
    assert(s2.last() == v);
    assert(v < n) by {
        assert(s2[s2.len() - 1] == v);
    }
    assert(g.vertexs.contains(v));
    assert(c < n);
    if !s2.contains(c) {
        let q = p.drop_first();
        assert(q[0] == c);
        assert(is_path(g, q)) by {
            assert forall|k: int| 0 <= k < q.len() - 1 implies #[trigger] g.childs[q[k]].contains(q[k + 1]) by {
                assert(q[k] == p[k + 1]);
                assert(q[k + 1] == p[k + 2]);
                assert(g.childs[p[k + 1]].contains(p[k + 2]));
            }
        }
        assert(q.last() == p.last());
        if q.len() == 1 {
            assert(q.last() == c);
        }
        assert(s2.push(c).contains(q.last())) by {
            let k = choose|k: int| 0 <= k < s2.len() && s2[k] == q.last();
            assert(s2.push(c)[k] == q.last());
        }
        lemma_push_fresh(s2, c);
        assert(all_below(s2.push(c), n)) by {
            assert forall|k: int| 0 <= k < s2.push(c).len() implies #[trigger] s2.push(c)[k] < n by {
                if k < s2.len() {
                    assert(s2.push(c)[k] == s2[k]);
                }
            }
        }
        lemma_dfs_vertex_back(g, n, s2, c, (fuel - 1) as nat, q);
    }
    lemma_dfs_children_found(g, s2, cs, (fuel - 1) as nat, j);
}

/// A vertex visited by the walk over the children `cs` is visited by the
/// walk from one of them that is not on the path.
proof fn lemma_dfs_children_visit(g: GraphView, s: Seq<usize>, cs: Seq<usize>, fuel: nat, u: usize)
    requires
        dfs_children(g, s, cs, fuel).1.contains(u),
    ensures
        exists|j: int| 0 <= j < cs.len() && !s.contains(#[trigger] cs[j]) && dfs_vertex(g, s, cs[j], fuel).1.contains(u),
    decreases cs.len(),
{
    let r1 = dfs_children(g, s, cs.drop_last(), fuel);
    let c = cs.last();
    if r1.1.contains(u) {
        lemma_dfs_children_visit(g, s, cs.drop_last(), fuel, u);
        let j = choose|j: int| 0 <= j < cs.drop_last().len() && !s.contains(#[trigger] cs.drop_last()[j])
            && dfs_vertex(g, s, cs.drop_last()[j], fuel).1.contains(u);
        assert(cs.drop_last()[j] == cs[j]);
    } else {
        assert(cs[cs.len() - 1] == c);
    }
}

/// A walk that visits a vertex on a cycle reports a cycle.
proof fn lemma_dfs_vertex_visit(g: GraphView, n: nat, stack: Seq<usize>, v: usize, fuel: nat, u: usize, p: Seq<usize>)
    requires
        walk_at(g, n, stack, v, fuel),
        dfs_vertex(g, stack, v, fuel).1.contains(u),
        p.len() >= 2,
        p[0] == u,
        p.last() == u,
        is_path(g, p),
    ensures
        dfs_vertex(g, stack, v, fuel).0.len() > 0,
    decreases fuel,
{
    lemma_distinct_below(stack.push(v), n);
    let s2 = stack.push(v);
    assert(s2.last() == v);
    assert(v < n) by {
        assert(s2[s2.len() - 1] == v);
    }
    if u == v {
        assert(s2[s2.len() - 1] == v);
        lemma_dfs_vertex_back(g, n, stack, v, fuel, p);
    } else {
        let cs = g.childs[v];
        lemma_dfs_children_visit(g, s2, cs, (fuel - 1) as nat, u);
        let j = choose|j: int| 0 <= j < cs.len() && !s2.contains(#[trigger] cs[j])
            && dfs_vertex(g, s2, cs[j], (fuel - 1) as nat).1.contains(u);
        let c = cs[j];
        assert(g.vertexs.contains(v));
        assert(c < n);
        lemma_push_fresh(s2, c);
        assert(all_below(s2.push(c), n)) by {
            assert forall|k: int| 0 <= k < s2.push(c).len() implies #[trigger] s2.push(c)[k] < n by {
                if k < s2.len() {
                    assert(s2.push(c)[k] == s2[k]);
                }
            }
        }
        lemma_dfs_vertex_visit(g, n, s2, c, (fuel - 1) as nat, u, p);
        lemma_dfs_children_found(g, s2, cs, (fuel - 1) as nat, j);
    }
}

/// The walks from the vertices below `k` visit each of them.
proof fn lemma_cycle_walk_covers(g: GraphView, n: nat, k: nat, u: usize)
    requires
        u < k,
    ensures
        cycle_walk(g, n, k).1.contains(u),
    decreases k,
{
    let r = cycle_walk(g, n, (k - 1) as nat);
    let v = (k - 1) as usize;
    if u < k - 1 {
        lemma_cycle_walk_covers(g, n, (k - 1) as nat, u);
    }
}

/// Where the walks from the vertices below `k` visit a vertex on a cycle,
/// they report a cycle.
proof fn lemma_cycle_walk_visit(g: GraphView, n: nat, k: nat, u: usize, p: Seq<usize>)
    requires
        dfs_ready(g, n),
        k <= n,
        cycle_walk(g, n, k).1.contains(u),
        p.len() >= 2,
        p[0] == u,
        p.last() == u,
        is_path(g, p),
    ensures
        cycle_walk(g, n, k).0.len() > 0,
    decreases k,
{
    if k > 0 {
        let r = cycle_walk(g, n, (k - 1) as nat);
        let v = (k - 1) as usize;
        if r.1.contains(u) {
            lemma_cycle_walk_visit(g, n, (k - 1) as nat, u, p);
        } else if !r.1.contains(v) {
            let e = Seq::<usize>::empty();
            assert(e.push(v).no_duplicates());
            assert(all_below(e.push(v), n)) by {
                assert(e.push(v)[0] == v);
            }
            lemma_dfs_vertex_visit(g, n, e, v, n, u, p);
        }
    }
}

/// The walk for cycles reports some cycle wherever the graph has one: only
/// a graph without cycles gives no path.
pub proof fn lemma_cycle_walk_complete(g: GraphView, n: nat, c: Seq<usize>)
    requires
        dfs_ready(g, n),
        is_cycle(g, c),
        g.vertexs.contains(c[0]),
    ensures
        cycle_walk(g, n, n).0.len() > 0,
{
    let u = c[0];
    let p = c.push(u);
    assert(is_path(g, p)) by {
        assert forall|k: int| 0 <= k < p.len() - 1 implies #[trigger] g.childs[p[k]].contains(p[k + 1]) by {
            assert(p[k] == c[k]);
            if k < c.len() - 1 {
                assert(p[k + 1] == c[k + 1]);
                assert(g.childs[c[k]].contains(c[k + 1]));
            } else {
                assert(p[k + 1] == u);
                assert(c[k] == c.last());
            }
        }
    }
    assert(p[0] == u);
    assert(p.last() == u);
    lemma_cycle_walk_covers(g, n, n, u);
    lemma_cycle_walk_visit(g, n, n, u, p);
}

/// `ps` without its first element equal to `l`.
pub open spec fn without_first(ps: Seq<Seq<usize>>, l: Seq<usize>) -> Seq<Seq<usize>>
    decreases ps.len(),
{
    if ps.len() == 0 {
        ps
    } else if ps[0] == l {
        ps.drop_first()
    } else {
        seq![ps[0]] + without_first(ps.drop_first(), l)
    }
}

/// The edge from `a` to `b` is an edge of one of the cycles `ps` (the last
/// vertex of a cycle leads back to its first).
pub open spec fn on_cycle_edge(ps: Seq<Seq<usize>>, a: usize, b: usize) -> bool {
    exists|k: int, i: int| 0 <= k < ps.len() && 0 <= i < ps[k].len() && #[trigger] ps[k][i] == a
        && ps[k][(i + 1) % (ps[k].len() as int)] == b
}

/// The entries into the loop `l` through the parents `ps` of its vertex `v`
/// added to `m`: a parent outside the loop whose edge to `v` is on none of
/// the cycles `others` is added to the list of `v`.
pub open spec fn entries_from(l: Seq<usize>, others: Seq<Seq<usize>>, v: usize, ps: Seq<usize>, m: Map<usize, Seq<usize>>) -> Map<usize, Seq<usize>>
    decreases ps.len(),
{
    if ps.len() == 0 {
        m
    } else {
        let m0 = entries_from(l, others, v, ps.drop_last(), m);
        let p = ps.last();
        if !l.contains(p) && !on_cycle_edge(others, p, v) {
            push_to_list(m0, v, p)
        } else {
            m0
        }
    }
}

/// The exits from the loop `l` through the children `cs` of its vertex `v`
/// added to `m`: a child outside the loop that is no loop node and whose
/// edge from `v` is on none of the cycles `others` gets `v` added to its list.
pub open spec fn exits_from(
    nodes: Map<usize, NodeType>,
    l: Seq<usize>,
    others: Seq<Seq<usize>>,
    v: usize,
    cs: Seq<usize>,
    m: Map<usize, Seq<usize>>,
) -> Map<usize, Seq<usize>>
    decreases cs.len(),
{
    if cs.len() == 0 {
        m
    } else {
        let m0 = exits_from(nodes, l, others, v, cs.drop_last(), m);
        let c = cs.last();
        if !l.contains(c) && nodes[c] != NodeType::Loop && !on_cycle_edge(others, v, c) {
            push_to_list(m0, c, v)
        } else {
            m0
        }
    }
}

/// The entries into the loop `l` of `g` through its first `k` vertices.
pub open spec fn loop_entries(g: GraphView, l: Seq<usize>, others: Seq<Seq<usize>>, k: nat) -> Map<usize, Seq<usize>>
    decreases k,
{
    if k == 0 {
        Map::empty()
    } else {
        let v = l[k - 1];
        entries_from(l, others, v, g.parents[v], loop_entries(g, l, others, (k - 1) as nat))
    }
}

/// The exits from the loop `l` of `g` through its first `k` vertices.
pub open spec fn loop_exits(g: GraphView, nodes: Map<usize, NodeType>, l: Seq<usize>, others: Seq<Seq<usize>>, k: nat) -> Map<usize, Seq<usize>>
    decreases k,
{
    if k == 0 {
        Map::empty()
    } else {
        let v = l[k - 1];
        exits_from(nodes, l, others, v, g.childs[v], loop_exits(g, nodes, l, others, (k - 1) as nat))
    }
}


/// The edge from the loop vertex `v` to `c` leaves the loop `l`: `c` is
/// outside the loop, is no loop node, and the edge is on none of the cycles
/// `others`.
pub open spec fn exit_edge(nodes: Map<usize, NodeType>, l: Seq<usize>, others: Seq<Seq<usize>>, v: usize, c: usize) -> bool {
    &&& !l.contains(c)
    &&& nodes[c] != NodeType::Loop
    &&& !on_cycle_edge(others, v, c)
}

/// The edge from `p` to the loop vertex `v` enters the loop `l`: `p` is
/// outside the loop and the edge is on none of the cycles `others`.
pub open spec fn entry_edge(l: Seq<usize>, others: Seq<Seq<usize>>, p: usize, v: usize) -> bool {
    &&& !l.contains(p)
    &&& !on_cycle_edge(others, p, v)
}

proof fn lemma_push_to_list(m: Map<usize, Seq<usize>>, k: usize, x: usize, key: usize, y: usize)
    ensures
        list_of(push_to_list(m, k, x), key).contains(y) <==> (list_of(m, key).contains(y) || (key == k && y == x)),
{
    if key == k {
        let l = list_of(m, k);
        if l.contains(y) {
            let i = choose|i: int| 0 <= i < l.len() && l[i] == y;
            assert(l.push(x)[i] == y);
        }
        if y == x {
            assert(l.push(x)[l.len() as int] == x);
        }
        if l.push(x).contains(y) && y != x {
            let i = choose|i: int| 0 <= i < l.push(x).len() && l.push(x)[i] == y;
            assert(l[i] == y);
        }
    }
}

proof fn lemma_exits_from(
    nodes: Map<usize, NodeType>,
    l: Seq<usize>,
    others: Seq<Seq<usize>>,
    v: usize,
    cs: Seq<usize>,
    m: Map<usize, Seq<usize>>,
)
    ensures
        forall|c: usize, x: usize| #[trigger] list_of(exits_from(nodes, l, others, v, cs, m), c).contains(x) <==> (
            list_of(m, c).contains(x) || (x == v && cs.contains(c) && exit_edge(nodes, l, others, v, c))),
    decreases cs.len(),
{
    if cs.len() > 0 {
        let d = cs.drop_last();
        lemma_exits_from(nodes, l, others, v, d, m);
        let m0 = exits_from(nodes, l, others, v, d, m);
        let c0 = cs.last();
        assert forall|c: usize, x: usize| #[trigger] list_of(exits_from(nodes, l, others, v, cs, m), c).contains(x) <==> (
            list_of(m, c).contains(x) || (x == v && cs.contains(c) && exit_edge(nodes, l, others, v, c))) by {
            if exit_edge(nodes, l, others, v, c0) {
                lemma_push_to_list(m0, c0, v, c, x);
            }
            assert(cs.contains(c) <==> (d.contains(c) || c == c0)) by {
                if cs.contains(c) {
                    let i = choose|i: int| 0 <= i < cs.len() && cs[i] == c;
                    if i < d.len() {
                        assert(d[i] == c);
                    }
                }
                if d.contains(c) {
                    let i = choose|i: int| 0 <= i < d.len() && d[i] == c;
                    assert(cs[i] == c);
                }
                if c == c0 {
                    assert(cs[cs.len() - 1] == c);
                }
            }
        }
    }
}

proof fn lemma_entries_from(l: Seq<usize>, others: Seq<Seq<usize>>, v: usize, ps: Seq<usize>, m: Map<usize, Seq<usize>>)
    ensures
        forall|k: usize, x: usize| #[trigger] list_of(entries_from(l, others, v, ps, m), k).contains(x) <==> (
            list_of(m, k).contains(x) || (k == v && ps.contains(x) && entry_edge(l, others, x, v))),
    decreases ps.len(),
{
    if ps.len() > 0 {
        let d = ps.drop_last();
        lemma_entries_from(l, others, v, d, m);
        let m0 = entries_from(l, others, v, d, m);
        let p0 = ps.last();
        assert forall|k: usize, x: usize| #[trigger] list_of(entries_from(l, others, v, ps, m), k).contains(x) <==> (
            list_of(m, k).contains(x) || (k == v && ps.contains(x) && entry_edge(l, others, x, v))) by {
            if entry_edge(l, others, p0, v) {
                lemma_push_to_list(m0, v, p0, k, x);
            }
            assert(ps.contains(x) <==> (d.contains(x) || x == p0)) by {
                if ps.contains(x) {
                    let i = choose|i: int| 0 <= i < ps.len() && ps[i] == x;
                    if i < d.len() {
                        assert(d[i] == x);
                    }
                }
                if d.contains(x) {
                    let i = choose|i: int| 0 <= i < d.len() && d[i] == x;
                    assert(ps[i] == x);
                }
                if x == p0 {
                    assert(ps[ps.len() - 1] == x);
                }
            }
        }
    }
}

/// The exits of a loop, exactly: `c` lists the loop vertex `v` if and only
/// if `v` is one of the first `k` vertices of the loop `l`, `c` is one of
/// its children, and the edge from `v` to `c` leaves the loop (see
/// `exit_edge`) — the first vertex of the loop counts like any other.
pub proof fn lemma_loop_exits_exact(g: GraphView, nodes: Map<usize, NodeType>, l: Seq<usize>, others: Seq<Seq<usize>>, k: nat)
    requires
        k <= l.len(),
    ensures
        forall|c: usize, v: usize| #[trigger] list_of(loop_exits(g, nodes, l, others, k), c).contains(v) <==> (
            exists|i: int| 0 <= i < k && #[trigger] l[i] == v && g.childs[v].contains(c) && exit_edge(nodes, l, others, v, c)),
    decreases k,
{
    if k > 0 {
        let k1 = (k - 1) as nat;
        lemma_loop_exits_exact(g, nodes, l, others, k1);
        let w = l[k1 as int];
        let m0 = loop_exits(g, nodes, l, others, k1);
        lemma_exits_from(nodes, l, others, w, g.childs[w], m0);
        assert forall|c: usize, v: usize| #[trigger] list_of(loop_exits(g, nodes, l, others, k), c).contains(v) <==> (
            exists|i: int| 0 <= i < k && #[trigger] l[i] == v && g.childs[v].contains(c) && exit_edge(nodes, l, others, v, c)) by {
            if exists|i: int| 0 <= i < k && #[trigger] l[i] == v && g.childs[v].contains(c) && exit_edge(nodes, l, others, v, c) {
                let i = choose|i: int| 0 <= i < k && #[trigger] l[i] == v && g.childs[v].contains(c) && exit_edge(nodes, l, others, v, c);
                if i < k1 {
                    assert(list_of(m0, c).contains(v));
                }
            }
            if list_of(m0, c).contains(v) {
                let i = choose|i: int| 0 <= i < k1 && #[trigger] l[i] == v && g.childs[v].contains(c) && exit_edge(nodes, l, others, v, c);
                assert(0 <= i < k);
            }
        }
    }
}

/// The entries of a loop, exactly: the loop vertex `v` lists `p` if and
/// only if `v` is one of the first `k` vertices of the loop `l`, `p` is one
/// of its parents, and the edge from `p` to `v` enters the loop (see
/// `entry_edge`).
pub proof fn lemma_loop_entries_exact(g: GraphView, l: Seq<usize>, others: Seq<Seq<usize>>, k: nat)
    requires
        k <= l.len(),
    ensures
        forall|v: usize, p: usize| #[trigger] list_of(loop_entries(g, l, others, k), v).contains(p) <==> (
            exists|i: int| 0 <= i < k && #[trigger] l[i] == v && g.parents[v].contains(p) && entry_edge(l, others, p, v)),
    decreases k,
{
    if k > 0 {
        let k1 = (k - 1) as nat;
        lemma_loop_entries_exact(g, l, others, k1);
        let w = l[k1 as int];
        let m0 = loop_entries(g, l, others, k1);
        lemma_entries_from(l, others, w, g.parents[w], m0);
        assert forall|v: usize, p: usize| #[trigger] list_of(loop_entries(g, l, others, k), v).contains(p) <==> (
            exists|i: int| 0 <= i < k && #[trigger] l[i] == v && g.parents[v].contains(p) && entry_edge(l, others, p, v)) by {
            if exists|i: int| 0 <= i < k && #[trigger] l[i] == v && g.parents[v].contains(p) && entry_edge(l, others, p, v) {
                let i = choose|i: int| 0 <= i < k && #[trigger] l[i] == v && g.parents[v].contains(p) && entry_edge(l, others, p, v);
                if i < k1 {
                    assert(list_of(m0, v).contains(p));
                }
            }
            if list_of(m0, v).contains(p) {
                let i = choose|i: int| 0 <= i < k1 && #[trigger] l[i] == v && g.parents[v].contains(p) && entry_edge(l, others, p, v);
                assert(0 <= i < k);
            }
        }
    }
}

/// The node types of a control flow graph.
pub open spec fn node_types(cfg: &ControlFlowGraph) -> Map<usize, NodeType> {
    cfg.nodes@.map_values(|n: crate::control_flow::cfg::CFGNode| n.node_type)
}

/// Whether `a` and `b` hold the same list.
fn same_list(a: &Vec<usize>, b: &Vec<usize>) -> (r: bool)
    ensures
        r == (a@ == b@),
{
    if a.len() != b.len() {
        return false;
    }
    let mut i: usize = 0;
    while i < a.len()
        invariant
            a@.len() == b@.len(),
            i <= a@.len(),
            forall|j: int| 0 <= j < i ==> a@[j] == b@[j],
        decreases a@.len() - i,
    {
        if a[i] != b[i] {
            return false;
        }
        i = i + 1;
    }
    proof {
        assert(a@ =~= b@);
    }
    true
}

/// Whether `l` occurs in `s`.
fn has_vertex(s: &Vec<usize>, x: usize) -> (r: bool)
    ensures
        r == s@.contains(x),
{
    let mut i: usize = 0;
    while i < s.len()
        invariant
            i <= s@.len(),
            forall|j: int| 0 <= j < i ==> s@[j] != x,
        decreases s@.len() - i,
    {
        if s[i] == x {
            return true;
        }
        i = i + 1;
    }
    false
}

/// Whether the edge from `a` to `b` is on one of the cycles `ps`.
fn is_cycle_edge(ps: &Vec<Vec<usize>>, a: usize, b: usize) -> (r: bool)
    ensures
        r == on_cycle_edge(views(ps@), a, b),
{
    let ghost vs = views(ps@);
    let mut k: usize = 0;
    while k < ps.len()
        invariant
            k <= ps@.len(),
            vs == views(ps@),
            forall|k2: int, i: int| 0 <= k2 < k && 0 <= i < vs[k2].len() && #[trigger] vs[k2][i] == a
                ==> vs[k2][(i + 1) % (vs[k2].len() as int)] != b,
        decreases ps@.len() - k,
    {
        let p = &ps[k];
        let mut i: usize = 0;
        while i < p.len()
            invariant
                k < ps@.len(),
                vs == views(ps@),
                p@ == vs[k as int],
                i <= p@.len(),
                forall|k2: int, i2: int| 0 <= k2 < k && 0 <= i2 < vs[k2].len() && #[trigger] vs[k2][i2] == a
                    ==> vs[k2][(i2 + 1) % (vs[k2].len() as int)] != b,
                forall|i2: int| 0 <= i2 < i && #[trigger] p@[i2] == a ==> p@[(i2 + 1) % (p@.len() as int)] != b,
            decreases p@.len() - i,
        {
            let nx = (i + 1) % p.len();
            if p[i] == a && p[nx] == b {
                proof {
                    assert(vs[k as int][i as int] == a);
                }
                return true;
            }
            i = i + 1;
        }
        k = k + 1;
    }
    false
}

/// The loop `l` of the plain graph `graph` of `cfg` with `others` its other
/// cycles: the entries into it (each vertex of the loop with the parents
/// outside it) and the exits from it (each child outside it with the
/// vertices of the loop that lead to it); edges on the other cycles do not
/// count (see `loop_entries` and `loop_exits`).
pub fn loop_entry_exit(cfg: &ControlFlowGraph, graph: &Graph, others: &Vec<Vec<usize>>, _loop: &Vec<usize>)
    -> (r: (HashMap<usize, Vec<usize>>, HashMap<usize, Vec<usize>>))
    requires
        forall|i: int| 0 <= i < _loop@.len() ==> graph@.parents.contains_key(#[trigger] _loop@[i])
            && graph@.childs.contains_key(_loop@[i]),
        forall|v: usize, i: int| graph@.childs.contains_key(v) && 0 <= i < graph@.childs[v].len()
            ==> cfg.nodes@.contains_key(#[trigger] graph@.childs[v][i]),
    ensures
        seqs(r.0@) == loop_entries(graph@, _loop@, views(others@), _loop@.len()),
        seqs(r.1@) == loop_exits(graph@, node_types(cfg), _loop@, views(others@), _loop@.len()),
        forall|c: usize, v: usize| #[trigger] list_of(seqs(r.1@), c).contains(v) <==> (exists|i: int|
            0 <= i < _loop@.len() && #[trigger] _loop@[i] == v && graph@.childs[v].contains(c)
                && exit_edge(node_types(cfg), _loop@, views(others@), v, c)),
        forall|v: usize, p: usize| #[trigger] list_of(seqs(r.0@), v).contains(p) <==> (exists|i: int|
            0 <= i < _loop@.len() && #[trigger] _loop@[i] == v && graph@.parents[v].contains(p)
                && entry_edge(_loop@, views(others@), p, v)),
{
    let ghost g = graph@;
    let ghost l = _loop@;
    let ghost os = views(others@);
    let mut entrys: HashMap<usize, Vec<usize>> = HashMap::new();
    let mut exits: HashMap<usize, Vec<usize>> = HashMap::new();
    proof {
        assert(seqs(entrys@) =~= Map::<usize, Seq<usize>>::empty());
        assert(seqs(exits@) =~= Map::<usize, Seq<usize>>::empty());
    }
    let mut k: usize = 0;
    while k < _loop.len()
        invariant
            k <= l.len(),
            l == _loop@,
            g == graph@,
            os == views(others@),
            forall|i: int| 0 <= i < l.len() ==> g.parents.contains_key(#[trigger] l[i]) && g.childs.contains_key(l[i]),
            forall|v: usize, i: int| g.childs.contains_key(v) && 0 <= i < g.childs[v].len()
                ==> cfg.nodes@.contains_key(#[trigger] g.childs[v][i]),
            seqs(entrys@) == loop_entries(g, l, os, k as nat),
            seqs(exits@) == loop_exits(g, node_types(cfg), l, os, k as nat),
        decreases l.len() - k,
    {
        let v = _loop[k];
        let ps = graph.parents.get(&v).unwrap();
        let ghost pv = ps@;
        let ghost e0 = seqs(entrys@);
        proof {
            assert(pv == g.parents[v]);
            assert(pv.take(0) =~= Seq::<usize>::empty());
        }
        let mut i: usize = 0;
        while i < ps.len()
            invariant
                i <= pv.len(),
                pv == ps@,
                l == _loop@,
                os == views(others@),
                seqs(entrys@) == entries_from(l, os, v, pv.take(i as int), e0),
            decreases pv.len() - i,
        {
            let p = ps[i];
            proof {
                assert(pv.take(i as int + 1).drop_last() =~= pv.take(i as int));
                assert(pv.take(i as int + 1).last() == p);
            }
            if !has_vertex(_loop, p) && !is_cycle_edge(others, p, v) {
                push_to(&mut entrys, v, p);
            }
            i = i + 1;
        }
        proof {
            assert(pv.take(pv.len() as int) =~= pv);
        }
        let cs = graph.childs.get(&v).unwrap();
        let ghost cv = cs@;
        let ghost x0 = seqs(exits@);
        proof {
            assert(cv == g.childs[v]);
            assert(cv.take(0) =~= Seq::<usize>::empty());
        }
        let mut j: usize = 0;
        while j < cs.len()
            invariant
                j <= cv.len(),
                cv == cs@,
                cv == g.childs[v],
                g.childs.contains_key(v),
                forall|w: usize, i: int| g.childs.contains_key(w) && 0 <= i < g.childs[w].len()
                    ==> cfg.nodes@.contains_key(#[trigger] g.childs[w][i]),
                l == _loop@,
                os == views(others@),
                seqs(exits@) == exits_from(node_types(cfg), l, os, v, cv.take(j as int), x0),
            decreases cv.len() - j,
        {
            let c = cs[j];
            proof {
                assert(cv.take(j as int + 1).drop_last() =~= cv.take(j as int));
                assert(cv.take(j as int + 1).last() == c);
                assert(cfg.nodes@.contains_key(c));
            }
            if !has_vertex(_loop, c) {
                let nt = cfg.nodes.get(&c).unwrap().node_type;
                if nt != NodeType::Loop {
                    if !is_cycle_edge(others, v, c) {
                        push_to(&mut exits, c, v);
                    }
                }
            }
            j = j + 1;
        }
        proof {
            assert(cv.take(cv.len() as int) =~= cv);
        }
        k = k + 1;
    }
    proof {
        lemma_loop_exits_exact(g, node_types(cfg), l, os, l.len());
        lemma_loop_entries_exact(g, l, os, l.len());
    }
    (entrys, exits)
}

/// Takes the first cycle equal to `l` out of `paths`.
fn remove_cycle(paths: &mut Vec<Vec<usize>>, l: &Vec<usize>)
    ensures
        views(final(paths)@) == without_first(views(old(paths)@), l@),
{
    let ghost ps = views(paths@);
    let mut i: usize = 0;
    while i < paths.len()
        invariant
            i <= paths@.len(),
            views(paths@) == ps,
            ps == views(old(paths)@),
            forall|j: int| 0 <= j < i ==> ps[j] != l@,
        decreases paths@.len() - i,
    {
        if same_list(&paths[i], l) {
            proof {
                lemma_without_first_at(ps, l@, i as int);
            }
            let ghost p0 = paths@;
            paths.remove(i);
            proof {
                assert(views(paths@) =~= ps.remove(i as int));
            }
            return;
        }
        i = i + 1;
    }
    proof {
        lemma_without_first_none(ps, l@);
    }
}

proof fn lemma_without_first_at(ps: Seq<Seq<usize>>, l: Seq<usize>, i: int)
    requires
        0 <= i < ps.len(),
        ps[i] == l,
        forall|j: int| 0 <= j < i ==> ps[j] != l,
    ensures
        without_first(ps, l) == ps.remove(i),
    decreases ps.len(),
{
    if i == 0 {
        assert(ps.remove(0) =~= ps.drop_first());
    } else {
        lemma_without_first_at(ps.drop_first(), l, i - 1);
        assert(ps.remove(i) =~= seq![ps[0]] + ps.drop_first().remove(i - 1));
    }
}

proof fn lemma_without_first_none(ps: Seq<Seq<usize>>, l: Seq<usize>)
    requires
        forall|j: int| 0 <= j < ps.len() ==> ps[j] != l,
    ensures
        without_first(ps, l) == ps,
    decreases ps.len(),
{
    if ps.len() > 0 {
        lemma_without_first_none(ps.drop_first(), l);
        assert(seq![ps[0]] + ps.drop_first() =~= ps);
    }
}

/// The entries into and the exits from the loop `_loop` of `cfg` (see
/// `loop_entry_exit`): the other cycles are those that `get_cycle_paths`
/// finds but for the first equal to `_loop`, and the graph is the plain
/// graph of `cfg`.
pub fn get_entry_exit(cfg: &ControlFlowGraph, _loop: &Vec<usize>) -> (r: (HashMap<usize, Vec<usize>>, HashMap<usize, Vec<usize>>))
    requires
        cycle_ready(cfg),
        forall|i: int| 0 <= i < _loop@.len() ==> cfg.nodes@.contains_key(#[trigger] _loop@[i]),
    ensures
        exists|ks1: Seq<usize>, ks2: Seq<usize>|
            ks1.to_set() == cfg.edges@.dom() && ks1.no_duplicates() && ks2.to_set() == cfg.edges@.dom() && ks2.no_duplicates()
            && {
                let g1 = #[trigger] simplified(cfg.nodes@.dom(), cfg.edges@, ks1);
                let g2 = #[trigger] simplified(cfg.nodes@.dom(), cfg.edges@, ks2);
                let others = without_first(cycle_walk(g1, cfg.nodes@.len(), cfg.nodes@.len()).0, _loop@);
                &&& seqs(r.0@) == loop_entries(g2, _loop@, others, _loop@.len())
                &&& seqs(r.1@) == loop_exits(g2, node_types(cfg), _loop@, others, _loop@.len())
                &&& forall|c: usize, v: usize| #[trigger] list_of(seqs(r.1@), c).contains(v) <==> (exists|i: int|
                    0 <= i < _loop@.len() && #[trigger] _loop@[i] == v && g2.childs[v].contains(c)
                        && exit_edge(node_types(cfg), _loop@, others, v, c))
                &&& forall|v: usize, p: usize| #[trigger] list_of(seqs(r.0@), v).contains(p) <==> (exists|i: int|
                    0 <= i < _loop@.len() && #[trigger] _loop@[i] == v && g2.parents[v].contains(p)
                        && entry_edge(_loop@, others, p, v))
            },
{
    let mut paths = get_cycle_paths(cfg);
    let ghost ks1 = choose|ks: Seq<usize>| ks.to_set() == cfg.edges@.dom() && ks.no_duplicates()
        && views(paths@) == cycle_walk(#[trigger] simplified(cfg.nodes@.dom(), cfg.edges@, ks),
            cfg.nodes@.len(), cfg.nodes@.len()).0;
    remove_cycle(&mut paths, _loop);
    let order2 = map_keys(&cfg.edges);
    let graph = simplify_in_order(cfg, &order2);
    proof {
        lemma_simplified_vertices(cfg.nodes@.dom(), cfg.edges@, order2@);
        assert forall|i: int| 0 <= i < order2@.len() implies cfg.edges@.contains_key(#[trigger] order2@[i]) by {
            assert(order2@.to_set().contains(order2@[i]));
        }
        lemma_simplified_children(cfg.nodes@.dom(), cfg.edges@, order2@);
        assert forall|i: int| 0 <= i < _loop@.len() implies graph@.parents.contains_key(#[trigger] _loop@[i])
            && graph@.childs.contains_key(_loop@[i]) by {
            assert(cfg.nodes@.dom().contains(_loop@[i]));
        }
    }
    let r = loop_entry_exit(cfg, &graph, &paths, _loop);
    proof {
        let g1 = simplified(cfg.nodes@.dom(), cfg.edges@, ks1);
        let g2 = simplified(cfg.nodes@.dom(), cfg.edges@, order2@);
        assert(views(paths@) == without_first(cycle_walk(g1, cfg.nodes@.len(), cfg.nodes@.len()).0, _loop@));
    }
    r
}

} // verus!
