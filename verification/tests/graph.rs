use std::collections::HashMap;
use loongarch_decompiler::control_flow::cfg::{CFGEdge, CFGNode, ControlFlowGraph};
use loongarch_decompiler::control_flow::graph::{get_cycle_paths, get_entry_exit, graph_topo_sort, simplify, topo_sort, Graph};
use loongarch_decompiler::control_flow::slices::get_cfg_loop_slices;
use loongarch_decompiler::control_flow::{EdgeType, NodeType};

fn cfg_of(n: usize, edges: &[(usize, u64)]) -> ControlFlowGraph {
    let mut cfg = ControlFlowGraph::new();
    for i in 0..n {
        cfg.nodes.insert(i, CFGNode { id: i, index: 0, node_type: NodeType::Plain, irs: Vec::new() });
    }
    for (k, (from, to)) in edges.iter().enumerate() {
        cfg.edges.insert(
            k,
            CFGEdge { id: k, from: *from, to: *to, edge_type: EdgeType::Plain, condiction: None, _true: None },
        );
    }
    cfg
}

fn sorted(v: &Vec<usize>) -> Vec<usize> {
    let mut w = v.clone();
    w.sort();
    w
}

#[test]
fn new_graph_is_empty() {
    let g = Graph::new();
    assert_eq!(g.root, 0);
    assert!(g.vertexs.is_empty());
    assert!(g.edges.is_empty());
    assert!(g.childs.is_empty());
    assert!(g.parents.is_empty());
}

#[test]
fn simplify_keeps_nodes_and_edges() {
    let cfg = cfg_of(4, &[(0, 1), (0, 2), (1, 3), (2, 3)]);
    let g = simplify(&cfg);
    assert_eq!(g.root, 0);
    assert_eq!(g.vertexs.len(), 4);
    for v in 0..4 {
        assert!(g.vertexs.contains(&v));
    }
    assert_eq!(g.edges.len(), 4);
    assert_eq!(g.edges[&0], (0, 1));
    assert_eq!(g.edges[&3], (2, 3));
    assert_eq!(sorted(&g.childs[&0]), vec![1, 2]);
    assert_eq!(sorted(&g.parents[&3]), vec![1, 2]);
    assert!(g.childs[&3].is_empty());
    assert!(g.parents[&0].is_empty());
}

#[test]
fn simplify_keeps_repeated_edges() {
    let cfg = cfg_of(2, &[(0, 1), (0, 1)]);
    let g = simplify(&cfg);
    assert_eq!(g.childs[&0], vec![1, 1]);
    assert_eq!(g.parents[&1], vec![0, 0]);
}

#[test]
fn topo_sort_layers_a_diamond() {
    let cfg = cfg_of(4, &[(0, 1), (0, 2), (1, 3), (2, 3)]);
    let (order, layers) = topo_sort(&cfg);
    assert_eq!(layers.len(), 3);
    assert_eq!(layers[0], vec![0]);
    assert_eq!(sorted(&layers[1]), vec![1, 2]);
    assert_eq!(layers[2], vec![3]);
    let flat: Vec<usize> = layers.iter().flatten().cloned().collect();
    assert_eq!(order, flat);
}

#[test]
fn topo_sort_puts_parents_first() {
    let cfg = cfg_of(5, &[(3, 1), (1, 0), (3, 4), (4, 0), (0, 2)]);
    let (order, layers) = topo_sort(&cfg);
    assert_eq!(sorted(&order), vec![0, 1, 2, 3, 4]);
    let pos = |v: usize| order.iter().position(|x| *x == v).unwrap();
    for (from, to) in [(3, 1), (1, 0), (3, 4), (4, 0), (0, 2)] {
        assert!(pos(from) < pos(to));
    }
    assert_eq!(layers[0], vec![3]);
    assert_eq!(layers[3], vec![2]);
}

#[test]
fn graph_topo_sort_of_a_chain() {
    let cfg = cfg_of(3, &[(2, 1), (1, 0)]);
    let g = simplify(&cfg);
    let (order, layers) = graph_topo_sort(&g);
    assert_eq!(order, vec![2, 1, 0]);
    assert_eq!(layers, vec![vec![2], vec![1], vec![0]]);
}

#[test]
fn cycle_paths_of_a_loop() {
    let cfg = cfg_of(4, &[(0, 1), (1, 2), (2, 1), (2, 3)]);
    let paths = get_cycle_paths(&cfg);
    assert_eq!(paths, vec![vec![1, 2]]);
}

#[test]
fn cycle_paths_of_an_acyclic_graph() {
    let cfg = cfg_of(4, &[(0, 1), (0, 2), (1, 3), (2, 3)]);
    assert!(get_cycle_paths(&cfg).is_empty());
}

#[test]
fn cycle_paths_are_cycles() {
    let edges = [(0u64, 1u64), (1, 2), (2, 0), (2, 3), (3, 3), (3, 1)];
    let cfg = cfg_of(4, &[(0, 1), (1, 2), (2, 0), (2, 3), (3, 3), (3, 1)]);
    let paths = get_cycle_paths(&cfg);
    assert!(!paths.is_empty());
    for p in paths.iter() {
        assert!(!p.is_empty());
        for i in 0..p.len() {
            let a = p[i] as u64;
            let b = p[(i + 1) % p.len()] as u64;
            assert!(edges.iter().any(|(f, t)| *f == a && *t == b));
        }
    }
}

#[test]
fn self_loop_is_a_cycle() {
    let cfg = cfg_of(2, &[(0, 1), (1, 1)]);
    assert_eq!(get_cycle_paths(&cfg), vec![vec![1]]);
}

#[test]
fn entry_and_exit_of_a_loop() {
    let cfg = cfg_of(4, &[(0, 1), (1, 2), (2, 1), (2, 3)]);
    let (entrys, exits) = get_entry_exit(&cfg, &vec![1, 2]);
    let mut e = HashMap::new();
    e.insert(1usize, vec![0usize]);
    let mut x = HashMap::new();
    x.insert(3usize, vec![2usize]);
    assert_eq!(entrys, e);
    assert_eq!(exits, x);
}

#[test]
fn exit_into_a_loop_node_does_not_count() {
    let mut cfg = cfg_of(4, &[(0, 1), (1, 2), (2, 1), (2, 3)]);
    cfg.nodes.get_mut(&3).unwrap().node_type = NodeType::Loop;
    let (entrys, exits) = get_entry_exit(&cfg, &vec![1, 2]);
    assert_eq!(entrys.len(), 1);
    assert!(exits.is_empty());
}

#[test]
fn edges_of_other_cycles_do_not_count() {
    let cfg = cfg_of(4, &[(0, 1), (1, 0), (1, 2), (2, 1), (2, 3)]);
    let paths = get_cycle_paths(&cfg);
    assert_eq!(paths.len(), 2);
    let (entrys, exits) = get_entry_exit(&cfg, &vec![1, 2]);
    assert!(entrys.is_empty());
    assert_eq!(exits.len(), 1);
    assert_eq!(exits[&3], vec![2]);
}

#[test]
fn loop_slices_cut_at_loop_entries() {
    let mut cfg = cfg_of(5, &[(0, 1), (1, 2), (2, 3), (1, 4)]);
    cfg.edges.get_mut(&1).unwrap().edge_type = EdgeType::LoopEnter;
    let (slices, entries) = get_cfg_loop_slices(&cfg);
    assert_eq!(slices.len(), 2);
    let mut n0: Vec<usize> = slices[&0].nodes.keys().cloned().collect();
    n0.sort();
    assert_eq!(n0, vec![0, 1, 4]);
    let mut e0: Vec<usize> = slices[&0].edges.keys().cloned().collect();
    e0.sort();
    assert_eq!(e0, vec![0, 3]);
    let mut n2: Vec<usize> = slices[&2].nodes.keys().cloned().collect();
    n2.sort();
    assert_eq!(n2, vec![2, 3]);
    assert_eq!(slices[&2].edges.len(), 1);
    assert_eq!(slices[&2].edges[&2].from, 2);
    assert_eq!(entries.len(), 1);
    assert_eq!(entries[&1], 2);
}

#[test]
fn cycles_found_pass_no_vertex_twice() {
    // two loops sharing vertex 1: 1 -> 2 -> 1 and 1 -> 3 -> 4 -> 1
    let cfg = cfg_of(5, &[(0, 1), (1, 2), (2, 1), (1, 3), (3, 4), (4, 1)]);
    let paths = get_cycle_paths(&cfg);
    assert!(!paths.is_empty());
    for p in &paths {
        let mut q = p.clone();
        q.sort();
        q.dedup();
        assert_eq!(q.len(), p.len());
    }
}

#[test]
fn a_cycle_away_from_vertex_zero_is_found() {
    let cfg = cfg_of(4, &[(0, 1), (2, 3), (3, 2)]);
    let paths = get_cycle_paths(&cfg);
    assert_eq!(paths.len(), 1);
    assert_eq!(sorted(&paths[0]), vec![2, 3]);
}

#[test]
fn every_edge_goes_to_a_later_layer() {
    let edges = [(0usize, 1u64), (0, 2), (1, 3), (2, 3), (3, 4), (1, 4)];
    let cfg = cfg_of(5, &edges);
    let (_, layers) = topo_sort(&cfg);
    let layer_of = |v: usize| layers.iter().position(|l| l.contains(&v)).unwrap();
    for (a, b) in edges {
        assert!(layer_of(a) < layer_of(b as usize));
    }
}
