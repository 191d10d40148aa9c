use loongarch_decompiler::control_flow::tree::ControlFlowTree;
use loongarch_decompiler::control_flow::{Branch, NodeType};

fn branchy() -> ControlFlowTree {
    let mut t = ControlFlowTree::new(0);
    t.insert(0, 5, Branch::Next, None, &NodeType::Plain);
    t.insert(0, 1, Branch::True, Some(3), &NodeType::Plain);
    t.insert(0, 2, Branch::False, Some(3), &NodeType::Plain);
    t.insert(1, 4, Branch::Next, None, &NodeType::Plain);
    t
}

#[test]
fn new_tree_is_a_leaf() {
    let t = ControlFlowTree::new(7);
    assert_eq!(t.id, 7);
    assert!(!t.is_sink);
    assert_eq!(t.node_type, NodeType::Plain);
    assert!(t.access_condiction.is_empty());
    assert!(t.condiction.is_none());
    assert!(t.true_next.is_none() && t.false_next.is_none() && t.loop_region.is_none());
    assert!(t.next.is_empty());
}

#[test]
fn insert_on_branches_records_access_conditions() {
    let t = branchy();
    assert_eq!(t.condiction, Some(3));
    let tn = t.true_next.as_ref().unwrap();
    let fnx = t.false_next.as_ref().unwrap();
    assert_eq!(tn.id, 1);
    assert_eq!(fnx.id, 2);
    assert_eq!(tn.access_condiction, vec![vec![3]]);
    assert_eq!(fnx.access_condiction, vec![vec![-3]]);
    assert_eq!(tn.next.len(), 1);
    assert_eq!(tn.next[0].id, 4);
    assert_eq!(tn.condiction, None);
    assert_eq!(t.next.len(), 1);
    assert_eq!(t.next[0].id, 5);
}

#[test]
fn insert_then_search_finds_the_node() {
    let t = branchy();
    for id in [0usize, 1, 2, 4, 5] {
        let found = t.search(id).unwrap();
        assert_eq!(found.id, id);
    }
    assert!(t.search(9).is_none());
}

#[test]
fn get_parent_follows_next_lists() {
    let t = branchy();
    assert_eq!(t.get_parent(4), Some(1));
    assert_eq!(t.get_parent(5), Some(0));
    assert_eq!(t.get_parent(0), None);
}

#[test]
fn insert_with_if_type_only_sets_the_condition() {
    let mut t = ControlFlowTree::new(0);
    t.insert(0, 1, Branch::Next, Some(2), &NodeType::If);
    assert!(t.next.is_empty());
    assert_eq!(t.condiction, Some(2));
}

#[test]
fn insert_break_keeps_its_type() {
    let mut t = ControlFlowTree::new(0);
    t.insert(0, 1, Branch::Next, None, &NodeType::Break);
    assert_eq!(t.next[0].node_type, NodeType::Break);
    t.insert(0, 2, Branch::True, Some(1), &NodeType::Back);
    assert_eq!(t.true_next.as_ref().unwrap().node_type, NodeType::Back);
}

#[test]
fn replace_swaps_a_subtree() {
    let mut t = branchy();
    let mut other = ControlFlowTree::new(4);
    other.insert(4, 8, Branch::Next, None, &NodeType::Plain);
    t.replace(4, &other);
    let n4 = t.search(4).unwrap();
    assert_eq!(n4.next.len(), 1);
    assert_eq!(n4.next[0].id, 8);
}

#[test]
fn duplicate_is_equal_in_shape() {
    let t = branchy();
    let d = t.duplicate();
    assert_eq!(d.id, t.id);
    assert_eq!(d.next.len(), t.next.len());
    assert_eq!(d.true_next.as_ref().unwrap().access_condiction, t.true_next.as_ref().unwrap().access_condiction);
}
