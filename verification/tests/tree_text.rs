use loongarch_decompiler::control_flow::tree::ControlFlowTree;
use loongarch_decompiler::control_flow::NodeType;

fn tree(id: usize, node_type: NodeType) -> ControlFlowTree {
    ControlFlowTree {
        id,
        is_sink: false,
        node_type,
        access_condiction: Vec::new(),
        condiction: None,
        true_next: None,
        false_next: None,
        loop_region: None,
        next: Vec::new(),
    }
}

#[test]
fn blocks_branches_and_access_conditions() {
    let mut root = tree(0, NodeType::Plain);
    root.condiction = Some(-2);
    root.true_next = Some(Box::new(tree(1, NodeType::Back)));
    let mut sink = tree(3, NodeType::Plain);
    sink.is_sink = true;
    sink.access_condiction = vec![vec![1, -2], vec![4]];
    root.next.push(Box::new(sink));
    assert_eq!(root.to_string(), "b0\nif(!c2)\n{\n\tcontinue;\n}\nif((c1 && !c2) || c4))\n{\n\tb3\n}\n");
}

#[test]
fn a_loop_and_what_follows_it() {
    let mut root = tree(0, NodeType::Loop);
    root.loop_region = Some(Box::new(tree(1, NodeType::Break)));
    root.next.push(Box::new(tree(2, NodeType::Plain)));
    assert_eq!(root.to_string(), "loop\n{\n\tbreak;\n}\nb2\n");
}

#[test]
fn a_false_branch_alone_and_an_else() {
    let mut a = tree(0, NodeType::Plain);
    a.condiction = Some(5);
    a.false_next = Some(Box::new(tree(1, NodeType::Plain)));
    assert_eq!(a.to_string(), "b0\nif(c5)\n{\n\tb1\n}\n");
    let mut b = tree(0, NodeType::Plain);
    b.condiction = Some(5);
    b.true_next = Some(Box::new(tree(1, NodeType::Plain)));
    b.false_next = Some(Box::new(tree(2, NodeType::Break)));
    assert_eq!(b.to_string(), "b0\nif(c5)\n{\n\tb1\n}\nelse\n{\n\tbreak;\n}\n");
}
