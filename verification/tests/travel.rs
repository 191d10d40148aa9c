use std::collections::HashMap;
use loongarch_decompiler::ast::symbols::AddressSymbolMap;
use loongarch_decompiler::ast::{AbstractSyntaxTree, ASTType};
use loongarch_decompiler::block::Condiction;
use loongarch_decompiler::control_flow::cfg::{CFGNode, ControlFlowGraph};
use loongarch_decompiler::control_flow::tree::ControlFlowTree;
use loongarch_decompiler::control_flow::NodeType;
use loongarch_decompiler::counter::Counter;
use loongarch_decompiler::data_flow::{
    Address, DFIOperand, DFISymbolRecord, DFISymbolType, DataFlowIr, DataFlowIrOpcode, Number, Relation, Size,
};
use loongarch_decompiler::insn::NameValue;

fn kind_name(t: &ASTType) -> String {
    format!("{:?}", t)
}

fn tree(id: usize, node_type: NodeType) -> ControlFlowTree {
    ControlFlowTree {
        id,
        is_sink: false,
        node_type,
        access_condiction: Vec::new(),
        condiction: None,
        true_next: None,
        false_next: None,
        loop_region: None,
        next: Vec::new(),
    }
}

fn graph(irs: Vec<Vec<DataFlowIr>>) -> ControlFlowGraph {
    let mut cfg = ControlFlowGraph::new();
    for (i, block) in irs.into_iter().enumerate() {
        cfg.nodes.insert(i, CFGNode { id: i, index: 0, node_type: NodeType::Plain, irs: block });
    }
    cfg
}

fn local(offset: i64) -> DFIOperand {
    DFIOperand::Symbol(DFISymbolRecord {
        address: Address::Stack(offset),
        sym_type: DFISymbolType::Local,
        id: 0,
        size: Size::Signed32,
        value: true,
    })
}

fn num(value: i64) -> DFIOperand {
    DFIOperand::Number(Number { value, signed: true, size: Size::Signed32 })
}

fn addition() -> DataFlowIr {
    DataFlowIr {
        address: 0x100,
        opcode: DataFlowIrOpcode::Add,
        operand1: Some(DFIOperand::Symbol(DFISymbolRecord {
            address: Address::GR(12),
            sym_type: DFISymbolType::Temp,
            id: 0,
            size: Size::Signed64,
            value: true,
        })),
        operand2: Some(local(-8)),
        operand3: Some(num(3)),
    }
}

fn walk(t: &ControlFlowTree, cfg: &ControlFlowGraph) -> (AbstractSyntaxTree, Vec<AbstractSyntaxTree>, usize) {
    let mut ast = AbstractSyntaxTree::leaf(ASTType::Begin(String::from("main")), 0);
    let mut syms = HashMap::new();
    let mut ids = AddressSymbolMap::new();
    let mut counter = Counter::new();
    let mut params = Vec::new();
    let functions: HashMap<u64, NameValue> = HashMap::new();
    t.travel_cft_with_ast(&mut ast, cfg, &mut syms, &mut ids, &mut counter, &mut params, &functions);
    (ast, params, ids.len())
}

#[test]
fn branches_and_access_conditions_become_ifs() {
    let mut cfg = graph(vec![vec![addition()], Vec::new(), Vec::new()]);
    cfg.condiction.push((Condiction { relation: Relation::LE, operand1: local(-4), operand2: num(9) }, 1));
    let mut root = tree(0, NodeType::Plain);
    root.condiction = Some(1);
    root.true_next = Some(Box::new(tree(1, NodeType::Back)));
    root.false_next = Some(Box::new(tree(2, NodeType::Plain)));
    let mut after = tree(2, NodeType::Back);
    after.access_condiction = vec![vec![-1]];
    root.next.push(Box::new(after));
    let (ast, params, named) = walk(&root, &cfg);
    assert_eq!(kind_name(&ast.ast_type), "Begin(\"main\")");
    assert_eq!(ast.next.len(), 3);
    assert_eq!(kind_name(&ast.next[0].ast_type), "Assign(true)");
    let branch = &ast.next[1];
    assert_eq!(kind_name(&branch.ast_type), "If");
    // the false branch adds nothing, so it gets no node
    assert_eq!(branch.next.len(), 2);
    assert_eq!(kind_name(&branch.next[0].ast_type), "Condiction(LE)");
    assert_eq!(kind_name(&branch.next[1].ast_type), "True");
    assert_eq!(branch.next[1].next.len(), 1);
    assert_eq!(kind_name(&branch.next[1].next[0].ast_type), "Continue");
    let guarded = &ast.next[2];
    assert_eq!(kind_name(&guarded.ast_type), "If");
    assert_eq!(guarded.next.len(), 2);
    assert_eq!(kind_name(&guarded.next[0].ast_type), "Condictions");
    let and = &guarded.next[0].next[0].next[0];
    assert_eq!(kind_name(&and.ast_type), "Operator(And)");
    // a negative access id stands for the negated condition
    assert_eq!(kind_name(&and.next[0].ast_type), "Condiction(G)");
    assert_eq!(kind_name(&guarded.next[1].ast_type), "True");
    assert_eq!(kind_name(&guarded.next[1].next[0].ast_type), "Continue");
    assert!(params.is_empty());
    // the two stack slots and the register each got a name
    assert_eq!(named, 3);
}

#[test]
fn a_loop_head_wraps_its_body() {
    let cfg = graph(vec![Vec::new(), Vec::new(), Vec::new()]);
    let mut root = tree(0, NodeType::Loop);
    root.loop_region = Some(Box::new(tree(1, NodeType::Break)));
    root.next.push(Box::new(tree(2, NodeType::Back)));
    let (ast, params, named) = walk(&root, &cfg);
    assert_eq!(ast.next.len(), 2);
    assert_eq!(kind_name(&ast.next[0].ast_type), "Loop");
    assert_eq!(ast.next[0].next.len(), 1);
    assert_eq!(kind_name(&ast.next[0].next[0].ast_type), "Break");
    assert_eq!(kind_name(&ast.next[1].ast_type), "Continue");
    assert!(params.is_empty());
    assert_eq!(named, 0);
}
