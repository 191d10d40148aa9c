use std::collections::HashMap;
use loongarch_decompiler::ast::{AbstractSyntaxTree, ASTSymbol, ASTSymbolValueType, ASTType, Operator, Scope};
use loongarch_decompiler::control_flow::cfg::{CFGNode, ControlFlowGraph};
use loongarch_decompiler::control_flow::tree::ControlFlowTree;
use loongarch_decompiler::control_flow::NodeType;
use loongarch_decompiler::data_flow::{
    Address, DFIOperand, DFISymbolRecord, DFISymbolType, DataFlowIr, DataFlowIrOpcode, Number, Size,
};
use loongarch_decompiler::insn::NameValue;
use loongarch_decompiler::ast::type_fix::updata_ptr;
use loongarch_decompiler::updata_type::{try_updata_type, updata_type};

fn node(ast_type: ASTType, value: u64, next: Vec<AbstractSyntaxTree>) -> AbstractSyntaxTree {
    let mut t = AbstractSyntaxTree::leaf(ast_type, value);
    for n in next {
        t.next.push(Box::new(n));
    }
    t
}

fn var(id: u64) -> AbstractSyntaxTree {
    node(ASTType::Variable(false), id, Vec::new())
}

fn num(v: u64) -> AbstractSyntaxTree {
    node(ASTType::Integer(true, ASTSymbolValueType::Long), v, Vec::new())
}

fn assign(id: u64, right: AbstractSyntaxTree) -> AbstractSyntaxTree {
    node(ASTType::Assign(false), id, vec![right])
}

fn add(a: AbstractSyntaxTree, b: AbstractSyntaxTree) -> AbstractSyntaxTree {
    node(ASTType::Operator(Operator::Add), 0, vec![a, b])
}

fn symbols(list: &[(usize, ASTSymbolValueType, Scope)]) -> HashMap<usize, ASTSymbol> {
    let mut m = HashMap::new();
    for (id, t, scope) in list {
        m.insert(*id, ASTSymbol { id: *id, select_type: *t, scope: *scope, address: Address::GR(0) });
    }
    m
}

fn type_of(m: &HashMap<usize, ASTSymbol>, id: usize) -> ASTSymbolValueType {
    m.get(&id).unwrap().select_type
}

#[test]
fn a_pointer_from_one_long_and_a_number_makes_the_long_a_pointer() {
    let mut t = node(ASTType::Begin(String::from("f")), 0, vec![assign(1, add(var(2), num(8)))]);
    let before = format!("{:?}", t);
    let mut m = symbols(&[(1, ASTSymbolValueType::PtrInt, Scope::Temp), (2, ASTSymbolValueType::Long, Scope::Temp)]);
    updata_type(&mut t, &mut m);
    assert_eq!(type_of(&m, 2), ASTSymbolValueType::PtrInt);
    assert_eq!(type_of(&m, 1), ASTSymbolValueType::PtrInt);
    assert_eq!(m.len(), 2);
    assert_eq!(format!("{:?}", t), before);
}

#[test]
fn two_long_operands_pass_the_pointer_type_back_to_their_sources() {
    let mut t = node(
        ASTType::Begin(String::from("f")),
        0,
        vec![assign(2, var(4)), assign(1, add(var(2), var(3)))],
    );
    let mut m = symbols(&[
        (1, ASTSymbolValueType::PtrChar, Scope::Temp),
        (2, ASTSymbolValueType::Long, Scope::Temp),
        (3, ASTSymbolValueType::Long, Scope::Temp),
    ]);
    updata_type(&mut t, &mut m);
    assert_eq!(type_of(&m, 2), ASTSymbolValueType::PtrChar);
    assert_eq!(type_of(&m, 3), ASTSymbolValueType::PtrChar);
    // variable 4 had no symbol: a fresh one is made for it
    let fresh = m.get(&4).unwrap();
    assert_eq!(fresh.select_type, ASTSymbolValueType::PtrChar);
    assert_eq!(fresh.id, usize::MAX);
    assert_eq!(fresh.scope, Scope::Temp);
}

#[test]
fn a_copy_inside_a_branch_passes_the_type() {
    let mut t = node(
        ASTType::Begin(String::from("f")),
        0,
        vec![node(ASTType::If, 0, vec![node(ASTType::True, 0, vec![assign(1, var(2))])])],
    );
    let mut m = symbols(&[(1, ASTSymbolValueType::Ptr, Scope::Temp), (2, ASTSymbolValueType::Long, Scope::Temp)]);
    updata_type(&mut t, &mut m);
    assert_eq!(type_of(&m, 2), ASTSymbolValueType::Ptr);
}

#[test]
fn a_local_pointer_changes_nothing() {
    let mut t = node(ASTType::Begin(String::from("f")), 0, vec![assign(1, var(2))]);
    let mut m = symbols(&[(1, ASTSymbolValueType::PtrInt, Scope::Local), (2, ASTSymbolValueType::Long, Scope::Temp)]);
    updata_type(&mut t, &mut m);
    assert_eq!(type_of(&m, 2), ASTSymbolValueType::Long);
}

#[test]
fn a_pointer_from_a_pointer_changes_nothing() {
    let mut t = node(ASTType::Begin(String::from("f")), 0, vec![assign(1, add(var(2), var(3)))]);
    let mut m = symbols(&[
        (1, ASTSymbolValueType::PtrInt, Scope::Temp),
        (2, ASTSymbolValueType::PtrInt, Scope::Temp),
        (3, ASTSymbolValueType::Long, Scope::Temp),
    ]);
    updata_type(&mut t, &mut m);
    assert_eq!(type_of(&m, 3), ASTSymbolValueType::Long);
}

#[test]
fn a_non_long_operand_stops_the_pass_back() {
    // var2 = var5 + var6 with var5 an int: the mark of var2 is dropped
    let mut t = node(
        ASTType::Begin(String::from("f")),
        0,
        vec![assign(2, add(var(5), var(6))), assign(1, add(var(2), var(3)))],
    );
    let mut m = symbols(&[
        (1, ASTSymbolValueType::PtrLong, Scope::Temp),
        (2, ASTSymbolValueType::Long, Scope::Temp),
        (3, ASTSymbolValueType::Long, Scope::Temp),
        (5, ASTSymbolValueType::Int, Scope::Temp),
        (6, ASTSymbolValueType::Long, Scope::Temp),
    ]);
    updata_type(&mut t, &mut m);
    assert_eq!(type_of(&m, 2), ASTSymbolValueType::Long);
    assert_eq!(type_of(&m, 3), ASTSymbolValueType::PtrLong);
    assert_eq!(type_of(&m, 6), ASTSymbolValueType::Long);
}

fn tree(id: usize, node_type: NodeType) -> ControlFlowTree {
    ControlFlowTree {
        id,
        is_sink: false,
        node_type,
        access_condiction: Vec::new(),
        condiction: None,
        true_next: None,
        false_next: None,
        loop_region: None,
        next: Vec::new(),
    }
}

#[test]
fn a_function_tree_starts_with_its_parameters() {
    let ir = DataFlowIr {
        address: 0x100,
        opcode: DataFlowIrOpcode::Add,
        operand1: Some(DFIOperand::Symbol(DFISymbolRecord {
            address: Address::GR(12),
            sym_type: DFISymbolType::Temp,
            id: 0,
            size: Size::Signed64,
            value: true,
        })),
        operand2: Some(DFIOperand::Symbol(DFISymbolRecord {
            address: Address::Stack(-8),
            sym_type: DFISymbolType::Local,
            id: 0,
            size: Size::Signed32,
            value: true,
        })),
        operand3: Some(DFIOperand::Number(Number { value: 3, signed: true, size: Size::Signed32 })),
    };
    let mut cfg = ControlFlowGraph::new();
    cfg.nodes.insert(0, CFGNode { id: 0, index: 0, node_type: NodeType::Plain, irs: vec![ir] });
    let mut m = HashMap::new();
    let functions: HashMap<u64, NameValue> = HashMap::new();
    let ast = AbstractSyntaxTree::from_cfg_tree(&tree(0, NodeType::Plain), &cfg, String::from("main"), &mut m, &functions);
    assert_eq!(format!("{:?}", ast.ast_type), "Begin(\"main\")");
    assert_eq!(ast.next.len(), 2);
    assert_eq!(format!("{:?}", ast.next[0].ast_type), "Parameter");
    assert!(ast.next[0].next.is_empty());
    assert_eq!(format!("{:?}", ast.next[1].ast_type), "Assign(true)");
    // the register and the stack slot were named
    assert_eq!(m.len(), 2);
}

#[test]
fn the_checked_pass_types_as_the_pass_does() {
    let mut t = node(ASTType::Begin(String::from("f")), 0, vec![assign(1, add(var(2), num(8)))]);
    let mut m = symbols(&[(1, ASTSymbolValueType::PtrInt, Scope::Temp), (2, ASTSymbolValueType::Long, Scope::Temp)]);
    assert!(try_updata_type(&mut t, &mut m));
    assert_eq!(type_of(&m, 2), ASTSymbolValueType::PtrInt);
}

#[test]
fn the_checked_pass_leaves_the_variables_where_one_is_missing() {
    // var1 = var2 + var3 with var3 unknown to the table: the pass would stop
    let mut t = node(ASTType::Begin(String::from("f")), 0, vec![assign(1, add(var(2), var(3)))]);
    let mut m = symbols(&[(1, ASTSymbolValueType::PtrInt, Scope::Temp), (2, ASTSymbolValueType::Long, Scope::Temp)]);
    assert!(!try_updata_type(&mut t, &mut m));
    assert_eq!(type_of(&m, 1), ASTSymbolValueType::PtrInt);
    assert_eq!(type_of(&m, 2), ASTSymbolValueType::Long);
    assert_eq!(m.len(), 2);
}

#[test]
fn the_checked_pass_stops_on_an_unknown_type() {
    let mut t = node(ASTType::Begin(String::from("f")), 0, vec![assign(1, var(2))]);
    let mut m = symbols(&[(1, ASTSymbolValueType::Unknown, Scope::Temp), (2, ASTSymbolValueType::Long, Scope::Temp)]);
    assert!(!try_updata_type(&mut t, &mut m));
    assert_eq!(type_of(&m, 2), ASTSymbolValueType::Long);
}

#[test]
fn the_pointer_scan_changes_nothing() {
    let mut t = node(ASTType::Begin(String::from("f")), 0, vec![assign(1, add(var(2), var(3))), assign(2, num(4))]);
    let before = format!("{:?}", t);
    let mut m = symbols(&[
        (1, ASTSymbolValueType::PtrInt, Scope::Temp),
        (2, ASTSymbolValueType::Long, Scope::Temp),
        (3, ASTSymbolValueType::PtrChar, Scope::Temp),
    ]);
    updata_ptr(&mut t, &mut m);
    assert_eq!(format!("{:?}", t), before);
    assert_eq!(m.len(), 3);
    assert_eq!(type_of(&m, 2), ASTSymbolValueType::Long);
}
