use std::collections::HashMap;
use loongarch_decompiler::ast::symbols::{create_symbol, AddressSymbolMap};
use loongarch_decompiler::ast::{
    is_ptr, is_type_ptr, parameter_to_string, AbstractSyntaxTree, ASTSymbol, ASTSymbolValueType, ASTType, Operator, Scope,
};
use loongarch_decompiler::block::Condiction;
use loongarch_decompiler::counter::Counter;
use loongarch_decompiler::data_flow::{Address, DFIOperand, DFISymbolRecord, DFISymbolType, DataFlowIr, DataFlowIrOpcode, Number, RegisterRecord, Relation, Size};
use loongarch_decompiler::insn::NameValue;
use loongarch_decompiler::optimization::{and_condictions, branch_refine, format_condictions};

fn sym(address: Address, id: usize, size: Size) -> DFISymbolRecord {
    DFISymbolRecord { address, sym_type: DFISymbolType::Local, id, size, value: true }
}

fn node(ast_type: ASTType, value: u64, next: Vec<AbstractSyntaxTree>) -> AbstractSyntaxTree {
    let mut t = AbstractSyntaxTree::leaf(ast_type, value);
    for n in next {
        t.next.push(Box::new(n));
    }
    t
}

fn kind_name(t: &ASTType) -> String {
    format!("{:?}", t)
}

#[test]
fn new_symbol_and_tree() {
    let s = ASTSymbol::new(4);
    assert_eq!(s.id, 4);
    assert_eq!(s.select_type, ASTSymbolValueType::Unknown);
    assert_eq!(s.scope, Scope::Temp);
    assert_eq!(s.address, Address::GR(0));
    let t = AbstractSyntaxTree::new();
    assert_eq!(kind_name(&t.ast_type), "Begin(\"None\")");
    assert_eq!(t.value, 0);
    assert!(t.next.is_empty());
}

#[test]
fn pointer_types() {
    assert!(is_ptr(&ASTSymbolValueType::PtrInt));
    assert!(!is_ptr(&ASTSymbolValueType::Long));
    assert!(is_type_ptr(&ASTSymbolValueType::PtrUnsignedChar));
    assert!(!is_type_ptr(&ASTSymbolValueType::Char));
}

#[test]
fn parameter_spellings() {
    assert_eq!(parameter_to_string(&ASTSymbolValueType::Int), "int");
    assert_eq!(parameter_to_string(&ASTSymbolValueType::UnsignedInt), "unsigned short");
    assert_eq!(parameter_to_string(&ASTSymbolValueType::PtrChar), "char*");
    assert_eq!(parameter_to_string(&ASTSymbolValueType::Unknown), "unkown");
    assert_eq!(parameter_to_string(&ASTSymbolValueType::Ptr), "ptr");
}

#[test]
fn symbols_are_numbered_once() {
    let mut ids = AddressSymbolMap::new();
    let mut syms = HashMap::new();
    let mut counter = Counter::new();
    let a = create_symbol(&sym(Address::Stack(-8), 0, Size::Signed32), &mut ids, &mut syms, &mut counter);
    assert_eq!(a.id, 0);
    assert_eq!(a.select_type, ASTSymbolValueType::Int);
    assert_eq!(a.scope, Scope::Local);
    let b = create_symbol(&sym(Address::Memory(0x4000), 0, Size::Unsigned8), &mut ids, &mut syms, &mut counter);
    assert_eq!(b.id, 1);
    assert_eq!(b.scope, Scope::Global);
    assert_eq!(b.select_type, ASTSymbolValueType::UnsignedChar);
    let again = create_symbol(&sym(Address::Stack(-8), 0, Size::Signed64), &mut ids, &mut syms, &mut counter);
    assert_eq!(again.id, 0);
    assert_eq!(again.select_type, ASTSymbolValueType::Int);
    assert_eq!(ids.len(), 2);
    assert_eq!(syms.len(), 2);
    assert_eq!(ids.get(&(Address::Memory(0x4000), 0)), Some(1));
    assert_eq!(ids.get(&(Address::GR(3), 0)), None);
}

#[test]
fn condition_tree() {
    let mut ids = AddressSymbolMap::new();
    let mut syms = HashMap::new();
    let mut counter = Counter::new();
    let c = Condiction {
        relation: Relation::LE,
        operand1: DFIOperand::Symbol(sym(Address::Stack(-4), 0, Size::Signed32)),
        operand2: DFIOperand::Number(Number { value: 9, signed: true, size: Size::Signed32 }),
    };
    let t = AbstractSyntaxTree::parse_condiction(c, &mut ids, &mut syms, &mut counter);
    assert_eq!(kind_name(&t.ast_type), "Condiction(LE)");
    assert_eq!(t.next.len(), 2);
    assert_eq!(kind_name(&t.next[0].ast_type), "Variable(true)");
    assert_eq!(t.next[0].value, 0);
    assert_eq!(kind_name(&t.next[1].ast_type), "Integer(true, Int)");
    assert_eq!(t.next[1].value, 9);
}

#[test]
fn access_condition_tree() {
    let mut ids = AddressSymbolMap::new();
    let mut syms = HashMap::new();
    let mut counter = Counter::new();
    let mk = |r: Relation, v: i64| Condiction {
        relation: r,
        operand1: DFIOperand::Symbol(sym(Address::Stack(-4), 0, Size::Signed32)),
        operand2: DFIOperand::Number(Number { value: v, signed: false, size: Size::Unsigned64 }),
    };
    let groups = vec![vec![mk(Relation::L, 1), mk(Relation::G, 2)], vec![mk(Relation::EQ, 3)]];
    let t = AbstractSyntaxTree::parse_access_condiction(groups, &mut ids, &mut syms, &mut counter);
    assert_eq!(kind_name(&t.ast_type), "Condictions");
    assert_eq!(t.next.len(), 1);
    let or = &t.next[0];
    assert_eq!(kind_name(&or.ast_type), "Operator(Or)");
    assert_eq!(or.next.len(), 2);
    assert_eq!(or.next[0].next.len(), 2);
    assert_eq!(or.next[1].next.len(), 1);
    assert_eq!(kind_name(&or.next[1].next[0].ast_type), "Condiction(EQ)");
    assert_eq!(ids.len(), 1);
}

#[test]
fn search_type_finds_the_last_match() {
    let t = node(
        ASTType::Begin(String::from("main")),
        0,
        vec![
            node(ASTType::Loop, 1, vec![node(ASTType::Break, 2, vec![])]),
            node(ASTType::Break, 3, vec![]),
        ],
    );
    let mut target = AbstractSyntaxTree::new();
    t.search_type(&ASTType::Break, &mut target);
    assert_eq!(target.value, 3);
    let mut none = AbstractSyntaxTree::leaf(ASTType::Return, 77);
    t.search_type(&ASTType::While, &mut none);
    assert_eq!(none.value, 77);
    let mut top = AbstractSyntaxTree::new();
    t.search_type(&ASTType::Begin(String::from("main")), &mut top);
    assert_eq!(top.next.len(), 2);
}

#[test]
fn format_wraps_the_condition_of_an_if() {
    let mut t = node(
        ASTType::If,
        0,
        vec![
            node(ASTType::Condiction(Relation::EQ), 0, vec![]),
            node(ASTType::True, 0, vec![node(ASTType::If, 0, vec![node(ASTType::Condiction(Relation::NE), 0, vec![])])]),
        ],
    );
    format_condictions(&mut t);
    assert_eq!(kind_name(&t.next[0].ast_type), "Condictions");
    assert_eq!(kind_name(&t.next[0].next[0].ast_type), "Condiction(EQ)");
    let inner = &t.next[1].next[0];
    assert_eq!(kind_name(&inner.next[0].ast_type), "Condictions");
}

#[test]
fn refine_turns_a_lone_false_branch_into_true() {
    let mut t = node(
        ASTType::Begin(String::from("f")),
        0,
        vec![node(
            ASTType::If,
            0,
            vec![node(ASTType::Condiction(Relation::L), 0, vec![]), node(ASTType::False, 0, vec![node(ASTType::Break, 0, vec![])])],
        )],
    );
    branch_refine(&mut t);
    let i = &t.next[0];
    assert_eq!(kind_name(&i.next[0].ast_type), "Condiction(GE)");
    assert_eq!(kind_name(&i.next[1].ast_type), "True");
    branch_refine(&mut t);
    let i = &t.next[0];
    assert_eq!(kind_name(&i.next[0].ast_type), "Condiction(GE)");
    assert_eq!(kind_name(&i.next[1].ast_type), "True");
}

#[test]
fn refine_keeps_both_branches() {
    let mut t = node(
        ASTType::If,
        0,
        vec![node(ASTType::Condiction(Relation::L), 0, vec![]), node(ASTType::True, 0, vec![]), node(ASTType::False, 0, vec![])],
    );
    branch_refine(&mut t);
    assert_eq!(kind_name(&t.next[0].ast_type), "Condiction(L)");
    assert_eq!(kind_name(&t.next[2].ast_type), "False");
}

#[test]
fn and_joins_the_last_condition() {
    let mut c1 = node(ASTType::Condictions, 0, vec![node(ASTType::Condiction(Relation::L), 1, vec![])]);
    let c2 = node(ASTType::Condictions, 0, vec![node(ASTType::Condiction(Relation::G), 2, vec![])]);
    and_condictions(&mut c1, &c2);
    assert_eq!(c1.next.len(), 1);
    let a = &c1.next[0];
    assert_eq!(kind_name(&a.ast_type), format!("{:?}", ASTType::Operator(Operator::And)));
    assert_eq!(a.next[0].value, 1);
    assert_eq!(a.next[1].value, 2);
}

#[test]
fn and_goes_down_through_operators() {
    let mut c1 = node(
        ASTType::Condictions,
        0,
        vec![node(ASTType::Operator(Operator::Or), 0, vec![node(ASTType::Condiction(Relation::L), 1, vec![]), node(ASTType::Condiction(Relation::G), 5, vec![])])],
    );
    let c2 = node(ASTType::Condictions, 0, vec![node(ASTType::Condiction(Relation::EQ), 2, vec![])]);
    and_condictions(&mut c1, &c2);
    let or = &c1.next[0];
    assert_eq!(or.next.len(), 2);
    assert_eq!(or.next[0].value, 1);
    assert_eq!(kind_name(&or.next[1].ast_type), "Operator(And)");
    assert_eq!(or.next[1].next[0].value, 5);
    assert_eq!(or.next[1].next[1].value, 2);
}

fn reg_sym(gr: usize, id: usize, sym_type: DFISymbolType, value: bool) -> DFISymbolRecord {
    DFISymbolRecord { address: Address::GR(gr), sym_type, id, size: Size::Signed64, value }
}

fn dfi(opcode: DataFlowIrOpcode, o1: Option<DFIOperand>, o2: Option<DFIOperand>, o3: Option<DFIOperand>) -> DataFlowIr {
    DataFlowIr { address: 0x100, opcode, operand1: o1, operand2: o2, operand3: o3 }
}

#[test]
fn parse_an_addition() {
    let mut ids = AddressSymbolMap::new();
    let mut syms = HashMap::new();
    let mut counter = Counter::new();
    let functions: HashMap<u64, NameValue> = HashMap::new();
    let ir = dfi(
        DataFlowIrOpcode::Add,
        Some(DFIOperand::Symbol(reg_sym(12, 0, DFISymbolType::Temp, true))),
        Some(DFIOperand::Symbol(sym(Address::Stack(-8), 0, Size::Signed32))),
        Some(DFIOperand::Number(Number { value: 3, signed: true, size: Size::Signed64 })),
    );
    let (t, p) = AbstractSyntaxTree::parse_dfi(&ir, &mut syms, &mut ids, &mut counter, &functions);
    assert!(p.is_none());
    let t = t.unwrap();
    assert_eq!(kind_name(&t.ast_type), "Assign(true)");
    assert_eq!(t.value, 0);
    let op = &t.next[0];
    assert_eq!(kind_name(&op.ast_type), "Operator(Add)");
    assert_eq!(op.next[0].value, 1);
    assert_eq!(kind_name(&op.next[1].ast_type), "Integer(true, Long)");
    assert_eq!(op.next[1].value, 3);
    assert_eq!(syms[&1].scope, Scope::Local);
    assert_eq!(syms[&0].select_type, ASTSymbolValueType::Long);
}

#[test]
fn parse_a_named_call() {
    let mut ids = AddressSymbolMap::new();
    let mut syms = HashMap::new();
    let mut counter = Counter::new();
    let mut functions = HashMap::new();
    functions.insert(0x400u64, NameValue::Name(String::from("printf")));
    let params = vec![
        RegisterRecord::Number(Number { value: 0x1000, signed: false, size: Size::Unsigned64 }),
        RegisterRecord::Symbol(reg_sym(5, 2, DFISymbolType::Temp, false)),
    ];
    let ir = dfi(
        DataFlowIrOpcode::Call,
        Some(DFIOperand::Number(Number { value: 0x400, signed: false, size: Size::Unsigned64 })),
        Some(DFIOperand::Parameter(params)),
        Some(DFIOperand::Symbol(reg_sym(4, 1, DFISymbolType::Return, true))),
    );
    let (t, _) = AbstractSyntaxTree::parse_dfi(&ir, &mut syms, &mut ids, &mut counter, &functions);
    let t = t.unwrap();
    assert_eq!(kind_name(&t.ast_type), "Function(\"printf\")");
    assert_eq!(t.next.len(), 3);
    assert_eq!(kind_name(&t.next[0].ast_type), "Return");
    assert_eq!(syms[&(t.next[0].value as usize)].select_type, ASTSymbolValueType::Int);
    assert_eq!(t.next[1].value, 0x1000);
    assert_eq!(kind_name(&t.next[2].ast_type), "Variable(true)");
}

#[test]
fn unnamed_calls_are_named_by_address() {
    let mut ids = AddressSymbolMap::new();
    let mut syms = HashMap::new();
    let mut counter = Counter::new();
    let mut functions = HashMap::new();
    functions.insert(0x1a2bu64, NameValue::Value(7));
    let call = |a: i64| {
        dfi(
            DataFlowIrOpcode::Call,
            Some(DFIOperand::Number(Number { value: a, signed: false, size: Size::Unsigned64 })),
            Some(DFIOperand::Parameter(vec![])),
            Some(DFIOperand::Number(Number { value: 0, signed: false, size: Size::Unsigned64 })),
        )
    };
    let (t, _) = AbstractSyntaxTree::parse_dfi(&call(0x1a2b), &mut syms, &mut ids, &mut counter, &functions);
    assert_eq!(kind_name(&t.unwrap().ast_type), "Function(\"funcion@1a2b\")");
    let (t, _) = AbstractSyntaxTree::parse_dfi(&call(0xf), &mut syms, &mut ids, &mut counter, &functions);
    assert_eq!(kind_name(&t.unwrap().ast_type), "Function(\"func@f\")");
    let (t, _) = AbstractSyntaxTree::parse_dfi(&call(0x10), &mut syms, &mut ids, &mut counter, &functions);
    assert_eq!(kind_name(&t.unwrap().ast_type), "Function(\"func@10\")");
}

#[test]
fn a_store_of_a_parameter_reveals_it() {
    let mut ids = AddressSymbolMap::new();
    let mut syms = HashMap::new();
    let mut counter = Counter::new();
    let functions: HashMap<u64, NameValue> = HashMap::new();
    let ir = dfi(
        DataFlowIrOpcode::Store,
        Some(DFIOperand::Symbol(reg_sym(4, 0, DFISymbolType::Param, false))),
        Some(DFIOperand::Symbol(sym(Address::Stack(-20), 0, Size::Signed32))),
        None,
    );
    let (t, p) = AbstractSyntaxTree::parse_dfi(&ir, &mut syms, &mut ids, &mut counter, &functions);
    let t = t.unwrap();
    assert_eq!(kind_name(&t.ast_type), "Assign(true)");
    assert_eq!(t.value, 0);
    let p = p.unwrap();
    assert_eq!(kind_name(&p.ast_type), "Variable(false)");
    assert_eq!(p.value, 1);
    let (_, again) = AbstractSyntaxTree::parse_dfi(&ir, &mut syms, &mut ids, &mut counter, &functions);
    assert!(again.is_none());
}

#[test]
fn a_load_and_a_return() {
    let mut ids = AddressSymbolMap::new();
    let mut syms = HashMap::new();
    let mut counter = Counter::new();
    let functions: HashMap<u64, NameValue> = HashMap::new();
    let ir = dfi(
        DataFlowIrOpcode::Load,
        Some(DFIOperand::Symbol(reg_sym(12, 3, DFISymbolType::Temp, false))),
        Some(DFIOperand::Symbol(sym(Address::Stack(-24), 0, Size::Signed64))),
        None,
    );
    let (t, _) = AbstractSyntaxTree::parse_dfi(&ir, &mut syms, &mut ids, &mut counter, &functions);
    let t = t.unwrap();
    assert_eq!(kind_name(&t.ast_type), "Assign(false)");
    assert_eq!(t.next.len(), 1);
    let ret = dfi(DataFlowIrOpcode::Ret, Some(DFIOperand::Symbol(reg_sym(12, 3, DFISymbolType::Temp, false))), None, None);
    let (r, _) = AbstractSyntaxTree::parse_dfi(&ret, &mut syms, &mut ids, &mut counter, &functions);
    let r = r.unwrap();
    assert_eq!(kind_name(&r.ast_type), "EndReturn");
    assert_eq!(kind_name(&r.next[0].ast_type), "Variable(true)");
    assert_eq!(r.next[0].value, t.value);
    let nop = dfi(DataFlowIrOpcode::Nop, None, None, None);
    let (a, b) = AbstractSyntaxTree::parse_dfi(&nop, &mut syms, &mut ids, &mut counter, &functions);
    assert!(a.is_none() && b.is_none());
}

#[test]
fn formatting_conditions_twice_is_formatting_them_once() {
    let make = || {
        node(
            ASTType::Begin(String::from("f")),
            0,
            vec![node(
                ASTType::If,
                0,
                vec![
                    node(ASTType::Condiction(Relation::L), 0, vec![]),
                    node(
                        ASTType::True,
                        0,
                        vec![node(ASTType::If, 0, vec![node(ASTType::Condiction(Relation::EQ), 0, vec![])])],
                    ),
                ],
            )],
        )
    };
    let mut once = make();
    format_condictions(&mut once);
    let mut twice = make();
    format_condictions(&mut twice);
    format_condictions(&mut twice);
    assert_eq!(format!("{:?}", once), format!("{:?}", twice));
    assert_eq!(kind_name(&once.next[0].next[0].ast_type), "Condictions");
    assert_eq!(kind_name(&once.next[0].next[1].next[0].next[0].ast_type), "Condictions");
}
