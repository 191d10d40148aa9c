use loongarch_decompiler::basic_block::get_blocks;
use loongarch_decompiler::block::{Block, Condiction};
use loongarch_decompiler::control_flow::cfg::ControlFlowGraph;
use loongarch_decompiler::data_flow::{
    Address, DFIOperand, DFISymbolRecord, DFISymbolType, DataFlowIr, DataFlowIrOpcode, Number, Relation, Size,
};
use std::collections::HashMap;

fn num(v: i64) -> DFIOperand {
    DFIOperand::Number(Number { value: v, signed: false, size: Size::Unsigned64 })
}

fn reg(id: usize) -> DFIOperand {
    DFIOperand::Symbol(DFISymbolRecord {
        address: Address::GR(id),
        sym_type: DFISymbolType::Temp,
        id,
        size: Size::Signed64,
        value: true,
    })
}

fn ir(address: u64, opcode: DataFlowIrOpcode, o1: Option<DFIOperand>, o2: Option<DFIOperand>, o3: Option<DFIOperand>) -> DataFlowIr {
    DataFlowIr { address, opcode, operand1: o1, operand2: o2, operand3: o3 }
}

#[test]
fn one_block_without_jumps_is_block_zero() {
    let irs = vec![
        ir(0x100, DataFlowIrOpcode::Function, None, None, None),
        ir(0x104, DataFlowIrOpcode::Add, Some(reg(1)), Some(reg(2)), Some(num(1))),
        ir(0x108, DataFlowIrOpcode::Ret, None, None, None),
    ];
    let blocks = get_blocks(&irs);
    assert_eq!(blocks.len(), 1);
    let b = &blocks[&0];
    assert_eq!(b.address, 0);
    assert_eq!(b.irs.len(), 3);
    assert!(b.next.is_none() && b.true_next.is_none() && b.false_next.is_none());
}

#[test]
fn a_jump_splits_blocks() {
    let irs = vec![
        ir(0x100, DataFlowIrOpcode::Function, None, None, None),
        ir(0x104, DataFlowIrOpcode::Add, Some(reg(1)), Some(reg(2)), Some(num(1))),
        ir(0x108, DataFlowIrOpcode::Jmp, Some(num(0x110)), None, None),
        ir(0x10c, DataFlowIrOpcode::Add, Some(reg(1)), Some(reg(1)), Some(num(2))),
        ir(0x110, DataFlowIrOpcode::Ret, None, None, None),
    ];
    let blocks = get_blocks(&irs);
    assert_eq!(blocks.len(), 3);
    assert_eq!(blocks[&0].address, 0);
    assert_eq!(blocks[&0].irs.len(), 2);
    assert_eq!(blocks[&0].next, Some(2));
    assert_eq!(blocks[&1].address, 1);
    assert_eq!(blocks[&1].irs.len(), 1);
    assert_eq!(blocks[&1].next, Some(2));
    assert_eq!(blocks[&2].address, 2);
    assert_eq!(blocks[&2].next, None);
}

#[test]
fn a_conditional_jump_has_two_successors() {
    let irs = vec![
        ir(0x100, DataFlowIrOpcode::Function, None, None, None),
        ir(0x104, DataFlowIrOpcode::Jcc(Relation::EQ), Some(reg(1)), Some(num(0)), Some(num(0x10c))),
        ir(0x108, DataFlowIrOpcode::Add, Some(reg(1)), Some(reg(1)), Some(num(2))),
        ir(0x10c, DataFlowIrOpcode::Ret, None, None, None),
    ];
    let blocks = get_blocks(&irs);
    assert_eq!(blocks.len(), 3);
    let b0 = &blocks[&0];
    assert_eq!(b0.true_next, Some(2));
    assert_eq!(b0.false_next, Some(1));
    let c = b0.condiction.as_ref().unwrap();
    assert_eq!(c.relation, Relation::EQ);
    assert_eq!(blocks[&1].next, Some(2));
}

#[test]
fn graph_of_blocks() {
    let irs = vec![
        ir(0x100, DataFlowIrOpcode::Function, None, None, None),
        ir(0x104, DataFlowIrOpcode::Jcc(Relation::EQ), Some(reg(1)), Some(num(0)), Some(num(0x10c))),
        ir(0x108, DataFlowIrOpcode::Add, Some(reg(1)), Some(reg(1)), Some(num(2))),
        ir(0x10c, DataFlowIrOpcode::Ret, None, None, None),
    ];
    let blocks = get_blocks(&irs);
    let cfg = ControlFlowGraph::build_control_flow_graph(blocks);
    assert_eq!(cfg.nodes.len(), 3);
    assert_eq!(cfg.edges.len(), 3);
    assert_eq!(cfg.condiction.len(), 1);
    assert_eq!(cfg.condiction[0].1, 1);
    let mut ends: Vec<(usize, u64, Option<bool>)> = cfg.edges.values().map(|e| (e.from, e.to, e._true)).collect();
    ends.sort();
    assert_eq!(ends, vec![(0, 1, Some(false)), (0, 2, Some(true)), (1, 2, None)]);
    assert_eq!(cfg.new_node_id(), 3);
}

#[test]
fn new_block_leads_nowhere() {
    let b = Block::new();
    assert_eq!(b.address, 0);
    assert!(b.irs.is_empty());
    assert!(b.next.is_none() && b.condiction.is_none());
}

#[test]
fn condition_negation_and_equality() {
    let c = Condiction { relation: Relation::L, operand1: reg(1), operand2: num(5) };
    let n = c.duplicate().not();
    assert_eq!(n.relation, Relation::GE);
    assert!(matches!(n.operand1, DFIOperand::Number(_)));
    assert!(c.eq(&n));
    assert!(n.eq(&c));
    let back = n.not();
    assert_eq!(back.relation, Relation::L);
    assert!(back.eq(&c));
    let d = Condiction { relation: Relation::G, operand1: reg(1), operand2: num(5) };
    assert!(!c.eq(&d));
}

#[test]
fn relation_negation_is_an_involution() {
    for r in [Relation::EQ, Relation::L, Relation::G, Relation::LE, Relation::GE, Relation::NE] {
        assert_eq!(r.not().not(), r);
        assert_ne!(r.not(), r);
    }
    assert_eq!(Relation::EQ.not(), Relation::NE);
    assert_eq!(Relation::L.not(), Relation::GE);
    assert_eq!(Relation::G.not(), Relation::LE);
}

#[test]
fn empty_graph() {
    let g = ControlFlowGraph::new();
    assert!(g.nodes.is_empty() && g.edges.is_empty());
    assert_eq!(g.new_node_id(), 0);
    let m: HashMap<usize, Block> = HashMap::new();
    let g = ControlFlowGraph::build_control_flow_graph(m);
    assert!(g.edges.is_empty());
}
