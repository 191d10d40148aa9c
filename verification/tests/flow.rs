use std::collections::HashMap;
use loongarch_decompiler::data_flow::analysis::analyse_data_flow;
use loongarch_decompiler::data_flow::{Address, DataFlowIr, DataFlowIrOpcode, RegisterRecord};
use loongarch_decompiler::insn::{AssemblyInstruction, NameValue, Opcode, Operand};

fn op(v: i64) -> Option<Operand> {
    Some(Operand { value: v, symbol: None })
}

fn insn(address: u64, opcode: Opcode, o1: Option<Operand>, o2: Option<Operand>, o3: Option<Operand>) -> AssemblyInstruction {
    AssemblyInstruction { address, label: None, opcode, operand1: o1, operand2: o2, operand3: o3, operand4: None }
}

#[test]
fn stack_pointer_adjustment_and_constant() {
    let insns = vec![
        insn(0x100, Opcode::ADDI_D, op(3), op(3), op(-16)),
        insn(0x104, Opcode::ADDI_D, op(12), op(0), op(5)),
    ];
    let functions: HashMap<u64, NameValue> = HashMap::new();
    let globals: HashMap<u64, NameValue> = HashMap::new();
    let data: HashMap<u64, Vec<u8>> = HashMap::new();
    let (irs, gr, syms) = analyse_data_flow(insns, &functions, &globals, &data);
    assert_eq!(irs.len(), 3);
    assert_eq!(irs[0].opcode, DataFlowIrOpcode::Function);
    assert_eq!(irs[0].address, 0x100);
    assert_eq!(irs[1].opcode, DataFlowIrOpcode::Nop);
    assert_eq!(irs[2].opcode, DataFlowIrOpcode::Nop);
    assert_eq!(irs[2].address, 0x104);
    match gr[3].value {
        RegisterRecord::Symbol(s) => assert_eq!(s.address, Address::Stack(-16)),
        RegisterRecord::Number(_) => panic!("the stack pointer stays a stack address"),
    }
    assert!(gr[12].state);
    match gr[12].value {
        RegisterRecord::Number(n) => assert_eq!(n.value, 5),
        RegisterRecord::Symbol(_) => panic!("a constant stays a number"),
    }
    assert_eq!(syms.len(), 0);
}

#[test]
fn nop_ir_has_no_operands() {
    let ir = DataFlowIr::nop(0x40);
    assert_eq!(ir.address, 0x40);
    assert_eq!(ir.opcode, DataFlowIrOpcode::Nop);
    assert!(ir.operand1.is_none() && ir.operand2.is_none() && ir.operand3.is_none());
    let d = ir.duplicate();
    assert_eq!(d.address, 0x40);
}
