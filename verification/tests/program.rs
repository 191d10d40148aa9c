use std::collections::HashMap;
use loongarch_decompiler::eliminate_redundancy::{eliminate_redundacy, AssemblyInstructionEliminatedRedundancy};
use loongarch_decompiler::function_block::FunctionBlock;
use loongarch_decompiler::insn::{AssemblyInstruction, DynSymbolRecord, NameValue, Opcode, Operand, SymbolRecord, SymbolType};
use loongarch_decompiler::plt::analyse_plt;

fn op(v: i64) -> Option<Operand> {
    Some(Operand { value: v, symbol: None })
}

fn insn(address: u64, opcode: Opcode, o1: Option<Operand>, o2: Option<Operand>, o3: Option<Operand>) -> AssemblyInstruction {
    AssemblyInstruction { address, label: None, opcode, operand1: o1, operand2: o2, operand3: o3, operand4: None }
}

fn nops(n: u64) -> Vec<AssemblyInstruction> {
    (0..n).map(|i| insn(i * 4, Opcode::NOP, None, None, None)).collect()
}

fn sym(name: &str, offset: u64, size: u64, sym_type: SymbolType) -> SymbolRecord {
    SymbolRecord { name: String::from(name), offset, size, sym_type }
}

fn name_of(v: &NameValue) -> String {
    match v {
        NameValue::Name(s) => s.clone(),
        NameValue::Value(x) => format!("{}", x),
    }
}

#[test]
fn function_blocks_take_their_instructions() {
    let insns = nops(6);
    let mut symbols = HashMap::new();
    symbols.insert(4u64, sym("f", 4, 8, SymbolType::Func));
    symbols.insert(12u64, sym("g", 12, 400, SymbolType::Func));
    symbols.insert(0u64, sym("data", 0, 8, SymbolType::Object));
    symbols.insert(16u64, sym("empty", 16, 0, SymbolType::Func));
    let mut blocks = FunctionBlock::from(insns, &symbols);
    blocks.sort_by_key(|b| b.address);
    assert_eq!(blocks.len(), 2);
    assert_eq!(blocks[0].name, "f");
    assert_eq!(blocks[0].address, 4);
    assert_eq!(blocks[0].size, 8);
    let a: Vec<u64> = blocks[0].instruction.iter().map(|i| i.address).collect();
    assert_eq!(a, vec![4, 8]);
    assert_eq!(blocks[1].name, "g");
    let b: Vec<u64> = blocks[1].instruction.iter().map(|i| i.address).collect();
    assert_eq!(b, vec![12, 16, 20]);
}

#[test]
fn tiny_function_takes_all_or_nothing() {
    let insns = nops(4);
    let mut symbols = HashMap::new();
    symbols.insert(8u64, sym("t", 8, 2, SymbolType::Func));
    let blocks = FunctionBlock::from(insns, &symbols);
    assert_eq!(blocks.len(), 1);
    assert!(blocks[0].instruction.is_empty());

    let insns = nops(4);
    let mut symbols = HashMap::new();
    symbols.insert(0u64, sym("t", 0, 2, SymbolType::Func));
    let blocks = FunctionBlock::from(insns, &symbols);
    assert_eq!(blocks[0].instruction.len(), 4);
}

#[test]
fn function_blocks_in_a_given_order() {
    let insns = nops(3);
    let mut symbols = HashMap::new();
    symbols.insert(0u64, sym("a", 0, 4, SymbolType::Func));
    symbols.insert(4u64, sym("b", 4, 4, SymbolType::Func));
    let blocks = FunctionBlock::from_in_order(insns, &symbols, &vec![4, 0]);
    assert_eq!(blocks[0].name, "b");
    assert_eq!(blocks[1].name, "a");
    assert_eq!(blocks[0].instruction[0].address, 4);
    assert_eq!(blocks[1].instruction[0].address, 0);
}

fn plt_table() -> Vec<AssemblyInstruction> {
    let mut insns = nops(8);
    insns.push(insn(0x1000, Opcode::PCADDU12I, op(15), op(1), None));
    insns.push(insn(0x1004, Opcode::LD_D, op(15), op(15), op(0x10)));
    insns.push(insn(0x1008, Opcode::JIRL, op(15), op(15), op(0)));
    insns.push(insn(0x100c, Opcode::NOP, None, None, None));
    insns.push(insn(0x1010, Opcode::PCADDU12I, op(15), op(2), None));
    insns.push(insn(0x1014, Opcode::LD_D, op(15), op(15), op(-8)));
    insns
}

#[test]
fn plt_entries_take_the_names_of_their_targets() {
    let insns = plt_table();
    let mut functions = HashMap::new();
    functions.insert(0x99u64, NameValue::Value(7));
    let symbols = vec![
        DynSymbolRecord { name: String::from("puts"), offset: 0x2010 },
        DynSymbolRecord { name: String::from("printf"), offset: 0x3008 },
    ];
    analyse_plt(&insns, &mut functions, &symbols);
    assert_eq!(functions.len(), 3);
    assert_eq!(name_of(&functions[&0x1000]), "puts");
    assert_eq!(name_of(&functions[&0x1010]), "printf");
    assert_eq!(name_of(&functions[&0x99]), "7");
}

#[test]
fn plt_later_symbol_at_an_address_wins() {
    let insns = plt_table();
    let mut functions = HashMap::new();
    let symbols = vec![
        DynSymbolRecord { name: String::from("old"), offset: 0x2010 },
        DynSymbolRecord { name: String::from("new"), offset: 0x2010 },
    ];
    analyse_plt(&insns, &mut functions, &symbols);
    assert_eq!(functions.len(), 1);
    assert_eq!(name_of(&functions[&0x1000]), "new");
}

#[test]
fn plt_without_entries_changes_nothing() {
    let insns = nops(8);
    let mut functions = HashMap::new();
    let symbols = vec![DynSymbolRecord { name: String::from("puts"), offset: 0 }];
    analyse_plt(&insns, &mut functions, &symbols);
    assert!(functions.is_empty());
}

#[test]
fn eliminated_instruction_new_and_from() {
    let e = AssemblyInstructionEliminatedRedundancy::new();
    assert_eq!(e.address, 0);
    assert!(e.label.is_none());
    assert_eq!(e.opcode, Opcode::AND);
    assert!(e.operand1.is_none() && e.operand4.is_none());
    let i = insn(0x40, Opcode::ADDI_D, op(3), op(3), op(-16));
    let e = AssemblyInstructionEliminatedRedundancy::from(i);
    assert_eq!(e.address, 0x40);
    assert_eq!(e.opcode, Opcode::ADDI_D);
    assert_eq!(e.operand3.unwrap().value, -16);
}

#[test]
fn eliminate_redundacy_keeps_no_instruction() {
    let insns = vec![
        insn(0x0, Opcode::PCADDU12I, op(12), op(1), None),
        insn(0x4, Opcode::LD_D, op(12), op(12), op(8)),
        insn(0x8, Opcode::LD_D, op(13), op(12), op(8)),
        insn(0xc, Opcode::ADDI_D, op(3), op(3), op(-16)),
    ];
    let mut symbols = HashMap::new();
    symbols.insert(0u64, sym("main", 0, 16, SymbolType::Func));
    let r = eliminate_redundacy(insns, &symbols);
    assert!(r.is_empty());
}
