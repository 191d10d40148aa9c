use std::collections::HashMap;
use loongarch_decompiler::data_flow::{
    Address, DFIOperand, DFISymbolRecord, DFISymbolType, DataFlowIr, DataFlowIrOpcode, Number, RegisterRecord, Relation, Size,
};
use loongarch_decompiler::insn::NameValue;

fn sym(address: Address, sym_type: DFISymbolType, id: usize, size: Size, value: bool) -> DFISymbolRecord {
    DFISymbolRecord { address, sym_type, id, size, value }
}

fn number(value: i64) -> Number {
    Number { value, signed: true, size: Size::Signed32 }
}

fn ir(address: u64, opcode: DataFlowIrOpcode, o1: Option<DFIOperand>, o2: Option<DFIOperand>, o3: Option<DFIOperand>) -> DataFlowIr {
    DataFlowIr { address, opcode, operand1: o1, operand2: o2, operand3: o3 }
}

fn no_data() -> HashMap<u64, Vec<u8>> {
    HashMap::new()
}

#[test]
fn an_addition() {
    let i = ir(
        0x120,
        DataFlowIrOpcode::Add,
        Some(DFIOperand::Symbol(sym(Address::GR(12), DFISymbolType::Temp, 3, Size::Signed64, true))),
        Some(DFIOperand::Symbol(sym(Address::Stack(-20), DFISymbolType::Local, 0, Size::Signed32, true))),
        Some(DFIOperand::Number(number(5))),
    );
    assert_eq!(i.fmt(&HashMap::new(), &no_data()), "0x00000120\tlong temp@3 = *(*long)(stack@-20) + 5;");
}

#[test]
fn a_named_call_with_a_string() {
    let i = ir(
        0x100,
        DataFlowIrOpcode::Call,
        Some(DFIOperand::Number(number(0x400))),
        Some(DFIOperand::Parameter(vec![
            RegisterRecord::Number(number(0x1000)),
            RegisterRecord::Symbol(sym(Address::GR(5), DFISymbolType::Temp, 2, Size::Signed64, false)),
        ])),
        Some(DFIOperand::Symbol(sym(Address::GR(4), DFISymbolType::Return, 0, Size::Signed32, true))),
    );
    let mut functions = HashMap::new();
    functions.insert(0x400, NameValue::Name(String::from("printf")));
    let mut data = HashMap::new();
    data.insert(0xfff, vec![0, b'h', b'i', 0]);
    assert_eq!(i.fmt(&functions, &data), "0x00000100\tint return@0 = printf(\"hi\", temp@2);");
    assert_eq!(i.fmt(&HashMap::new(), &no_data()), "0x00000100\tint return@0 = func@0x00000400(4096, temp@2);");
}

#[test]
fn a_conditional_jump() {
    let i = ir(
        0x128,
        DataFlowIrOpcode::Jcc(Relation::L),
        Some(DFIOperand::Symbol(sym(Address::Stack(-20), DFISymbolType::Local, 0, Size::Signed32, true))),
        Some(DFIOperand::Number(number(10))),
        Some(DFIOperand::Number(number(0x130))),
    );
    assert_eq!(i.fmt(&HashMap::new(), &no_data()), "0x00000128\tif(*(int*)(stack@-20) < 10) goto label@0x130");
}

#[test]
fn a_store_a_return_and_a_head() {
    let st = ir(
        0x8,
        DataFlowIrOpcode::Store,
        Some(DFIOperand::Number(number(7))),
        Some(DFIOperand::Symbol(sym(Address::Stack(-24), DFISymbolType::Local, 1, Size::Signed32, true))),
        None,
    );
    assert_eq!(st.fmt(&HashMap::new(), &no_data()), "0x00000008\t*(int*)(stack@-24) = 7;");
    let ret = ir(
        0xc,
        DataFlowIrOpcode::Ret,
        Some(DFIOperand::Symbol(sym(Address::GR(4), DFISymbolType::Temp, 5, Size::Signed64, true))),
        None,
        None,
    );
    assert_eq!(ret.fmt(&HashMap::new(), &no_data()), "0x0000000c\treturn temp@5;");
    let head = ir(
        0x0,
        DataFlowIrOpcode::Function,
        Some(DFIOperand::Parameter(vec![
            RegisterRecord::Symbol(sym(Address::GR(4), DFISymbolType::Param, 0, Size::Signed64, true)),
            RegisterRecord::Symbol(sym(Address::GR(5), DFISymbolType::Param, 1, Size::Signed64, true)),
        ])),
        None,
        None,
    );
    assert_eq!(head.fmt(&HashMap::new(), &no_data()), "0x00000000\tfunction begin(param@0, param@1)");
    assert_eq!(DataFlowIr::nop(0x123456789).fmt(&HashMap::new(), &no_data()), "0x123456789\t");
}
