use vstd::prelude::*;
use crate::data_flow::{IrView, OperandView, irs_view};
use crate::insn::AssemblyInstruction;
use crate::counter::after;
use crate::data_flow::{
    DataFlowIr, DataFlowIrOpcode, DFIOperand, Number, DFISymbolRecord, DFISymbolRecordTable, DFISymbolType,
    Address, Size, GRRecord, RegisterRecord, SymbolSet, contains_equiv,
};
use crate::data_flow::state::{push_ir, 
    DFState, df_state, known, reg_of, imm_of, names_reg, fits_i64, store_ir, ir3, reg_index, imm, add_symbol,
    add_new_symbol,
};

verus! {

/// Reading rd of `st.w`: an unread rd becomes a 32-bit parameter symbol
/// (named after the base register), recorded in both symbol sets (its copy
/// is left as it was).
pub open spec fn st_w_read(s: DFState, insn: AssemblyInstruction) -> DFState {
    let i1 = reg_of(insn.operand1);
    let i2 = reg_of(insn.operand2);
    if s.gr[i1].state {
        s
    } else {
        let p = DFISymbolRecord {
            address: Address::GR(i2 as usize),
            sym_type: DFISymbolType::Param,
            id: s.tmp as usize,
            size: Size::Signed32,
            value: false,
        };
        DFState { gr: s.gr.update(i1, known(RegisterRecord::Symbol(p))), tmp: after(s.tmp), ..s }.with_symbol(p)
    }
}

/// `st.w rd, rj, offs` stores through a known base register holding a
/// symbol that is not a memory address; a stack slot fits in an `i64`, and
/// a store through a register is not at address 0.
pub open spec fn st_w_operands(s: DFState, insn: AssemblyInstruction) -> bool {
    let i2 = reg_of(insn.operand2);
    let v = imm_of(insn.operand3);
    &&& names_reg(insn.operand1, s.gr.len())
    &&& names_reg(insn.operand2, s.gr.len())
    &&& insn.operand3 is Some
    &&& s.gr.len() == s.gp.len()
    &&& s.gr[i2].state
    &&& match s.gr[i2].value {
        RegisterRecord::Symbol(sym) => match sym.address {
            Address::Stack(st) => fits_i64(st + v),
            Address::Memory(_) => false,
            _ => insn.address > 0,
        },
        _ => false,
    }
}

/// A symbol stored to as a 32-bit value.
pub open spec fn target32(s: DFISymbolRecord) -> DFISymbolRecord {
    DFISymbolRecord { value: true, size: Size::Signed32, ..s }
}

/// What `st.w rd, rj, offs` does to the analysis state: a store of the low
/// 32 bits of rd to a stack slot (which becomes a symbol when new), or
/// through a register, whose address is first computed into a temporary.
pub open spec fn st_w_step(s: DFState, insn: AssemblyInstruction) -> DFState {
    let i1 = reg_of(insn.operand1);
    let i2 = reg_of(insn.operand2);
    let v = imm_of(insn.operand3);
    let a = insn.address;
    let s1 = st_w_read(s, insn);
    match s1.gr[i2].value {
        RegisterRecord::Symbol(sym2) => match sym2.address {
            Address::Stack(st) => {
                let slot = DFISymbolRecord { address: Address::Stack((st + v) as i64), ..sym2 };
                let s2 = if contains_equiv(s1.syms, slot) { s1 } else { s1.with_symbol(slot) };
                match s2.gr[i1].value {
                    RegisterRecord::Number(n) => s2.with_ir(store_ir(
                        a,
                        OperandView::Number(Number { value: n.value, signed: true, size: Size::Signed32 }),
                        OperandView::Symbol(target32(slot)),
                    )),
                    RegisterRecord::Symbol(y) => {
                        let y32 = DFISymbolRecord { size: Size::Signed32, value: false, ..y };
                        match y.address {
                            Address::Memory(_) => s2.with_nop(a),
                            _ => s2.with_ir(store_ir(a, OperandView::Symbol(y32), OperandView::Symbol(target32(slot)))),
                        }
                    },
                }
            },
            Address::Memory(_) => s1,
            _ => {
                let t = DFISymbolRecord {
                    address: Address::GR(usize::MAX),
                    sym_type: DFISymbolType::Temp,
                    id: s1.tmp as usize,
                    size: Size::Unsigned64,
                    value: sym2.value,
                };
                let s2 = s1.next_tmp().with_ir(ir3(
                    (a - 1) as u64,
                    DataFlowIrOpcode::Add,
                    OperandView::Symbol(t),
                    OperandView::Symbol(sym2),
                    OperandView::Number(Number { value: v as i64, signed: true, size: Size::Signed64 }),
                ));
                match s2.gr[i1].value {
                    RegisterRecord::Number(n) => s2.with_ir(store_ir(
                        a,
                        OperandView::Number(Number { size: Size::Signed32, signed: true, ..n }),
                        OperandView::Symbol(t),
                    )),
                    RegisterRecord::Symbol(y) => s2.with_ir(store_ir(
                        a,
                        OperandView::Symbol(target32(y)),
                        OperandView::Symbol(target32(t)),
                    )),
                }
            },
        },
        _ => s1,
    }
}

/// A store IR instruction (see `store_ir`).
fn store(address: u64, a: DFIOperand, b: DFIOperand) -> (ir: DataFlowIr)
    ensures
        ir@ == store_ir(address, a@, b@),
{
    DataFlowIr { address, opcode: DataFlowIrOpcode::Store, operand1: Some(a), operand2: Some(b), operand3: None }
}

/// `st.w rd, rj, offs`: stores the low 32 bits of rd at rj + offs.
pub fn st_w(
    insn: AssemblyInstruction,
    irs: &mut Vec<DataFlowIr>,
    gr_states: &mut Vec<GRRecord>,
    symbol_table: &mut DFISymbolRecordTable,
    gr_states_parameter: &mut Vec<GRRecord>,
    symbol_parameter: &mut SymbolSet,
)
    requires
        st_w_operands(df_state(*old(irs), *old(gr_states), *old(symbol_table), *old(gr_states_parameter), *old(symbol_parameter)), insn),
    ensures
        df_state(*final(irs), *final(gr_states), *final(symbol_table), *final(gr_states_parameter), *final(symbol_parameter))
            == st_w_step(df_state(*old(irs), *old(gr_states), *old(symbol_table), *old(gr_states_parameter), *old(symbol_parameter)), insn),
{
    proof {
        assert(gr_states@.len() == gr_states.len());
    }
    let index1 = reg_index(&insn.operand1);
    let index2 = reg_index(&insn.operand2);
    let value = imm(&insn.operand3);
    let a = insn.address;
    if !gr_states[index1].state {
        let id = symbol_table.tmp_counter.get();
        let parameter = DFISymbolRecord {
            address: Address::GR(index2),
            sym_type: DFISymbolType::Param,
            id,
            size: Size::Signed32,
            value: false,
        };
        gr_states.set(index1, GRRecord { value: RegisterRecord::Symbol(parameter), state: true });
        add_symbol(parameter, symbol_table, symbol_parameter);
    }
    if let RegisterRecord::Symbol(symbol2) = gr_states[index2].value {
        match symbol2.address {
            Address::Stack(stack) => {
                let symbol = DFISymbolRecord {
                    address: Address::Stack(stack + value),
                    sym_type: symbol2.sym_type,
                    id: symbol2.id,
                    size: symbol2.size,
                    value: symbol2.value,
                };
                add_new_symbol(symbol, symbol_table, symbol_parameter);
                let mut sym2 = symbol;
                sym2.value = true;
                sym2.size = Size::Signed32;
                match gr_states[index1].value {
                    RegisterRecord::Number(number) => {
                        push_ir(irs, store(a, DFIOperand::Number(Number::from(number.value, true, Size::Signed32)), DFIOperand::Symbol(sym2)));
                    },
                    RegisterRecord::Symbol(symbol1) => {
                        let mut sym1 = symbol1;
                        sym1.size = Size::Signed32;
                        sym1.value = false;
                        match symbol1.address {
                            Address::Memory(_) => {
                                push_ir(irs, DataFlowIr::nop(a));
                            },
                            _ => {
                                push_ir(irs, store(a, DFIOperand::Symbol(sym1), DFIOperand::Symbol(sym2)));
                            },
                        }
                    },
                }
            },
            Address::Memory(_) => {},
            _ => {
                let id = symbol_table.tmp_counter.get();
                let sym_tmp = DFISymbolRecord {
                    address: Address::GR(usize::MAX),
                    sym_type: DFISymbolType::Temp,
                    id,
                    size: Size::Unsigned64,
                    value: symbol2.value,
                };
                push_ir(irs, DataFlowIr {
                    address: a - 1,
                    opcode: DataFlowIrOpcode::Add,
                    operand1: Some(DFIOperand::Symbol(sym_tmp)),
                    operand2: Some(DFIOperand::Symbol(symbol2)),
                    operand3: Some(DFIOperand::Number(Number::from(value, true, Size::Signed64))),
                });
                match gr_states[index1].value {
                    RegisterRecord::Number(number1) => {
                        let mut number = number1;
                        number.size = Size::Signed32;
                        number.signed = true;
                        push_ir(irs, store(a, DFIOperand::Number(number), DFIOperand::Symbol(sym_tmp)));
                    },
                    RegisterRecord::Symbol(symbol1) => {
                        let mut symbol = symbol1;
                        symbol.value = true;
                        symbol.size = Size::Signed32;
                        let mut t = sym_tmp;
                        t.size = Size::Signed32;
                        t.value = true;
                        push_ir(irs, store(a, DFIOperand::Symbol(symbol), DFIOperand::Symbol(t)));
                    },
                }
            },
        }
    }
}

} // verus!
