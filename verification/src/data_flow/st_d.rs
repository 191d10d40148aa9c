use vstd::prelude::*;
use crate::data_flow::{IrView, OperandView, irs_view};
use crate::insn::AssemblyInstruction;
use crate::data_flow::{
    DataFlowIr, DFIOperand, Number, DFISymbolRecord, DFISymbolRecordTable, Address, Size, GRRecord,
    RegisterRecord, SymbolSet,
};
use crate::data_flow::state::{push_ir, 
    DFState, df_state, reg_of, imm_of, names_reg, fits_i64, store_ir, ensure_param, copy_reg, reg_index, imm,
    add_symbol,
};

verus! {

/// `st.d rd, rj, offs` stores through a known base register; unless rd is
/// the frame pointer (r22) or the return address (r1), that base is a stack
/// address and the slot it names fits in an `i64`.
pub open spec fn st_d_operands(s: DFState, insn: AssemblyInstruction) -> bool {
    let i1 = reg_of(insn.operand1);
    let i2 = reg_of(insn.operand2);
    let v = imm_of(insn.operand3);
    &&& names_reg(insn.operand1, s.gr.len())
    &&& names_reg(insn.operand2, s.gr.len())
    &&& insn.operand3 is Some
    &&& s.gr.len() == s.gp.len()
    &&& s.gr[i2].state
    &&& (i1 != 22 && i1 != 1 ==> match s.gr[i2].value {
        RegisterRecord::Symbol(sym) => match sym.address {
            Address::Stack(st) => fits_i64(st + v),
            _ => false,
        },
        _ => false,
    })
}

/// The store `st.d` emits of the content `v` of the source register into the stack slot `slot`.
pub open spec fn st_d_ir(address: u64, v: RegisterRecord, slot: DFISymbolRecord) -> IrView {
    let slot64 = DFISymbolRecord { value: true, size: Size::Signed64, ..slot };
    match v {
        RegisterRecord::Number(n) => store_ir(
            address,
            OperandView::Number(Number { value: n.value, signed: true, size: Size::Signed64 }),
            OperandView::Symbol(slot64),
        ),
        RegisterRecord::Symbol(src) => match src.address {
            Address::Stack(_) => store_ir(address, OperandView::Symbol(src), OperandView::Symbol(slot)),
            Address::Memory(_) => store_ir(
                address,
                OperandView::Symbol(DFISymbolRecord { value: true, size: Size::Unsigned64, ..src }),
                OperandView::Symbol(slot64),
            ),
            _ => store_ir(
                address,
                OperandView::Symbol(DFISymbolRecord { size: Size::Signed64, ..src }),
                OperandView::Symbol(slot64),
            ),
        },
    }
}

/// What `st.d rd, rj, offs` does to the analysis state: saving the frame
/// pointer or the return address changes nothing; otherwise rd is read, the
/// stack slot becomes a symbol of both symbol sets, and a store is emitted.
pub open spec fn st_d_step(s: DFState, insn: AssemblyInstruction) -> DFState {
    let i1 = reg_of(insn.operand1);
    let i2 = reg_of(insn.operand2);
    let v = imm_of(insn.operand3);
    if i1 == 22 || i1 == 1 {
        s
    } else {
        let s1 = s.with_param(i1).with_copy(i2);
        match s1.gr[i2].value {
            RegisterRecord::Symbol(sym2) => match sym2.address {
                Address::Stack(st) => {
                    let slot = DFISymbolRecord { address: Address::Stack((st + v) as i64), value: true, ..sym2 };
                    let s2 = s1.with_symbol(slot).with_copy(i1);
                    s2.with_ir(st_d_ir(insn.address, s2.gr[i1].value, slot))
                },
                _ => s1,
            },
            _ => s1,
        }
    }
}

/// `st.d rd, rj, offs`: stores the 64 bits of rd at rj + offs.
pub fn st_d(
    insn: AssemblyInstruction,
    irs: &mut Vec<DataFlowIr>,
    gr_states: &mut Vec<GRRecord>,
    symbol_table: &mut DFISymbolRecordTable,
    gr_states_parameter: &mut Vec<GRRecord>,
    symbol_parameter: &mut SymbolSet,
)
    requires
        st_d_operands(df_state(*old(irs), *old(gr_states), *old(symbol_table), *old(gr_states_parameter), *old(symbol_parameter)), insn),
    ensures
        df_state(*final(irs), *final(gr_states), *final(symbol_table), *final(gr_states_parameter), *final(symbol_parameter))
            == st_d_step(df_state(*old(irs), *old(gr_states), *old(symbol_table), *old(gr_states_parameter), *old(symbol_parameter)), insn),
{
    proof {
        assert(gr_states@.len() == gr_states.len());
    }
    let index1 = reg_index(&insn.operand1);
    let index2 = reg_index(&insn.operand2);
    let value = imm(&insn.operand3);
    if index1 == 22 || index1 == 1 {
        return;
    }
    ensure_param(index1, irs, gr_states, symbol_table, gr_states_parameter, symbol_parameter);
    copy_reg(index2, gr_states, gr_states_parameter);
    if let RegisterRecord::Symbol(symbol2) = gr_states[index2].value {
        if let Address::Stack(stack) = symbol2.address {
            let symbol = DFISymbolRecord {
                address: Address::Stack(stack + value),
                sym_type: symbol2.sym_type,
                id: symbol2.id,
                size: symbol2.size,
                value: true,
            };
            add_symbol(symbol, symbol_table, symbol_parameter);
            copy_reg(index1, gr_states, gr_states_parameter);
            let mut slot64 = symbol;
            slot64.value = true;
            slot64.size = Size::Signed64;
            let ir = match gr_states[index1].value {
                RegisterRecord::Number(number) => DataFlowIr {
                    address: insn.address,
                    opcode: crate::data_flow::DataFlowIrOpcode::Store,
                    operand1: Some(DFIOperand::Number(Number::from(number.value, true, Size::Signed64))),
                    operand2: Some(DFIOperand::Symbol(slot64)),
                    operand3: None,
                },
                RegisterRecord::Symbol(symbol1) => {
                    match symbol1.address {
                        Address::Stack(_) => DataFlowIr {
                            address: insn.address,
                            opcode: crate::data_flow::DataFlowIrOpcode::Store,
                            operand1: Some(DFIOperand::Symbol(symbol1)),
                            operand2: Some(DFIOperand::Symbol(symbol)),
                            operand3: None,
                        },
                        Address::Memory(_) => {
                            let mut sym1 = symbol1;
                            sym1.value = true;
                            sym1.size = Size::Unsigned64;
                            DataFlowIr {
                                address: insn.address,
                                opcode: crate::data_flow::DataFlowIrOpcode::Store,
                                operand1: Some(DFIOperand::Symbol(sym1)),
                                operand2: Some(DFIOperand::Symbol(slot64)),
                                operand3: None,
                            }
                        },
                        _ => {
                            let mut sym1 = symbol1;
                            sym1.size = Size::Signed64;
                            DataFlowIr {
                                address: insn.address,
                                opcode: crate::data_flow::DataFlowIrOpcode::Store,
                                operand1: Some(DFIOperand::Symbol(sym1)),
                                operand2: Some(DFIOperand::Symbol(slot64)),
                                operand3: None,
                            }
                        },
                    }
                },
            };
            push_ir(irs, ir);
        }
    }
}

} // verus!
