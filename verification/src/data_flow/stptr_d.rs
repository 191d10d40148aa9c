use vstd::prelude::*;
use crate::data_flow::{IrView, OperandView, irs_view};
use crate::insn::AssemblyInstruction;
use crate::counter::after;
use crate::data_flow::{
    DataFlowIr, DFIOperand, DFISymbolRecord, DFISymbolRecordTable, DFISymbolType, Address, Size, GRRecord,
    RegisterRecord, SymbolSet, set_with,
};
use crate::data_flow::state::{push_ir, 
    DFState, df_state, known, reg_of, names_reg, fits_i64, store_ir, reg_index, imm, add_symbol, put_reg,
};
use crate::data_flow::ldptr_d::ldptr_offset;

verus! {

/// `stptr.d rd, rj, offs` stores through a known base register; unless rd is
/// the frame pointer (r22), that base is a stack address and the slot it
/// names fits in an `i64`.
pub open spec fn stptr_d_operands(s: DFState, insn: AssemblyInstruction) -> bool {
    let i1 = reg_of(insn.operand1);
    let i2 = reg_of(insn.operand2);
    &&& names_reg(insn.operand1, s.gr.len())
    &&& names_reg(insn.operand2, s.gr.len())
    &&& insn.operand3 is Some
    &&& s.gr.len() == s.gp.len()
    &&& s.gr[i2].state
    &&& (i1 != 22 ==> match s.gr[i2].value {
        RegisterRecord::Symbol(sym) => match sym.address {
            Address::Stack(st) => fits_i64(st + ldptr_offset(insn)),
            _ => false,
        },
        _ => false,
    })
}

/// What `stptr.d rd, rj, offs` does to the analysis state: saving the frame
/// pointer changes nothing; otherwise the stack slot becomes a symbol, an
/// unread rd becomes a parameter symbol stored into the slot, and rd is
/// stored into the slot.
pub open spec fn stptr_d_step(s: DFState, insn: AssemblyInstruction) -> DFState {
    let i1 = reg_of(insn.operand1);
    let i2 = reg_of(insn.operand2);
    let a = insn.address;
    if i1 == 22 {
        s
    } else {
        match s.gr[i2].value {
            RegisterRecord::Symbol(sym2) => match sym2.address {
                Address::Stack(st) => {
                    let slot = DFISymbolRecord { address: Address::Stack((st + ldptr_offset(insn)) as i64), value: false, ..sym2 };
                    let s1 = s.with_symbol(slot);
                    let s2 = if s1.gr[i1].state {
                        s1
                    } else {
                        let p = DFISymbolRecord {
                            address: Address::GR(i2 as usize),
                            sym_type: DFISymbolType::Param,
                            id: s1.tmp as usize,
                            size: Size::Signed64,
                            value: false,
                        };
                        DFState { tmp: after(s1.tmp), ..s1 }.with_reg(i1, RegisterRecord::Symbol(p)).with_symbol(p).with_ir(
                            store_ir(a, OperandView::Symbol(p), OperandView::Symbol(slot)),
                        )
                    };
                    match s2.gr[i1].value {
                        RegisterRecord::Number(n) => s2.with_ir(store_ir(a, OperandView::Number(n), OperandView::Symbol(slot))),
                        RegisterRecord::Symbol(y) => s2.with_ir(
                            store_ir(a, OperandView::Symbol(y), OperandView::Symbol(DFISymbolRecord { value: true, ..slot })),
                        ),
                    }
                },
                _ => s,
            },
            _ => s,
        }
    }
}

/// A store IR instruction (see `store_ir`).
fn store(address: u64, a: DFIOperand, b: DFIOperand) -> (ir: DataFlowIr)
    ensures
        ir@ == store_ir(address, a@, b@),
{
    DataFlowIr { address, opcode: crate::data_flow::DataFlowIrOpcode::Store, operand1: Some(a), operand2: Some(b), operand3: None }
}

/// `stptr.d rd, rj, offs`: stores the 64 bits of rd at rj + offs * 4.
pub fn stptr_d(
    insn: AssemblyInstruction,
    irs: &mut Vec<DataFlowIr>,
    gr_states: &mut Vec<GRRecord>,
    symbol_table: &mut DFISymbolRecordTable,
    gr_states_parameter: &mut Vec<GRRecord>,
    symbol_parameter: &mut SymbolSet,
)
    requires
        stptr_d_operands(df_state(*old(irs), *old(gr_states), *old(symbol_table), *old(gr_states_parameter), *old(symbol_parameter)), insn),
    ensures
        df_state(*final(irs), *final(gr_states), *final(symbol_table), *final(gr_states_parameter), *final(symbol_parameter))
            == stptr_d_step(df_state(*old(irs), *old(gr_states), *old(symbol_table), *old(gr_states_parameter), *old(symbol_parameter)), insn),
{
    proof {
        assert(gr_states@.len() == gr_states.len());
    }
    let index1 = reg_index(&insn.operand1);
    let index2 = reg_index(&insn.operand2);
    let value = imm(&insn.operand3) << 2u64;
    let a = insn.address;
    if index1 == 22 {
        return;
    }
    if let RegisterRecord::Symbol(symbol2) = gr_states[index2].value {
        if let Address::Stack(stack) = symbol2.address {
            let symbol = DFISymbolRecord {
                address: Address::Stack(stack + value),
                sym_type: symbol2.sym_type,
                id: symbol2.id,
                size: symbol2.size,
                value: false,
            };
            add_symbol(symbol, symbol_table, symbol_parameter);
            if !gr_states[index1].state {
                let id = symbol_table.tmp_counter.get();
                let parameter = DFISymbolRecord {
                    address: Address::GR(index2),
                    sym_type: DFISymbolType::Param,
                    id,
                    size: Size::Signed64,
                    value: false,
                };
                put_reg(index1, RegisterRecord::Symbol(parameter), gr_states, gr_states_parameter);
                add_symbol(parameter, symbol_table, symbol_parameter);
                push_ir(irs, store(a, DFIOperand::Symbol(parameter), DFIOperand::Symbol(symbol)));
            }
            match gr_states[index1].value {
                RegisterRecord::Number(number) => {
                    push_ir(irs, store(a, DFIOperand::Number(number), DFIOperand::Symbol(symbol)));
                },
                RegisterRecord::Symbol(symbol1) => {
                    let mut slot = symbol;
                    slot.value = true;
                    push_ir(irs, store(a, DFIOperand::Symbol(symbol1), DFIOperand::Symbol(slot)));
                },
            }
        }
    }
}

} // verus!
