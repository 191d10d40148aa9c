use vstd::prelude::*;
use crate::data_flow::{IrView, OperandView, irs_view};
use crate::insn::AssemblyInstruction;
use crate::data_flow::{
    DataFlowIr, DFIOperand, Number, DFISymbolRecord, DFISymbolRecordTable, DFISymbolType, Address, Size,
    GRRecord, RegisterRecord, SymbolSet, contains_equiv, first_id_at,
};
use crate::data_flow::state::{push_ir, 
    DFState, df_state, known, reg_of, imm_of, names_reg, fits_i64, store_ir, reg_index, imm,
    add_symbol, add_new_symbol,
};
use crate::counter::after;

verus! {

/// The byte offset of `stptr.w`: its immediate counts words of four bytes.
pub open spec fn stptr_w_offset(insn: AssemblyInstruction) -> i64 {
    (imm_of(insn.operand3) as i64) << 2u64
}

/// `stptr.w rd, rj, offs` stores through a known base register; a stack
/// slot it names fits in an `i64`.
pub open spec fn stptr_w_operands(s: DFState, insn: AssemblyInstruction) -> bool {
    let i2 = reg_of(insn.operand2);
    &&& names_reg(insn.operand1, s.gr.len())
    &&& names_reg(insn.operand2, s.gr.len())
    &&& insn.operand3 is Some
    &&& s.gr.len() == s.gp.len()
    &&& s.gr[i2].state
    &&& match s.gr[i2].value {
        RegisterRecord::Symbol(sym) => match sym.address {
            Address::Stack(st) => fits_i64(st + stptr_w_offset(insn)),
            _ => true,
        },
        _ => true,
    }
}

/// The 32-bit signed form of a number.
pub open spec fn num32(n: Number) -> Number {
    Number { signed: true, size: Size::Signed32, ..n }
}

/// A symbol taken as a 32-bit value.
pub open spec fn value32(s: DFISymbolRecord) -> DFISymbolRecord {
    DFISymbolRecord { size: Size::Signed32, value: true, ..s }
}

/// The stack-slot case of `stptr.w`: the slot becomes a symbol (when new),
/// an unread rd becomes a parameter symbol, and the store is emitted.
pub open spec fn stptr_w_stack(s: DFState, insn: AssemblyInstruction, sym2: DFISymbolRecord, st: i64) -> DFState {
    let i1 = reg_of(insn.operand1);
    let i2 = reg_of(insn.operand2);
    let a = insn.address;
    let slot = DFISymbolRecord {
        address: Address::Stack((st + stptr_w_offset(insn)) as i64),
        size: Size::Signed32,
        value: true,
        ..sym2
    };
    let s1 = if contains_equiv(s.syms, slot) { s } else { s.with_symbol(slot) };
    let s2 = if s1.gr[i1].state {
        s1
    } else {
        let p = DFISymbolRecord {
            address: Address::GR(i2 as usize),
            sym_type: DFISymbolType::Param,
            id: s1.tmp as usize,
            size: Size::Signed32,
            value: false,
        };
        DFState {
            gr: s1.gr.update(i1, known(RegisterRecord::Symbol(p))),
            gp: s1.gp.update(i1, known(RegisterRecord::Symbol(p))),
            tmp: after(s1.tmp),
            ..s1
        }.with_symbol(p)
    };
    match s2.gr[i1].value {
        RegisterRecord::Number(n) => s2.with_ir(store_ir(a, OperandView::Number(num32(n)), OperandView::Symbol(slot))),
        RegisterRecord::Symbol(sym1) => match sym1.address {
            Address::Stack(_) => s2.with_ir(store_ir(
                a,
                OperandView::Symbol(DFISymbolRecord { value: sym1.value, ..slot }),
                OperandView::Symbol(slot),
            )),
            Address::GR(_) => s2.with_ir(store_ir(a, OperandView::Symbol(sym1), OperandView::Symbol(slot))),
            _ => s2.with_nop(a),
        },
    }
}

/// What `stptr.w rd, rj, offs` does to the analysis state: a store of the
/// low 32 bits of rd through rj, emitted according to what rj holds.
pub open spec fn stptr_w_step(s: DFState, insn: AssemblyInstruction) -> DFState {
    let i1 = reg_of(insn.operand1);
    let i2 = reg_of(insn.operand2);
    let value = stptr_w_offset(insn);
    let a = insn.address;
    match s.gr[i2].value {
        RegisterRecord::Symbol(sym2) => match sym2.address {
            Address::Stack(st) => stptr_w_stack(s, insn, sym2, st),
            Address::Memory(_) => {
                if sym2.value && value == 0 {
                    match s.gr[i1].value {
                        RegisterRecord::Number(n) => s.with_ir(store_ir(a, OperandView::Number(n), OperandView::Symbol(sym2))),
                        _ => s.with_nop(a),
                    }
                } else {
                    s.with_nop(a)
                }
            },
            _ => match s.gr[i1].value {
                RegisterRecord::Number(n) => {
                    if value == 0 {
                        s.with_ir(store_ir(a, OperandView::Number(num32(n)), OperandView::Symbol(value32(sym2))))
                    } else {
                        s.with_nop(a)
                    }
                },
                RegisterRecord::Symbol(sym1) => s.with_ir(store_ir(
                    a,
                    OperandView::Symbol(DFISymbolRecord { size: Size::Signed32, ..sym1 }),
                    OperandView::Symbol(value32(sym2)),
                )),
            },
        },
        RegisterRecord::Number(n) => {
            let address = Address::Memory(n.value as u64);
            let id = match first_id_at(s.syms, address) {
                Some(id) => id as int,
                None => s.glob,
            };
            let s1 = if first_id_at(s.syms, address) is Some { s } else { s.next_glob() };
            let g = DFISymbolRecord { address, sym_type: DFISymbolType::Global, id: id as usize, size: Size::Signed32, value: true };
            match s.gr[i1].value {
                RegisterRecord::Number(n1) => s1.with_ir(store_ir(a, OperandView::Number(n1), OperandView::Symbol(g))),
                RegisterRecord::Symbol(sym1) => s1.with_ir(store_ir(
                    a,
                    OperandView::Symbol(DFISymbolRecord { size: Size::Signed32, ..sym1 }),
                    OperandView::Symbol(g),
                )),
            }
        },
    }
}

/// A store IR instruction (see `store_ir`).
fn store(address: u64, a: DFIOperand, b: DFIOperand) -> (ir: DataFlowIr)
    ensures
        ir@ == store_ir(address, a@, b@),
{
    DataFlowIr { address, opcode: crate::data_flow::DataFlowIrOpcode::Store, operand1: Some(a), operand2: Some(b), operand3: None }
}

/// `stptr.w rd, rj, offs`: stores the low 32 bits of rd at rj + offs * 4.
pub fn stptr_w(
    insn: AssemblyInstruction,
    irs: &mut Vec<DataFlowIr>,
    gr_states: &mut Vec<GRRecord>,
    symbol_table: &mut DFISymbolRecordTable,
    gr_states_parameter: &mut Vec<GRRecord>,
    symbol_parameter: &mut SymbolSet,
)
    requires
        stptr_w_operands(df_state(*old(irs), *old(gr_states), *old(symbol_table), *old(gr_states_parameter), *old(symbol_parameter)), insn),
    ensures
        df_state(*final(irs), *final(gr_states), *final(symbol_table), *final(gr_states_parameter), *final(symbol_parameter))
            == stptr_w_step(df_state(*old(irs), *old(gr_states), *old(symbol_table), *old(gr_states_parameter), *old(symbol_parameter)), insn),
{
    proof {
        assert(gr_states@.len() == gr_states.len());
    }
    let index1 = reg_index(&insn.operand1);
    let index2 = reg_index(&insn.operand2);
    let value = imm(&insn.operand3) << 2u64;
    let a = insn.address;
    match gr_states[index2].value {
        RegisterRecord::Symbol(symbol2) => {
            match symbol2.address {
                Address::Stack(stack) => {
                    let symbol = DFISymbolRecord {
                        address: Address::Stack(stack + value),
                        sym_type: symbol2.sym_type,
                        id: symbol2.id,
                        size: Size::Signed32,
                        value: true,
                    };
                    add_new_symbol(symbol, symbol_table, symbol_parameter);
                    if !gr_states[index1].state {
                        let id = symbol_table.tmp_counter.get();
                        let parameter = DFISymbolRecord {
                            address: Address::GR(index2),
                            sym_type: DFISymbolType::Param,
                            id,
                            size: Size::Signed32,
                            value: false,
                        };
                        gr_states.set(index1, GRRecord { value: RegisterRecord::Symbol(parameter), state: true });
                        gr_states_parameter.set(index1, GRRecord { value: RegisterRecord::Symbol(parameter), state: true });
                        add_symbol(parameter, symbol_table, symbol_parameter);
                    }
                    match gr_states[index1].value {
                        RegisterRecord::Number(number) => {
                            let mut num = number;
                            num.signed = true;
                            num.size = Size::Signed32;
                            push_ir(irs, store(a, DFIOperand::Number(num), DFIOperand::Symbol(symbol)));
                        },
                        RegisterRecord::Symbol(symbol1) => {
                            match symbol1.address {
                                Address::Stack(_) => {
                                    let mut sym1 = symbol;
                                    sym1.size = Size::Signed32;
                                    sym1.value = symbol1.value;
                                    push_ir(irs, store(a, DFIOperand::Symbol(sym1), DFIOperand::Symbol(symbol)));
                                },
                                Address::GR(_) => {
                                    push_ir(irs, store(a, DFIOperand::Symbol(symbol1), DFIOperand::Symbol(symbol)));
                                },
                                _ => {
                                    push_ir(irs, DataFlowIr::nop(a));
                                },
                            }
                        },
                    }
                },
                Address::Memory(_) => {
                    if symbol2.value && value == 0 {
                        match gr_states[index1].value {
                            RegisterRecord::Number(number) => {
                                push_ir(irs, store(a, DFIOperand::Number(number), DFIOperand::Symbol(symbol2)));
                            },
                            _ => {
                                push_ir(irs, DataFlowIr::nop(a));
                            },
                        }
                    } else {
                        push_ir(irs, DataFlowIr::nop(a));
                    }
                },
                _ => {
                    let mut sym = symbol2;
                    sym.size = Size::Signed32;
                    sym.value = true;
                    match gr_states[index1].value {
                        RegisterRecord::Number(number) => {
                            let mut num = number;
                            num.size = Size::Signed32;
                            num.signed = true;
                            if value == 0 {
                                push_ir(irs, store(a, DFIOperand::Number(num), DFIOperand::Symbol(sym)));
                            } else {
                                push_ir(irs, DataFlowIr::nop(a));
                            }
                        },
                        RegisterRecord::Symbol(symbol1) => {
                            let mut sym1 = symbol1;
                            sym1.size = Size::Signed32;
                            push_ir(irs, store(a, DFIOperand::Symbol(sym1), DFIOperand::Symbol(sym)));
                        },
                    }
                },
            }
        },
        RegisterRecord::Number(number) => {
            let address = Address::Memory(number.value as u64);
            let id = match symbol_table.symbols.first_id_at(address) {
                Some(id) => id,
                None => symbol_table.global_counter.get(),
            };
            let global_sym = DFISymbolRecord {
                address,
                sym_type: DFISymbolType::Global,
                id,
                size: Size::Signed32,
                value: true,
            };
            match gr_states[index1].value {
                RegisterRecord::Number(number1) => {
                    push_ir(irs, store(a, DFIOperand::Number(number1), DFIOperand::Symbol(global_sym)));
                },
                RegisterRecord::Symbol(symbol1) => {
                    let mut sym = symbol1;
                    sym.size = Size::Signed32;
                    push_ir(irs, store(a, DFIOperand::Symbol(sym), DFIOperand::Symbol(global_sym)));
                },
            }
        },
    }
}

} // verus!
