use vstd::prelude::*;
use crate::data_flow::{IrView, OperandView, irs_view};
use crate::insn::AssemblyInstruction;
use crate::data_flow::{
    DataFlowIr, DataFlowIrOpcode, DFIOperand, DFISymbolRecord, DFISymbolRecordTable, DFISymbolType, Address,
    Size, GRRecord, RegisterRecord, SymbolSet, set_with, first_id_at,
};
use crate::data_flow::state::{push_ir, 
    DFState, df_state, temp_symbol, reg_of, names_reg, fits_i64, put_reg, reg_index, imm, add_symbol,
};
use crate::data_flow::ldptr_d::ldptr_offset;

verus! {

/// `ldptr.w rd, rj, offs` reads a known base register; the address it
/// computes from a known number or a stack address fits in an `i64`.
pub open spec fn ldptr_w_operands(s: DFState, insn: AssemblyInstruction) -> bool {
    let i2 = reg_of(insn.operand2);
    &&& names_reg(insn.operand1, s.gr.len())
    &&& names_reg(insn.operand2, s.gr.len())
    &&& insn.operand3 is Some
    &&& s.gr.len() == s.gp.len()
    &&& s.gr[i2].state
    &&& match s.gr[i2].value {
        RegisterRecord::Number(n) => fits_i64(n.value + ldptr_offset(insn)),
        RegisterRecord::Symbol(sym) => match sym.address {
            Address::Stack(st) => fits_i64(st + ldptr_offset(insn)),
            _ => true,
        },
    }
}

/// A 32-bit load of `b` into `a`.
pub open spec fn load_ir(address: u64, a: DFISymbolRecord, b: DFISymbolRecord) -> IrView {
    IrView {
        address,
        opcode: DataFlowIrOpcode::Load,
        operand1: Some(OperandView::Symbol(a)),
        operand2: Some(OperandView::Symbol(b)),
        operand3: None,
    }
}

/// What `ldptr.w rd, rj, offs` does to the analysis state: a load through a
/// known address makes rd the global variable there (a new one added to the
/// symbol table); a load from a stack slot no symbol is at, at or above the
/// frame, makes rd a parameter passed on the stack; other loads from the
/// stack, and word loads through a register, yield a temporary and a `Load`.
pub open spec fn ldptr_w_step(s: DFState, insn: AssemblyInstruction) -> DFState {
    let i1 = reg_of(insn.operand1);
    let i2 = reg_of(insn.operand2);
    let value = ldptr_offset(insn);
    let a = insn.address;
    match s.gr[i2].value {
        RegisterRecord::Number(n) => {
            let address = Address::Memory((n.value + value) as u64);
            let found = first_id_at(s.syms, address);
            let g = DFISymbolRecord {
                address,
                sym_type: DFISymbolType::Global,
                id: match found { Some(id) => id, None => s.glob as usize },
                size: Size::Signed32,
                value: true,
            };
            let s1 = if found is Some { s } else { DFState { syms: set_with(s.syms, g), ..s.next_glob() } };
            s1.with_reg(i1, RegisterRecord::Symbol(g)).with_nop(a)
        },
        RegisterRecord::Symbol(sym2) => match sym2.address {
            Address::Stack(st) => {
                let off = st + value;
                let slot = DFISymbolRecord {
                    address: Address::Stack(off as i64),
                    sym_type: sym2.sym_type,
                    id: 0,
                    size: sym2.size,
                    value: true,
                };
                if first_id_at(s.syms, slot.address) is None && off >= 0 {
                    let p = DFISymbolRecord { sym_type: DFISymbolType::Param, id: (((off as usize) / 8) + 8) as usize, ..slot };
                    s.with_symbol(p).with_reg(i1, RegisterRecord::Symbol(p)).with_nop(a)
                } else {
                    let t = temp_symbol(0, s.tmp, Size::Signed32);
                    s.next_tmp().with_ir(load_ir(a, t, slot)).with_reg(i1, RegisterRecord::Symbol(t))
                }
            },
            Address::Memory(_) => s.with_nop(a),
            _ => {
                if value != 0 {
                    s.with_nop(a)
                } else if !sym2.value {
                    let src = DFISymbolRecord { value: true, size: Size::Signed32, sym_type: DFISymbolType::Temp, ..sym2 };
                    let t = temp_symbol(i1, s.tmp, Size::Signed32);
                    s.next_tmp().with_ir(load_ir(a, t, src)).with_reg(i1, RegisterRecord::Symbol(t))
                } else {
                    let t = DFISymbolRecord {
                        value: false,
                        size: Size::Signed32,
                        sym_type: DFISymbolType::Temp,
                        id: s.tmp as usize,
                        ..sym2
                    };
                    s.next_tmp().with_ir(load_ir(a, t, sym2)).with_reg(i1, RegisterRecord::Symbol(t))
                }
            },
        },
    }
}

/// A load IR instruction (see `load_ir`).
fn load(address: u64, a: DFISymbolRecord, b: DFISymbolRecord) -> (ir: DataFlowIr)
    ensures
        ir@ == load_ir(address, a, b),
{
    DataFlowIr {
        address,
        opcode: DataFlowIrOpcode::Load,
        operand1: Some(DFIOperand::Symbol(a)),
        operand2: Some(DFIOperand::Symbol(b)),
        operand3: None,
    }
}

/// `ldptr.w rd, rj, offs`: rd = the 32-bit value at rj + offs * 4.
pub fn ldptr_w(
    insn: AssemblyInstruction,
    irs: &mut Vec<DataFlowIr>,
    gr_states: &mut Vec<GRRecord>,
    symbol_table: &mut DFISymbolRecordTable,
    gr_states_parameter: &mut Vec<GRRecord>,
    symbol_parameter: &mut SymbolSet,
)
    requires
        ldptr_w_operands(df_state(*old(irs), *old(gr_states), *old(symbol_table), *old(gr_states_parameter), *old(symbol_parameter)), insn),
    ensures
        df_state(*final(irs), *final(gr_states), *final(symbol_table), *final(gr_states_parameter), *final(symbol_parameter))
            == ldptr_w_step(df_state(*old(irs), *old(gr_states), *old(symbol_table), *old(gr_states_parameter), *old(symbol_parameter)), insn),
{
    proof {
        assert(gr_states@.len() == gr_states.len());
    }
    let index1 = reg_index(&insn.operand1);
    let index2 = reg_index(&insn.operand2);
    let value = imm(&insn.operand3) << 2u64;
    let a = insn.address;
    match gr_states[index2].value {
        RegisterRecord::Number(number) => {
            let address = Address::Memory((number.value + value) as u64);
            let found = symbol_table.symbols.first_id_at(address);
            let id = match found {
                Some(id) => id,
                None => symbol_table.global_counter.get(),
            };
            let global_sym = DFISymbolRecord {
                address,
                sym_type: DFISymbolType::Global,
                id,
                size: Size::Signed32,
                value: true,
            };
            if found.is_none() {
                symbol_table.symbols.insert(global_sym);
            }
            put_reg(index1, RegisterRecord::Symbol(global_sym), gr_states, gr_states_parameter);
            push_ir(irs, DataFlowIr::nop(a));
        },
        RegisterRecord::Symbol(symbol2) => {
            match symbol2.address {
                Address::Stack(stack) => {
                    let off = stack + value;
                    let sym = DFISymbolRecord {
                        address: Address::Stack(off),
                        sym_type: symbol2.sym_type,
                        id: 0,
                        size: symbol2.size,
                        value: true,
                    };
                    if symbol_table.symbols.first_id_at(sym.address).is_none() && off >= 0 {
                        let mut param_sym = sym;
                        param_sym.sym_type = DFISymbolType::Param;
                        param_sym.id = (off as usize) / 8 + 8;
                        add_symbol(param_sym, symbol_table, symbol_parameter);
                        put_reg(index1, RegisterRecord::Symbol(param_sym), gr_states, gr_states_parameter);
                        push_ir(irs, DataFlowIr::nop(a));
                    } else {
                        let id = symbol_table.tmp_counter.get();
                        let temp_sym = DFISymbolRecord {
                            address: Address::GR(0),
                            sym_type: DFISymbolType::Temp,
                            id,
                            size: Size::Signed32,
                            value: false,
                        };
                        push_ir(irs, load(a, temp_sym, sym));
                        put_reg(index1, RegisterRecord::Symbol(temp_sym), gr_states, gr_states_parameter);
                    }
                },
                Address::Memory(_) => {
                    push_ir(irs, DataFlowIr::nop(a));
                },
                _ => {
                    if value != 0 {
                        push_ir(irs, DataFlowIr::nop(a));
                    } else if !symbol2.value {
                        let mut sym = symbol2;
                        sym.value = true;
                        sym.size = Size::Signed32;
                        sym.sym_type = DFISymbolType::Temp;
                        let id = symbol_table.tmp_counter.get();
                        let temp_sym = DFISymbolRecord {
                            address: Address::GR(index1),
                            sym_type: DFISymbolType::Temp,
                            id,
                            size: Size::Signed32,
                            value: false,
                        };
                        push_ir(irs, load(a, temp_sym, sym));
                        put_reg(index1, RegisterRecord::Symbol(temp_sym), gr_states, gr_states_parameter);
                    } else {
                        let mut sym = symbol2;
                        sym.value = false;
                        sym.size = Size::Signed32;
                        sym.sym_type = DFISymbolType::Temp;
                        sym.id = symbol_table.tmp_counter.get();
                        push_ir(irs, load(a, sym, symbol2));
                        put_reg(index1, RegisterRecord::Symbol(sym), gr_states, gr_states_parameter);
                    }
                },
            }
        },
    }
}

} // verus!
