use vstd::prelude::*;
use crate::data_flow::{IrView, OperandView, irs_view};
use crate::insn::AssemblyInstruction;
use crate::data_flow::{
    DataFlowIr, DataFlowIrOpcode, DFIOperand, Number, DFISymbolRecord, DFISymbolRecordTable, DFISymbolType,
    Address, Size, GRRecord, RegisterRecord, SymbolSet, lookup, contains_equiv,
};
use crate::data_flow::state::{push_ir, 
    DFState, df_state, temp_symbol, reg_of, imm_of, names_reg, fits_i64, ir3, put_reg, reg_index, imm,
    add_new_symbol,
};

verus! {

/// `ld.d rd, rj, offs` reads a known base register, and the address it
/// computes fits in an `i64`; a register base holds an address, not a value.
pub open spec fn ld_d_operands(s: DFState, insn: AssemblyInstruction) -> bool {
    let i2 = reg_of(insn.operand2);
    let v = imm_of(insn.operand3);
    &&& names_reg(insn.operand1, s.gr.len())
    &&& names_reg(insn.operand2, s.gr.len())
    &&& insn.operand3 is Some
    &&& s.gr.len() == s.gp.len()
    &&& s.gr[i2].state
    &&& match s.gr[i2].value {
        RegisterRecord::Number(n) => fits_i64(n.value + v),
        RegisterRecord::Symbol(sym) => match sym.address {
            Address::Stack(st) => fits_i64(st + v),
            Address::Memory(_) => true,
            _ => !sym.value,
        },
    }
}

/// The global variable at `address` with id `id`.
pub open spec fn global_symbol(address: u64, id: int, size: Size) -> DFISymbolRecord {
    DFISymbolRecord { address: Address::Memory(address), sym_type: DFISymbolType::Global, id: id as usize, size, value: true }
}

/// What `ld.d rd, rj, offs` does to the analysis state: a load through a
/// known address makes rd a global variable (added to the symbol sets when
/// new); a load from the stack makes rd the local there (the one in the
/// symbol table when it holds one); a load through a register symbol yields
/// a temporary and an `Add`.
pub open spec fn ld_d_step(s: DFState, insn: AssemblyInstruction) -> DFState {
    let i1 = reg_of(insn.operand1);
    let i2 = reg_of(insn.operand2);
    let v = imm_of(insn.operand3);
    let a = insn.address;
    match s.gr[i2].value {
        RegisterRecord::Number(n) => {
            let g = global_symbol((n.value + v) as u64, s.glob, Size::Signed64);
            let s1 = s.next_glob();
            let s2 = if contains_equiv(s1.syms, g) { s1 } else { s1.with_symbol(g) };
            s2.with_reg(i1, RegisterRecord::Symbol(g)).with_nop(a)
        },
        RegisterRecord::Symbol(sym) => match sym.address {
            Address::Stack(st) => {
                let l = DFISymbolRecord {
                    address: Address::Stack((st + v) as i64),
                    sym_type: DFISymbolType::Local,
                    id: 0,
                    size: Size::Signed64,
                    value: true,
                };
                let found = match lookup(s.syms, l) {
                    Some(e) => e,
                    None => l,
                };
                s.with_reg(i1, RegisterRecord::Symbol(found)).with_nop(a)
            },
            Address::Memory(_) => s.with_nop(a),
            _ => {
                let t = temp_symbol(i1, s.tmp, Size::Unsigned64);
                s.next_tmp().with_ir(
                    ir3(a, DataFlowIrOpcode::Add, OperandView::Symbol(t), OperandView::Symbol(sym),
                        OperandView::Number(Number { value: v as i64, signed: true, size: Size::Signed64 })),
                ).with_gr(i1, RegisterRecord::Symbol(DFISymbolRecord { value: true, size: Size::Signed64, ..t }))
            },
        },
    }
}

/// `ld.d rd, rj, offs`: rd = the 64-bit value at rj + offs.
pub fn ld_d(
    insn: AssemblyInstruction,
    irs: &mut Vec<DataFlowIr>,
    gr_states: &mut Vec<GRRecord>,
    symbol_table: &mut DFISymbolRecordTable,
    gr_states_parameter: &mut Vec<GRRecord>,
    symbol_parameter: &mut SymbolSet,
)
    requires
        ld_d_operands(df_state(*old(irs), *old(gr_states), *old(symbol_table), *old(gr_states_parameter), *old(symbol_parameter)), insn),
    ensures
        df_state(*final(irs), *final(gr_states), *final(symbol_table), *final(gr_states_parameter), *final(symbol_parameter))
            == ld_d_step(df_state(*old(irs), *old(gr_states), *old(symbol_table), *old(gr_states_parameter), *old(symbol_parameter)), insn),
{
    proof {
        assert(gr_states@.len() == gr_states.len());
    }
    let index1 = reg_index(&insn.operand1);
    let index2 = reg_index(&insn.operand2);
    let value = imm(&insn.operand3);
    match gr_states[index2].value {
        RegisterRecord::Number(number) => {
            let id = symbol_table.global_counter.get();
            let symbol = DFISymbolRecord {
                address: Address::Memory((number.value + value) as u64),
                sym_type: DFISymbolType::Global,
                id,
                size: Size::Signed64,
                value: true,
            };
            add_new_symbol(symbol, symbol_table, symbol_parameter);
            put_reg(index1, RegisterRecord::Symbol(symbol), gr_states, gr_states_parameter);
            push_ir(irs, DataFlowIr::nop(insn.address));
        },
        RegisterRecord::Symbol(symbol) => {
            match symbol.address {
                Address::Stack(stack) => {
                    let sym = DFISymbolRecord {
                        address: Address::Stack(stack + value),
                        sym_type: DFISymbolType::Local,
                        id: 0,
                        size: Size::Signed64,
                        value: true,
                    };
                    let found = match symbol_table.symbols.get(&sym) {
                        Some(e) => e,
                        None => sym,
                    };
                    put_reg(index1, RegisterRecord::Symbol(found), gr_states, gr_states_parameter);
                    push_ir(irs, DataFlowIr::nop(insn.address));
                },
                Address::Memory(_) => {
                    push_ir(irs, DataFlowIr::nop(insn.address));
                },
                _ => {
                    let id = symbol_table.tmp_counter.get();
                    let mut temp = DFISymbolRecord {
                        address: Address::GR(index1),
                        sym_type: DFISymbolType::Temp,
                        id,
                        size: Size::Unsigned64,
                        value: false,
                    };
                    push_ir(irs, DataFlowIr {
                        address: insn.address,
                        opcode: DataFlowIrOpcode::Add,
                        operand1: Some(DFIOperand::Symbol(temp)),
                        operand2: Some(DFIOperand::Symbol(symbol)),
                        operand3: Some(DFIOperand::Number(Number::from(value, true, Size::Signed64))),
                    });
                    temp.value = true;
                    temp.size = Size::Signed64;
                    gr_states.set(index1, GRRecord { value: RegisterRecord::Symbol(temp), state: true });
                },
            }
        },
    }
}

} // verus!
