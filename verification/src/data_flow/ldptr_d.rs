use vstd::prelude::*;
use crate::insn::AssemblyInstruction;
use crate::data_flow::{
    DataFlowIr, DFISymbolRecord, DFISymbolRecordTable, DFISymbolType, Address, Size, GRRecord, RegisterRecord,
    SymbolSet, contains_equiv,
};
use crate::data_flow::state::{push_ir, 
    DFState, df_state, reg_of, imm_of, names_reg, fits_i64, put_reg, reg_index, imm, add_new_symbol,
};
use crate::data_flow::ld_d::global_symbol;

verus! {

/// The byte offset of `ldptr.d`: its immediate counts words of four bytes.
pub open spec fn ldptr_offset(insn: AssemblyInstruction) -> i64 {
    (imm_of(insn.operand3) as i64) << 2u64
}

/// `ldptr.d rd, rj, offs` reads a known base register; a known address it
/// computes fits in an `i64`.
pub open spec fn ldptr_d_operands(s: DFState, insn: AssemblyInstruction) -> bool {
    let i2 = reg_of(insn.operand2);
    &&& names_reg(insn.operand1, s.gr.len())
    &&& names_reg(insn.operand2, s.gr.len())
    &&& insn.operand3 is Some
    &&& s.gr.len() == s.gp.len()
    &&& s.gr[i2].state
    &&& (s.gr[i2].value matches RegisterRecord::Number(n) ==> fits_i64(n.value + ldptr_offset(insn)))
}

/// What `ldptr.d rd, rj, offs` does to the analysis state: a load through a
/// known address makes rd the global variable there (added to the symbol
/// sets when new); a load through a symbol changes nothing.
pub open spec fn ldptr_d_step(s: DFState, insn: AssemblyInstruction) -> DFState {
    let i1 = reg_of(insn.operand1);
    let i2 = reg_of(insn.operand2);
    match s.gr[i2].value {
        RegisterRecord::Number(n) => {
            let g = global_symbol((n.value + ldptr_offset(insn)) as u64, s.glob, Size::Signed64);
            let s1 = s.next_glob();
            let s2 = if contains_equiv(s1.syms, g) { s1 } else { s1.with_symbol(g) };
            s2.with_reg(i1, RegisterRecord::Symbol(g)).with_nop(insn.address)
        },
        RegisterRecord::Symbol(_) => s.with_nop(insn.address),
    }
}

/// `ldptr.d rd, rj, offs`: rd = the 64-bit value at rj + offs * 4.
pub fn ldptr_d(
    insn: AssemblyInstruction,
    irs: &mut Vec<DataFlowIr>,
    gr_states: &mut Vec<GRRecord>,
    symbol_table: &mut DFISymbolRecordTable,
    gr_states_parameter: &mut Vec<GRRecord>,
    symbol_parameter: &mut SymbolSet,
)
    requires
        ldptr_d_operands(df_state(*old(irs), *old(gr_states), *old(symbol_table), *old(gr_states_parameter), *old(symbol_parameter)), insn),
    ensures
        df_state(*final(irs), *final(gr_states), *final(symbol_table), *final(gr_states_parameter), *final(symbol_parameter))
            == ldptr_d_step(df_state(*old(irs), *old(gr_states), *old(symbol_table), *old(gr_states_parameter), *old(symbol_parameter)), insn),
{
    proof {
        assert(gr_states@.len() == gr_states.len());
    }
    let index1 = reg_index(&insn.operand1);
    let index2 = reg_index(&insn.operand2);
    let value = imm(&insn.operand3) << 2u64;
    if let RegisterRecord::Number(number) = gr_states[index2].value {
        let id = symbol_table.global_counter.get();
        let symbol = DFISymbolRecord {
            address: Address::Memory((number.value + value) as u64),
            sym_type: DFISymbolType::Global,
            id,
            size: Size::Signed64,
            value: true,
        };
        add_new_symbol(symbol, symbol_table, symbol_parameter);
        put_reg(index1, RegisterRecord::Symbol(symbol), gr_states, gr_states_parameter);
    }
    push_ir(irs, DataFlowIr::nop(insn.address));
}

} // verus!
