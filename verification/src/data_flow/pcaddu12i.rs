use vstd::prelude::*;
use crate::insn::AssemblyInstruction;
use crate::data_flow::{DataFlowIr, Number, DFISymbolRecordTable, Size, GRRecord, RegisterRecord, SymbolSet};
use crate::data_flow::state::{push_ir, 
    DFState, df_state, reg_of, imm_of, names_reg, fits_i64, put_reg, reg_index, imm,
};

verus! {

/// The address `pcaddu12i` computes: the instruction's address plus the
/// immediate shifted left by 12.
pub open spec fn pcaddu12i_value(address: u64, v: i64) -> int {
    (address as i64) + (v << 12u64)
}

/// What `pcaddu12i rd, imm` does to the analysis state: rd holds the address it computes.
pub open spec fn pcaddu12i_step(s: DFState, insn: AssemblyInstruction) -> DFState {
    let value = pcaddu12i_value(insn.address, imm_of(insn.operand2) as i64);
    s.with_reg(
        reg_of(insn.operand1),
        RegisterRecord::Number(Number { value: value as i64, signed: false, size: Size::Unsigned64 }),
    ).with_nop(insn.address)
}

/// `pcaddu12i rd, imm`: rd = pc + (imm << 12).
pub fn pcaddu12i(
    insn: AssemblyInstruction,
    irs: &mut Vec<DataFlowIr>,
    gr_states: &mut Vec<GRRecord>,
    symbol_table: &mut DFISymbolRecordTable,
    gr_states_parameter: &mut Vec<GRRecord>,
    symbol_parameter: &mut SymbolSet,
)
    requires
        names_reg(insn.operand1, old(gr_states)@.len()),
        insn.operand2 is Some,
        old(gr_states_parameter)@.len() == old(gr_states)@.len(),
        fits_i64(pcaddu12i_value(insn.address, imm_of(insn.operand2) as i64)),
    ensures
        df_state(*final(irs), *final(gr_states), *final(symbol_table), *final(gr_states_parameter), *final(symbol_parameter))
            == pcaddu12i_step(df_state(*old(irs), *old(gr_states), *old(symbol_table), *old(gr_states_parameter), *old(symbol_parameter)), insn),
{
    proof {
        assert(gr_states@.len() == gr_states.len());
    }
    let index1 = reg_index(&insn.operand1);
    let value = imm(&insn.operand2) << 12u64;
    let address = insn.address as i64;
    put_reg(index1, RegisterRecord::Number(Number::from(address + value, false, Size::Unsigned64)), gr_states, gr_states_parameter);
    push_ir(irs, DataFlowIr::nop(insn.address));
}


/// `pcaddu12i` computes its own address plus 4096 times its immediate.
pub proof fn lemma_pcaddu12i_scaled(address: u64, v: i64)
    requires
        -0x8_0000_0000_0000 <= v < 0x8_0000_0000_0000,
    ensures
        pcaddu12i_value(address, v) == (address as i64) + 4096 * v,
{
    assert((v << 12u64) == v * 4096) by (bit_vector)
        requires
            -0x8_0000_0000_0000 <= v < 0x8_0000_0000_0000,
    ;
}

} // verus!
