use vstd::prelude::*;
use crate::data_flow::{IrView, OperandView, irs_view};
use crate::insn::AssemblyInstruction;
use crate::data_flow::{
    DataFlowIr, DataFlowIrOpcode, DFIOperand, Number, DFISymbolRecordTable, Size, GRRecord, SymbolSet,
};
use crate::data_flow::state::{push_ir, DFState, df_state, imm_of, fits_i64, imm};

verus! {

/// The target of a branch at `address` whose offset field is `offs`
/// (counted in instructions of four bytes).
pub open spec fn branch_target(address: u64, offs: i64) -> int {
    (address as i64) + (offs << 2u64)
}

/// The jump that `b offs` emits.
pub open spec fn jmp_ir(address: u64, target: int) -> IrView {
    IrView {
        address,
        opcode: DataFlowIrOpcode::Jmp,
        operand1: Some(OperandView::Number(Number { value: target as i64, signed: false, size: Size::Unsigned64 })),
        operand2: None,
        operand3: None,
    }
}

/// What `b offs` does to the analysis state: it emits a jump to its target.
pub open spec fn b_step(s: DFState, insn: AssemblyInstruction) -> DFState {
    s.with_ir(jmp_ir(insn.address, branch_target(insn.address, imm_of(insn.operand1) as i64)))
}

/// Computes the target of a branch (see `branch_target`).
pub fn branch_offset(address: u64, offs: i64) -> (t: i64)
    requires
        fits_i64(branch_target(address, offs)),
    ensures
        t == branch_target(address, offs),
{
    address as i64 + (offs << 2u64)
}

/// `b offs`: an unconditional jump.
pub fn b(
    insn: AssemblyInstruction,
    irs: &mut Vec<DataFlowIr>,
    gr_states: &mut Vec<GRRecord>,
    symbol_table: &mut DFISymbolRecordTable,
    gr_states_parameter: &mut Vec<GRRecord>,
    symbol_parameter: &mut SymbolSet,
)
    requires
        insn.operand1 is Some,
        fits_i64(branch_target(insn.address, imm_of(insn.operand1) as i64)),
    ensures
        df_state(*final(irs), *final(gr_states), *final(symbol_table), *final(gr_states_parameter), *final(symbol_parameter))
            == b_step(df_state(*old(irs), *old(gr_states), *old(symbol_table), *old(gr_states_parameter), *old(symbol_parameter)), insn),
{
    let offset = branch_offset(insn.address, imm(&insn.operand1));
    push_ir(irs, DataFlowIr {
        address: insn.address,
        opcode: DataFlowIrOpcode::Jmp,
        operand1: Some(DFIOperand::Number(Number::from(offset, false, Size::Unsigned64))),
        operand2: None,
        operand3: None,
    });
}


/// A branch lands at its own address plus four times its offset (the
/// offset counts instructions of four bytes).
pub proof fn lemma_branch_target_scaled(address: u64, offs: i64)
    requires
        -0x2000_0000_0000_0000 <= offs < 0x2000_0000_0000_0000,
    ensures
        branch_target(address, offs) == (address as i64) + 4 * offs,
{
    assert((offs << 2u64) == offs * 4) by (bit_vector)
        requires
            -0x2000_0000_0000_0000 <= offs < 0x2000_0000_0000_0000,
    ;
}

} // verus!
