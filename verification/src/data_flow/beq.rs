use vstd::prelude::*;
use crate::data_flow::{IrView, OperandView, irs_view};
use crate::insn::AssemblyInstruction;
use crate::data_flow::{
    DataFlowIr, DataFlowIrOpcode, DFIOperand, Number, DFISymbolRecord, DFISymbolRecordTable, Relation, Size,
    GRRecord, RegisterRecord, SymbolSet,
};
use crate::data_flow::state::{push_ir, DFState, df_state, reg_of, imm_of, names_reg, fits_i64, signed_operand, reg_index, imm};
use crate::data_flow::b::{branch_target, branch_offset};
use crate::data_convert::set_signed;

verus! {

/// The conditional jump `beq rj, rd, offs` emits: the two registers compared
/// as signed values, and the target.
pub open spec fn beq_ir(s: DFState, insn: AssemblyInstruction) -> IrView {
    let target = branch_target(insn.address, imm_of(insn.operand3) as i64);
    IrView {
        address: insn.address,
        opcode: DataFlowIrOpcode::Jcc(Relation::EQ),
        operand1: Some(signed_operand(s.gr[reg_of(insn.operand1)].value)),
        operand2: Some(signed_operand(s.gr[reg_of(insn.operand2)].value)),
        operand3: Some(OperandView::Number(Number { value: target as i64, signed: false, size: Size::Unsigned64 })),
    }
}

/// What `beq` does to the analysis state: it emits the conditional jump.
pub open spec fn beq_step(s: DFState, insn: AssemblyInstruction) -> DFState {
    s.with_ir(beq_ir(s, insn))
}

/// The signed form of a register's content (see `signed_operand`).
pub fn to_signed_operand(v: RegisterRecord) -> (o: DFIOperand)
    ensures
        o@ == signed_operand(v),
{
    match v {
        RegisterRecord::Number(number) => {
            let mut number = number;
            number.signed = true;
            number.size = set_signed(number.size);
            DFIOperand::Number(number)
        },
        RegisterRecord::Symbol(symbol) => {
            let mut symbol = symbol;
            symbol.size = set_signed(symbol.size);
            DFIOperand::Symbol(symbol)
        },
    }
}

/// `beq rj, rd, offs`: jump when rj == rd.
pub fn beq(
    insn: AssemblyInstruction,
    irs: &mut Vec<DataFlowIr>,
    gr_states: &mut Vec<GRRecord>,
    symbol_table: &mut DFISymbolRecordTable,
    gr_states_parameter: &mut Vec<GRRecord>,
    symbol_parameter: &mut SymbolSet,
)
    requires
        names_reg(insn.operand1, old(gr_states)@.len()),
        names_reg(insn.operand2, old(gr_states)@.len()),
        insn.operand3 is Some,
        fits_i64(branch_target(insn.address, imm_of(insn.operand3) as i64)),
    ensures
        df_state(*final(irs), *final(gr_states), *final(symbol_table), *final(gr_states_parameter), *final(symbol_parameter))
            == beq_step(df_state(*old(irs), *old(gr_states), *old(symbol_table), *old(gr_states_parameter), *old(symbol_parameter)), insn),
{
    proof {
        assert(gr_states@.len() == gr_states.len());
    }
    let address = branch_offset(insn.address, imm(&insn.operand3));
    let index1 = reg_index(&insn.operand1);
    let index2 = reg_index(&insn.operand2);
    let op1 = to_signed_operand(gr_states[index1].value);
    let op2 = to_signed_operand(gr_states[index2].value);
    push_ir(irs, DataFlowIr {
        address: insn.address,
        opcode: DataFlowIrOpcode::Jcc(Relation::EQ),
        operand1: Some(op1),
        operand2: Some(op2),
        operand3: Some(DFIOperand::Number(Number::from(address, false, Size::Unsigned64))),
    });
}

} // verus!
