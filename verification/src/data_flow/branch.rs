use vstd::prelude::*;
use crate::data_flow::{IrView, OperandView, irs_view};
use crate::insn::AssemblyInstruction;
use crate::data_flow::{
    DataFlowIr, DataFlowIrOpcode, DFIOperand, Number, DFISymbolRecordTable, Relation, Size, GRRecord,
    RegisterRecord, SymbolSet,
};
use crate::data_flow::state::{push_ir, 
    DFState, df_state, reg_of, imm_of, names_reg, fits_i64, signed_operand, unsigned_operand, reg_operand,
    jcc_ir, reg_index, imm,
};
use crate::data_flow::b::{branch_target, branch_offset};
use crate::data_flow::beq::to_signed_operand;
use crate::data_convert::set_unsigned;

verus! {

/// The operands of a two-register conditional branch `rj, rd, offs` name
/// registers and a target that fits in an `i64`.
pub open spec fn branch2_operands(s: DFState, insn: AssemblyInstruction) -> bool {
    &&& names_reg(insn.operand1, s.gr.len())
    &&& names_reg(insn.operand2, s.gr.len())
    &&& insn.operand3 is Some
    &&& fits_i64(branch_target(insn.address, imm_of(insn.operand3) as i64))
}

/// The operands of `beqz rj, offs` name a register and a target that fits in an `i64`.
pub open spec fn beqz_operands(s: DFState, insn: AssemblyInstruction) -> bool {
    &&& names_reg(insn.operand1, s.gr.len())
    &&& insn.operand2 is Some
    &&& fits_i64(branch_target(insn.address, imm_of(insn.operand2) as i64))
}

/// What `beqz rj, offs` does to the analysis state: it emits a jump taken when rj == 0.
pub open spec fn beqz_step(s: DFState, insn: AssemblyInstruction) -> DFState {
    s.with_ir(jcc_ir(
        insn.address,
        Relation::EQ,
        reg_operand(s.gr[reg_of(insn.operand1)].value),
        OperandView::Number(Number { value: 0, signed: false, size: Size::Unsigned64 }),
        branch_target(insn.address, imm_of(insn.operand2) as i64),
    ))
}

/// What `bgeu rj, rd, offs` does to the analysis state: it emits a jump
/// taken when rj >= rd as unsigned values.
pub open spec fn bgeu_step(s: DFState, insn: AssemblyInstruction) -> DFState {
    s.with_ir(jcc_ir(
        insn.address,
        Relation::GE,
        unsigned_operand(s.gr[reg_of(insn.operand1)].value),
        unsigned_operand(s.gr[reg_of(insn.operand2)].value),
        branch_target(insn.address, imm_of(insn.operand3) as i64),
    ))
}

/// What `blt rj, rd, offs` does to the analysis state: it emits a jump
/// taken when rj < rd as signed values.
pub open spec fn blt_step(s: DFState, insn: AssemblyInstruction) -> DFState {
    s.with_ir(jcc_ir(
        insn.address,
        Relation::L,
        signed_operand(s.gr[reg_of(insn.operand1)].value),
        signed_operand(s.gr[reg_of(insn.operand2)].value),
        branch_target(insn.address, imm_of(insn.operand3) as i64),
    ))
}

/// The unsigned form of a register's content (see `unsigned_operand`).
pub fn to_unsigned_operand(v: RegisterRecord) -> (o: DFIOperand)
    ensures
        o@ == unsigned_operand(v),
{
    match v {
        RegisterRecord::Number(number) => {
            let mut number = number;
            number.signed = false;
            number.size = set_unsigned(number.size);
            DFIOperand::Number(number)
        },
        RegisterRecord::Symbol(symbol) => {
            let mut symbol = symbol;
            symbol.size = set_unsigned(symbol.size);
            DFIOperand::Symbol(symbol)
        },
    }
}

/// A register's content as an operand (see `reg_operand`).
pub fn to_operand(v: RegisterRecord) -> (o: DFIOperand)
    ensures
        o@ == reg_operand(v),
{
    match v {
        RegisterRecord::Number(number) => DFIOperand::Number(number),
        RegisterRecord::Symbol(symbol) => DFIOperand::Symbol(symbol),
    }
}

/// A conditional jump IR instruction (see `jcc_ir`).
fn jcc(address: u64, relation: Relation, a: DFIOperand, b: DFIOperand, target: i64) -> (ir: DataFlowIr)
    ensures
        ir@ == jcc_ir(address, relation, a@, b@, target as int),
{
    DataFlowIr {
        address,
        opcode: DataFlowIrOpcode::Jcc(relation),
        operand1: Some(a),
        operand2: Some(b),
        operand3: Some(DFIOperand::Number(Number::from(target, false, Size::Unsigned64))),
    }
}

/// `beqz rj, offs`: jump when rj == 0.
pub fn beqz(
    insn: AssemblyInstruction,
    irs: &mut Vec<DataFlowIr>,
    gr_states: &mut Vec<GRRecord>,
    symbol_table: &mut DFISymbolRecordTable,
    gr_states_parameter: &mut Vec<GRRecord>,
    symbol_parameter: &mut SymbolSet,
)
    requires
        beqz_operands(df_state(*old(irs), *old(gr_states), *old(symbol_table), *old(gr_states_parameter), *old(symbol_parameter)), insn),
    ensures
        df_state(*final(irs), *final(gr_states), *final(symbol_table), *final(gr_states_parameter), *final(symbol_parameter))
            == beqz_step(df_state(*old(irs), *old(gr_states), *old(symbol_table), *old(gr_states_parameter), *old(symbol_parameter)), insn),
{
    proof {
        assert(gr_states@.len() == gr_states.len());
    }
    let address = branch_offset(insn.address, imm(&insn.operand2));
    let index1 = reg_index(&insn.operand1);
    let op1 = to_operand(gr_states[index1].value);
    push_ir(irs, jcc(insn.address, Relation::EQ, op1, DFIOperand::Number(Number::from(0, false, Size::Unsigned64)), address));
}

/// `bgeu rj, rd, offs`: jump when rj >= rd, unsigned.
pub fn bgeu(
    insn: AssemblyInstruction,
    irs: &mut Vec<DataFlowIr>,
    gr_states: &mut Vec<GRRecord>,
    symbol_table: &mut DFISymbolRecordTable,
    gr_states_parameter: &mut Vec<GRRecord>,
    symbol_parameter: &mut SymbolSet,
)
    requires
        branch2_operands(df_state(*old(irs), *old(gr_states), *old(symbol_table), *old(gr_states_parameter), *old(symbol_parameter)), insn),
    ensures
        df_state(*final(irs), *final(gr_states), *final(symbol_table), *final(gr_states_parameter), *final(symbol_parameter))
            == bgeu_step(df_state(*old(irs), *old(gr_states), *old(symbol_table), *old(gr_states_parameter), *old(symbol_parameter)), insn),
{
    proof {
        assert(gr_states@.len() == gr_states.len());
    }
    let address = branch_offset(insn.address, imm(&insn.operand3));
    let index1 = reg_index(&insn.operand1);
    let index2 = reg_index(&insn.operand2);
    let op1 = to_unsigned_operand(gr_states[index1].value);
    let op2 = to_unsigned_operand(gr_states[index2].value);
    push_ir(irs, jcc(insn.address, Relation::GE, op1, op2, address));
}

/// `blt rj, rd, offs`: jump when rj < rd, signed.
pub fn blt(
    insn: AssemblyInstruction,
    irs: &mut Vec<DataFlowIr>,
    gr_states: &mut Vec<GRRecord>,
    symbol_table: &mut DFISymbolRecordTable,
    gr_states_parameter: &mut Vec<GRRecord>,
    symbol_parameter: &mut SymbolSet,
)
    requires
        branch2_operands(df_state(*old(irs), *old(gr_states), *old(symbol_table), *old(gr_states_parameter), *old(symbol_parameter)), insn),
    ensures
        df_state(*final(irs), *final(gr_states), *final(symbol_table), *final(gr_states_parameter), *final(symbol_parameter))
            == blt_step(df_state(*old(irs), *old(gr_states), *old(symbol_table), *old(gr_states_parameter), *old(symbol_parameter)), insn),
{
    proof {
        assert(gr_states@.len() == gr_states.len());
    }
    let address = branch_offset(insn.address, imm(&insn.operand3));
    let index1 = reg_index(&insn.operand1);
    let index2 = reg_index(&insn.operand2);
    let op1 = to_signed_operand(gr_states[index1].value);
    let op2 = to_signed_operand(gr_states[index2].value);
    push_ir(irs, jcc(insn.address, Relation::L, op1, op2, address));
}

} // verus!
