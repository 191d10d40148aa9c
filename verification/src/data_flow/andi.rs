use vstd::prelude::*;
use crate::insn::AssemblyInstruction;
use crate::data_flow::{DataFlowIr, Number, DFISymbolRecordTable, GRRecord, RegisterRecord, SymbolSet};
use crate::data_flow::state::{push_ir, 
    DFState, df_state, reg_of, imm_of, names_reg, ensure_param, put_reg, reg_index, imm,
};

verus! {

/// The operands of `andi rd, rj, imm` are two registers and an immediate.
pub open spec fn andi_operands(s: DFState, insn: AssemblyInstruction) -> bool {
    &&& names_reg(insn.operand1, s.gr.len())
    &&& names_reg(insn.operand2, s.gr.len())
    &&& insn.operand3 is Some
    &&& s.gp.len() == s.gr.len()
}

/// What `andi rd, rj, imm` does to the analysis state: writing the zero
/// register changes nothing; otherwise rd and rj are read, and with a known
/// number in rj, rd holds its bitwise and with the immediate.
pub open spec fn andi_step(s: DFState, insn: AssemblyInstruction) -> DFState {
    let i1 = reg_of(insn.operand1);
    let i2 = reg_of(insn.operand2);
    let v = imm_of(insn.operand3) as i64;
    if i1 == 0 {
        s.with_nop(insn.address)
    } else {
        let s1 = s.with_param(i1).with_param(i2);
        match s1.gr[i2].value {
            RegisterRecord::Number(n) => s1.with_reg(
                i1,
                RegisterRecord::Number(Number { value: n.value & v, signed: n.signed, size: n.size }),
            ).with_nop(insn.address),
            _ => s1.with_nop(insn.address),
        }
    }
}

/// `andi rd, rj, imm`: rd = rj & imm.
pub fn andi(
    insn: AssemblyInstruction,
    irs: &mut Vec<DataFlowIr>,
    gr_states: &mut Vec<GRRecord>,
    symbol_table: &mut DFISymbolRecordTable,
    gr_states_parameter: &mut Vec<GRRecord>,
    symbol_parameter: &mut SymbolSet,
)
    requires
        andi_operands(df_state(*old(irs), *old(gr_states), *old(symbol_table), *old(gr_states_parameter), *old(symbol_parameter)), insn),
    ensures
        df_state(*final(irs), *final(gr_states), *final(symbol_table), *final(gr_states_parameter), *final(symbol_parameter))
            == andi_step(df_state(*old(irs), *old(gr_states), *old(symbol_table), *old(gr_states_parameter), *old(symbol_parameter)), insn),
{
    proof {
        assert(gr_states@.len() == gr_states.len());
    }
    let index1 = reg_index(&insn.operand1);
    let index2 = reg_index(&insn.operand2);
    let value = imm(&insn.operand3);
    if index1 == 0 {
        push_ir(irs, DataFlowIr::nop(insn.address));
        return;
    }
    ensure_param(index1, irs, gr_states, symbol_table, gr_states_parameter, symbol_parameter);
    ensure_param(index2, irs, gr_states, symbol_table, gr_states_parameter, symbol_parameter);
    if let RegisterRecord::Number(number2) = gr_states[index2].value {
        let n = Number::from(number2.value & value, number2.signed, number2.size);
        put_reg(index1, RegisterRecord::Number(n), gr_states, gr_states_parameter);
    }
    push_ir(irs, DataFlowIr::nop(insn.address));
}

} // verus!
