use vstd::prelude::*;
use crate::insn::AssemblyInstruction;
use crate::data_flow::{DataFlowIr, Number, DFISymbolRecordTable, GRRecord, RegisterRecord, SymbolSet};
use crate::data_flow::state::{push_ir, 
    DFState, df_state, reg_of, names_reg, ensure_param, put_reg, reg_index,
};

verus! {

/// The operands of `or rd, rj, rk` are three registers.
pub open spec fn or_operands(insn: AssemblyInstruction, n: nat) -> bool {
    names_reg(insn.operand1, n) && names_reg(insn.operand2, n) && names_reg(insn.operand3, n)
}

/// What `or rd, rj, rk` does to the analysis state: rj and rk are read; with
/// rk the zero register rd becomes a copy of rj; with two known numbers rd
/// holds their bitwise or.
pub open spec fn or_step(s: DFState, insn: AssemblyInstruction) -> DFState {
    let i1 = reg_of(insn.operand1);
    let i2 = reg_of(insn.operand2);
    let i3 = reg_of(insn.operand3);
    let s1 = s.with_param(i2).with_param(i3);
    if i3 == 0 {
        s1.with_reg(i1, s1.gr[i2].value).with_nop(insn.address)
    } else {
        match (s1.gr[i2].value, s1.gr[i3].value) {
            (RegisterRecord::Number(n2), RegisterRecord::Number(n3)) => s1.with_reg(
                i1,
                RegisterRecord::Number(Number { value: n2.value | n3.value, signed: n2.signed, size: n2.size }),
            ).with_nop(insn.address),
            _ => s1.with_nop(insn.address),
        }
    }
}

/// `or rd, rj, rk`: rd = rj | rk.
pub fn or(
    insn: AssemblyInstruction,
    irs: &mut Vec<DataFlowIr>,
    gr_states: &mut Vec<GRRecord>,
    symbol_table: &mut DFISymbolRecordTable,
    gr_states_parameter: &mut Vec<GRRecord>,
    symbol_parameter: &mut SymbolSet,
)
    requires
        or_operands(insn, old(gr_states)@.len()),
        old(gr_states_parameter)@.len() == old(gr_states)@.len(),
    ensures
        df_state(*final(irs), *final(gr_states), *final(symbol_table), *final(gr_states_parameter), *final(symbol_parameter))
            == or_step(df_state(*old(irs), *old(gr_states), *old(symbol_table), *old(gr_states_parameter), *old(symbol_parameter)), insn),
{
    proof {
        assert(gr_states@.len() == gr_states.len());
    }
    let index1 = reg_index(&insn.operand1);
    let index2 = reg_index(&insn.operand2);
    let index3 = reg_index(&insn.operand3);
    ensure_param(index2, irs, gr_states, symbol_table, gr_states_parameter, symbol_parameter);
    ensure_param(index3, irs, gr_states, symbol_table, gr_states_parameter, symbol_parameter);
    if index3 == 0 {
        let v = gr_states[index2].value;
        put_reg(index1, v, gr_states, gr_states_parameter);
        push_ir(irs, DataFlowIr::nop(insn.address));
        return;
    }
    let v2 = gr_states[index2].value;
    let v3 = gr_states[index3].value;
    if let RegisterRecord::Number(number2) = v2 {
        if let RegisterRecord::Number(number3) = v3 {
            let n = Number::from(number2.value | number3.value, number2.signed, number2.size);
            put_reg(index1, RegisterRecord::Number(n), gr_states, gr_states_parameter);
        }
    }
    push_ir(irs, DataFlowIr::nop(insn.address));
}

} // verus!
