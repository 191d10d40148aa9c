use vstd::prelude::*;
use crate::data_flow::{IrView, OperandView, irs_view};
use crate::insn::AssemblyInstruction;
use crate::data_flow::{
    DataFlowIr, DataFlowIrOpcode, DFIOperand, DFISymbolRecordTable, GRRecord, RegisterRecord, SymbolSet,
};
use crate::data_flow::state::{push_ir, DFState, df_state, reg_operand};

verus! {

/// The return that `jirl` emits: it returns register a0 (r4) when its content is known.
pub open spec fn ret_ir(address: u64, a0: GRRecord) -> IrView {
    IrView {
        address,
        opcode: DataFlowIrOpcode::Ret,
        operand1: if a0.state { Some(reg_operand(a0.value)) } else { None },
        operand2: None,
        operand3: None,
    }
}

/// What `jirl` does to the analysis state: it emits a return.
pub open spec fn jirl_step(s: DFState, insn: AssemblyInstruction) -> DFState {
    s.with_ir(ret_ir(insn.address, s.gr[4]))
}

/// `jirl`: a return from the function.
pub fn jirl(
    insn: AssemblyInstruction,
    irs: &mut Vec<DataFlowIr>,
    gr_states: &mut Vec<GRRecord>,
    symbol_table: &mut DFISymbolRecordTable,
    gr_states_parameter: &mut Vec<GRRecord>,
    symbol_parameter: &mut SymbolSet,
)
    requires
        old(gr_states)@.len() > 4,
    ensures
        df_state(*final(irs), *final(gr_states), *final(symbol_table), *final(gr_states_parameter), *final(symbol_parameter))
            == jirl_step(df_state(*old(irs), *old(gr_states), *old(symbol_table), *old(gr_states_parameter), *old(symbol_parameter)), insn),
{
    let a0 = gr_states[4];
    let mut ir = DataFlowIr {
        address: insn.address,
        opcode: DataFlowIrOpcode::Ret,
        operand1: None,
        operand2: None,
        operand3: None,
    };
    if a0.state {
        match a0.value {
            RegisterRecord::Number(number) => {
                ir.operand1 = Some(DFIOperand::Number(number));
            },
            RegisterRecord::Symbol(symbol) => {
                ir.operand1 = Some(DFIOperand::Symbol(symbol));
            },
        }
    }
    push_ir(irs, ir);
}

} // verus!
