use vstd::prelude::*;
use crate::data_flow::{IrView, OperandView, irs_view};
use crate::insn::AssemblyInstruction;
use crate::counter::after;
use crate::data_flow::{
    DataFlowIr, DataFlowIrOpcode, DFIOperand, Number, DFISymbolRecord, DFISymbolRecordTable, DFISymbolType,
    Address, Size, GRRecord, RegisterRecord, SymbolSet, set_with,
};
use crate::data_flow::state::{push_ir, 
    DFState, df_state, known, temp_symbol, param_symbol, reg_of, names_reg, fits_i64, ir3, valid_reg,
    ensure_param, put_reg, reg_index, add_symbol,
};

verus! {

/// The operands of `add.d rd, rj, rk` are three registers; a sum of two
/// known numbers fits in an `i64`; the instruction is not the one at
/// 0x1200006cc, on which the handler stops with a panic.
pub open spec fn add_d_operands(s: DFState, insn: AssemblyInstruction) -> bool {
    let s1 = add_d_read(s, insn);
    let i2 = reg_of(insn.operand2);
    let i3 = reg_of(insn.operand3);
    &&& names_reg(insn.operand1, s.gr.len())
    &&& names_reg(insn.operand2, s.gr.len())
    &&& names_reg(insn.operand3, s.gr.len())
    &&& s.gp.len() == s.gr.len()
    &&& insn.address != 0x1200006cc
    &&& (s1.gr[i2].value matches RegisterRecord::Number(n2) && s1.gr[i3].value matches RegisterRecord::Number(n3)
        ==> fits_i64(n2.value + n3.value))
}

/// Reading rj and rk: an unread rj is marked known and its copy becomes a
/// parameter symbol taken as a value (the register keeps what it held); an
/// unread rk becomes a parameter symbol (see `with_param`).
pub open spec fn add_d_read(s: DFState, insn: AssemblyInstruction) -> DFState {
    let i2 = reg_of(insn.operand2);
    let i3 = reg_of(insn.operand3);
    let s1 = if s.gr[i2].state {
        s
    } else {
        let p = DFISymbolRecord { value: true, ..param_symbol(i2, s.tmp) };
        DFState {
            gr: s.gr.update(i2, GRRecord { state: true, ..s.gr[i2] }),
            gp: s.gp.update(i2, known(RegisterRecord::Symbol(p))),
            tmp: after(s.tmp),
            ..s
        }.with_symbol(p)
    };
    s1.with_param(i3)
}

/// What `add.d rd, rj, rk` does to the analysis state: two known numbers are
/// added (the copy of rd only marked known); two symbols yield a temporary
/// (added to the symbol table) and an `Add`.
pub open spec fn add_d_step(s: DFState, insn: AssemblyInstruction) -> DFState {
    let i1 = reg_of(insn.operand1);
    let i2 = reg_of(insn.operand2);
    let i3 = reg_of(insn.operand3);
    let s1 = add_d_read(s, insn);
    match (s1.gr[i2].value, s1.gr[i3].value) {
        (RegisterRecord::Number(n2), RegisterRecord::Number(n3)) => DFState {
            gr: s1.gr.update(i1, known(RegisterRecord::Number(Number { value: (n2.value + n3.value) as i64, ..n2 }))),
            gp: s1.gp.update(i1, GRRecord { state: true, ..s1.gp[i1] }),
            ..s1
        }.with_nop(insn.address),
        (RegisterRecord::Symbol(y2), RegisterRecord::Symbol(y3)) => {
            let t = temp_symbol(i1, s1.tmp, Size::Signed64);
            DFState { syms: set_with(s1.syms, t), tmp: after(s1.tmp), ..s1 }.with_ir(
                ir3(insn.address, DataFlowIrOpcode::Add, OperandView::Symbol(t), OperandView::Symbol(y2), OperandView::Symbol(y3)),
            ).with_reg(i1, RegisterRecord::Symbol(t))
        },
        _ => s1.with_nop(insn.address),
    }
}

/// `add.d rd, rj, rk`: rd = rj + rk.
pub fn add_d(
    insn: AssemblyInstruction,
    irs: &mut Vec<DataFlowIr>,
    gr_states: &mut Vec<GRRecord>,
    symbol_table: &mut DFISymbolRecordTable,
    gr_states_parameter: &mut Vec<GRRecord>,
    symbol_parameter: &mut SymbolSet,
)
    requires
        add_d_operands(df_state(*old(irs), *old(gr_states), *old(symbol_table), *old(gr_states_parameter), *old(symbol_parameter)), insn),
    ensures
        df_state(*final(irs), *final(gr_states), *final(symbol_table), *final(gr_states_parameter), *final(symbol_parameter))
            == add_d_step(df_state(*old(irs), *old(gr_states), *old(symbol_table), *old(gr_states_parameter), *old(symbol_parameter)), insn),
{
    proof {
        assert(gr_states@.len() == gr_states.len());
    }
    let index1 = reg_index(&insn.operand1);
    let index2 = reg_index(&insn.operand2);
    let index3 = reg_index(&insn.operand3);
    if !gr_states[index2].state {
        let id = symbol_table.tmp_counter.get();
        let parameter = DFISymbolRecord {
            address: Address::GR(index2),
            sym_type: DFISymbolType::Param,
            id,
            size: Size::Signed64,
            value: true,
        };
        add_symbol(parameter, symbol_table, symbol_parameter);
        let r = gr_states[index2];
        gr_states.set(index2, GRRecord { value: r.value, state: true });
        gr_states_parameter.set(index2, GRRecord { value: RegisterRecord::Symbol(parameter), state: true });
    }
    ensure_param(index3, irs, gr_states, symbol_table, gr_states_parameter, symbol_parameter);
    let v2 = gr_states[index2].value;
    let v3 = gr_states[index3].value;
    match v2 {
        RegisterRecord::Number(number2) => {
            if let RegisterRecord::Number(number3) = v3 {
                let n = Number::from(number2.value + number3.value, number2.signed, number2.size);
                gr_states.set(index1, GRRecord { value: RegisterRecord::Number(n), state: true });
                let q = gr_states_parameter[index1];
                gr_states_parameter.set(index1, GRRecord { value: q.value, state: true });
            }
            push_ir(irs, DataFlowIr::nop(insn.address));
        },
        RegisterRecord::Symbol(symbol2) => {
            if let RegisterRecord::Symbol(symbol3) = v3 {
                let id = symbol_table.tmp_counter.get();
                let tmp_symbol = DFISymbolRecord {
                    address: Address::GR(index1),
                    sym_type: DFISymbolType::Temp,
                    id,
                    size: Size::Signed64,
                    value: false,
                };
                symbol_table.symbols.insert(tmp_symbol);
                push_ir(irs, DataFlowIr {
                    address: insn.address,
                    opcode: DataFlowIrOpcode::Add,
                    operand1: Some(DFIOperand::Symbol(tmp_symbol)),
                    operand2: Some(DFIOperand::Symbol(symbol2)),
                    operand3: Some(DFIOperand::Symbol(symbol3)),
                });
                put_reg(index1, RegisterRecord::Symbol(tmp_symbol), gr_states, gr_states_parameter);
            } else {
                push_ir(irs, DataFlowIr::nop(insn.address));
            }
        },
    }
}

} // verus!
