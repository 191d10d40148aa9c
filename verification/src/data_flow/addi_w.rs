use vstd::prelude::*;
use crate::data_flow::{IrView, OperandView, irs_view};
use crate::insn::AssemblyInstruction;
use crate::counter::after;
use crate::data_flow::{
    DataFlowIr, DataFlowIrOpcode, DFIOperand, Number, DFISymbolRecord, DFISymbolRecordTable, DFISymbolType,
    Address, Size, GRRecord, RegisterRecord, SymbolSet,
};
use crate::data_flow::state::{push_ir, 
    DFState, df_state, known, temp_symbol, reg_of, imm_of, names_reg, fits_i64, ir3, mark_known, put_reg,
    reg_index, imm, add_symbol,
};

verus! {

/// Reading rj of `addi.w`: an unread rj becomes a 32-bit parameter symbol,
/// recorded in both symbol sets (its copy is left as it was).
pub open spec fn addi_w_read(s: DFState, insn: AssemblyInstruction) -> DFState {
    let i2 = reg_of(insn.operand2);
    if s.gr[i2].state {
        s
    } else {
        let p = DFISymbolRecord {
            address: Address::GR(i2 as usize),
            sym_type: DFISymbolType::Param,
            id: s.tmp as usize,
            size: Size::Signed32,
            value: false,
        };
        DFState { gr: s.gr.update(i2, known(RegisterRecord::Symbol(p))), tmp: after(s.tmp), ..s }.with_symbol(p)
    }
}

/// The operands of `addi.w rd, rj, imm` are two registers and an
/// immediate; the sums computed on known values fit in an `i64`.
pub open spec fn addi_w_operands(s: DFState, insn: AssemblyInstruction) -> bool {
    let i2 = reg_of(insn.operand2);
    let v = imm_of(insn.operand3);
    &&& names_reg(insn.operand1, s.gr.len())
    &&& names_reg(insn.operand2, s.gr.len())
    &&& insn.operand3 is Some
    &&& s.gp.len() == s.gr.len()
    &&& match addi_w_read(s, insn).gr[i2].value {
        RegisterRecord::Number(n) => fits_i64(v + n.value),
        RegisterRecord::Symbol(sym) => match sym.address {
            Address::Memory(m) => !sym.value ==> fits_i64((m as i64) + v),
            _ => true,
        },
    }
}

/// What `addi.w rd, rj, imm` does to the analysis state: a known number is
/// added to (as a 32-bit value); a register, stack or memory value yields a
/// temporary and an `Add` (a register one keeping its kind and width, and
/// followed by a no-op); a memory address is offset.
pub open spec fn addi_w_step(s: DFState, insn: AssemblyInstruction) -> DFState {
    let i1 = reg_of(insn.operand1);
    let i2 = reg_of(insn.operand2);
    let v = imm_of(insn.operand3);
    let a = insn.address;
    let num = Number { value: v as i64, signed: true, size: Size::Signed32 };
    let s1 = addi_w_read(s, insn);
    let s2 = s1.with_known(i1);
    match s1.gr[i2].value {
        RegisterRecord::Number(n) => s2.with_reg(
            i1,
            RegisterRecord::Number(Number { value: (v + n.value) as i64, signed: true, size: Size::Signed32 }),
        ).with_nop(a),
        RegisterRecord::Symbol(sym) => match sym.address {
            Address::GR(_) => {
                let t = DFISymbolRecord {
                    address: Address::GR(i1 as usize),
                    sym_type: sym.sym_type,
                    id: s2.tmp as usize,
                    size: sym.size,
                    value: false,
                };
                s2.next_tmp().with_ir(
                    ir3(a, DataFlowIrOpcode::Add, OperandView::Symbol(t), OperandView::Symbol(sym), OperandView::Number(num)),
                ).with_reg(i1, RegisterRecord::Symbol(t)).with_nop(a)
            },
            Address::FR(_) => s2.with_nop(a),
            Address::Stack(_) => {
                let t = temp_symbol(i1, s2.tmp, Size::Signed32);
                s2.next_tmp().with_ir(
                    ir3(a, DataFlowIrOpcode::Add, OperandView::Symbol(t), OperandView::Symbol(sym), OperandView::Number(num)),
                ).with_reg(i1, RegisterRecord::Symbol(t))
            },
            Address::Memory(m) => {
                if sym.value {
                    let t = temp_symbol(i1, s2.tmp, Size::Signed32);
                    s2.next_tmp().with_ir(
                        ir3(a, DataFlowIrOpcode::Add, OperandView::Symbol(t), OperandView::Symbol(sym), OperandView::Number(num)),
                    ).with_reg(i1, RegisterRecord::Symbol(t))
                } else {
                    s2.with_reg(
                        i1,
                        RegisterRecord::Symbol(DFISymbolRecord {
                            address: Address::Memory(((m as i64) + v) as u64),
                            value: false,
                            ..sym
                        }),
                    ).with_nop(a)
                }
            },
        },
    }
}

/// `addi.w rd, rj, imm`: rd = rj + imm, on 32 bits.
pub fn addi_w(
    insn: AssemblyInstruction,
    irs: &mut Vec<DataFlowIr>,
    gr_states: &mut Vec<GRRecord>,
    symbol_table: &mut DFISymbolRecordTable,
    gr_states_parameter: &mut Vec<GRRecord>,
    symbol_parameter: &mut SymbolSet,
)
    requires
        addi_w_operands(df_state(*old(irs), *old(gr_states), *old(symbol_table), *old(gr_states_parameter), *old(symbol_parameter)), insn),
    ensures
        df_state(*final(irs), *final(gr_states), *final(symbol_table), *final(gr_states_parameter), *final(symbol_parameter))
            == addi_w_step(df_state(*old(irs), *old(gr_states), *old(symbol_table), *old(gr_states_parameter), *old(symbol_parameter)), insn),
{
    proof {
        assert(gr_states@.len() == gr_states.len());
    }
    let index1 = reg_index(&insn.operand1);
    let index2 = reg_index(&insn.operand2);
    let value = imm(&insn.operand3);
    let a = insn.address;
    let num = Number::from(value, true, Size::Signed32);
    if !gr_states[index2].state {
        let id = symbol_table.tmp_counter.get();
        let parameter = DFISymbolRecord {
            address: Address::GR(index2),
            sym_type: DFISymbolType::Param,
            id,
            size: Size::Signed32,
            value: false,
        };
        add_symbol(parameter, symbol_table, symbol_parameter);
        gr_states.set(index2, GRRecord { value: RegisterRecord::Symbol(parameter), state: true });
    }
    let src = gr_states[index2].value;
    mark_known(index1, gr_states, gr_states_parameter);
    match src {
        RegisterRecord::Number(number) => {
            put_reg(index1, RegisterRecord::Number(Number::from(value + number.value, true, Size::Signed32)), gr_states, gr_states_parameter);
            push_ir(irs, DataFlowIr::nop(a));
        },
        RegisterRecord::Symbol(symbol2) => {
            match symbol2.address {
                Address::GR(_) => {
                    let id = symbol_table.tmp_counter.get();
                    let tmp_symbol = DFISymbolRecord {
                        address: Address::GR(index1),
                        sym_type: symbol2.sym_type,
                        id,
                        size: symbol2.size,
                        value: false,
                    };
                    push_ir(irs, DataFlowIr {
                        address: a,
                        opcode: DataFlowIrOpcode::Add,
                        operand1: Some(DFIOperand::Symbol(tmp_symbol)),
                        operand2: Some(DFIOperand::Symbol(symbol2)),
                        operand3: Some(DFIOperand::Number(num)),
                    });
                    put_reg(index1, RegisterRecord::Symbol(tmp_symbol), gr_states, gr_states_parameter);
                    push_ir(irs, DataFlowIr::nop(a));
                },
                Address::FR(_) => {
                    push_ir(irs, DataFlowIr::nop(a));
                },
                Address::Stack(_) => {
                    let id = symbol_table.tmp_counter.get();
                    let sym = DFISymbolRecord {
                        address: Address::GR(index1),
                        sym_type: DFISymbolType::Temp,
                        id,
                        size: Size::Signed32,
                        value: false,
                    };
                    push_ir(irs, DataFlowIr {
                        address: a,
                        opcode: DataFlowIrOpcode::Add,
                        operand1: Some(DFIOperand::Symbol(sym)),
                        operand2: Some(DFIOperand::Symbol(symbol2)),
                        operand3: Some(DFIOperand::Number(num)),
                    });
                    put_reg(index1, RegisterRecord::Symbol(sym), gr_states, gr_states_parameter);
                },
                Address::Memory(memory) => {
                    if symbol2.value {
                        let id = symbol_table.tmp_counter.get();
                        let temp = DFISymbolRecord {
                            address: Address::GR(index1),
                            sym_type: DFISymbolType::Temp,
                            id,
                            size: Size::Signed32,
                            value: false,
                        };
                        push_ir(irs, DataFlowIr {
                            address: a,
                            opcode: DataFlowIrOpcode::Add,
                            operand1: Some(DFIOperand::Symbol(temp)),
                            operand2: Some(DFIOperand::Symbol(symbol2)),
                            operand3: Some(DFIOperand::Number(num)),
                        });
                        put_reg(index1, RegisterRecord::Symbol(temp), gr_states, gr_states_parameter);
                    } else {
                        let moved = DFISymbolRecord {
                            address: Address::Memory((memory as i64 + value) as u64),
                            sym_type: symbol2.sym_type,
                            id: symbol2.id,
                            size: symbol2.size,
                            value: false,
                        };
                        put_reg(index1, RegisterRecord::Symbol(moved), gr_states, gr_states_parameter);
                        push_ir(irs, DataFlowIr::nop(a));
                    }
                },
            }
        },
    }
}

} // verus!
