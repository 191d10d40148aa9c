use vstd::prelude::*;
use crate::data_flow::{IrView, OperandView, irs_view};
use crate::insn::AssemblyInstruction;
use crate::data_flow::{
    DataFlowIr, DataFlowIrOpcode, DFIOperand, Number, DFISymbolRecord, DFISymbolRecordTable,
    Address, Size, GRRecord, RegisterRecord, SymbolSet,
};
use crate::data_flow::state::{push_ir, 
    DFState, df_state, temp_symbol, reg_of, imm_of, names_reg, fits_i64, ir3, valid_reg,
    ensure_param, mark_known, put_reg, reg_index, imm,
};

verus! {

/// The operands of `addi.d rd, rj, imm` are two registers and an immediate.
pub open spec fn addi_d_operands(insn: AssemblyInstruction, n: nat) -> bool {
    names_reg(insn.operand1, n) && names_reg(insn.operand2, n) && insn.operand3 is Some
}

/// The sums `addi.d` computes on known values fit in an `i64`.
pub open spec fn addi_d_fits(s: DFState, insn: AssemblyInstruction) -> bool {
    let i2 = reg_of(insn.operand2);
    let v = imm_of(insn.operand3);
    match s.with_param(i2).gr[i2].value {
        RegisterRecord::Number(n) => fits_i64(v + n.value),
        RegisterRecord::Symbol(sym) => match sym.address {
            Address::Stack(st) => !sym.value ==> fits_i64(st + v),
            Address::Memory(m) => fits_i64((m as i64) + v),
            _ => true,
        },
    }
}

/// What `addi.d rd, rj, imm` does to the analysis state: a known number is
/// added to; a register symbol yields a temporary and an `Add`; a stack
/// address is offset (or, for a stack value, added to through a temporary);
/// a memory address is offset.
pub open spec fn addi_d_step(s: DFState, insn: AssemblyInstruction) -> DFState {
    let i1 = reg_of(insn.operand1);
    let i2 = reg_of(insn.operand2);
    let v = imm_of(insn.operand3);
    let a = insn.address;
    let num = Number { value: v as i64, signed: true, size: Size::Signed64 };
    let s1 = s.with_param(i2);
    let s2 = s1.with_known(i1);
    match s1.gr[i2].value {
        RegisterRecord::Number(n) => s2.with_reg(
            i1,
            RegisterRecord::Number(Number { value: (v + n.value) as i64, signed: true, size: Size::Signed64 }),
        ).with_nop(a),
        RegisterRecord::Symbol(sym) => match sym.address {
            Address::GR(_) => {
                let t = temp_symbol(i1, s2.tmp, Size::Signed64);
                s2.next_tmp().with_ir(
                    ir3(a, DataFlowIrOpcode::Add, OperandView::Symbol(t), OperandView::Symbol(sym), OperandView::Number(num)),
                ).with_reg(i1, RegisterRecord::Symbol(t))
            },
            Address::FR(_) => s2.with_nop(a),
            Address::Stack(st) => {
                if sym.value {
                    let t = temp_symbol(i1, s2.tmp, Size::Signed64);
                    let sym64 = DFISymbolRecord { size: Size::Signed64, ..sym };
                    s2.next_tmp().with_ir(
                        ir3(a, DataFlowIrOpcode::Add, OperandView::Symbol(t), OperandView::Symbol(sym64), OperandView::Number(num)),
                    ).with_reg(i1, RegisterRecord::Symbol(t))
                } else {
                    s2.with_reg(
                        i1,
                        RegisterRecord::Symbol(DFISymbolRecord {
                            address: Address::Stack((st + v) as i64),
                            size: Size::Signed64,
                            ..sym
                        }),
                    ).with_nop(a)
                }
            },
            Address::Memory(m) => s2.with_reg(
                i1,
                RegisterRecord::Symbol(DFISymbolRecord {
                    address: Address::Memory(((m as i64) + v) as u64),
                    value: false,
                    ..sym
                }),
            ).with_nop(a),
        },
    }
}

/// `addi.d rd, rj, imm`: rd = rj + imm.
pub fn addi_d(
    insn: AssemblyInstruction,
    irs: &mut Vec<DataFlowIr>,
    gr_states: &mut Vec<GRRecord>,
    symbol_table: &mut DFISymbolRecordTable,
    gr_states_parameter: &mut Vec<GRRecord>,
    symbol_parameter: &mut SymbolSet,
)
    requires
        addi_d_operands(insn, old(gr_states)@.len()),
        old(gr_states_parameter)@.len() == old(gr_states)@.len(),
        addi_d_fits(df_state(*old(irs), *old(gr_states), *old(symbol_table), *old(gr_states_parameter), *old(symbol_parameter)), insn),
    ensures
        df_state(*final(irs), *final(gr_states), *final(symbol_table), *final(gr_states_parameter), *final(symbol_parameter))
            == addi_d_step(df_state(*old(irs), *old(gr_states), *old(symbol_table), *old(gr_states_parameter), *old(symbol_parameter)), insn),
{
    proof {
        assert(gr_states@.len() == gr_states.len());
    }
    let index1 = reg_index(&insn.operand1);
    let index2 = reg_index(&insn.operand2);
    let value = imm(&insn.operand3);
    let num = Number::from(value, true, Size::Signed64);

    ensure_param(index2, irs, gr_states, symbol_table, gr_states_parameter, symbol_parameter);
    let src = gr_states[index2].value;
    mark_known(index1, gr_states, gr_states_parameter);
    match src {
        RegisterRecord::Number(number) => {
            let n = Number::from(value + number.value, true, Size::Signed64);
            put_reg(index1, RegisterRecord::Number(n), gr_states, gr_states_parameter);
            push_ir(irs, DataFlowIr::nop(insn.address));
        },
        RegisterRecord::Symbol(symbol) => {
            match symbol.address {
                Address::GR(_) => {
                    let id = symbol_table.tmp_counter.get();
                    let temp_sym = DFISymbolRecord {
                        address: Address::GR(index1),
                        sym_type: crate::data_flow::DFISymbolType::Temp,
                        id,
                        size: Size::Signed64,
                        value: false,
                    };
                    push_ir(irs, DataFlowIr {
                        address: insn.address,
                        opcode: DataFlowIrOpcode::Add,
                        operand1: Some(DFIOperand::Symbol(temp_sym)),
                        operand2: Some(DFIOperand::Symbol(symbol)),
                        operand3: Some(DFIOperand::Number(num)),
                    });
                    put_reg(index1, RegisterRecord::Symbol(temp_sym), gr_states, gr_states_parameter);
                },
                Address::FR(_) => {
                    push_ir(irs, DataFlowIr::nop(insn.address));
                },
                Address::Stack(stack) => {
                    let mut sym64 = symbol;
                    sym64.size = Size::Signed64;
                    if symbol.value {
                        let id = symbol_table.tmp_counter.get();
                        let tmp_symbol = DFISymbolRecord {
                            address: Address::GR(index1),
                            sym_type: crate::data_flow::DFISymbolType::Temp,
                            id,
                            size: Size::Signed64,
                            value: false,
                        };
                        push_ir(irs, DataFlowIr {
                            address: insn.address,
                            opcode: DataFlowIrOpcode::Add,
                            operand1: Some(DFIOperand::Symbol(tmp_symbol)),
                            operand2: Some(DFIOperand::Symbol(sym64)),
                            operand3: Some(DFIOperand::Number(num)),
                        });
                        put_reg(index1, RegisterRecord::Symbol(tmp_symbol), gr_states, gr_states_parameter);
                    } else {
                        let moved = DFISymbolRecord {
                            address: Address::Stack(stack + value),
                            sym_type: sym64.sym_type,
                            id: sym64.id,
                            size: sym64.size,
                            value: sym64.value,
                        };
                        put_reg(index1, RegisterRecord::Symbol(moved), gr_states, gr_states_parameter);
                        push_ir(irs, DataFlowIr::nop(insn.address));
                    }
                },
                Address::Memory(memory) => {
                    let moved = DFISymbolRecord {
                        address: Address::Memory((memory as i64 + value) as u64),
                        sym_type: symbol.sym_type,
                        id: symbol.id,
                        size: symbol.size,
                        value: false,
                    };
                    put_reg(index1, RegisterRecord::Symbol(moved), gr_states, gr_states_parameter);
                    push_ir(irs, DataFlowIr::nop(insn.address));
                },
            }
        },
    }
}

} // verus!
