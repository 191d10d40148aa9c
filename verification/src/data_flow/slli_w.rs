use vstd::prelude::*;
use vstd::arithmetic::power2::pow2;
use crate::data_flow::{IrView, OperandView, irs_view};
use crate::insn::AssemblyInstruction;
use crate::data_flow::{
    DataFlowIr, DataFlowIrOpcode, DFIOperand, Number, DFISymbolRecord, DFISymbolRecordTable, DFISymbolType,
    Address, Size, GRRecord, RegisterRecord, SymbolSet,
};
use crate::data_flow::state::{push_ir, 
    DFState, df_state, temp_symbol, reg_of, imm_of, names_reg, ir3, mark_known, put_reg, reg_index, imm,
};

verus! {

/// The operands of `slli.w rd, rj, imm` are two registers and a shift
/// amount; a shift of a symbol is by less than 64.
pub open spec fn slli_w_operands(s: DFState, insn: AssemblyInstruction) -> bool {
    &&& names_reg(insn.operand1, s.gr.len())
    &&& names_reg(insn.operand2, s.gr.len())
    &&& insn.operand3 is Some
    &&& (imm_of(insn.operand3) != 0 && s.gr[reg_of(insn.operand2)].value is Symbol
        ==> 0 <= imm_of(insn.operand3) < 64)
}

/// What `slli.w rd, rj, imm` does to the analysis state: a shift by 0 makes
/// rd the 32-bit signed form of rj; a shift of a symbol is a multiplication
/// by the power of two, held in a temporary.
pub open spec fn slli_w_step(s: DFState, insn: AssemblyInstruction) -> DFState {
    let i1 = reg_of(insn.operand1);
    let i2 = reg_of(insn.operand2);
    let v = imm_of(insn.operand3);
    if v == 0 {
        let s1 = s.with_known(i1);
        match s1.gr[i2].value {
            RegisterRecord::Number(n) => s1.with_reg(
                i1,
                RegisterRecord::Number(Number { value: n.value, signed: true, size: Size::Signed32 }),
            ).with_nop(insn.address),
            RegisterRecord::Symbol(sym) => s1.with_reg(
                i1,
                RegisterRecord::Symbol(DFISymbolRecord { size: Size::Signed32, value: false, ..sym }),
            ).with_nop(insn.address),
        }
    } else {
        match s.gr[i2].value {
            RegisterRecord::Number(_) => s.with_nop(insn.address),
            RegisterRecord::Symbol(sym) => {
                let t = temp_symbol(i1, s.tmp, Size::Signed32);
                let factor = Number { value: 1i64 << (v as u64), signed: true, size: Size::Signed32 };
                s.next_tmp().with_ir(
                    ir3(insn.address, DataFlowIrOpcode::Mul, OperandView::Symbol(t), OperandView::Symbol(sym), OperandView::Number(factor)),
                ).with_reg(i1, RegisterRecord::Symbol(t))
            },
        }
    }
}

/// `slli.w rd, rj, imm`: rd = rj << imm, on 32 bits.
pub fn slli_w(
    insn: AssemblyInstruction,
    irs: &mut Vec<DataFlowIr>,
    gr_states: &mut Vec<GRRecord>,
    symbol_table: &mut DFISymbolRecordTable,
    gr_states_parameter: &mut Vec<GRRecord>,
    symbol_parameter: &mut SymbolSet,
)
    requires
        slli_w_operands(df_state(*old(irs), *old(gr_states), *old(symbol_table), *old(gr_states_parameter), *old(symbol_parameter)), insn),
        old(gr_states_parameter)@.len() == old(gr_states)@.len(),
    ensures
        df_state(*final(irs), *final(gr_states), *final(symbol_table), *final(gr_states_parameter), *final(symbol_parameter))
            == slli_w_step(df_state(*old(irs), *old(gr_states), *old(symbol_table), *old(gr_states_parameter), *old(symbol_parameter)), insn),
{
    proof {
        assert(gr_states@.len() == gr_states.len());
    }
    let index1 = reg_index(&insn.operand1);
    let index2 = reg_index(&insn.operand2);
    let value = imm(&insn.operand3);
    if value == 0 {
        mark_known(index1, gr_states, gr_states_parameter);
        match gr_states[index2].value {
            RegisterRecord::Number(number) => {
                put_reg(index1, RegisterRecord::Number(Number::from(number.value, true, Size::Signed32)), gr_states, gr_states_parameter);
            },
            RegisterRecord::Symbol(symbol) => {
                let sym = DFISymbolRecord {
                    address: symbol.address,
                    sym_type: symbol.sym_type,
                    id: symbol.id,
                    size: Size::Signed32,
                    value: false,
                };
                put_reg(index1, RegisterRecord::Symbol(sym), gr_states, gr_states_parameter);
            },
        }
        push_ir(irs, DataFlowIr::nop(insn.address));
    } else {
        match gr_states[index2].value {
            RegisterRecord::Number(_) => {
                push_ir(irs, DataFlowIr::nop(insn.address));
            },
            RegisterRecord::Symbol(symbol2) => {
                let id = symbol_table.tmp_counter.get();
                let sym = DFISymbolRecord {
                    address: Address::GR(index1),
                    sym_type: DFISymbolType::Temp,
                    id,
                    size: Size::Signed32,
                    value: false,
                };
                let factor = Number::from(1i64 << (value as u64), true, Size::Signed32);
                push_ir(irs, DataFlowIr {
                    address: insn.address,
                    opcode: DataFlowIrOpcode::Mul,
                    operand1: Some(DFIOperand::Symbol(sym)),
                    operand2: Some(DFIOperand::Symbol(symbol2)),
                    operand3: Some(DFIOperand::Number(factor)),
                });
                put_reg(index1, RegisterRecord::Symbol(sym), gr_states, gr_states_parameter);
            },
        }
    }
}


/// One shifted left by `k` is two to the power `k`, below 63.
pub proof fn lemma_one_shl(k: u64)
    requires
        k < 63,
    ensures
        (1i64 << k) as int == pow2(k as nat),
{
    vstd::bits::lemma_u64_pow2_no_overflow(k as nat);
    vstd::bits::lemma_u64_shl_is_mul(1u64, k);
    assert((1i64 << k) as int == (1u64 << k) as int) by (bit_vector)
        requires
            k < 63,
    ;
}

/// A left shift by `k` (0 < k < 63) of a register that holds a symbol is a
/// multiplication by two to the power `k`: exactly one instruction is
/// emitted, a `Mul` of that symbol by the number 2^k into a temporary, and
/// the target register then holds that temporary.
pub proof fn lemma_slli_w_multiplies(s: DFState, insn: AssemblyInstruction)
    requires
        slli_w_operands(s, insn),
        0 < imm_of(insn.operand3) < 63,
        s.gr[reg_of(insn.operand2)].value is Symbol,
    ensures
        ({
            let r = slli_w_step(s, insn);
            let ir = r.irs.last();
            &&& r.irs.len() == s.irs.len() + 1
            &&& r.irs.drop_last() == s.irs
            &&& ir.opcode == DataFlowIrOpcode::Mul
            &&& ir.operand2 == Some(OperandView::Symbol(s.gr[reg_of(insn.operand2)].value->Symbol_0))
            &&& ir.operand3 matches Some(OperandView::Number(n)) && n.value == pow2(imm_of(insn.operand3) as nat)
            &&& ir.operand1 matches Some(OperandView::Symbol(t)) && r.gr[reg_of(insn.operand1)].value == RegisterRecord::Symbol(t)
        }),
{
    let k = imm_of(insn.operand3);
    lemma_one_shl(k as u64);
    let r = slli_w_step(s, insn);
    assert(r.irs.drop_last() =~= s.irs);
}

} // verus!
