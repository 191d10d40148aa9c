use vstd::prelude::*;
use crate::data_flow::{IrView, OperandView, irs_view};
use std::collections::HashMap;
use crate::counter::Counter;
use crate::insn::{AssemblyInstruction, Opcode, NameValue};
use crate::data_flow::{
    DataFlowIr, DataFlowIrOpcode, Number, DFISymbolRecord, DFISymbolRecordTable, Address, DFISymbolType,
    Size, GRRecord, RegisterRecord, SymbolSet,
};
use crate::data_flow::state::{push_ir, DFState, df_state, names_reg, fits_i64, imm_of, reg_of};
use crate::data_flow::addi_d::{addi_d, addi_d_operands, addi_d_fits, addi_d_step};
use crate::data_flow::b::{b, b_step, branch_target};
use crate::data_flow::beq::{beq, beq_step};
use crate::data_flow::jirl::{jirl, jirl_step};
use crate::data_flow::pcaddu12i::{pcaddu12i, pcaddu12i_step, pcaddu12i_value};
use crate::data_flow::or::{or, or_operands, or_step};
use crate::data_flow::slli_w::{slli_w, slli_w_operands, slli_w_step};
use crate::data_flow::ld_d::{ld_d, ld_d_operands, ld_d_step};
use crate::data_flow::st_d::{st_d, st_d_operands, st_d_step};
use crate::data_flow::stptr_w::{stptr_w, stptr_w_operands, stptr_w_step};
use crate::data_flow::add_d::{add_d, add_d_operands, add_d_step};
use crate::data_flow::addi_w::{addi_w, addi_w_operands, addi_w_step};
use crate::data_flow::st_w::{st_w, st_w_operands, st_w_step};
use crate::data_flow::stptr_d::{stptr_d, stptr_d_operands, stptr_d_step};
use crate::data_flow::ldptr_d::{ldptr_d, ldptr_d_operands, ldptr_d_step};
use crate::data_flow::ldptr_w::{ldptr_w, ldptr_w_operands, ldptr_w_step};
use crate::data_flow::andi::{andi, andi_operands, andi_step};
use crate::data_flow::branch::{beqz, bgeu, blt, beqz_operands, branch2_operands, beqz_step, bgeu_step, blt_step};
use crate::data_flow::bl::{bl, bl_operands, bl_step};

verus! {

broadcast use vstd::std_specs::vec::group_vec_axioms;

/// What one instruction does to the analysis state; instructions without a
/// handler change nothing.
pub open spec fn df_step(s: DFState, insn: AssemblyInstruction) -> DFState {
    match insn.opcode {
        Opcode::ADDI_D => addi_d_step(s, insn),
        Opcode::ST_D => st_d_step(s, insn),
        Opcode::LD_D => ld_d_step(s, insn),
        Opcode::STPTR_W => stptr_w_step(s, insn),
        Opcode::B => b_step(s, insn),
        Opcode::BEQ => beq_step(s, insn),
        Opcode::OR => or_step(s, insn),
        Opcode::PCADDU12I => pcaddu12i_step(s, insn),
        Opcode::JIRL => jirl_step(s, insn),
        Opcode::SLLI_W => slli_w_step(s, insn),
        Opcode::ADD_D => add_d_step(s, insn),
        Opcode::ADDI_W => addi_w_step(s, insn),
        Opcode::ST_W => st_w_step(s, insn),
        Opcode::STPTR_D => stptr_d_step(s, insn),
        Opcode::LDPTR_D => ldptr_d_step(s, insn),
        Opcode::LDPTR_W => ldptr_w_step(s, insn),
        Opcode::ANDI => andi_step(s, insn),
        Opcode::BEQZ => beqz_step(s, insn),
        Opcode::BGEU => bgeu_step(s, insn),
        Opcode::BLT => blt_step(s, insn),
        Opcode::BL => bl_step(s, insn),
        _ => s,
    }
}

/// The instruction's handler accepts it in state `s`.
pub open spec fn df_pre(s: DFState, insn: AssemblyInstruction) -> bool {
    let n = s.gr.len();
    match insn.opcode {
        Opcode::ADDI_D => addi_d_operands(insn, n) && s.gp.len() == n && addi_d_fits(s, insn),
        Opcode::ST_D => st_d_operands(s, insn),
        Opcode::LD_D => ld_d_operands(s, insn),
        Opcode::STPTR_W => stptr_w_operands(s, insn),
        Opcode::B => insn.operand1 is Some && fits_i64(branch_target(insn.address, imm_of(insn.operand1) as i64)),
        Opcode::BEQ => names_reg(insn.operand1, n) && names_reg(insn.operand2, n) && insn.operand3 is Some
            && fits_i64(branch_target(insn.address, imm_of(insn.operand3) as i64)),
        Opcode::OR => or_operands(insn, n) && s.gp.len() == n,
        Opcode::PCADDU12I => names_reg(insn.operand1, n) && insn.operand2 is Some && s.gp.len() == n
            && fits_i64(pcaddu12i_value(insn.address, imm_of(insn.operand2) as i64)),
        Opcode::JIRL => n > 4,
        Opcode::SLLI_W => slli_w_operands(s, insn) && s.gp.len() == n,
        Opcode::ADD_D => add_d_operands(s, insn),
        Opcode::ADDI_W => addi_w_operands(s, insn),
        Opcode::ST_W => st_w_operands(s, insn),
        Opcode::STPTR_D => stptr_d_operands(s, insn),
        Opcode::LDPTR_D => ldptr_d_operands(s, insn),
        Opcode::LDPTR_W => ldptr_w_operands(s, insn),
        Opcode::ANDI => andi_operands(s, insn),
        Opcode::BEQZ => beqz_operands(s, insn),
        Opcode::BGEU | Opcode::BLT => branch2_operands(s, insn),
        Opcode::BL => bl_operands(s, insn),
        _ => true,
    }
}

/// The state after the instructions `insns`, one after the other.
pub open spec fn df_run(s: DFState, insns: Seq<AssemblyInstruction>) -> DFState
    decreases insns.len(),
{
    if insns.len() == 0 {
        s
    } else {
        df_step(df_run(s, insns.drop_last()), insns.last())
    }
}

/// Each instruction of `insns` is accepted in the state the ones before it leave.
pub open spec fn df_runs(s: DFState, insns: Seq<AssemblyInstruction>) -> bool {
    forall|i: int| 0 <= i < insns.len() ==> #[trigger] df_pre(df_run(s, insns.take(i)), insns[i])
}

/// What is known of the registers when a function starts: r0 is zero, r1
/// (the return address) is an untyped address, the stack pointer r3 and the
/// frame pointer r22 point to the top of the stack frame.
pub open spec fn initial_regs() -> Seq<GRRecord> {
    let unknown = GRRecord {
        value: RegisterRecord::Number(Number { value: 0, signed: false, size: Size::Unsigned64 }),
        state: false,
    };
    let frame = RegisterRecord::Symbol(DFISymbolRecord {
        address: Address::Stack(0),
        sym_type: DFISymbolType::Local,
        id: 0,
        size: Size::Unsigned64,
        value: false,
    });
    Seq::new(32, |i: int| unknown)
        .update(0, GRRecord { value: RegisterRecord::Number(Number { value: 0, signed: false, size: Size::Unsigned64 }), state: true })
        .update(1, GRRecord {
            value: RegisterRecord::Symbol(DFISymbolRecord {
                address: Address::Memory(0),
                sym_type: DFISymbolType::Untyped,
                id: 0,
                size: Size::Unsigned64,
                value: false,
            }),
            state: true,
        })
        .update(3, GRRecord { value: frame, state: true })
        .update(22, GRRecord { value: frame, state: true })
}

/// The state the analysis of a function starting at `address` begins in.
pub open spec fn initial_state(address: u64) -> DFState {
    DFState {
        irs: seq![IrView { address, opcode: DataFlowIrOpcode::Function, operand1: None, operand2: None, operand3: None }],
        gr: initial_regs(),
        syms: Seq::empty(),
        tmp: 0,
        loc: 0,
        glob: 0,
        gp: initial_regs(),
        sp: Seq::empty(),
    }
}

/// The registers as they stand when a function starts (see `initial_regs`).
pub fn initial_gr_states() -> (r: Vec<GRRecord>)
    ensures
        r@ == initial_regs(),
{
    let mut r: Vec<GRRecord> = Vec::new();
    let mut i: usize = 0;
    while i < 32
        invariant
            i <= 32,
            r@.len() == i,
            forall|j: int| 0 <= j < i ==> r@[j] == (GRRecord { value: RegisterRecord::Number(Number { value: 0, signed: false, size: Size::Unsigned64 }), state: false }),
        decreases 32 - i,
    {
        r.push(GRRecord::new());
        i = i + 1;
    }
    r.set(0, GRRecord { value: RegisterRecord::Number(Number::from(0, false, Size::Unsigned64)), state: true });
    r.set(1, GRRecord {
        value: RegisterRecord::Symbol(DFISymbolRecord {
            address: Address::Memory(0),
            sym_type: DFISymbolType::Untyped,
            id: 0,
            size: Size::Unsigned64,
            value: false,
        }),
        state: true,
    });
    let frame = RegisterRecord::Symbol(DFISymbolRecord {
        address: Address::Stack(0),
        sym_type: DFISymbolType::Local,
        id: 0,
        size: Size::Unsigned64,
        value: false,
    });
    r.set(3, GRRecord { value: frame, state: true });
    r.set(22, GRRecord { value: frame, state: true });
    assert(r@ =~= initial_regs());
    r
}

/// Runs the data-flow analysis over the instructions of one function: it
/// emits the function's IR (a `Function` marker first), and returns it with
/// what is known of the registers at the end and the function's symbols.
pub fn analyse_data_flow(
    insns: Vec<AssemblyInstruction>,
    functions: &HashMap<u64, NameValue>,
    globals: &HashMap<u64, NameValue>,
    data: &HashMap<u64, Vec<u8>>,
) -> (r: (Vec<DataFlowIr>, Vec<GRRecord>, SymbolSet))
    requires
        insns@.len() > 0,
        df_runs(initial_state(insns@[0].address), insns@),
    ensures
        ({
            let end = df_run(initial_state(insns@[0].address), insns@);
            irs_view(r.0@) == end.irs && r.1@ == end.gr && r.2@ == end.syms
        }),
{
    let mut data_flow_ir: Vec<DataFlowIr> = Vec::new();
    let mut symbol_table = DFISymbolRecordTable {
        symbols: SymbolSet::new(),
        loc_counter: Counter::new(),
        global_counter: Counter::new(),
        tmp_counter: Counter::new(),
    };
    let mut gr_states = initial_gr_states();
    let mut gr_states_parameter = initial_gr_states();
    let mut symbol_parameter = SymbolSet::new();
    assert(irs_view(data_flow_ir@) =~= Seq::<IrView>::empty());
    push_ir(&mut data_flow_ir, DataFlowIr {
        address: insns[0].address,
        opcode: DataFlowIrOpcode::Function,
        operand1: None,
        operand2: None,
        operand3: None,
    });
    let ghost s0 = initial_state(insns@[0].address);
    let ghost all = insns@;
    proof {
        assert(df_state(data_flow_ir, gr_states, symbol_table, gr_states_parameter, symbol_parameter) == s0);
        assert(all.take(0) =~= Seq::<AssemblyInstruction>::empty());
    }
    let ghost mut k: int = 0;
    for insn in it: insns.into_iter()
        invariant
            it.seq() == all,
            k == it.index(),
            df_runs(s0, all),
            df_state(data_flow_ir, gr_states, symbol_table, gr_states_parameter, symbol_parameter)
                == df_run(s0, all.take(k)),
    {
        proof {
            assert(k < all.len());
            assert(insn == all[k]);
            assert(df_pre(df_run(s0, all.take(k)), all[k]));
            assert(all.take(k + 1).drop_last() =~= all.take(k));
            assert(all.take(k + 1).last() == all[k]);
        }
        match insn.opcode {
            Opcode::ADDI_D => addi_d(insn, &mut data_flow_ir, &mut gr_states, &mut symbol_table, &mut gr_states_parameter, &mut symbol_parameter),
            Opcode::ST_D => st_d(insn, &mut data_flow_ir, &mut gr_states, &mut symbol_table, &mut gr_states_parameter, &mut symbol_parameter),
            Opcode::LD_D => ld_d(insn, &mut data_flow_ir, &mut gr_states, &mut symbol_table, &mut gr_states_parameter, &mut symbol_parameter),
            Opcode::STPTR_W => stptr_w(insn, &mut data_flow_ir, &mut gr_states, &mut symbol_table, &mut gr_states_parameter, &mut symbol_parameter),
            Opcode::B => b(insn, &mut data_flow_ir, &mut gr_states, &mut symbol_table, &mut gr_states_parameter, &mut symbol_parameter),
            Opcode::BEQ => beq(insn, &mut data_flow_ir, &mut gr_states, &mut symbol_table, &mut gr_states_parameter, &mut symbol_parameter),
            Opcode::OR => or(insn, &mut data_flow_ir, &mut gr_states, &mut symbol_table, &mut gr_states_parameter, &mut symbol_parameter),
            Opcode::PCADDU12I => pcaddu12i(insn, &mut data_flow_ir, &mut gr_states, &mut symbol_table, &mut gr_states_parameter, &mut symbol_parameter),
            Opcode::JIRL => jirl(insn, &mut data_flow_ir, &mut gr_states, &mut symbol_table, &mut gr_states_parameter, &mut symbol_parameter),
            Opcode::SLLI_W => slli_w(insn, &mut data_flow_ir, &mut gr_states, &mut symbol_table, &mut gr_states_parameter, &mut symbol_parameter),
            Opcode::ADD_D => add_d(insn, &mut data_flow_ir, &mut gr_states, &mut symbol_table, &mut gr_states_parameter, &mut symbol_parameter),
            Opcode::ADDI_W => addi_w(insn, &mut data_flow_ir, &mut gr_states, &mut symbol_table, &mut gr_states_parameter, &mut symbol_parameter),
            Opcode::ST_W => st_w(insn, &mut data_flow_ir, &mut gr_states, &mut symbol_table, &mut gr_states_parameter, &mut symbol_parameter),
            Opcode::STPTR_D => stptr_d(insn, &mut data_flow_ir, &mut gr_states, &mut symbol_table, &mut gr_states_parameter, &mut symbol_parameter),
            Opcode::LDPTR_D => ldptr_d(insn, &mut data_flow_ir, &mut gr_states, &mut symbol_table, &mut gr_states_parameter, &mut symbol_parameter),
            Opcode::LDPTR_W => ldptr_w(insn, &mut data_flow_ir, &mut gr_states, &mut symbol_table, &mut gr_states_parameter, &mut symbol_parameter),
            Opcode::ANDI => andi(insn, &mut data_flow_ir, &mut gr_states, &mut symbol_table, &mut gr_states_parameter, &mut symbol_parameter),
            Opcode::BEQZ => beqz(insn, &mut data_flow_ir, &mut gr_states, &mut symbol_table, &mut gr_states_parameter, &mut symbol_parameter),
            Opcode::BGEU => bgeu(insn, &mut data_flow_ir, &mut gr_states, &mut symbol_table, &mut gr_states_parameter, &mut symbol_parameter),
            Opcode::BLT => blt(insn, &mut data_flow_ir, &mut gr_states, &mut symbol_table, &mut gr_states_parameter, &mut symbol_parameter),
            Opcode::BL => bl(insn, &mut data_flow_ir, &mut gr_states, &mut symbol_table, &mut gr_states_parameter, &mut symbol_parameter),
            _ => {},
        }
        proof {
            k = k + 1;
        }
    }
    proof {
        assert(k == all.len());
        assert(all.take(all.len() as int) =~= all);
    }
    (data_flow_ir, gr_states, symbol_table.symbols)
}

} // verus!
