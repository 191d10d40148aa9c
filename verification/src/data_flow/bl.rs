use vstd::prelude::*;
use std::collections::HashMap;
use crate::insn::AssemblyInstruction;
use crate::counter::after;
use crate::data_flow::{
    DataFlowIr, DataFlowIrOpcode, DFIOperand, Number, DFISymbolRecord, DFISymbolRecordTable, DFISymbolType,
    Address, Size, GRRecord, RegisterRecord, SymbolSet, IrView, OperandView,
};
use crate::data_flow::state::{DFState, df_state, known, imm_of, fits_i64, imm, push_ir};
use crate::data_flow::b::{branch_target, branch_offset};

verus! {

broadcast use vstd::std_specs::hash::group_hash_axioms;

/// The register arguments of a call: the copies of a0..a7 (r4..r11) from
/// register `i` on, up to the first one not known.
pub open spec fn reg_args(gp: Seq<GRRecord>, i: int) -> Seq<RegisterRecord>
    decreases 12 - i,
{
    if 0 <= i < 12 && gp[i].state {
        seq![gp[i].value] + reg_args(gp, i + 1)
    } else {
        Seq::empty()
    }
}

/// The last symbol of `sp` at the stack offset `o`, if any.
pub open spec fn stack_sym(sp: Seq<DFISymbolRecord>, o: i64) -> Option<DFISymbolRecord>
    decreases sp.len(),
{
    if sp.len() == 0 {
        None
    } else if sp.last().address == Address::Stack(o) {
        Some(sp.last())
    } else {
        stack_sym(sp.drop_last(), o)
    }
}

/// No symbol of `sp` is at one of the eight stack offsets ending at `p`.
pub open spec fn window_free(sp: Seq<DFISymbolRecord>, p: int) -> bool {
    forall|o: int| p - 7 <= o <= p ==> #[trigger] stack_sym(sp, o as i64) is None
}

/// The scan of stack arguments that starts at `st0` may stop at `p`.
pub open spec fn is_stop(sp: Seq<DFISymbolRecord>, st0: int, p: int) -> bool {
    st0 + 7 <= p < i64::MAX && window_free(sp, p)
}

/// Where the scan of stack arguments that starts at `st0` stops: the first
/// offset that ends eight free ones.
pub open spec fn first_stop(sp: Seq<DFISymbolRecord>, st0: int) -> int {
    choose|p: int| is_stop(sp, st0, p) && forall|q: int| st0 + 7 <= q < p ==> !window_free(sp, q)
}

/// The stack arguments found between the offsets `lo` and `hi`: each symbol
/// at one of them, taken as a value.
pub open spec fn stack_args(sp: Seq<DFISymbolRecord>, lo: int, hi: int) -> Seq<RegisterRecord>
    decreases hi - lo + 1,
{
    if hi < lo {
        Seq::empty()
    } else {
        stack_args(sp, lo, hi - 1) + match stack_sym(sp, hi as i64) {
            Some(x) => seq![RegisterRecord::Symbol(DFISymbolRecord { value: true, ..x })],
            None => Seq::empty(),
        }
    }
}

/// The stack offset the stack pointer holds.
pub open spec fn sp_offset(s: DFState) -> int {
    s.gr[3].value->Symbol_0.address->Stack_0 as int
}

/// `bl offs` calls through a known stack pointer; the scan of stack
/// arguments stops below the largest offset, and the target fits in an `i64`.
pub open spec fn bl_operands(s: DFState, insn: AssemblyInstruction) -> bool {
    &&& insn.operand1 is Some
    &&& fits_i64(branch_target(insn.address, imm_of(insn.operand1) as i64))
    &&& s.gr.len() > 4
    &&& s.gp.len() >= 12
    &&& s.gr[3].value matches RegisterRecord::Symbol(x) && x.address is Stack
    &&& exists|p: int| is_stop(s.sp, sp_offset(s), p)
}

/// The arguments of the call: the register ones, then the stack ones.
pub open spec fn bl_args(s: DFState) -> Seq<RegisterRecord> {
    reg_args(s.gp, 4) + stack_args(s.sp, sp_offset(s), first_stop(s.sp, sp_offset(s)))
}

/// The symbol that holds the value a call returns.
pub open spec fn ret_symbol(id: int) -> DFISymbolRecord {
    DFISymbolRecord { address: Address::GR(4), sym_type: DFISymbolType::Return, id: id as usize, size: Size::Signed64, value: true }
}

/// The call `bl offs` emits.
pub open spec fn call_ir(s: DFState, insn: AssemblyInstruction) -> IrView {
    IrView {
        address: insn.address,
        opcode: DataFlowIrOpcode::Call,
        operand1: Some(OperandView::Number(Number {
            value: branch_target(insn.address, imm_of(insn.operand1) as i64) as i64,
            signed: false,
            size: Size::Unsigned64,
        })),
        operand2: Some(OperandView::Parameter(bl_args(s))),
        operand3: Some(OperandView::Symbol(ret_symbol(s.tmp))),
    }
}

/// Thirty-two registers of which nothing is known.
pub open spec fn fresh_regs() -> Seq<GRRecord> {
    Seq::new(32, |i: int| GRRecord { value: RegisterRecord::Number(Number { value: 0, signed: false, size: Size::Unsigned64 }), state: false })
}

/// What `bl offs` does to the analysis state: it emits the call with its
/// arguments, a0 holds the returned value, and the copies kept for the
/// parameter analysis start afresh.
pub open spec fn bl_step(s: DFState, insn: AssemblyInstruction) -> DFState {
    DFState {
        irs: s.irs.push(call_ir(s, insn)),
        gr: s.gr.update(4, known(RegisterRecord::Symbol(ret_symbol(s.tmp)))),
        tmp: after(s.tmp),
        sp: Seq::empty(),
        gp: fresh_regs(),
        ..s
    }
}

proof fn lemma_least_stop(sp: Seq<DFISymbolRecord>, st0: int, p: int)
    requires
        is_stop(sp, st0, p),
    ensures
        exists|m: int| is_stop(sp, st0, m) && forall|q: int| st0 + 7 <= q < m ==> !window_free(sp, q),
    decreases p - st0,
{
    if exists|q: int| st0 + 7 <= q < p && window_free(sp, q) {
        let q = choose|q: int| st0 + 7 <= q < p && window_free(sp, q);
        lemma_least_stop(sp, st0, q);
    }
}

/// The register arguments (see `reg_args`).
fn register_arguments(gp: &Vec<GRRecord>) -> (r: Vec<RegisterRecord>)
    requires
        gp@.len() >= 12,
    ensures
        r@ == reg_args(gp@, 4),
{
    let mut r: Vec<RegisterRecord> = Vec::new();
    let mut i: usize = 4;
    while i < 12
        invariant
            4 <= i <= 12,
            gp@.len() >= 12,
            r@ + reg_args(gp@, i as int) == reg_args(gp@, 4),
        decreases 12 - i,
    {
        if gp[i].state {
            proof {
                assert(r@.push(gp@[i as int].value) + reg_args(gp@, i + 1) =~= r@ + reg_args(gp@, i as int));
            }
            r.push(gp[i].value);
            i = i + 1;
        } else {
            proof {
                assert(r@ + reg_args(gp@, i as int) =~= r@);
            }
            return r;
        }
    }
    proof {
        assert(r@ + reg_args(gp@, 12) =~= r@);
    }
    r
}

/// The symbols of `sp` by stack offset, a later one replacing an earlier one.
fn stack_symbols(sp: &SymbolSet) -> (m: HashMap<i64, DFISymbolRecord>)
    ensures
        forall|o: i64| #![trigger m@.contains_key(o)] #![trigger stack_sym(sp@, o)]
            (m@.contains_key(o) <==> stack_sym(sp@, o) is Some)
            && (m@.contains_key(o) ==> stack_sym(sp@, o) == Some(m@[o])),
{
    let mut m: HashMap<i64, DFISymbolRecord> = HashMap::new();
    let mut i: usize = 0;
    proof {
        assert(sp@.take(0) =~= Seq::<DFISymbolRecord>::empty());
    }
    while i < sp.len()
        invariant
            i <= sp@.len(),
            forall|o: i64| #![trigger m@.contains_key(o)] #![trigger stack_sym(sp@.take(i as int), o)]
                (m@.contains_key(o) <==> stack_sym(sp@.take(i as int), o) is Some)
                && (m@.contains_key(o) ==> stack_sym(sp@.take(i as int), o) == Some(m@[o])),
        decreases sp@.len() - i,
    {
        let sym = sp.at(i);
        proof {
            assert(sp@.take(i + 1).drop_last() =~= sp@.take(i as int));
            assert(sp@.take(i + 1).last() == sym);
        }
        if let Address::Stack(o) = sym.address {
            m.insert(o, sym);
        }
        i = i + 1;
    }
    proof {
        assert(sp@.take(i as int) =~= sp@);
    }
    m
}

/// `bl offs`: a call.
pub fn bl(
    insn: AssemblyInstruction,
    irs: &mut Vec<DataFlowIr>,
    gr_states: &mut Vec<GRRecord>,
    symbol_table: &mut DFISymbolRecordTable,
    gr_states_parameter: &mut Vec<GRRecord>,
    symbol_parameter: &mut SymbolSet,
)
    requires
        bl_operands(df_state(*old(irs), *old(gr_states), *old(symbol_table), *old(gr_states_parameter), *old(symbol_parameter)), insn),
    ensures
        df_state(*final(irs), *final(gr_states), *final(symbol_table), *final(gr_states_parameter), *final(symbol_parameter))
            == bl_step(df_state(*old(irs), *old(gr_states), *old(symbol_table), *old(gr_states_parameter), *old(symbol_parameter)), insn),
{
    let ghost s = df_state(*irs, *gr_states, *symbol_table, *gr_states_parameter, *symbol_parameter);
    let ghost sp = symbol_parameter@;
    let st0: i64 = match gr_states[3].value {
        RegisterRecord::Symbol(x) => match x.address {
            Address::Stack(st) => st,
            _ => 0,
        },
        _ => 0,
    };
    proof {
        let w = choose|p: int| is_stop(sp, st0 as int, p);
        lemma_least_stop(sp, st0 as int, w);
    }
    let ghost pstar = first_stop(sp, st0 as int);
    let mut parameters = register_arguments(gr_states_parameter);
    let ghost ra = parameters@;
    let stacks = stack_symbols(symbol_parameter);
    let mut stack: i64 = st0;
    let mut gap: i64 = 0;
    proof {
        assert(ra + stack_args(sp, st0 as int, st0 - 1) =~= ra);
    }
    loop
        invariant_except_break
            st0 <= stack <= pstar,
            0 <= gap <= 7,
        invariant
            is_stop(sp, st0 as int, pstar),
            forall|q: int| st0 + 7 <= q < pstar ==> !window_free(sp, q),
            gap <= stack - st0,
            forall|o: int| stack - gap <= o < stack ==> #[trigger] stack_sym(sp, o as i64) is None,
            stack - gap - 1 >= st0 ==> stack_sym(sp, (stack - gap - 1) as i64) is Some,
            parameters@ == ra + stack_args(sp, st0 as int, stack - 1),
            forall|o: i64| #![trigger stacks@.contains_key(o)] #![trigger stack_sym(sp, o)]
                (stacks@.contains_key(o) <==> stack_sym(sp, o) is Some)
                && (stacks@.contains_key(o) ==> stack_sym(sp, o) == Some(stacks@[o])),
        ensures
            stack - 1 == pstar,
            parameters@ == ra + stack_args(sp, st0 as int, pstar),
        decreases pstar - stack,
    {
        let ghost prev = parameters@;
        match stacks.get(&stack) {
            Some(sym) => {
                let mut sym = *sym;
                sym.value = true;
                parameters.push(RegisterRecord::Symbol(sym));
                gap = 0;
            },
            None => {
                proof {
                    if gap < 7 && stack - gap - 1 >= pstar - 7 {
                        assert(stack_sym(sp, (stack - gap - 1) as i64) is Some);
                    }
                    if stack == pstar && gap < 7 {
                        assert(stack_sym(sp, (stack - gap - 1) as i64) is None);
                    }
                }
                gap = gap + 1;
            },
        }
        proof {
            assert(parameters@ =~= ra + stack_args(sp, st0 as int, stack as int));
            if gap == 8 {
                assert forall|o: int| stack - 7 <= o <= stack implies #[trigger] stack_sym(sp, o as i64) is None by {
                    if o < stack {
                        assert(stack - 7 <= o);
                    }
                }
                assert(window_free(sp, stack as int));
            }
        }
        stack = stack + 1;
        if gap == 8 {
            break;
        }
    }
    let target = branch_offset(insn.address, imm(&insn.operand1));
    let id = symbol_table.tmp_counter.get();
    let sym = DFISymbolRecord {
        address: Address::GR(4),
        sym_type: DFISymbolType::Return,
        id,
        size: Size::Signed64,
        value: true,
    };
    gr_states.set(4, GRRecord { value: RegisterRecord::Symbol(sym), state: true });
    push_ir(irs, DataFlowIr {
        address: insn.address,
        opcode: DataFlowIrOpcode::Call,
        operand1: Some(DFIOperand::Number(Number::from(target, false, Size::Unsigned64))),
        operand2: Some(DFIOperand::Parameter(parameters)),
        operand3: Some(DFIOperand::Symbol(sym)),
    });
    symbol_parameter.clear();
    gr_states_parameter.clear();
    let mut i: usize = 0;
    while i < 32
        invariant
            i <= 32,
            gr_states_parameter@.len() == i,
            forall|j: int| 0 <= j < i ==> gr_states_parameter@[j] == fresh_regs()[j],
        decreases 32 - i,
    {
        gr_states_parameter.push(GRRecord::new());
        i = i + 1;
    }
    proof {
        assert(gr_states_parameter@ =~= fresh_regs());
    }
}

} // verus!
