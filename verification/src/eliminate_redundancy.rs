use vstd::prelude::*;
use std::collections::HashMap;
use crate::insn::{AssemblyInstruction, Opcode, Operand, SymbolRecord, SymbolType};

verus! {

broadcast use {vstd::std_specs::hash::group_hash_axioms, vstd::std_specs::vec::group_vec_axioms};

/// An instruction once redundant ones are taken out.
#[derive(Debug)]
pub struct AssemblyInstructionEliminatedRedundancy {
    pub address: u64,
    pub label: Option<String>,
    pub opcode: Opcode,
    pub operand1: Option<Operand>,
    pub operand2: Option<Operand>,
    pub operand3: Option<Operand>,
    pub operand4: Option<Operand>,
}

impl AssemblyInstructionEliminatedRedundancy {
    /// An `AND` at address 0 without a label or operands.
    pub fn new() -> (r: Self)
        ensures
            r.address == 0,
            r.label is None,
            r.opcode == Opcode::AND,
            r.operand1 is None,
            r.operand2 is None,
            r.operand3 is None,
            r.operand4 is None,
    {
        AssemblyInstructionEliminatedRedundancy {
            address: 0,
            label: None,
            opcode: Opcode::AND,
            operand1: None,
            operand2: None,
            operand3: None,
            operand4: None,
        }
    }

    /// The instruction `assembly_instruction`, field for field.
    pub fn from(assembly_instruction: AssemblyInstruction) -> (r: Self)
        ensures
            r.address == assembly_instruction.address,
            r.label == assembly_instruction.label,
            r.opcode == assembly_instruction.opcode,
            r.operand1 == assembly_instruction.operand1,
            r.operand2 == assembly_instruction.operand2,
            r.operand3 == assembly_instruction.operand3,
            r.operand4 == assembly_instruction.operand4,
    {
        AssemblyInstructionEliminatedRedundancy {
            address: assembly_instruction.address,
            label: assembly_instruction.label,
            opcode: assembly_instruction.opcode,
            operand1: assembly_instruction.operand1,
            operand2: assembly_instruction.operand2,
            operand3: assembly_instruction.operand3,
            operand4: assembly_instruction.operand4,
        }
    }
}

/// The value of register `r` where it is known.
pub type RegState = Seq<Option<int>>;

/// No register value known.
pub open spec fn unknown_regs() -> RegState {
    Seq::new(32, |i: int| None)
}

/// The operand is a register number.
pub open spec fn is_reg(o: Option<Operand>) -> bool {
    o matches Some(x) && 0 <= x.value < 32
}

/// The register values after `x`, or `None` where the scan stops on it: a
/// `PCADDU12I` sets its register to its address plus its shifted immediate,
/// and a `LD_D` from a register of known value sets its register to that
/// value plus its offset (the target register is cleared first, so a load
/// into the base register adds the offset to 0). A register number out of
/// range, or a value that does not fit in an `isize`, stops the scan.
pub open spec fn reg_step(x: AssemblyInstruction, st: RegState) -> Option<RegState> {
    match x.opcode {
        Opcode::PCADDU12I => {
            if x.operand1 is Some && x.operand2 is Some {
                let v = (x.address as isize) + ((x.operand2->Some_0.value as isize) << 12isize);
                if is_reg(x.operand1) && isize::MIN <= v <= isize::MAX {
                    Some(st.update(x.operand1->Some_0.value as int, Some(v)))
                } else {
                    None
                }
            } else {
                Some(st)
            }
        },
        Opcode::LD_D => {
            if x.operand1 is Some && x.operand2 is Some && x.operand3 is Some {
                let a = x.operand1->Some_0.value as int;
                let b = x.operand2->Some_0.value as int;
                if !is_reg(x.operand2) {
                    None
                } else if st[b] is Some {
                    let base = if a == b { 0 } else { st[b]->Some_0 };
                    let v = base + (x.operand3->Some_0.value as isize);
                    if is_reg(x.operand1) && isize::MIN <= v <= isize::MAX {
                        Some(st.update(a, Some(v)))
                    } else {
                        None
                    }
                } else {
                    Some(st)
                }
            } else {
                Some(st)
            }
        },
        _ => Some(st),
    }
}

/// The scan of `insns` from the register values `st` runs to the end; the
/// values are forgotten at the address of each function in `funcs`.
pub open spec fn scan_ok(insns: Seq<AssemblyInstruction>, funcs: Set<u64>, st: RegState) -> bool
    decreases insns.len(),
{
    if insns.len() == 0 {
        true
    } else {
        let x = insns[0];
        let s = if funcs.contains(x.address) { unknown_regs() } else { st };
        match reg_step(x, s) {
            Some(s2) => scan_ok(insns.drop_first(), funcs, s2),
            None => false,
        }
    }
}

/// The addresses of the functions among `symbols`.
pub open spec fn function_addresses(symbols: Map<u64, SymbolRecord>) -> Set<u64> {
    Set::new(|a: u64| symbols.contains_key(a) && symbols[a].sym_type == SymbolType::Func)
}

/// The register values of `regs`.
pub open spec fn regs_view(regs: Seq<(bool, isize)>) -> RegState {
    Seq::new(regs.len(), |i: int| if regs[i].0 { Some(regs[i].1 as int) } else { None })
}

/// Forgets every register value.
fn reset_gr(regs: &mut Vec<(bool, isize)>)
    ensures
        final(regs)@.len() == 32,
        regs_view(final(regs)@) == unknown_regs(),
{
    regs.clear();
    let mut i: usize = 0;
    while i < 32
        invariant
            i <= 32,
            regs@.len() == i,
            forall|j: int| 0 <= j < i ==> !(#[trigger] regs@[j]).0,
        decreases 32 - i,
    {
        regs.push((false, 0));
        i = i + 1;
    }
    proof {
        assert(regs_view(regs@) =~= unknown_regs());
    }
}

/// Tracks the register values through `x` (see `reg_step`).
fn set_register(x: &AssemblyInstruction, regs: &mut Vec<(bool, isize)>)
    requires
        old(regs)@.len() == 32,
        reg_step(*x, regs_view(old(regs)@)) is Some,
    ensures
        final(regs)@.len() == 32,
        regs_view(final(regs)@) == reg_step(*x, regs_view(old(regs)@))->Some_0,
{
    let ghost st = regs_view(regs@);
    match x.opcode {
        Opcode::PCADDU12I => {
            if let (Some(o1), Some(o2)) = (&x.operand1, &x.operand2) {
                let value = x.address as isize + ((o2.value as isize) << 12isize);
                let r = o1.value as usize;
                regs.set(r, (true, value));
                proof {
                    assert(regs_view(regs@) =~= st.update(o1.value as int, Some(value as int)));
                }
            }
        },
        Opcode::LD_D => {
            if let (Some(o1), Some(o2), Some(o3)) = (&x.operand1, &x.operand2, &x.operand3) {
                let b = o2.value as usize;
                if regs[b].0 {
                    let a = o1.value as usize;
                    regs.set(a, (false, 0));
                    let value = regs[b].1 + o3.value as isize;
                    regs.set(a, (true, value));
                    proof {
                        assert(regs_view(regs@) =~= st.update(a as int, Some(value as int)));
                    }
                }
            }
        },
        _ => {},
    }
}

/// Scans `assembly_instructions` for the values that `PCADDU12I` and `LD_D`
/// put in the general registers, forgetting them at the start of each
/// function of `symbols`; no instruction is kept, so the result is empty.
pub fn eliminate_redundacy(assembly_instructions: Vec<AssemblyInstruction>, symbols: &HashMap<u64, SymbolRecord>)
    -> (r: Vec<AssemblyInstructionEliminatedRedundancy>)
    requires
        scan_ok(assembly_instructions@, function_addresses(symbols@), unknown_regs()),
    ensures
        r@.len() == 0,
{
    let result: Vec<AssemblyInstructionEliminatedRedundancy> = Vec::new();
    let mut gr_state: Vec<(bool, isize)> = Vec::new();
    reset_gr(&mut gr_state);
    let ghost funcs = function_addresses(symbols@);
    let mut i: usize = 0;
    proof {
        assert(assembly_instructions@.skip(0) =~= assembly_instructions@);
    }
    while i < assembly_instructions.len()
        invariant
            i <= assembly_instructions@.len(),
            funcs == function_addresses(symbols@),
            gr_state@.len() == 32,
            scan_ok(assembly_instructions@.skip(i as int), funcs, regs_view(gr_state@)),
        decreases assembly_instructions@.len() - i,
    {
        let x = &assembly_instructions[i];
        proof {
            assert(assembly_instructions@.skip(i as int)[0] == *x);
            assert(assembly_instructions@.skip(i as int).drop_first() =~= assembly_instructions@.skip(i as int + 1));
        }
        let ghost st0 = regs_view(gr_state@);
        match symbols.get(&x.address) {
            Some(record) => {
                if record.sym_type == SymbolType::Func {
                    reset_gr(&mut gr_state);
                }
            },
            None => {},
        }
        proof {
            assert(regs_view(gr_state@) == if funcs.contains(x.address) { unknown_regs() } else { st0 });
        }
        set_register(x, &mut gr_state);
        i = i + 1;
    }
    result
}

} // verus!
