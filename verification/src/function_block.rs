use vstd::prelude::*;
use std::collections::HashMap;
use crate::insn::{AssemblyInstruction, SymbolRecord, SymbolType};
use crate::data_convert::map_keys;

verus! {

broadcast use {vstd::std_specs::hash::group_hash_axioms, vstd::std_specs::vec::group_vec_axioms};

/// A function of the program: its name, address and size in bytes, and its
/// instructions.
#[derive(Debug)]
pub struct FunctionBlock {
    pub name: String,
    pub address: u64,
    pub size: u64,
    pub instruction: Vec<AssemblyInstruction>,
}

/// A function of the program without its instructions.
#[derive(Debug)]
pub struct FunctionBlockIr {
    pub name: String,
    pub address: u64,
    pub size: u64,
}

/// The instructions of `insns` at or after the address `offset`, in order.
pub open spec fn at_or_after(insns: Seq<AssemblyInstruction>, offset: u64) -> Seq<AssemblyInstruction>
    decreases insns.len(),
{
    if insns.len() == 0 {
        Seq::empty()
    } else {
        let p = at_or_after(insns.drop_last(), offset);
        if insns.last().address >= offset {
            p.push(insns.last())
        } else {
            p
        }
    }
}

/// The first `num` elements of `s`, or all of them where `num` is 0 or
/// `s` is no longer.
pub open spec fn capped(s: Seq<AssemblyInstruction>, num: u64) -> Seq<AssemblyInstruction> {
    if num > 0 && s.len() > num {
        s.take(num as int)
    } else {
        s
    }
}

/// The instructions of a function at `offset` with `num` instructions: the
/// first `num` instructions at or after `offset`. Where `num` is 0, all of
/// them, but none where the first instruction of `insns` lies before
/// `offset`.
pub open spec fn function_insns(insns: Seq<AssemblyInstruction>, offset: u64, num: u64) -> Seq<AssemblyInstruction> {
    if num == 0 && insns.len() > 0 && insns[0].address < offset {
        Seq::empty()
    } else {
        capped(at_or_after(insns, offset), num)
    }
}

/// The symbol is a function of nonzero size.
pub open spec fn is_function(sym: SymbolRecord) -> bool {
    sym.sym_type == SymbolType::Func && sym.size != 0
}

/// The functions among the symbols `ks` of `syms`, in that order.
pub open spec fn functions_in(syms: Map<u64, SymbolRecord>, ks: Seq<u64>) -> Seq<SymbolRecord>
    decreases ks.len(),
{
    if ks.len() == 0 {
        Seq::empty()
    } else {
        let p = functions_in(syms, ks.drop_last());
        if is_function(syms[ks.last()]) {
            p.push(syms[ks.last()])
        } else {
            p
        }
    }
}

/// `b` is the function block of the symbol `sym` in the program `insns`:
/// its name, address and size, and the instructions of its `size / 4`
/// instructions (see `function_insns`).
pub open spec fn block_of(b: FunctionBlock, sym: SymbolRecord, insns: Seq<AssemblyInstruction>) -> bool {
    &&& b.name == sym.name
    &&& b.address == sym.offset
    &&& b.size == sym.size
    &&& b.instruction@ == function_insns(insns, sym.offset, sym.size / 4)
}

/// `bs` are the function blocks of the symbols `syms` in the program `insns`.
pub open spec fn blocks_of(bs: Seq<FunctionBlock>, syms: Seq<SymbolRecord>, insns: Seq<AssemblyInstruction>) -> bool {
    &&& bs.len() == syms.len()
    &&& forall|i: int| 0 <= i < bs.len() ==> block_of(#[trigger] bs[i], syms[i], insns)
}

/// The instructions of the function at `offset` with `num` instructions
/// (see `function_insns`).
fn function_instructions(insns: &Vec<AssemblyInstruction>, offset: u64, num: u64) -> (r: Vec<AssemblyInstruction>)
    ensures
        r@ == function_insns(insns@, offset, num),
{
    let mut out: Vec<AssemblyInstruction> = Vec::new();
    if num == 0 && insns.len() > 0 && insns[0].address < offset {
        return out;
    }
    let ghost s = insns@;
    let mut j: usize = 0;
    proof {
        assert(s.take(0) =~= Seq::<AssemblyInstruction>::empty());
    }
    while j < insns.len()
        invariant
            j <= s.len(),
            s == insns@,
            out@ == capped(at_or_after(s.take(j as int), offset), num),
        decreases s.len() - j,
    {
        let x = &insns[j];
        let ghost p = at_or_after(s.take(j as int), offset);
        proof {
            assert(s.take(j as int + 1).drop_last() =~= s.take(j as int));
            assert(s.take(j as int + 1).last() == *x);
        }
        if x.address >= offset && (num == 0 || (out.len() as u64) < num) {
            out.push(x.duplicate());
            proof {
                assert(out@ =~= capped(p.push(*x), num));
            }
        } else {
            proof {
                if x.address >= offset {
                    assert(capped(p.push(*x), num) =~= capped(p, num));
                }
            }
        }
        j = j + 1;
    }
    proof {
        assert(s.take(s.len() as int) =~= s);
    }
    out
}

impl FunctionBlock {
    /// The function blocks of the functions of nonzero size among the
    /// symbols of `symbols_map`, taken in the order `order`.
    pub fn from_in_order(
        assembly_instructions: Vec<AssemblyInstruction>,
        symbols_map: &HashMap<u64, SymbolRecord>,
        order: &Vec<u64>,
    ) -> (r: Vec<FunctionBlock>)
        requires
            order@.to_set() == symbols_map@.dom(),
        ensures
            blocks_of(r@, functions_in(symbols_map@, order@), assembly_instructions@),
    {
        let ghost ks = order@;
        let ghost syms = symbols_map@;
        let mut blocks: Vec<FunctionBlock> = Vec::new();
        let mut i: usize = 0;
        proof {
            assert(ks.take(0) =~= Seq::<u64>::empty());
        }
        while i < order.len()
            invariant
                i <= ks.len(),
                ks == order@,
                syms == symbols_map@,
                ks.to_set() == syms.dom(),
                blocks_of(blocks@, functions_in(syms, ks.take(i as int)), assembly_instructions@),
            decreases ks.len() - i,
        {
            let k = order[i];
            proof {
                assert(ks.to_set().contains(k));
                assert(ks.take(i as int + 1).drop_last() =~= ks.take(i as int));
                assert(ks.take(i as int + 1).last() == k);
            }
            let sym = symbols_map.get(&k).unwrap();
            if sym.sym_type == SymbolType::Func && sym.size != 0 {
                let num = sym.size / 4;
                let instruction = function_instructions(&assembly_instructions, sym.offset, num);
                let b = FunctionBlock { name: sym.name.clone(), address: sym.offset, size: sym.size, instruction };
                let ghost b0 = blocks@;
                blocks.push(b);
                proof {
                    let fs = functions_in(syms, ks.take(i as int + 1));
                    assert(fs == functions_in(syms, ks.take(i as int)).push(*sym));
                    assert forall|j: int| 0 <= j < blocks@.len() implies block_of(#[trigger] blocks@[j], fs[j], assembly_instructions@) by {
                        if j < b0.len() {
                            assert(blocks@[j] == b0[j]);
                        }
                    }
                }
            }
            i = i + 1;
        }
        proof {
            assert(ks.take(ks.len() as int) =~= ks);
        }
        blocks
    }

    /// The function blocks of the functions of nonzero size among the
    /// symbols of `symbols_map`, taken in the order in which the map is
    /// walked (see `from_in_order`).
    pub fn from(assembly_instructions: Vec<AssemblyInstruction>, symbols_map: &HashMap<u64, SymbolRecord>) -> (r: Vec<FunctionBlock>)
        ensures
            exists|ks: Seq<u64>| ks.to_set() == symbols_map@.dom() && ks.no_duplicates()
                && blocks_of(r@, #[trigger] functions_in(symbols_map@, ks), assembly_instructions@),
    {
        let order = map_keys(symbols_map);
        let ghost insns = assembly_instructions@;
        let r = FunctionBlock::from_in_order(assembly_instructions, symbols_map, &order);
        proof {
            assert(blocks_of(r@, functions_in(symbols_map@, order@), insns));
        }
        r
    }
}

} // verus!
