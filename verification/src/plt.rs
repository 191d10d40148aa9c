use vstd::prelude::*;
use std::collections::HashMap;
use crate::insn::{AssemblyInstruction, DynSymbolRecord, NameValue};

verus! {

broadcast use {vstd::std_specs::hash::group_hash_axioms, vstd::std_specs::vec::group_vec_axioms};

/// The names of the dynamic symbols by address; a later symbol at the same
/// address replaces an earlier one.
pub open spec fn dyn_names(symbols: Seq<DynSymbolRecord>) -> Map<u64, String>
    decreases symbols.len(),
{
    if symbols.len() == 0 {
        Map::empty()
    } else {
        dyn_names(symbols.drop_last()).insert(symbols.last().offset, symbols.last().name)
    }
}

/// The index of the `k`th entry of the procedure linkage table: the table
/// starts at the ninth instruction and each entry takes four.
pub open spec fn plt_entry(k: int) -> int {
    8 + 4 * k
}

/// The number of entries of a table of `n` instructions.
pub open spec fn plt_count(n: nat) -> nat {
    if n <= 8 {
        0
    } else {
        ((n - 8 + 3) / 4) as nat
    }
}

/// The first sum of the target of the entry at `i`: the address of its
/// first instruction plus the upper immediate of that instruction.
pub open spec fn plt_upper(insns: Seq<AssemblyInstruction>, i: int) -> int {
    (insns[i].address as i64) + (insns[i].operand2->Some_0.value << 12i64)
}

/// The target of the entry at `i`: its first sum plus the immediate of the
/// third operand of its second instruction.
pub open spec fn plt_target(insns: Seq<AssemblyInstruction>, i: int) -> int {
    plt_upper(insns, i) + insns[i + 1].operand3->Some_0.value
}

/// Each entry of the table has a second instruction, the operands that the
/// target is computed from, and a target that fits in 64 bits.
pub open spec fn plt_ok(insns: Seq<AssemblyInstruction>) -> bool {
    &&& insns.len() + 4 <= usize::MAX
    &&& forall|k: int| 0 <= k && #[trigger] plt_entry(k) < insns.len() ==> {
        let i = plt_entry(k);
        &&& i + 1 < insns.len()
        &&& insns[i].operand2 is Some
        &&& insns[i + 1].operand3 is Some
        &&& i64::MIN <= plt_upper(insns, i) <= i64::MAX
        &&& i64::MIN <= plt_target(insns, i) <= i64::MAX
    }
}

/// `functions` after the first `k` entries of the table: an entry whose
/// target is the address of a dynamic symbol names the address of its
/// first instruction after that symbol.
pub open spec fn plt_names(
    functions: Map<u64, NameValue>,
    insns: Seq<AssemblyInstruction>,
    names: Map<u64, String>,
    k: nat,
) -> Map<u64, NameValue>
    decreases k,
{
    if k == 0 {
        functions
    } else {
        let m = plt_names(functions, insns, names, (k - 1) as nat);
        let i = plt_entry(k - 1);
        let target = (plt_target(insns, i) as i64) as u64;
        if names.contains_key(target) {
            m.insert(insns[i].address, NameValue::Name(names[target]))
        } else {
            m
        }
    }
}

/// The names of the dynamic symbols by address (see `dyn_names`).
fn dyn_name_map(symbols: &Vec<DynSymbolRecord>) -> (m: HashMap<u64, String>)
    ensures
        m@ == dyn_names(symbols@),
{
    let mut m: HashMap<u64, String> = HashMap::new();
    let mut i: usize = 0;
    proof {
        assert(symbols@.take(0) =~= Seq::<DynSymbolRecord>::empty());
    }
    while i < symbols.len()
        invariant
            i <= symbols@.len(),
            m@ == dyn_names(symbols@.take(i as int)),
        decreases symbols@.len() - i,
    {
        let s = &symbols[i];
        proof {
            assert(symbols@.take(i as int + 1).drop_last() =~= symbols@.take(i as int));
            assert(symbols@.take(i as int + 1).last() == *s);
        }
        m.insert(s.offset, s.name.clone());
        i = i + 1;
    }
    proof {
        assert(symbols@.take(symbols@.len() as int) =~= symbols@);
    }
    m
}

/// Names the entries of the procedure linkage table `insns` after the
/// dynamic symbols they jump to (see `plt_names`).
pub fn analyse_plt(insns: &Vec<AssemblyInstruction>, functions: &mut HashMap<u64, NameValue>, symbols: &Vec<DynSymbolRecord>)
    requires
        plt_ok(insns@),
    ensures
        final(functions)@ == plt_names(old(functions)@, insns@, dyn_names(symbols@), plt_count(insns@.len())),
{
    let symbol_map = dyn_name_map(symbols);
    let ghost names = symbol_map@;
    let ghost f0 = functions@;
    let mut i: usize = 8;
    let ghost mut k: nat = 0;
    while i < insns.len()
        invariant
            plt_ok(insns@),
            names == symbol_map@,
            i == plt_entry(k as int),
            k == 0 || plt_entry(k - 1) < insns@.len(),
            functions@ == plt_names(f0, insns@, names, k),
        decreases insns@.len() + 4 - i,
    {
        proof {
            assert(plt_entry(k as int) < insns@.len());
        }
        let address = insns[i].address;
        let n1 = insns[i].operand2.as_ref().unwrap().value;
        let n2 = insns[i + 1].operand3.as_ref().unwrap().value;
        let upper = address as i64 + (n1 << 12i64);
        let target = upper + n2;
        let addr = target as u64;
        proof {
            assert(plt_names(f0, insns@, names, k + 1) == {
                let m = plt_names(f0, insns@, names, k);
                if names.contains_key(addr) {
                    m.insert(address, NameValue::Name(names[addr]))
                } else {
                    m
                }
            });
        }
        match symbol_map.get(&addr) {
            Some(name) => {
                functions.insert(address, NameValue::Name(name.clone()));
            },
            None => {},
        }
        i = i + 4;
        proof {
            k = k + 1;
        }
    }
    proof {
        assert(k == plt_count(insns@.len()));
    }
}

} // verus!
