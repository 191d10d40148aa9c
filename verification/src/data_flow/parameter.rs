use vstd::prelude::*;
use std::collections::HashMap;
use crate::insn::NameValue;
use crate::data_flow::{
    DataFlowIr, DataFlowIrOpcode, DFIOperand, DFISymbolRecord, DFISymbolType, Address, GRRecord, RegisterRecord,
    SymbolSet, IrView, OperandView, irs_view,
};
use crate::data_flow::extern_function::{analyse_extern_function, extern_arity, extern_call_ok, fixed_arity};
use crate::data_convert::map_keys;

verus! {

broadcast use {vstd::std_specs::hash::group_hash_axioms, vstd::std_specs::vec::group_vec_axioms};

/// The number of parameter symbols of `s`.
pub open spec fn param_count(s: Seq<DFISymbolRecord>) -> nat
    decreases s.len(),
{
    if s.len() == 0 {
        0
    } else {
        param_count(s.drop_last()) + if s.last().sym_type == DFISymbolType::Param { 1nat } else { 0nat }
    }
}

/// The position of the first entry of `t` at `a` (-1 when there is none).
pub open spec fn addr_index(t: Seq<DFISymbolRecord>, a: Address) -> int
    decreases t.len(),
{
    if t.len() == 0 {
        -1
    } else {
        let i = addr_index(t.drop_last(), a);
        if i >= 0 {
            i
        } else if t.last().address == a {
            t.len() - 1
        } else {
            -1
        }
    }
}

/// `t` with `x` in place of its entry at `x`'s address, or appended.
pub open spec fn table_set(t: Seq<DFISymbolRecord>, x: DFISymbolRecord) -> Seq<DFISymbolRecord> {
    let i = addr_index(t, x.address);
    if i >= 0 {
        t.update(i, x)
    } else {
        t.push(x)
    }
}

/// The parameter symbols of `s` by address, a later one replacing an earlier one.
pub open spec fn param_table(s: Seq<DFISymbolRecord>) -> Seq<DFISymbolRecord>
    decreases s.len(),
{
    if s.len() == 0 {
        Seq::empty()
    } else {
        let t = param_table(s.drop_last());
        if s.last().sym_type == DFISymbolType::Param {
            table_set(t, s.last())
        } else {
            t
        }
    }
}

/// The entry of `t` at `a`, if any.
pub open spec fn table_get(t: Seq<DFISymbolRecord>, a: Address) -> Option<DFISymbolRecord> {
    let i = addr_index(t, a);
    if i >= 0 {
        Some(t[i])
    } else {
        None
    }
}

/// The parameters passed in registers: those of a0 (r4) on, up to the
/// first register (before r12) no parameter symbol is at.
pub open spec fn reg_params(t: Seq<DFISymbolRecord>, i: int) -> Seq<DFISymbolRecord>
    decreases 12 - i,
{
    if 4 <= i < 12 && table_get(t, Address::GR(i as usize)) is Some {
        seq![table_get(t, Address::GR(i as usize)).unwrap()] + reg_params(t, i + 1)
    } else {
        Seq::empty()
    }
}

/// The largest stack offset of an entry of `t`, or 0 when it is larger.
pub open spec fn top_offset(t: Seq<DFISymbolRecord>) -> int
    decreases t.len(),
{
    if t.len() == 0 {
        0
    } else {
        let m = top_offset(t.drop_last());
        match t.last().address {
            Address::Stack(o) => if o > m { o as int } else { m },
            _ => m,
        }
    }
}

/// The parameters passed on the stack: those at `top`, `top - 8`, ... as
/// long as there is one there, at most `n` of them.
pub open spec fn stack_params(t: Seq<DFISymbolRecord>, top: int, n: nat) -> Seq<DFISymbolRecord>
    decreases n,
{
    if n == 0 {
        Seq::empty()
    } else {
        match table_get(t, Address::Stack(top as i64)) {
            Some(x) => seq![x] + stack_params(t, top - 8, (n - 1) as nat),
            None => Seq::empty(),
        }
    }
}

/// The parameters of a function with symbols `s`: those passed in
/// registers, then, when it has others, those passed on the stack, from the
/// highest offset down.
pub open spec fn function_params(s: Seq<DFISymbolRecord>) -> Seq<DFISymbolRecord> {
    let t = param_table(s);
    let r = reg_params(t, 4);
    let rest = t.len() - r.len();
    if rest > 0 {
        r + stack_params(t, top_offset(t), rest as nat)
    } else {
        r
    }
}

/// Collecting the parameters passed on the stack never takes the offset
/// below the smallest `i64`.
pub open spec fn function_params_ok(s: Seq<DFISymbolRecord>) -> bool {
    let t = param_table(s);
    let rest = t.len() - reg_params(t, 4).len();
    rest > 0 ==> top_offset(t) - 8 * stack_params(t, top_offset(t), rest as nat).len() >= i64::MIN
}

/// Symbols as register contents.
pub open spec fn as_registers(s: Seq<DFISymbolRecord>) -> Seq<RegisterRecord> {
    s.map_values(|x: DFISymbolRecord| RegisterRecord::Symbol(x))
}

/// How many of its arguments a call of `target` keeps: as many as the
/// parameters of an analysed function (`counts`), or as a library function
/// named in `functions` is found to take.
pub open spec fn call_arity(
    counts: Map<u64, usize>,
    functions: Map<u64, NameValue>,
    data: &HashMap<u64, Vec<u8>>,
    target: u64,
    args: Seq<RegisterRecord>,
) -> Option<usize> {
    if counts.contains_key(target) {
        Some(counts[target])
    } else if functions.contains_key(target) && functions[target] is Name {
        Some(extern_arity(functions[target]->Name_0@, args, data).0)
    } else {
        None
    }
}

/// The IR instruction `ir` with call arguments trimmed to what the callee
/// takes, and a function's entry marked with its parameters.
pub open spec fn rewrite_ir(
    ir: IrView,
    s: Seq<DFISymbolRecord>,
    counts: Map<u64, usize>,
    functions: Map<u64, NameValue>,
    data: &HashMap<u64, Vec<u8>>,
) -> IrView {
    if ir.opcode == DataFlowIrOpcode::Call {
        match (ir.operand1, ir.operand2) {
            (Some(OperandView::Number(n)), Some(OperandView::Parameter(v))) => match call_arity(counts, functions, data, n.value as u64, v) {
                Some(k) => IrView { operand2: Some(OperandView::Parameter(v.take(k as int))), ..ir },
                None => ir,
            },
            _ => ir,
        }
    } else if ir.opcode == DataFlowIrOpcode::Function {
        IrView { operand1: Some(OperandView::Parameter(as_registers(function_params(s)))), ..ir }
    } else {
        ir
    }
}

/// The rewriting of `ir` can be done: a callee takes no more arguments than
/// the call passes, and a library function's format string can be read.
pub open spec fn rewrite_ok(
    ir: IrView,
    s: Seq<DFISymbolRecord>,
    counts: Map<u64, usize>,
    functions: Map<u64, NameValue>,
    data: &HashMap<u64, Vec<u8>>,
) -> bool {
    if ir.opcode == DataFlowIrOpcode::Call {
        match (ir.operand1, ir.operand2) {
            (Some(OperandView::Number(n)), Some(OperandView::Parameter(v))) => {
                let target = n.value as u64;
                &&& (!counts.contains_key(target) && functions.contains_key(target) && functions[target] is Name
                    ==> extern_call_ok(functions[target]->Name_0@, v, data))
                &&& (call_arity(counts, functions, data, target, v) matches Some(k) ==> k <= v.len())
            },
            _ => true,
        }
    } else if ir.opcode == DataFlowIrOpcode::Function {
        function_params_ok(s)
    } else {
        true
    }
}

/// The number of parameters of each analysed function.
pub open spec fn param_counts(m: Map<u64, (Vec<DataFlowIr>, Vec<GRRecord>, SymbolSet)>) -> Map<u64, usize> {
    m.map_values(|f: (Vec<DataFlowIr>, Vec<GRRecord>, SymbolSet)| param_count(f.2@) as usize)
}

proof fn lemma_param_count_bound(s: Seq<DFISymbolRecord>)
    ensures
        param_count(s) <= s.len(),
    decreases s.len(),
{
    if s.len() > 0 {
        lemma_param_count_bound(s.drop_last());
    }
}

/// Counts the parameter symbols of `syms`.
fn count_params(syms: &SymbolSet) -> (n: usize)
    ensures
        n == param_count(syms@),
{
    let mut n: usize = 0;
    let mut i: usize = 0;
    proof {
        assert(syms@.take(0) =~= Seq::<DFISymbolRecord>::empty());
    }
    while i < syms.len()
        invariant
            i <= syms@.len(),
            n == param_count(syms@.take(i as int)),
        decreases syms@.len() - i,
    {
        let x = syms.at(i);
        proof {
            assert(syms@.take(i + 1).drop_last() =~= syms@.take(i as int));
            lemma_param_count_bound(syms@.take(i as int));
        }
        if x.sym_type == DFISymbolType::Param {
            n = n + 1;
        }
        i = i + 1;
    }
    proof {
        assert(syms@.take(i as int) =~= syms@);
    }
    n
}

proof fn lemma_addr_index(t: Seq<DFISymbolRecord>, a: Address)
    ensures
        -1 <= addr_index(t, a) < t.len(),
        addr_index(t, a) >= 0 ==> t[addr_index(t, a)].address == a,
        addr_index(t, a) >= 0 ==> forall|j: int| 0 <= j < addr_index(t, a) ==> t[j].address != a,
        addr_index(t, a) < 0 ==> forall|j: int| 0 <= j < t.len() ==> t[j].address != a,
    decreases t.len(),
{
    if t.len() > 0 {
        lemma_addr_index(t.drop_last(), a);
        assert forall|j: int| 0 <= j < t.len() - 1 implies t.drop_last()[j] == t[j] by {}
    }
}

/// The position of the first entry of `t` at `a` (see `addr_index`).
fn find_addr(t: &Vec<DFISymbolRecord>, a: Address) -> (r: Option<usize>)
    ensures
        match r {
            Some(i) => i == addr_index(t@, a),
            None => addr_index(t@, a) < 0,
        },
{
    proof {
        lemma_addr_index(t@, a);
    }
    let mut i: usize = 0;
    while i < t.len()
        invariant
            i <= t@.len(),
            forall|j: int| 0 <= j < i ==> t@[j].address != a,
            -1 <= addr_index(t@, a) < t@.len(),
            addr_index(t@, a) >= 0 ==> t@[addr_index(t@, a)].address == a,
            addr_index(t@, a) >= 0 ==> forall|j: int| 0 <= j < addr_index(t@, a) ==> t@[j].address != a,
            addr_index(t@, a) < 0 ==> forall|j: int| 0 <= j < t@.len() ==> t@[j].address != a,
        decreases t@.len() - i,
    {
        if t[i].address == a {
            return Some(i);
        }
        i = i + 1;
    }
    None
}

/// The parameter symbols of `syms` by address (see `param_table`).
fn build_param_table(syms: &SymbolSet) -> (t: Vec<DFISymbolRecord>)
    ensures
        t@ == param_table(syms@),
{
    let mut t: Vec<DFISymbolRecord> = Vec::new();
    let mut i: usize = 0;
    proof {
        assert(syms@.take(0) =~= Seq::<DFISymbolRecord>::empty());
    }
    while i < syms.len()
        invariant
            i <= syms@.len(),
            t@ == param_table(syms@.take(i as int)),
        decreases syms@.len() - i,
    {
        let x = syms.at(i);
        proof {
            assert(syms@.take(i + 1).drop_last() =~= syms@.take(i as int));
        }
        if x.sym_type == DFISymbolType::Param {
            proof {
                lemma_addr_index(t@, x.address);
            }
            match find_addr(&t, x.address) {
                Some(j) => {
                    t.set(j, x);
                },
                None => {
                    t.push(x);
                },
            }
        }
        i = i + 1;
    }
    proof {
        assert(syms@.take(i as int) =~= syms@);
    }
    t
}

/// The entry of `t` at `a` (see `table_get`).
fn get_param(t: &Vec<DFISymbolRecord>, a: Address) -> (r: Option<DFISymbolRecord>)
    ensures
        r == table_get(t@, a),
{
    proof {
        lemma_addr_index(t@, a);
    }
    match find_addr(t, a) {
        Some(i) => Some(t[i]),
        None => None,
    }
}

proof fn lemma_reg_params_len(t: Seq<DFISymbolRecord>, i: int)
    ensures
        reg_params(t, i).len() <= (if i < 12 { 12 - i } else { 0 }),
    decreases 12 - i,
{
    if 4 <= i < 12 && table_get(t, Address::GR(i as usize)) is Some {
        lemma_reg_params_len(t, i + 1);
    }
}

proof fn lemma_table_distinct(s: Seq<DFISymbolRecord>)
    ensures
        forall|i: int, j: int| 0 <= i < j < param_table(s).len() ==> param_table(s)[i].address != param_table(s)[j].address,
    decreases s.len(),
{
    if s.len() > 0 {
        lemma_table_distinct(s.drop_last());
        let t = param_table(s.drop_last());
        lemma_addr_index(t, s.last().address);
    }
}

proof fn lemma_reg_params_indices(t: Seq<DFISymbolRecord>, i: int)
    requires
        4 <= i,
        forall|a: int, b: int| 0 <= a < b < t.len() ==> t[a].address != t[b].address,
    ensures
        reg_params(t, i).len() <= t.len(),
    decreases 12 - i,
{
    let r = reg_params(t, i);
    let idx = Seq::new(r.len(), |k: int| addr_index(t, Address::GR((i + k) as usize)));
    lemma_reg_params_shape(t, i);
    assert forall|k: int| 0 <= k < r.len() implies 0 <= #[trigger] idx[k] < t.len() by {
        assert(table_get(t, Address::GR((i + k) as usize)) is Some);
        lemma_addr_index(t, Address::GR((i + k) as usize));
    }
    assert forall|a: int, b: int| 0 <= a < b < r.len() implies idx[a] != idx[b] by {
        assert(table_get(t, Address::GR((i + a) as usize)) is Some);
        assert(table_get(t, Address::GR((i + b) as usize)) is Some);
        lemma_addr_index(t, Address::GR((i + a) as usize));
        lemma_addr_index(t, Address::GR((i + b) as usize));
        assert((i + a) as usize != (i + b) as usize);
    }
    lemma_distinct_indices_bound(idx, t.len() as int);
}

proof fn lemma_reg_params_shape(t: Seq<DFISymbolRecord>, i: int)
    ensures
        forall|k: int| 0 <= k < reg_params(t, i).len() ==> 4 <= i + k < 12
            && #[trigger] table_get(t, Address::GR((i + k) as usize)) is Some,
    decreases 12 - i,
{
    if 4 <= i < 12 && table_get(t, Address::GR(i as usize)) is Some {
        lemma_reg_params_shape(t, i + 1);
        assert forall|k: int| 0 <= k < reg_params(t, i).len() implies 4 <= i + k < 12
            && #[trigger] table_get(t, Address::GR((i + k) as usize)) is Some by {
            if k > 0 {
                assert(reg_params(t, i)[k] == reg_params(t, i + 1)[k - 1]);
                assert(table_get(t, Address::GR((i + 1 + (k - 1)) as usize)) is Some);
            }
        }
    }
}

proof fn lemma_distinct_indices_bound(idx: Seq<int>, n: int)
    requires
        n >= 0,
        forall|k: int| 0 <= k < idx.len() ==> 0 <= #[trigger] idx[k] < n,
        forall|a: int, b: int| 0 <= a < b < idx.len() ==> idx[a] != idx[b],
    ensures
        idx.len() <= n,
    decreases n,
{
    if idx.len() > 0 && n > 0 {
        let last = n - 1;
        if exists|k: int| 0 <= k < idx.len() && idx[k] == last {
            let k = choose|k: int| 0 <= k < idx.len() && idx[k] == last;
            let rest = idx.remove(k);
            assert forall|j: int| 0 <= j < rest.len() implies 0 <= #[trigger] rest[j] < n - 1 by {
                if j < k {
                    assert(rest[j] == idx[j]);
                } else {
                    assert(rest[j] == idx[j + 1]);
                }
            }
            assert forall|a: int, b: int| 0 <= a < b < rest.len() implies rest[a] != rest[b] by {
                let a2 = if a < k { a } else { a + 1 };
                let b2 = if b < k { b } else { b + 1 };
                assert(rest[a] == idx[a2]);
                assert(rest[b] == idx[b2]);
            }
            lemma_distinct_indices_bound(rest, n - 1);
        } else {
            assert forall|j: int| 0 <= j < idx.len() implies 0 <= #[trigger] idx[j] < n - 1 by {}
            lemma_distinct_indices_bound(idx, n - 1);
        }
    } else if idx.len() > 0 {
        assert(0 <= idx[0] < n);
    }
}

/// The parameters of a function with symbols `syms` (see `function_params`).
fn function_parameters(syms: &SymbolSet) -> (p: Vec<RegisterRecord>)
    requires
        function_params_ok(syms@),
    ensures
        p@ == as_registers(function_params(syms@)),
{
    let t = build_param_table(syms);
    let ghost tv = t@;
    let mut p: Vec<RegisterRecord> = Vec::new();
    let mut r: usize = 0;
    let mut i: usize = 4;
    proof {
        lemma_table_distinct(syms@);
        lemma_reg_params_indices(tv, 4);
    }
    proof {
        assert(reg_params(tv, 4).take(0) + reg_params(tv, 4) =~= reg_params(tv, 4));
        assert(as_registers(reg_params(tv, 4).take(0)) =~= p@);
    }
    while i < 12
        invariant
            4 <= i <= 12,
            t@ == tv,
            r == i - 4,
            r <= reg_params(tv, 4).len(),
            p@ == as_registers(reg_params(tv, 4).take(r as int)),
            reg_params(tv, 4).take(r as int) + reg_params(tv, i as int) == reg_params(tv, 4),
        ensures
            r == reg_params(tv, 4).len(),
            p@ == as_registers(reg_params(tv, 4)),
        decreases 12 - i,
    {
        match get_param(&t, Address::GR(i)) {
            Some(sym) => {
                proof {
                    assert(reg_params(tv, i as int) == seq![sym] + reg_params(tv, i + 1));
                    assert(reg_params(tv, 4)[r as int] == sym);
                    assert(reg_params(tv, 4).take(r + 1) =~= reg_params(tv, 4).take(r as int).push(sym));
                    assert(reg_params(tv, 4).take(r + 1) + reg_params(tv, i + 1) =~= reg_params(tv, 4));
                    assert(as_registers(reg_params(tv, 4).take(r + 1)) =~= p@.push(RegisterRecord::Symbol(sym)));
                }
                p.push(RegisterRecord::Symbol(sym));
                r = r + 1;
                i = i + 1;
            },
            None => {
                proof {
                    assert(reg_params(tv, i as int) =~= Seq::<DFISymbolRecord>::empty());
                    assert(reg_params(tv, 4).take(r as int) =~= reg_params(tv, 4));
                }
                break;
            },
        }
    }
    proof {
        lemma_reg_params_len(tv, 4);
    }
    let ghost rp = reg_params(tv, 4);
    assert(p@ == as_registers(rp));
    if t.len() > r {
        let sn = t.len() - r;
        let mut max: i64 = 0;
        let mut j: usize = 0;
        proof {
            assert(tv.take(0) =~= Seq::<DFISymbolRecord>::empty());
        }
        while j < t.len()
            invariant
                j <= tv.len(),
                t@ == tv,
                max == top_offset(tv.take(j as int)),
            decreases tv.len() - j,
        {
            proof {
                assert(tv.take(j + 1).drop_last() =~= tv.take(j as int));
            }
            if let Address::Stack(o) = t[j].address {
                if o > max {
                    max = o;
                }
            }
            j = j + 1;
        }
        proof {
            assert(tv.take(j as int) =~= tv);
        }
        let ghost top = max as int;
        let ghost chain = stack_params(tv, top, sn as nat);
        let mut k: usize = 0;
        let mut hits: usize = 0;
        let mut done = false;
        proof {
            assert(chain =~= chain.take(0) + stack_params(tv, top, sn as nat));
            assert(rp + chain.take(0) =~= rp);
        }
        while k < sn
            invariant
                k <= sn,
                t@ == tv,
                hits <= k,
                chain == stack_params(tv, top, sn as nat),
                top - 8 * chain.len() >= i64::MIN,
                hits <= chain.len(),
                done ==> hits == chain.len(),
                !done ==> hits == k && max == top - 8 * hits
                    && chain == chain.take(hits as int) + stack_params(tv, top - 8 * hits, (sn - hits) as nat),
                p@ == as_registers(rp + chain.take(hits as int)),
            decreases sn - k,
        {
            if !done {
                match get_param(&t, Address::Stack(max)) {
                    Some(sym) => {
                        proof {
                            lemma_stack_params_step(tv, top, hits as nat, (sn - hits) as nat);
                            let rest = stack_params(tv, top - 8 * (hits + 1), (sn - hits - 1) as nat);
                            assert(chain == chain.take(hits as int) + (seq![sym] + rest));
                            assert(chain[hits as int] == sym);
                            assert(chain.take(hits + 1) =~= chain.take(hits as int).push(sym));
                            assert(chain =~= chain.take(hits + 1) + rest);
                            assert(as_registers(rp + chain.take(hits + 1)) =~= as_registers(rp + chain.take(hits as int)).push(RegisterRecord::Symbol(sym)));
                        }
                        p.push(RegisterRecord::Symbol(sym));
                        hits = hits + 1;
                        max = max - 8;
                    },
                    None => {
                        proof {
                            lemma_stack_params_stop(tv, top, hits as nat, (sn - hits) as nat);
                            assert(chain =~= chain.take(hits as int));
                        }
                        done = true;
                    },
                }
            }
            k = k + 1;
        }
        proof {
            if !done {
                assert(stack_params(tv, top - 8 * hits, 0) =~= Seq::<DFISymbolRecord>::empty());
                assert(chain =~= chain.take(hits as int));
            }
            assert(chain.take(hits as int) =~= chain);
        }
    }
    p
}

proof fn lemma_stack_params_len(t: Seq<DFISymbolRecord>, top: int, n: nat)
    ensures
        stack_params(t, top, n).len() <= n,
    decreases n,
{
    if n > 0 {
        lemma_stack_params_len(t, top - 8, (n - 1) as nat);
    }
}

proof fn lemma_stack_params_step(t: Seq<DFISymbolRecord>, top: int, hits: nat, rest: nat)
    requires
        rest > 0,
        table_get(t, Address::Stack((top - 8 * hits) as i64)) is Some,
    ensures
        stack_params(t, top - 8 * hits, rest) == seq![table_get(t, Address::Stack((top - 8 * hits) as i64)).unwrap()]
            + stack_params(t, top - 8 * (hits + 1), (rest - 1) as nat),
{
    assert(top - 8 * hits - 8 == top - 8 * (hits + 1));
}

proof fn lemma_stack_params_stop(t: Seq<DFISymbolRecord>, top: int, hits: nat, rest: nat)
    requires
        rest > 0,
        table_get(t, Address::Stack((top - 8 * hits) as i64)) is None,
    ensures
        stack_params(t, top - 8 * hits, rest) == Seq::<DFISymbolRecord>::empty(),
{
}


/// The argument counts learnt while rewriting: those of the analysed
/// functions, and those of library functions whose count is fixed.
pub open spec fn counts_ok(c: Map<u64, usize>, c0: Map<u64, usize>, functions: Map<u64, NameValue>) -> bool {
    &&& forall|x: u64| #[trigger] c0.contains_key(x) ==> c.contains_key(x) && c[x] == c0[x]
    &&& forall|x: u64| #[trigger] c.contains_key(x) && !c0.contains_key(x) ==> {
        &&& functions.contains_key(x)
        &&& functions[x] is Name
        &&& fixed_arity(functions[x]->Name_0@) == Some((c[x], true))
    }
}

proof fn lemma_push_contains(s: Seq<u64>, a: u64)
    ensures
        forall|x: u64| #[trigger] s.push(a).contains(x) <==> s.contains(x) || x == a,
{
    assert forall|x: u64| #[trigger] s.push(a).contains(x) <==> s.contains(x) || x == a by {
        if s.push(a).contains(x) {
            let t = choose|t: int| 0 <= t < s.push(a).len() && s.push(a)[t] == x;
            if t < s.len() {
                assert(s[t] == x);
            }
        }
        if s.contains(x) {
            let t = choose|t: int| 0 <= t < s.len() && s[t] == x;
            assert(s.push(a)[t] == x);
        }
        if x == a {
            assert(s.push(a)[s.len() as int] == x);
        }
    }
}

/// The first `n` arguments.
fn take_args(v: &Vec<RegisterRecord>, n: usize) -> (r: Vec<RegisterRecord>)
    requires
        n <= v@.len(),
    ensures
        r@ == v@.take(n as int),
{
    let mut r: Vec<RegisterRecord> = Vec::new();
    let mut i: usize = 0;
    while i < n
        invariant
            i <= n,
            n <= v@.len(),
            r@ == v@.take(i as int),
        decreases n - i,
    {
        proof {
            assert(v@.take(i + 1) =~= v@.take(i as int).push(v@[i as int]));
        }
        r.push(v[i]);
        i = i + 1;
    }
    r
}

/// Rewrites one IR instruction (see `rewrite_ir`), learning the argument
/// counts of library functions whose count is fixed.
fn rewrite_one(
    ir: DataFlowIr,
    syms: &SymbolSet,
    counts: &mut HashMap<u64, usize>,
    Ghost(c0): Ghost<Map<u64, usize>>,
    functions: &HashMap<u64, NameValue>,
    data: &HashMap<u64, Vec<u8>>,
) -> (r: DataFlowIr)
    requires
        counts_ok(old(counts)@, c0, functions@),
        rewrite_ok(ir@, syms@, c0, functions@, data),
    ensures
        counts_ok(final(counts)@, c0, functions@),
        r@ == rewrite_ir(ir@, syms@, c0, functions@, data),
{
    let DataFlowIr { address, opcode, operand1, operand2, operand3 } = ir;
    if opcode == DataFlowIrOpcode::Call {
        if let Some(DFIOperand::Number(num)) = &operand1 {
            if let Some(DFIOperand::Parameter(params)) = &operand2 {
                let target = num.value as u64;
                let ghost v = params@;
                proof {
                    if counts@.contains_key(target) && !c0.contains_key(target) {
                        assert(fixed_arity(functions@[target]->Name_0@) == Some((counts@[target], true)));
                    }
                }
                let k: Option<usize> = match counts.get(&target) {
                    Some(n) => Some(*n),
                    None => match functions.get(&target) {
                        Some(NameValue::Name(name)) => {
                            let (n, flag) = analyse_extern_function(name, params, data);
                            if flag {
                                counts.insert(target, n);
                            }
                            Some(n)
                        },
                        _ => None,
                    },
                };
                match k {
                    Some(n) => {
                        let p = take_args(params, n);
                        return DataFlowIr {
                            address,
                            opcode,
                            operand1,
                            operand2: Some(DFIOperand::Parameter(p)),
                            operand3,
                        };
                    },
                    None => {},
                }
            }
        }
        DataFlowIr { address, opcode, operand1, operand2, operand3 }
    } else if opcode == DataFlowIrOpcode::Function {
        let p = function_parameters(syms);
        DataFlowIr { address, opcode, operand1: Some(DFIOperand::Parameter(p)), operand2, operand3 }
    } else {
        DataFlowIr { address, opcode, operand1, operand2, operand3 }
    }
}

/// Rewrites the IR of one function (see `rewrite_ir`).
fn rewrite_irs(
    irs: Vec<DataFlowIr>,
    syms: &SymbolSet,
    counts: &mut HashMap<u64, usize>,
    Ghost(c0): Ghost<Map<u64, usize>>,
    functions: &HashMap<u64, NameValue>,
    data: &HashMap<u64, Vec<u8>>,
) -> (r: Vec<DataFlowIr>)
    requires
        counts_ok(old(counts)@, c0, functions@),
        forall|i: int| 0 <= i < irs@.len() ==> rewrite_ok(#[trigger] irs@[i]@, syms@, c0, functions@, data),
    ensures
        counts_ok(final(counts)@, c0, functions@),
        irs_view(r@) == irs_view(irs@).map_values(|ir: IrView| rewrite_ir(ir, syms@, c0, functions@, data)),
{
    let ghost all = irs@;
    let mut out: Vec<DataFlowIr> = Vec::new();
    let ghost mut k: int = 0;
    proof {
        assert(irs_view(out@) =~= irs_view(all.take(0)).map_values(|ir: IrView| rewrite_ir(ir, syms@, c0, functions@, data)));
    }
    for ir in it: irs.into_iter()
        invariant
            it.seq() == all,
            k == it.index(),
            counts_ok(counts@, c0, functions@),
            forall|i: int| 0 <= i < all.len() ==> rewrite_ok(#[trigger] all[i]@, syms@, c0, functions@, data),
            irs_view(out@) == irs_view(all.take(k)).map_values(|ir: IrView| rewrite_ir(ir, syms@, c0, functions@, data)),
    {
        proof {
            assert(k < all.len());
            assert(ir == all[k]);
        }
        let ghost prev = out@;
        let r = rewrite_one(ir, syms, counts, Ghost(c0), functions, data);
        out.push(r);
        proof {
            assert(irs_view(out@) =~= irs_view(prev).push(r@));
            assert(all.take(k + 1) =~= all.take(k).push(all[k]));
            assert(irs_view(all.take(k + 1)) =~= irs_view(all.take(k)).push(all[k]@));
            assert(irs_view(out@) =~= irs_view(all.take(k + 1)).map_values(|ir: IrView| rewrite_ir(ir, syms@, c0, functions@, data)));
            k = k + 1;
        }
    }
    proof {
        assert(all.take(k) =~= all);
    }
    out
}

/// The functions of a program and what their IR becomes once the
/// parameters of each are known.
pub open spec fn analysed_ok(
    m: Map<u64, (Vec<DataFlowIr>, Vec<GRRecord>, SymbolSet)>,
    functions: Map<u64, NameValue>,
    data: &HashMap<u64, Vec<u8>>,
) -> bool {
    forall|k: u64, i: int| #![trigger m[k].0@[i]] m.contains_key(k) && 0 <= i < m[k].0@.len()
        ==> rewrite_ok(m[k].0@[i]@, m[k].2@, param_counts(m), functions, data)
}

/// Completes the IR of each function once the parameters of all are known:
/// a function's entry carries its parameters, and a call keeps as many
/// arguments as its callee takes (an analysed function's parameters, or
/// what a library function is found to take).
pub fn analyse_parameter(
    function_map: HashMap<u64, (Vec<DataFlowIr>, Vec<GRRecord>, SymbolSet)>,
    functions: &HashMap<u64, NameValue>,
    data: &HashMap<u64, Vec<u8>>,
) -> (r: HashMap<u64, (Vec<DataFlowIr>, Vec<GRRecord>, SymbolSet)>)
    requires
        analysed_ok(function_map@, functions@, data),
    ensures
        r@.dom() == function_map@.dom(),
        forall|k: u64| #[trigger] r@.contains_key(k) ==> {
            &&& r@[k].1 == function_map@[k].1
            &&& r@[k].2 == function_map@[k].2
            &&& irs_view(r@[k].0@) == irs_view(function_map@[k].0@).map_values(
                |ir: IrView| rewrite_ir(ir, function_map@[k].2@, param_counts(function_map@), functions@, data))
        },
{
    let ghost m0 = function_map@;
    let keys = map_keys(&function_map);
    let mut counts: HashMap<u64, usize> = HashMap::new();
    let mut i: usize = 0;
    while i < keys.len()
        invariant
            i <= keys@.len(),
            keys@.to_set() == m0.dom(),
            function_map@ == m0,
            forall|x: u64| #[trigger] counts@.contains_key(x) <==> keys@.take(i as int).contains(x),
            forall|x: u64| #[trigger] counts@.contains_key(x) ==> counts@[x] == param_count(m0[x].2@),
        decreases keys@.len() - i,
    {
        let k = keys[i];
        proof {
            assert(keys@.to_set().contains(k));
            assert(keys@.take(i + 1) =~= keys@.take(i as int).push(k));
            lemma_push_contains(keys@.take(i as int), k);
        }
        match function_map.get(&k) {
            Some(f) => {
                let n = count_params(&f.2);
                counts.insert(k, n);
            },
            None => {},
        }
        i = i + 1;
    }
    proof {
        assert(keys@.take(i as int) =~= keys@);
        assert forall|x: u64| #[trigger] m0.contains_key(x) implies counts@.contains_key(x) by {
            assert(keys@.to_set().contains(x));
        }
        assert(counts@ =~= param_counts(m0));
    }
    let ghost c0 = counts@;
    let mut fm = function_map;
    let mut res: HashMap<u64, (Vec<DataFlowIr>, Vec<GRRecord>, SymbolSet)> = HashMap::new();
    let mut j: usize = 0;
    while j < keys.len()
        invariant
            j <= keys@.len(),
            keys@.to_set() == m0.dom(),
            keys@.no_duplicates(),
            c0 == param_counts(m0),
            analysed_ok(m0, functions@, data),
            counts_ok(counts@, c0, functions@),
            forall|x: u64| #[trigger] fm@.contains_key(x) <==> m0.contains_key(x) && !keys@.take(j as int).contains(x),
            forall|x: u64| #[trigger] fm@.contains_key(x) ==> fm@[x] == m0[x],
            forall|x: u64| #[trigger] res@.contains_key(x) <==> keys@.take(j as int).contains(x),
            forall|x: u64| #[trigger] res@.contains_key(x) ==> {
                &&& res@[x].1 == m0[x].1
                &&& res@[x].2 == m0[x].2
                &&& irs_view(res@[x].0@) == irs_view(m0[x].0@).map_values(
                    |ir: IrView| rewrite_ir(ir, m0[x].2@, c0, functions@, data))
            },
        decreases keys@.len() - j,
    {
        let k = keys[j];
        proof {
            assert(keys@.to_set().contains(k));
            assert(keys@.take(j + 1) =~= keys@.take(j as int).push(k));
            lemma_push_contains(keys@.take(j as int), k);
            if keys@.take(j as int).contains(k) {
                let t = choose|t: int| 0 <= t < j && keys@.take(j as int)[t] == k;
                assert(keys@[t] == keys@[j as int]);
            }
        }
        match fm.remove(&k) {
            Some(entry) => {
                let (irs, gr, syms) = entry;
                proof {
                    assert forall|t: int| 0 <= t < irs@.len() implies rewrite_ok(#[trigger] irs@[t]@, syms@, c0, functions@, data) by {
                        assert(m0[k].0@[t] == irs@[t]);
                    }
                }
                let new_irs = rewrite_irs(irs, &syms, &mut counts, Ghost(c0), functions, data);
                res.insert(k, (new_irs, gr, syms));
            },
            None => {},
        }
        j = j + 1;
    }
    proof {
        assert(keys@.take(j as int) =~= keys@);
        assert forall|x: u64| #[trigger] m0.contains_key(x) implies res@.contains_key(x) by {
            assert(keys@.to_set().contains(x));
        }
        assert(res@.dom() =~= m0.dom());
    }
    res
}

} // verus!
