use vstd::prelude::*;
use std::collections::HashMap;
use crate::counter::Counter;
use crate::data_flow::{Address, DataFlowIr, DataFlowIrOpcode, DFIOperand, DFISymbolRecord, DFISymbolType, RegisterRecord};
use crate::insn::NameValue;
use crate::data_convert::push_char;
use crate::ast::{
    AbstractSyntaxTree, ASTSymbol, ASTSymbolValueType, ASTType, AstTypeView, AstView, Operator, Scope, children_av,
    type_of_size, get_ast_type_from_size, lemma_children_av_push,
};
use crate::ast::symbols::{
    AddressSymbolMap, SymState, sym_state, ids_known, base_step, record, create_step, scope_of, operand_step,
    operand_parsable, number_typed, lookup_key, base_symbol, scope_at, create_symbol,
};

verus! {

broadcast use {vstd::std_specs::hash::group_hash_axioms, vstd::std_specs::vec::group_vec_axioms};

/// A node without children.
pub open spec fn leaf_view(k: AstTypeView, v: u64) -> AstView {
    AstView { ast_type: k, value: v, next: Seq::empty() }
}

/// The operator of a two-operand IR instruction.
pub open spec fn binary_operator(op: DataFlowIrOpcode) -> Option<Operator> {
    match op {
        DataFlowIrOpcode::Add => Some(Operator::Add),
        DataFlowIrOpcode::Sub => Some(Operator::Sub),
        DataFlowIrOpcode::Mul => Some(Operator::Mul),
        DataFlowIrOpcode::Div => Some(Operator::Div),
        DataFlowIrOpcode::And => Some(Operator::And),
        DataFlowIrOpcode::Or => Some(Operator::Or),
        DataFlowIrOpcode::Xor => Some(Operator::Xor),
        _ => None,
    }
}

/// The optional operand is present and can be parsed.
pub open spec fn opt_parsable(o: Option<DFIOperand>) -> bool {
    o matches Some(x) && operand_parsable(x)
}

/// The optional operand is a symbol.
pub open spec fn is_symbol_operand(o: Option<DFIOperand>) -> bool {
    o matches Some(DFIOperand::Symbol(_))
}

/// The symbol of an operand that is one.
pub open spec fn symbol_of(o: Option<DFIOperand>) -> DFISymbolRecord {
    match o {
        Some(DFIOperand::Symbol(s)) => s,
        _ => arbitrary(),
    }
}

/// The tree of a two-operand instruction `x = a op b`: an `Assign` to the
/// variable of `x` over the operator node of the leaves of `a` and `b`.
pub open spec fn binary_step(ir: DataFlowIr, op: Operator, st: SymState) -> (AstView, SymState) {
    let s1 = symbol_of(ir.operand1);
    let (v, st1) = create_step(s1, st);
    let (a1, st2) = operand_step(ir.operand2->Some_0, st1);
    let (a2, st3) = operand_step(ir.operand3->Some_0, st2);
    (
        AstView {
            ast_type: AstTypeView::Assign(s1.value),
            value: v.id as u64,
            next: seq![AstView { ast_type: AstTypeView::Operator(op), value: 0, next: seq![a1, a2] }],
        },
        st3,
    )
}

/// The tree of a return: an `EndReturn` node over the leaf of the returned
/// value (a variable is taken as a reference where the symbol is a value,
/// and the other way round).
pub open spec fn ret_step(ir: DataFlowIr, st: SymState) -> (AstView, SymState) {
    let (leaf, st1) = match ir.operand1 {
        Some(DFIOperand::Symbol(s)) => {
            let (v, st1) = create_step(s, st);
            (leaf_view(AstTypeView::Variable(!s.value), v.id as u64), st1)
        },
        Some(DFIOperand::Number(n)) => (leaf_view(AstTypeView::Integer(n.signed, type_of_size(n.size)), n.value as u64), st),
        _ => (leaf_view(AstTypeView::Begin("None"@), 0), st),
    };
    (AstView { ast_type: AstTypeView::EndReturn, value: 0, next: seq![leaf] }, st1)
}

/// A node `kind` with value `value` over the trees `kids`.
fn node(kind: ASTType, value: u64, kids: Vec<AbstractSyntaxTree>) -> (t: AbstractSyntaxTree)
    ensures
        t.ast_type == kind,
        t.value == value,
        t.av() == (AstView { ast_type: kind@, value, next: kids@.map_values(|k: AbstractSyntaxTree| k.av()) }),
{
    let mut t = AbstractSyntaxTree::leaf(kind, value);
    let ghost ks = kids@;
    let ghost mut k: int = 0;
    proof {
        assert(ks.take(0).map_values(|x: AbstractSyntaxTree| x.av()) =~= Seq::<AstView>::empty());
    }
    for c in it: kids.into_iter()
        invariant
            it.seq() == ks,
            k == it.index(),
            t.ast_type == kind,
            t.value == value,
            children_av(t.next@) == ks.take(k).map_values(|x: AbstractSyntaxTree| x.av()),
    {
        proof {
            assert(c == ks[k]);
            assert(ks.take(k + 1).map_values(|x: AbstractSyntaxTree| x.av())
                =~= ks.take(k).map_values(|x: AbstractSyntaxTree| x.av()).push(c.av()));
        }
        let ghost prev = t.next@;
        t.next.push(Box::new(c));
        proof {
            lemma_children_av_push(prev, Box::new(c));
            k = k + 1;
        }
    }
    proof {
        assert(ks.take(k) =~= ks);
    }
    t
}

/// The list of the one tree `a`.
fn single(a: AbstractSyntaxTree) -> (v: Vec<AbstractSyntaxTree>)
    ensures
        v@ == seq![a],
{
    let mut v = Vec::new();
    v.push(a);
    proof {
        assert(v@ =~= seq![a]);
    }
    v
}

/// The list of the trees `a` and `b`.
fn pair(a: AbstractSyntaxTree, b: AbstractSyntaxTree) -> (v: Vec<AbstractSyntaxTree>)
    ensures
        v@ == seq![a, b],
{
    let mut v = Vec::new();
    v.push(a);
    v.push(b);
    proof {
        assert(v@ =~= seq![a, b]);
    }
    v
}

/// The leaf of an operand that can be parsed (see `operand_step`).
fn operand_leaf(
    o: &DFIOperand,
    address_symbol_map: &mut AddressSymbolMap,
    ast_symbol_map: &mut HashMap<usize, ASTSymbol>,
    counter: &mut Counter,
) -> (r: AbstractSyntaxTree)
    requires
        operand_parsable(*o),
        ids_known(sym_state(old(address_symbol_map), old(ast_symbol_map), old(counter))),
    ensures
        (r.av(), sym_state(final(address_symbol_map), final(ast_symbol_map), final(counter)))
            == operand_step(*o, sym_state(old(address_symbol_map), old(ast_symbol_map), old(counter))),
        ids_known(sym_state(final(address_symbol_map), final(ast_symbol_map), final(counter))),
{
    match o {
        DFIOperand::Number(n) => {
            let t = get_ast_type_from_size(&n.size);
            AbstractSyntaxTree::leaf(ASTType::Integer(n.signed, t), n.value as u64)
        },
        DFIOperand::Symbol(s) => {
            let v = create_symbol(s, address_symbol_map, ast_symbol_map, counter);
            AbstractSyntaxTree::leaf(ASTType::Variable(s.value), v.id as u64)
        },
        DFIOperand::Parameter(_) => AbstractSyntaxTree::new(),
    }
}

/// The tree of a two-operand instruction (see `binary_step`).
fn parse_binary(
    ir: &DataFlowIr,
    op: Operator,
    address_symbol_map: &mut AddressSymbolMap,
    ast_symbol_map: &mut HashMap<usize, ASTSymbol>,
    counter: &mut Counter,
) -> (r: AbstractSyntaxTree)
    requires
        is_symbol_operand(ir.operand1),
        opt_parsable(ir.operand2),
        opt_parsable(ir.operand3),
        ids_known(sym_state(old(address_symbol_map), old(ast_symbol_map), old(counter))),
    ensures
        (r.av(), sym_state(final(address_symbol_map), final(ast_symbol_map), final(counter)))
            == binary_step(*ir, op, sym_state(old(address_symbol_map), old(ast_symbol_map), old(counter))),
        ids_known(sym_state(final(address_symbol_map), final(ast_symbol_map), final(counter))),
{
    let s1 = match &ir.operand1 {
        Some(DFIOperand::Symbol(s)) => *s,
        _ => DFISymbolRecord { address: Address::GR(0), sym_type: DFISymbolType::Untyped, id: 0, size: crate::data_flow::Size::Unsigned8, value: false },
    };
    let v = create_symbol(&s1, address_symbol_map, ast_symbol_map, counter);
    let a1 = operand_leaf(ir.operand2.as_ref().unwrap(), address_symbol_map, ast_symbol_map, counter);
    let a2 = operand_leaf(ir.operand3.as_ref().unwrap(), address_symbol_map, ast_symbol_map, counter);
    let ghost av1 = a1.av();
    let ghost av2 = a2.av();
    let operator = node(ASTType::Operator(op), 0, pair(a1, a2));
    proof {
        assert(seq![a1, a2].map_values(|k: AbstractSyntaxTree| k.av()) =~= seq![av1, av2]);
    }
    let ghost ov = operator.av();
    let t = node(ASTType::Assign(s1.value), v.id as u64, single(operator));
    proof {
        assert(seq![operator].map_values(|k: AbstractSyntaxTree| k.av()) =~= seq![ov]);
    }
    t
}

/// The tree of a return (see `ret_step`).
fn parse_ret(
    ir: &DataFlowIr,
    address_symbol_map: &mut AddressSymbolMap,
    ast_symbol_map: &mut HashMap<usize, ASTSymbol>,
    counter: &mut Counter,
) -> (r: AbstractSyntaxTree)
    requires
        opt_parsable(ir.operand1),
        ids_known(sym_state(old(address_symbol_map), old(ast_symbol_map), old(counter))),
    ensures
        (r.av(), sym_state(final(address_symbol_map), final(ast_symbol_map), final(counter)))
            == ret_step(*ir, sym_state(old(address_symbol_map), old(ast_symbol_map), old(counter))),
        ids_known(sym_state(final(address_symbol_map), final(ast_symbol_map), final(counter))),
{
    let leaf = match ir.operand1.as_ref().unwrap() {
        DFIOperand::Symbol(s) => {
            let v = create_symbol(s, address_symbol_map, ast_symbol_map, counter);
            AbstractSyntaxTree::leaf(ASTType::Variable(!s.value), v.id as u64)
        },
        DFIOperand::Number(n) => {
            let t = get_ast_type_from_size(&n.size);
            AbstractSyntaxTree::leaf(ASTType::Integer(n.signed, t), n.value as u64)
        },
        DFIOperand::Parameter(_) => AbstractSyntaxTree::new(),
    };
    let ghost lv = leaf.av();
    let t = node(ASTType::EndReturn, 0, single(leaf));
    proof {
        assert(seq![leaf].map_values(|k: AbstractSyntaxTree| k.av()) =~= seq![lv]);
    }
    t
}

/// The lowercase hexadecimal digit of `d`.
pub open spec fn hex_digit(d: int) -> char {
    if d == 0 { '0' } else if d == 1 { '1' } else if d == 2 { '2' } else if d == 3 { '3' }
    else if d == 4 { '4' } else if d == 5 { '5' } else if d == 6 { '6' } else if d == 7 { '7' }
    else if d == 8 { '8' } else if d == 9 { '9' } else if d == 10 { 'a' } else if d == 11 { 'b' }
    else if d == 12 { 'c' } else if d == 13 { 'd' } else if d == 14 { 'e' } else { 'f' }
}

/// The lowercase hexadecimal digits of `v`, without leading zeros.
pub open spec fn hex_digits(v: nat) -> Seq<char>
    decreases v,
{
    if v < 16 {
        seq![hex_digit(v as int)]
    } else {
        hex_digits(v / 16).push(hex_digit((v % 16) as int))
    }
}

/// The hexadecimal digit of `d` (see `hex_digit`).
fn hex_char(d: u64) -> (c: char)
    requires
        d < 16,
    ensures
        c == hex_digit(d as int),
{
    if d == 0 { '0' } else if d == 1 { '1' } else if d == 2 { '2' } else if d == 3 { '3' }
    else if d == 4 { '4' } else if d == 5 { '5' } else if d == 6 { '6' } else if d == 7 { '7' }
    else if d == 8 { '8' } else if d == 9 { '9' } else if d == 10 { 'a' } else if d == 11 { 'b' }
    else if d == 12 { 'c' } else if d == 13 { 'd' } else if d == 14 { 'e' } else { 'f' }
}

/// Appends the hexadecimal digits of `v` to `s` (see `hex_digits`).
pub(crate) fn push_hex(s: &mut String, v: u64)
    ensures
        final(s)@ == old(s)@ + hex_digits(v as nat),
    decreases v,
{
    let ghost s0 = s@;
    if v >= 16 {
        push_hex(s, v / 16);
    }
    push_char(s, hex_char(v % 16));
    proof {
        if v >= 16 {
            assert(s0 + hex_digits((v / 16) as nat) + seq![hex_digit((v % 16) as int)] =~= s0 + hex_digits(v as nat));
        } else {
            assert(s0.push(hex_digit((v % 16) as int)) =~= s0 + hex_digits(v as nat));
        }
    }
}

/// The name of the function called at address `v`: its name where
/// `functions` names it, `funcion@` and the address in hexadecimal where it
/// holds a value for it, and `func@` and the address otherwise.
pub open spec fn call_name(functions: Map<u64, NameValue>, v: i64) -> Seq<char> {
    let a = v as u64;
    if functions.contains_key(a) {
        match functions[a] {
            NameValue::Name(n) => n@,
            NameValue::Value(_) => "funcion@"@ + hex_digits(a as nat),
        }
    } else {
        "func@"@ + hex_digits(a as nat)
    }
}

/// The name of the function called at `v` (see `call_name`).
fn function_name(functions: &HashMap<u64, NameValue>, v: i64) -> (r: String)
    ensures
        r@ == call_name(functions@, v),
{
    let a = v as u64;
    match functions.get(&a) {
        Some(NameValue::Name(n)) => n.clone(),
        Some(NameValue::Value(_)) => {
            let mut s = "funcion@".to_owned();
            push_hex(&mut s, a);
            s
        },
        None => {
            let mut s = "func@".to_owned();
            push_hex(&mut s, a);
            s
        },
    }
}

/// A parameter of a call is a symbol or a number whose signedness agrees
/// with its width.
pub open spec fn register_parsable(p: RegisterRecord) -> bool {
    match p {
        RegisterRecord::Number(n) => number_typed(n),
        RegisterRecord::Symbol(_) => true,
    }
}

/// The leaves of the parameters `ps` of a call, named in order: a number
/// becomes an integer, a symbol the variable `create_step` gives it, taken
/// as a reference where the symbol is a value and the other way round.
pub open spec fn params_step(ps: Seq<RegisterRecord>, st: SymState) -> (Seq<AstView>, SymState)
    decreases ps.len(),
{
    if ps.len() == 0 {
        (Seq::empty(), st)
    } else {
        let (p, st1) = params_step(ps.drop_last(), st);
        match ps.last() {
            RegisterRecord::Number(n) => (p.push(leaf_view(AstTypeView::Integer(n.signed, type_of_size(n.size)), n.value as u64)), st1),
            RegisterRecord::Symbol(s) => {
                let (v, st2) = create_step(s, st1);
                (p.push(leaf_view(AstTypeView::Variable(!s.value), v.id as u64)), st2)
            },
        }
    }
}

/// The variable that takes the result of a call of `name`: as
/// `create_step` gives it, but of type `Int` where the function is `printf`.
pub open spec fn result_step(sym: DFISymbolRecord, name: Seq<char>, st: SymState) -> (ASTSymbol, SymState) {
    let (b, st1) = base_step(sym, st);
    let b2 = if name == "printf"@ { ASTSymbol { select_type: ASTSymbolValueType::Int, ..b } } else { b };
    let s = ASTSymbol { scope: scope_of(sym.address), ..b2 };
    (s, record(st1, s))
}

/// The parameters of a call instruction.
pub open spec fn call_params(ir: DataFlowIr) -> Seq<RegisterRecord> {
    match ir.operand2 {
        Some(DFIOperand::Parameter(ps)) => ps@,
        _ => Seq::empty(),
    }
}

/// A call can be parsed: it names the address it calls, where its result
/// goes (a variable or a number) and its parameters.
pub open spec fn call_ok(ir: DataFlowIr) -> bool {
    &&& ir.operand1 matches Some(DFIOperand::Number(_))
    &&& opt_parsable(ir.operand3)
    &&& ir.operand2 matches Some(DFIOperand::Parameter(_))
    &&& forall|i: int| 0 <= i < call_params(ir).len() ==> register_parsable(#[trigger] call_params(ir)[i])
}

/// The tree of a call: a `Function` node named after the called address
/// (see `call_name`) over the leaf of where the result goes (a `Return`
/// leaf with the variable's number, or an integer), then the leaves of the
/// parameters.
pub open spec fn call_step(ir: DataFlowIr, functions: Map<u64, NameValue>, st: SymState) -> (AstView, SymState) {
    let name = call_name(functions, ir.operand1->Some_0->Number_0.value);
    let (ret, st1) = match ir.operand3 {
        Some(DFIOperand::Symbol(s)) => {
            let (v, st1) = result_step(s, name, st);
            (leaf_view(AstTypeView::Return, v.id as u64), st1)
        },
        Some(DFIOperand::Number(n)) => (leaf_view(AstTypeView::Integer(n.signed, type_of_size(n.size)), n.value as u64), st),
        _ => (leaf_view(AstTypeView::Return, 0), st),
    };
    let (ps, st2) = params_step(call_params(ir), st1);
    (AstView { ast_type: AstTypeView::Function(name), value: 0, next: seq![ret] + ps }, st2)
}

/// The tree of a call (see `call_step`).
fn parse_call(
    ir: &DataFlowIr,
    functions: &HashMap<u64, NameValue>,
    address_symbol_map: &mut AddressSymbolMap,
    ast_symbol_map: &mut HashMap<usize, ASTSymbol>,
    counter: &mut Counter,
) -> (r: AbstractSyntaxTree)
    requires
        call_ok(*ir),
        ids_known(sym_state(old(address_symbol_map), old(ast_symbol_map), old(counter))),
    ensures
        (r.av(), sym_state(final(address_symbol_map), final(ast_symbol_map), final(counter)))
            == call_step(*ir, functions@, sym_state(old(address_symbol_map), old(ast_symbol_map), old(counter))),
        ids_known(sym_state(final(address_symbol_map), final(ast_symbol_map), final(counter))),
{
    let ghost st0 = sym_state(address_symbol_map, ast_symbol_map, counter);
    let v = match &ir.operand1 {
        Some(DFIOperand::Number(n)) => n.value,
        _ => 0,
    };
    let name = function_name(functions, v);
    let ret = match ir.operand3.as_ref().unwrap() {
        DFIOperand::Symbol(s) => {
            let ghost st = sym_state(address_symbol_map, ast_symbol_map, counter);
            let mut sym = base_symbol(s, address_symbol_map, ast_symbol_map, counter);
            if name.eq(&"printf".to_owned()) {
                sym.select_type = ASTSymbolValueType::Int;
            }
            sym.scope = scope_at(&s.address);
            ast_symbol_map.insert(sym.id, sym);
            proof {
                let st2 = sym_state(address_symbol_map, ast_symbol_map, counter);
                assert forall|i: int| 0 <= i < st2.ids.len() implies st2.syms.contains_key(#[trigger] st2.ids[i].1) by {
                    assert(st.syms.contains_key(st2.ids[i].1) || st2.ids[i].1 == sym.id);
                }
                assert((sym, st2) == result_step(*s, name@, st));
            }
            AbstractSyntaxTree::leaf(ASTType::Return, sym.id as u64)
        },
        DFIOperand::Number(n) => {
            let t = get_ast_type_from_size(&n.size);
            AbstractSyntaxTree::leaf(ASTType::Integer(n.signed, t), n.value as u64)
        },
        DFIOperand::Parameter(_) => AbstractSyntaxTree::leaf(ASTType::Return, 0),
    };
    let ghost st1 = sym_state(address_symbol_map, ast_symbol_map, counter);
    let mut kids: Vec<AbstractSyntaxTree> = Vec::new();
    let ghost rv = ret.av();
    kids.push(ret);
    let ps = match &ir.operand2 {
        Some(DFIOperand::Parameter(ps)) => ps,
        _ => {
            return AbstractSyntaxTree::new();
        },
    };
    let ghost pv = ps@;
    let mut i: usize = 0;
    proof {
        assert(pv.take(0) =~= Seq::<RegisterRecord>::empty());
        assert(kids@.map_values(|k: AbstractSyntaxTree| k.av()) =~= seq![rv]);
        assert(pv == call_params(*ir));
        assert forall|q: int| 0 <= q < pv.len() implies register_parsable(#[trigger] pv[q]) by {
            assert(register_parsable(call_params(*ir)[q]));
        }
    }
    while i < ps.len()
        invariant
            i <= pv.len(),
            pv == ps@,
            pv == call_params(*ir),
            forall|q: int| 0 <= q < pv.len() ==> register_parsable(#[trigger] pv[q]),
            ids_known(sym_state(address_symbol_map, ast_symbol_map, counter)),
            ({
                let r = params_step(pv.take(i as int), st1);
                &&& kids@.map_values(|k: AbstractSyntaxTree| k.av()) == seq![rv] + r.0
                &&& sym_state(address_symbol_map, ast_symbol_map, counter) == r.1
            }),
        decreases pv.len() - i,
    {
        proof {
            assert(pv.take(i as int + 1).drop_last() =~= pv.take(i as int));
            assert(pv.take(i as int + 1).last() == pv[i as int]);
        }
        let ghost k0 = kids@;
        let leaf = match ps[i] {
            RegisterRecord::Number(n) => {
                let t = get_ast_type_from_size(&n.size);
                AbstractSyntaxTree::leaf(ASTType::Integer(n.signed, t), n.value as u64)
            },
            RegisterRecord::Symbol(s) => {
                let v = create_symbol(&s, address_symbol_map, ast_symbol_map, counter);
                AbstractSyntaxTree::leaf(ASTType::Variable(!s.value), v.id as u64)
            },
        };
        kids.push(leaf);
        proof {
            let r0 = params_step(pv.take(i as int), st1);
            assert(kids@.map_values(|k: AbstractSyntaxTree| k.av()) =~= k0.map_values(|k: AbstractSyntaxTree| k.av()).push(leaf.av()));
            assert(seq![rv] + r0.0.push(leaf.av()) =~= (seq![rv] + r0.0).push(leaf.av()));
        }
        i = i + 1;
    }
    proof {
        assert(pv.take(i as int) =~= pv);
    }
    node(ASTType::Function(name), 0, kids)
}

/// The type can be turned into a pointer type: a plain integer type, or
/// `Unknown`.
pub open spec fn ptr_changeable(t: ASTSymbolValueType) -> bool {
    !crate::ast::spec_is_ptr(t) && t != ASTSymbolValueType::Ptr
}

/// The pointer type to `t` (`Ptr` for `Unknown`).
pub open spec fn ptr_of(t: ASTSymbolValueType) -> ASTSymbolValueType {
    match t {
        ASTSymbolValueType::UnsignedChar => ASTSymbolValueType::PtrUnsignedChar,
        ASTSymbolValueType::Char => ASTSymbolValueType::PtrChar,
        ASTSymbolValueType::UnsignedShort => ASTSymbolValueType::PtrUnsignedShort,
        ASTSymbolValueType::Short => ASTSymbolValueType::PtrShort,
        ASTSymbolValueType::UnsignedInt => ASTSymbolValueType::PtrUnsignedInt,
        ASTSymbolValueType::Int => ASTSymbolValueType::PtrInt,
        ASTSymbolValueType::UnsignedLong => ASTSymbolValueType::PtrUnsignedLong,
        ASTSymbolValueType::Long => ASTSymbolValueType::PtrLong,
        _ => ASTSymbolValueType::Ptr,
    }
}

/// The pointer type to `t` (see `ptr_of`).
fn type_change_to_ptr(t: &ASTSymbolValueType) -> (r: ASTSymbolValueType)
    requires
        ptr_changeable(*t),
    ensures
        r == ptr_of(*t),
{
    match t {
        ASTSymbolValueType::UnsignedChar => ASTSymbolValueType::PtrUnsignedChar,
        ASTSymbolValueType::Char => ASTSymbolValueType::PtrChar,
        ASTSymbolValueType::UnsignedShort => ASTSymbolValueType::PtrUnsignedShort,
        ASTSymbolValueType::Short => ASTSymbolValueType::PtrShort,
        ASTSymbolValueType::UnsignedInt => ASTSymbolValueType::PtrUnsignedInt,
        ASTSymbolValueType::Int => ASTSymbolValueType::PtrInt,
        ASTSymbolValueType::UnsignedLong => ASTSymbolValueType::PtrUnsignedLong,
        ASTSymbolValueType::Long => ASTSymbolValueType::PtrLong,
        _ => ASTSymbolValueType::Ptr,
    }
}

/// What a load learns of its target before its source: the target's type,
/// whether the target is a value, the kind and value of the tree's root
/// (an `Assign` to the target's variable, or the empty `Begin("None")`
/// where the target is no symbol), and the naming after the target.
pub open spec fn load_head(ir: DataFlowIr, st: SymState) -> (ASTSymbolValueType, bool, AstTypeView, u64, SymState) {
    match ir.operand1 {
        Some(DFIOperand::Symbol(s1)) => {
            let (b, stb) = base_step(s1, st);
            let s = ASTSymbol { scope: scope_of(s1.address), ..b };
            (b.select_type, s1.value, AstTypeView::Assign(s1.value), s.id as u64, record(stb, s))
        },
        _ => (ASTSymbolValueType::Unknown, false, AstTypeView::Begin("None"@), 0, st),
    }
}

/// The source of a load is retyped: a temporary long that is a value,
/// loaded into a target that is no value, becomes a pointer to the
/// target's type.
pub open spec fn load_retypes(ir: DataFlowIr, st: SymState) -> bool {
    let (size, v1, k, hv, st1) = load_head(ir, st);
    let s2 = symbol_of(ir.operand2);
    let (b2, st2) = base_step(s2, st1);
    scope_of(s2.address) == Scope::Temp && (b2.select_type == ASTSymbolValueType::UnsignedLong
        || b2.select_type == ASTSymbolValueType::Long) && s2.value && !v1
}

/// A load can be parsed: its source is a symbol, and where it is retyped
/// the target's type can be pointed to.
pub open spec fn load_ok(ir: DataFlowIr, st: SymState) -> bool {
    &&& is_symbol_operand(ir.operand2)
    &&& load_retypes(ir, st) ==> ptr_changeable(load_head(ir, st).0)
}

/// The tree of a load `x = *p`: the root of `load_head` over the leaf of
/// the source's variable, which is retyped as `load_retypes` says.
pub open spec fn load_step(ir: DataFlowIr, st: SymState) -> (AstView, SymState) {
    let (size, v1, k, hv, st1) = load_head(ir, st);
    let s2 = symbol_of(ir.operand2);
    let (b2, st2) = base_step(s2, st1);
    let t = if load_retypes(ir, st) { ptr_of(size) } else { b2.select_type };
    let s = ASTSymbol { scope: scope_of(s2.address), select_type: t, ..b2 };
    (AstView { ast_type: k, value: hv, next: seq![leaf_view(AstTypeView::Variable(s2.value), s.id as u64)] }, record(st2, s))
}

/// The tree of a load (see `load_step`).
fn parse_load(
    ir: &DataFlowIr,
    address_symbol_map: &mut AddressSymbolMap,
    ast_symbol_map: &mut HashMap<usize, ASTSymbol>,
    counter: &mut Counter,
) -> (r: AbstractSyntaxTree)
    requires
        load_ok(*ir, sym_state(old(address_symbol_map), old(ast_symbol_map), old(counter))),
        ids_known(sym_state(old(address_symbol_map), old(ast_symbol_map), old(counter))),
    ensures
        (r.av(), sym_state(final(address_symbol_map), final(ast_symbol_map), final(counter)))
            == load_step(*ir, sym_state(old(address_symbol_map), old(ast_symbol_map), old(counter))),
        ids_known(sym_state(final(address_symbol_map), final(ast_symbol_map), final(counter))),
{
    let ghost st0 = sym_state(address_symbol_map, ast_symbol_map, counter);
    let mut size = ASTSymbolValueType::Unknown;
    let mut symbol1_is_value = false;
    let mut kind = ASTType::Begin("None".to_owned());
    let mut head_value: u64 = 0;
    match &ir.operand1 {
        Some(DFIOperand::Symbol(s1)) => {
            let ghost st = sym_state(address_symbol_map, ast_symbol_map, counter);
            symbol1_is_value = s1.value;
            let mut sym = base_symbol(s1, address_symbol_map, ast_symbol_map, counter);
            size = sym.select_type;
            sym.scope = scope_at(&s1.address);
            kind = ASTType::Assign(s1.value);
            head_value = sym.id as u64;
            ast_symbol_map.insert(sym.id, sym);
            proof {
                let st2 = sym_state(address_symbol_map, ast_symbol_map, counter);
                assert forall|i: int| 0 <= i < st2.ids.len() implies st2.syms.contains_key(#[trigger] st2.ids[i].1) by {
                    assert(st.syms.contains_key(st2.ids[i].1) || st2.ids[i].1 == sym.id);
                }
            }
        },
        _ => {},
    }
    proof {
        let h = load_head(*ir, st0);
        assert(h.0 == size && h.1 == symbol1_is_value && h.2 == kind@ && h.3 == head_value);
        assert(h.4 == sym_state(address_symbol_map, ast_symbol_map, counter));
    }
    let s2 = match &ir.operand2 {
        Some(DFIOperand::Symbol(s)) => *s,
        _ => {
            return AbstractSyntaxTree::new();
        },
    };
    let ghost st1 = sym_state(address_symbol_map, ast_symbol_map, counter);
    let mut sym2 = base_symbol(&s2, address_symbol_map, ast_symbol_map, counter);
    sym2.scope = scope_at(&s2.address);
    if sym2.scope == Scope::Temp && (sym2.select_type == ASTSymbolValueType::UnsignedLong || sym2.select_type == ASTSymbolValueType::Long) {
        if s2.value && !symbol1_is_value {
            sym2.select_type = type_change_to_ptr(&size);
        }
    }
    ast_symbol_map.insert(sym2.id, sym2);
    proof {
        let st2 = sym_state(address_symbol_map, ast_symbol_map, counter);
        assert forall|i: int| 0 <= i < st2.ids.len() implies st2.syms.contains_key(#[trigger] st2.ids[i].1) by {
            assert(st1.syms.contains_key(st2.ids[i].1) || st2.ids[i].1 == sym2.id);
        }
    }
    let leaf = AbstractSyntaxTree::leaf(ASTType::Variable(s2.value), sym2.id as u64);
    let ghost lv = leaf.av();
    let t = node(kind, head_value, single(leaf));
    proof {
        assert(seq![leaf].map_values(|k: AbstractSyntaxTree| k.av()) =~= seq![lv]);
    }
    t
}

/// The variable stored to by a store (its target symbol, with the scope of
/// its address, recorded) and the naming after it.
pub open spec fn store_target(ir: DataFlowIr, st: SymState) -> (ASTSymbol, SymState) {
    let s2 = symbol_of(ir.operand2);
    let (b, st1) = base_step(s2, st);
    let a = ASTSymbol { scope: scope_of(s2.address), ..b };
    (a, record(st1, a))
}

/// The target of a store gets a new type from a source symbol `s1`: the
/// target is a temporary long value and the source a value, in a register
/// (the target takes its type) or on the stack (the target becomes a
/// pointer to its type).
pub open spec fn store_retypes(a: ASTSymbol, target_value: bool, s1: DFISymbolRecord) -> bool {
    s1.value && a.scope == Scope::Temp && a.select_type == ASTSymbolValueType::Long && target_value
        && (scope_of(s1.address) == Scope::Temp || scope_of(s1.address) == Scope::Local)
}

/// A store can be parsed: its target is a symbol, its source a symbol or a
/// number whose signedness agrees with its width, and where the target
/// becomes a pointer, the source's type can be pointed to.
pub open spec fn store_ok(ir: DataFlowIr, st: SymState) -> bool {
    &&& is_symbol_operand(ir.operand2)
    &&& opt_parsable(ir.operand1)
    &&& (ir.operand1 matches Some(DFIOperand::Symbol(s1)) ==> {
        let (a, st2) = store_target(ir, st);
        let (b1, st3) = base_step(s1, st2);
        store_retypes(a, symbol_of(ir.operand2).value, s1) && scope_of(s1.address) == Scope::Local
            ==> ptr_changeable(b1.select_type)
    })
}

/// The tree of a store `*p = x` and the parameter it reveals: an `Assign`
/// to the target's variable over the leaf of the source; where the source
/// symbol is a parameter named here for the first time, its leaf is also
/// returned; the target is retyped as `store_retypes` says.
pub open spec fn store_step(ir: DataFlowIr, st: SymState) -> (AstView, Option<AstView>, SymState) {
    let s2 = symbol_of(ir.operand2);
    let (a, st2) = store_target(ir, st);
    match ir.operand1 {
        Some(DFIOperand::Symbol(s1)) => {
            let found = lookup_key(st2.ids, (s1.address, s1.id)) is Some;
            let (b1, st3) = base_step(s1, st2);
            let sym1 = ASTSymbol { scope: scope_of(s1.address), ..b1 };
            let st4 = if store_retypes(a, s2.value, s1) {
                if scope_of(s1.address) == Scope::Temp {
                    record(st3, ASTSymbol { select_type: sym1.select_type, ..a })
                } else {
                    record(st3, ASTSymbol { select_type: ptr_of(sym1.select_type), ..a })
                }
            } else {
                st3
            };
            let param = if !found && s1.sym_type == DFISymbolType::Param {
                Some(leaf_view(AstTypeView::Variable(s1.value), b1.id as u64))
            } else {
                None
            };
            (
                AstView { ast_type: AstTypeView::Assign(s2.value), value: a.id as u64, next: seq![leaf_view(AstTypeView::Variable(s1.value), sym1.id as u64)] },
                param,
                record(st4, sym1),
            )
        },
        Some(DFIOperand::Number(n)) => (
            AstView {
                ast_type: AstTypeView::Assign(s2.value),
                value: a.id as u64,
                next: seq![leaf_view(AstTypeView::Integer(n.signed, type_of_size(n.size)), n.value as u64)],
            },
            None,
            st2,
        ),
        _ => (leaf_view(AstTypeView::Begin("None"@), 0), None, st2),
    }
}

/// The value of an optional tree.
pub open spec fn opt_av(t: Option<AbstractSyntaxTree>) -> Option<AstView> {
    match t {
        Some(x) => Some(x.av()),
        None => None,
    }
}

/// Records `s` and keeps every numbered key naming a variable.
fn record_symbol(ast_symbol_map: &mut HashMap<usize, ASTSymbol>, s: ASTSymbol, Ghost(ids): Ghost<Seq<((Address, usize), usize)>>)
    requires
        forall|i: int| 0 <= i < ids.len() ==> old(ast_symbol_map)@.contains_key(#[trigger] ids[i].1) || ids[i].1 == s.id,
    ensures
        final(ast_symbol_map)@ == old(ast_symbol_map)@.insert(s.id, s),
        forall|i: int| 0 <= i < ids.len() ==> final(ast_symbol_map)@.contains_key(#[trigger] ids[i].1),
{
    ast_symbol_map.insert(s.id, s);
    proof {
        assert forall|i: int| 0 <= i < ids.len() implies ast_symbol_map@.contains_key(#[trigger] ids[i].1) by {
            assert(old(ast_symbol_map)@.contains_key(ids[i].1) || ids[i].1 == s.id);
        }
    }
}

/// The tree of a store and the parameter it reveals (see `store_step`).
fn parse_store(
    ir: &DataFlowIr,
    address_symbol_map: &mut AddressSymbolMap,
    ast_symbol_map: &mut HashMap<usize, ASTSymbol>,
    counter: &mut Counter,
) -> (r: (AbstractSyntaxTree, Option<AbstractSyntaxTree>))
    requires
        store_ok(*ir, sym_state(old(address_symbol_map), old(ast_symbol_map), old(counter))),
        ids_known(sym_state(old(address_symbol_map), old(ast_symbol_map), old(counter))),
    ensures
        (r.0.av(), opt_av(r.1), sym_state(final(address_symbol_map), final(ast_symbol_map), final(counter)))
            == store_step(*ir, sym_state(old(address_symbol_map), old(ast_symbol_map), old(counter))),
        ids_known(sym_state(final(address_symbol_map), final(ast_symbol_map), final(counter))),
{
    let ghost st0 = sym_state(address_symbol_map, ast_symbol_map, counter);
    let s2 = match &ir.operand2 {
        Some(DFIOperand::Symbol(s)) => *s,
        _ => {
            return (AbstractSyntaxTree::new(), None);
        },
    };
    let mut assign = base_symbol(&s2, address_symbol_map, ast_symbol_map, counter);
    assign.scope = scope_at(&s2.address);
    record_symbol(ast_symbol_map, assign, Ghost(address_symbol_map@));
    let ghost st2 = sym_state(address_symbol_map, ast_symbol_map, counter);
    proof {
        assert((assign, st2) == store_target(*ir, st0));
    }
    let mut param: Option<AbstractSyntaxTree> = None;
    let leaf = match ir.operand1.as_ref().unwrap() {
        DFIOperand::Number(n) => {
            let t = get_ast_type_from_size(&n.size);
            AbstractSyntaxTree::leaf(ASTType::Integer(n.signed, t), n.value as u64)
        },
        DFIOperand::Symbol(s1) => {
            let found = address_symbol_map.get(&(s1.address, s1.id)).is_some();
            let mut sym1 = base_symbol(s1, address_symbol_map, ast_symbol_map, counter);
            let ghost st3 = sym_state(address_symbol_map, ast_symbol_map, counter);
            if !found && s1.sym_type == DFISymbolType::Param {
                param = Some(AbstractSyntaxTree::leaf(ASTType::Variable(s1.value), sym1.id as u64));
            }
            sym1.scope = scope_at(&s1.address);
            if sym1.scope == Scope::Temp && s1.value {
                if assign.scope == Scope::Temp && assign.select_type == ASTSymbolValueType::Long && s2.value {
                    assign.select_type = sym1.select_type;
                    ast_symbol_map.insert(assign.id, assign);
                }
            } else if sym1.scope == Scope::Local && s1.value {
                if assign.scope == Scope::Temp && assign.select_type == ASTSymbolValueType::Long && s2.value {
                    assign.select_type = type_change_to_ptr(&sym1.select_type);
                    ast_symbol_map.insert(assign.id, assign);
                }
            }
            proof {
                assert forall|i: int| 0 <= i < address_symbol_map@.len() implies ast_symbol_map@.contains_key(
                    #[trigger] address_symbol_map@[i].1) || address_symbol_map@[i].1 == sym1.id by {
                    assert(st3.syms.contains_key(address_symbol_map@[i].1) || address_symbol_map@[i].1 == sym1.id);
                    assert(st3.syms.dom().subset_of(ast_symbol_map@.dom()));
                }
            }
            record_symbol(ast_symbol_map, sym1, Ghost(address_symbol_map@));
            AbstractSyntaxTree::leaf(ASTType::Variable(s1.value), sym1.id as u64)
        },
        DFIOperand::Parameter(_) => AbstractSyntaxTree::new(),
    };
    let ghost lv = leaf.av();
    let t = node(ASTType::Assign(s2.value), assign.id as u64, single(leaf));
    proof {
        assert(seq![leaf].map_values(|k: AbstractSyntaxTree| k.av()) =~= seq![lv]);
    }
    (t, param)
}

/// An IR instruction can be parsed (see `dfi_step`).
pub open spec fn dfi_ok(ir: DataFlowIr, st: SymState) -> bool {
    match binary_operator(ir.opcode) {
        Some(_) => is_symbol_operand(ir.operand1) && opt_parsable(ir.operand2) && opt_parsable(ir.operand3),
        None => match ir.opcode {
            DataFlowIrOpcode::Call => call_ok(ir),
            DataFlowIrOpcode::Load => load_ok(ir, st),
            DataFlowIrOpcode::Store => store_ok(ir, st),
            DataFlowIrOpcode::Ret => opt_parsable(ir.operand1),
            _ => true,
        },
    }
}

/// The syntax tree of an IR instruction, the parameter it reveals, and
/// the naming after it: two-operand instructions, calls, loads, stores and
/// returns give a tree (see `binary_step`, `call_step`, `load_step`,
/// `store_step`, `ret_step`); a store may reveal a parameter; `Not`,
/// jumps, the function marker and `Nop` give nothing.
pub open spec fn dfi_step(ir: DataFlowIr, functions: Map<u64, NameValue>, st: SymState) -> (Option<AstView>, Option<AstView>, SymState) {
    match binary_operator(ir.opcode) {
        Some(op) => {
            let (t, st1) = binary_step(ir, op, st);
            (Some(t), None, st1)
        },
        None => match ir.opcode {
            DataFlowIrOpcode::Call => {
                let (t, st1) = call_step(ir, functions, st);
                (Some(t), None, st1)
            },
            DataFlowIrOpcode::Load => {
                let (t, st1) = load_step(ir, st);
                (Some(t), None, st1)
            },
            DataFlowIrOpcode::Store => {
                let (t, p, st1) = store_step(ir, st);
                (Some(t), p, st1)
            },
            DataFlowIrOpcode::Ret => {
                let (t, st1) = ret_step(ir, st);
                (Some(t), None, st1)
            },
            _ => (None, None, st),
        },
    }
}

impl AbstractSyntaxTree {
    /// The syntax tree of the IR instruction `ir` and the parameter it
    /// reveals (see `dfi_step`); calls are named after `functions`.
    pub fn parse_dfi(
        ir: &DataFlowIr,
        ast_symbol_map: &mut HashMap<usize, ASTSymbol>,
        address_symbol_map: &mut AddressSymbolMap,
        counter: &mut Counter,
        functions: &HashMap<u64, NameValue>,
    ) -> (r: (Option<AbstractSyntaxTree>, Option<AbstractSyntaxTree>))
        requires
            dfi_ok(*ir, sym_state(old(address_symbol_map), old(ast_symbol_map), old(counter))),
            ids_known(sym_state(old(address_symbol_map), old(ast_symbol_map), old(counter))),
        ensures
            (opt_av(r.0), opt_av(r.1), sym_state(final(address_symbol_map), final(ast_symbol_map), final(counter)))
                == dfi_step(*ir, functions@, sym_state(old(address_symbol_map), old(ast_symbol_map), old(counter))),
            ids_known(sym_state(final(address_symbol_map), final(ast_symbol_map), final(counter))),
    {
        let op = match ir.opcode {
            DataFlowIrOpcode::Add => Some(Operator::Add),
            DataFlowIrOpcode::Sub => Some(Operator::Sub),
            DataFlowIrOpcode::Mul => Some(Operator::Mul),
            DataFlowIrOpcode::Div => Some(Operator::Div),
            DataFlowIrOpcode::And => Some(Operator::And),
            DataFlowIrOpcode::Or => Some(Operator::Or),
            DataFlowIrOpcode::Xor => Some(Operator::Xor),
            _ => None,
        };
        match op {
            Some(o) => (Some(parse_binary(ir, o, address_symbol_map, ast_symbol_map, counter)), None),
            None => match ir.opcode {
                DataFlowIrOpcode::Call => (Some(parse_call(ir, functions, address_symbol_map, ast_symbol_map, counter)), None),
                DataFlowIrOpcode::Load => (Some(parse_load(ir, address_symbol_map, ast_symbol_map, counter)), None),
                DataFlowIrOpcode::Store => {
                    let (t, p) = parse_store(ir, address_symbol_map, ast_symbol_map, counter);
                    (Some(t), p)
                },
                DataFlowIrOpcode::Ret => (Some(parse_ret(ir, address_symbol_map, ast_symbol_map, counter)), None),
                _ => (None, None),
            },
        }
    }
}

} // verus!
