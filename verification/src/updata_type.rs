use vstd::prelude::*;
use std::collections::{HashMap, HashSet};
use crate::ast::{
    AbstractSyntaxTree, ASTSymbol, ASTSymbolValueType, ASTType, AstTypeView, AstView, Scope, children_av,
    lemma_children_av_index, lemma_children_av_len,
};
use crate::data_flow::Address;
use vstd::std_specs::hash::spec_hash_map_iter;
use vstd::std_specs::iter::IteratorSpec;

verus! {

broadcast use {vstd::std_specs::hash::group_hash_axioms, vstd::std_specs::vec::group_vec_axioms};

/// What the pass over the statements carries: the variables, the pointer
/// types still to give (by variable number), and the variables whose
/// assignments are still to follow.
pub struct TypeFix {
    pub syms: Map<usize, ASTSymbol>,
    pub rmap: Map<usize, ASTSymbolValueType>,
    pub target: Set<usize>,
}

/// The pass state held in the three maps.
pub open spec fn fix_state(
    syms: &HashMap<usize, ASTSymbol>,
    rmap: &HashMap<usize, ASTSymbolValueType>,
    target: &HashSet<usize>,
) -> TypeFix {
    TypeFix { syms: syms@, rmap: rmap@, target: target@ }
}

/// The pointer types (`Ptr` among them).
pub open spec fn ptr_kind(t: ASTSymbolValueType) -> bool {
    match t {
        ASTSymbolValueType::PtrUnsignedChar | ASTSymbolValueType::PtrChar | ASTSymbolValueType::PtrUnsignedShort
        | ASTSymbolValueType::PtrShort | ASTSymbolValueType::PtrUnsignedInt | ASTSymbolValueType::PtrInt
        | ASTSymbolValueType::PtrUnsignedLong | ASTSymbolValueType::PtrLong | ASTSymbolValueType::Ptr => true,
        _ => false,
    }
}

/// `acc`, or whether a variable in `t` has a pointer type; `None` where a
/// variable of `t` is missing from `syms` or has an unknown type.
pub open spec fn exist_ptr(t: AstView, syms: Map<usize, ASTSymbol>, acc: bool) -> Option<bool>
    decreases t, 1nat,
{
    match t.ast_type {
        AstTypeView::Variable(_) => {
            let k = t.value as usize;
            if !syms.contains_key(k) || syms[k].select_type == ASTSymbolValueType::Unknown {
                None
            } else {
                Some(acc || ptr_kind(syms[k].select_type))
            }
        },
        _ => exist_ptrs(t.next, syms, acc),
    }
}

/// `exist_ptr` over the trees `s` in turn.
pub open spec fn exist_ptrs(s: Seq<AstView>, syms: Map<usize, ASTSymbol>, acc: bool) -> Option<bool>
    decreases s, 0nat,
{
    if s.len() == 0 {
        Some(acc)
    } else {
        match exist_ptr(s[0], syms, acc) {
            None => None,
            Some(a) => exist_ptrs(s.subrange(1, s.len() as int), syms, a),
        }
    }
}

/// The operands `ops` that are no numbers, counted from `n` where their
/// variable is a `Long`, with the last such (from `id`); `None` where one
/// is missing from `syms`.
pub open spec fn long_scan(ops: Seq<AstView>, syms: Map<usize, ASTSymbol>, n: nat, id: u64) -> Option<(nat, u64)>
    decreases ops.len(),
{
    if ops.len() == 0 {
        Some((n, id))
    } else {
        let o = ops[0];
        let rest = ops.subrange(1, ops.len() as int);
        if o.ast_type is Integer {
            long_scan(rest, syms, n, id)
        } else if !syms.contains_key(o.value as usize) {
            None
        } else if syms[o.value as usize].select_type == ASTSymbolValueType::Long {
            long_scan(rest, syms, n + 1, o.value)
        } else {
            long_scan(rest, syms, n, id)
        }
    }
}

/// Each variable among `ops` that is a `Long` marked to become `ptr`.
pub open spec fn mark_longs(ops: Seq<AstView>, st: TypeFix, ptr: ASTSymbolValueType) -> TypeFix
    decreases ops.len(),
{
    if ops.len() == 0 {
        st
    } else {
        let o = ops[0];
        let k = o.value as usize;
        let st1 = if o.ast_type is Variable && st.syms.contains_key(k) && st.syms[k].select_type
            == ASTSymbolValueType::Long {
            TypeFix { rmap: st.rmap.insert(k, ptr), target: st.target.insert(k), ..st }
        } else {
            st
        };
        mark_longs(ops.subrange(1, ops.len() as int), st1, ptr)
    }
}

/// `sym` with the type `t`.
pub open spec fn retyped(sym: ASTSymbol, t: ASTSymbolValueType) -> ASTSymbol {
    ASTSymbol { select_type: t, ..sym }
}

/// The pointer type `ptr` traced back through the assignments inside `t`:
/// an assignment of a variable gives that variable the type; one of an
/// operation with one `Long` operand gives it to that operand's variable
/// (under the number that variable carries), and one with several marks
/// the `Long` variables among its operands. `None` where the pass
/// would read a missing variable or the first child of a childless
/// assignment, which stops it.
pub open spec fn m_search_target(t: AstView, st: TypeFix, ptr: ASTSymbolValueType) -> Option<TypeFix>
    decreases t, 1nat,
{
    match t.ast_type {
        AstTypeView::Assign(_) => {
            if t.next.len() == 0 {
                None
            } else {
                let f = t.next[0];
                match f.ast_type {
                    AstTypeView::Operator(_) => match long_scan(f.next, st.syms, 0, 0) {
                        None => None,
                        Some((n, id)) => if n == 1 {
                            let sym = st.syms[id as usize];
                            Some(TypeFix { syms: st.syms.insert(sym.id, retyped(sym, ptr)), ..st })
                        } else {
                            Some(mark_longs(f.next, st, ptr))
                        },
                    },
                    AstTypeView::Variable(_) => {
                        let k = f.value as usize;
                        if !st.syms.contains_key(k) {
                            None
                        } else {
                            Some(TypeFix { syms: st.syms.insert(k, retyped(st.syms[k], ptr)), ..st })
                        }
                    },
                    _ => Some(st),
                }
            }
        },
        _ => m_search_targets(t.next, st, ptr),
    }
}

/// `m_search_target` over the trees `s` in turn.
pub open spec fn m_search_targets(s: Seq<AstView>, st: TypeFix, ptr: ASTSymbolValueType) -> Option<TypeFix>
    decreases s, 0nat,
{
    if s.len() == 0 {
        Some(st)
    } else {
        match m_search_target(s[0], st, ptr) {
            None => None,
            Some(st1) => m_search_targets(s.subrange(1, s.len() as int), st1, ptr),
        }
    }
}

/// The operands `ops` of an assignment to the variable `a` that is marked:
/// up to the first that is no `Long`, which unmarks `a` and ends the
/// scan, the mark moves from `a` to each operand's variable. `None` where
/// an operand's variable is missing, or where `a` has no type left to move.
pub open spec fn m_replace_ops(ops: Seq<AstView>, a: usize, st: TypeFix) -> Option<TypeFix>
    decreases ops.len(),
{
    if ops.len() == 0 {
        Some(st)
    } else {
        let o = ops[0];
        let rest = ops.subrange(1, ops.len() as int);
        let k = o.value as usize;
        if o.ast_type is Integer {
            m_replace_ops(rest, a, st)
        } else if !st.syms.contains_key(k) {
            None
        } else if st.syms[k].select_type != ASTSymbolValueType::Long {
            Some(TypeFix { rmap: st.rmap.remove(a), target: st.target.remove(a), ..st })
        } else if !st.rmap.contains_key(a) {
            None
        } else {
            m_replace_ops(
                rest,
                a,
                TypeFix { rmap: st.rmap.remove(a).insert(k, st.rmap[a]), target: st.target.remove(a).insert(k), ..st },
            )
        }
    }
}

/// The mark of the variable assigned by `t` moved to the variables it is
/// computed from (see `m_replace_ops`); a copy of a variable passes the type
/// on and keeps the mark.
pub open spec fn m_replace(t: AstView, st: TypeFix) -> Option<TypeFix> {
    let a = t.value as usize;
    if !st.target.contains(a) {
        Some(st)
    } else {
        match t.ast_type {
            AstTypeView::Assign(_) => {
                if t.next.len() == 0 {
                    None
                } else {
                    let f = t.next[0];
                    match f.ast_type {
                        AstTypeView::Operator(_) => m_replace_ops(f.next, a, st),
                        AstTypeView::Variable(_) => {
                            if !st.rmap.contains_key(a) {
                                None
                            } else {
                                let k = f.value as usize;
                                Some(TypeFix { rmap: st.rmap.insert(k, st.rmap[a]), target: st.target.insert(k), ..st })
                            }
                        },
                        _ => Some(st),
                    }
                }
            },
            _ => Some(st),
        }
    }
}

/// One statement of the pass: an assignment to a temporary pointer from
/// values that hold no pointer traces the type back (`m_search_target`),
/// then a marked assignment moves its mark (`m_replace`); `if`s, loops and
/// branches are passed over in turn. `None` where the pass would read a
/// missing variable, the pointer test of an unknown type, or a missing
/// type to move, which stops it.
pub open spec fn fix_stmt(x: AstView, st: TypeFix) -> Option<TypeFix>
    decreases x, 1nat,
{
    match x.ast_type {
        AstTypeView::Assign(is_ptr) => {
            let k = x.value as usize;
            if !st.syms.contains_key(k) || st.syms[k].select_type == ASTSymbolValueType::Unknown {
                None
            } else {
                let asym = st.syms[k];
                let st1 = if ptr_kind(asym.select_type) {
                    match exist_ptr(x, st.syms, false) {
                        None => None,
                        Some(ex) => if !ex && asym.scope == Scope::Temp && !is_ptr {
                            m_search_target(x, st, asym.select_type)
                        } else {
                            Some(st)
                        },
                    }
                } else {
                    Some(st)
                };
                match st1 {
                    None => None,
                    Some(st2) => if st2.target.contains(k) {
                        m_replace(x, st2)
                    } else {
                        Some(st2)
                    },
                }
            }
        },
        AstTypeView::If | AstTypeView::Loop | AstTypeView::True | AstTypeView::False => fix_stmts(x.next, st),
        _ => Some(st),
    }
}

/// The statements `s` passed over from the last to the first.
pub open spec fn fix_stmts(s: Seq<AstView>, st: TypeFix) -> Option<TypeFix>
    decreases s, 0nat,
{
    if s.len() == 0 {
        Some(st)
    } else {
        match fix_stmt(s.last(), st) {
            None => None,
            Some(st1) => fix_stmts(s.drop_last(), st1),
        }
    }
}

/// A variable made for a number no symbol has.
pub open spec fn fresh_symbol() -> ASTSymbol {
    ASTSymbol { id: usize::MAX, select_type: ASTSymbolValueType::Unknown, scope: Scope::Temp, address: Address::GR(0) }
}

/// The variables with each pointer type of `rmap` given, a fresh variable
/// made for a number that has none.
pub open spec fn apply_types(syms: Map<usize, ASTSymbol>, rmap: Map<usize, ASTSymbolValueType>) -> Map<
    usize,
    ASTSymbol,
> {
    Map::new(
        |k: usize| syms.contains_key(k) || rmap.contains_key(k),
        |k: usize|
            if rmap.contains_key(k) {
                retyped(if syms.contains_key(k) { syms[k] } else { fresh_symbol() }, rmap[k])
            } else {
                syms[k]
            },
    )
}

/// The variables of the function `t` with the pointer types that its
/// statements show; `None` where the pass stops (see `fix_stmt`).
pub open spec fn m_updata_type(t: AstView, syms: Map<usize, ASTSymbol>) -> Option<Map<usize, ASTSymbol>> {
    match fix_stmts(t.next, TypeFix { syms, rmap: Map::empty(), target: Set::empty() }) {
        None => None,
        Some(st) => Some(apply_types(st.syms, st.rmap)),
    }
}

/// Whether a known type is a pointer type (`Ptr` is one here).
fn is_type_ptr(t: &ASTSymbolValueType) -> (r: bool)
    requires
        *t != ASTSymbolValueType::Unknown,
    ensures
        r == ptr_kind(*t),
{
    match t {
        ASTSymbolValueType::UnsignedChar => false,
        ASTSymbolValueType::Char => false,
        ASTSymbolValueType::UnsignedShort => false,
        ASTSymbolValueType::Short => false,
        ASTSymbolValueType::UnsignedInt => false,
        ASTSymbolValueType::Int => false,
        ASTSymbolValueType::UnsignedLong => false,
        ASTSymbolValueType::Long => false,
        _ => true,
    }
}

/// Sets `is_exist` where a variable in `t` has a pointer type (see
/// `exist_ptr`); false where a variable is missing or of unknown type.
fn is_exist_ptr(t: &AbstractSyntaxTree, is_exist: &mut bool, ast_symbol_map: &HashMap<usize, ASTSymbol>) -> (ok: bool)
    ensures
        ok == exist_ptr(t.av(), ast_symbol_map@, *old(is_exist)) is Some,
        ok ==> Some(*final(is_exist)) == exist_ptr(t.av(), ast_symbol_map@, *old(is_exist)),
    decreases t,
{
    match &t.ast_type {
        ASTType::Variable(_) => {
            match ast_symbol_map.get(&(t.value as usize)) {
                None => false,
                Some(sym) => {
                    if sym.select_type == ASTSymbolValueType::Unknown {
                        return false;
                    }
                    if is_type_ptr(&sym.select_type) {
                        *is_exist = true;
                    }
                    true
                },
            }
        },
        _ => {
            let ghost s = t.av().next;
            let ghost goal = exist_ptr(t.av(), ast_symbol_map@, *old(is_exist));
            proof {
                lemma_children_av_len(t.next@);
                assert(s.subrange(0, s.len() as int) =~= s);
            }
            let mut i: usize = 0;
            while i < t.next.len()
                invariant
                    i <= t.next@.len(),
                    s == children_av(t.next@),
                    s.len() == t.next@.len(),
                    exist_ptrs(s.subrange(i as int, s.len() as int), ast_symbol_map@, *is_exist) == goal,
                    goal == exist_ptr(t.av(), ast_symbol_map@, *old(is_exist)),
                decreases t.next@.len() - i,
            {
                proof {
                    assert(decreases_to!(t => t.next));
                    assert(decreases_to!(t.next => t.next@));
                    assert(decreases_to!(t.next@ => t.next@[i as int]));
                    lemma_children_av_index(t.next@, i as int);
                    let r = s.subrange(i as int, s.len() as int);
                    assert(r[0] == s[i as int]);
                    assert(r.subrange(1, r.len() as int) =~= s.subrange(i as int + 1, s.len() as int));
                }
                if !is_exist_ptr(&t.next[i], is_exist, ast_symbol_map) {
                    return false;
                }
                i = i + 1;
            }
            proof {
                assert(s.subrange(i as int, s.len() as int) =~= Seq::<AstView>::empty());
            }
            true
        },
    }
}

/// Traces the pointer type `ptr_type` back through the assignments inside
/// `t` (see `m_search_target`); false where the pass would stop.
fn search_target(
    t: &AbstractSyntaxTree,
    ast_symbol_map: &mut HashMap<usize, ASTSymbol>,
    target: &mut HashSet<usize>,
    replace_map: &mut HashMap<usize, ASTSymbolValueType>,
    ptr_type: &ASTSymbolValueType,
) -> (ok: bool)
    ensures
        ok == m_search_target(t.av(), fix_state(old(ast_symbol_map), old(replace_map), old(target)), *ptr_type) is Some,
        ok ==> Some(fix_state(final(ast_symbol_map), final(replace_map), final(target))) == m_search_target(
            t.av(),
            fix_state(old(ast_symbol_map), old(replace_map), old(target)),
            *ptr_type,
        ),
    decreases t,
{
    let ghost goal = m_search_target(t.av(), fix_state(ast_symbol_map, replace_map, target), *ptr_type);
    proof {
        lemma_children_av_len(t.next@);
    }
    match &t.ast_type {
        ASTType::Assign(_) => {
            if t.next.len() == 0 {
                return false;
            }
            proof {
                lemma_children_av_index(t.next@, 0);
            }
            let first_ast = &t.next[0];
            match &first_ast.ast_type {
                ASTType::Operator(_) => {
                    let ghost ops = first_ast.av().next;
                    let ghost syms = ast_symbol_map@;
                    proof {
                        lemma_children_av_len(first_ast.next@);
                        assert(ops.subrange(0, ops.len() as int) =~= ops);
                    }
                    let mut long_n: usize = 0;
                    let mut id: u64 = 0;
                    let mut i: usize = 0;
                    while i < first_ast.next.len()
                        invariant
                            i <= first_ast.next@.len(),
                            ops == children_av(first_ast.next@),
                            ops.len() == first_ast.next@.len(),
                            ast_symbol_map@ == syms,
                            long_n <= i,
                            long_n > 0 ==> syms.contains_key(id as usize),
                            syms == old(ast_symbol_map)@,
                            t.av().ast_type is Assign,
                            t.av().next.len() > 0,
                            t.av().next[0] == first_ast.av(),
                            first_ast.av().ast_type is Operator,
                            goal == m_search_target(t.av(), fix_state(old(ast_symbol_map), old(replace_map), old(target)), *ptr_type),
                            long_scan(ops.subrange(i as int, ops.len() as int), syms, long_n as nat, id) == long_scan(
                                ops,
                                syms,
                                0,
                                0,
                            ),
                        decreases first_ast.next@.len() - i,
                    {
                        proof {
                            lemma_children_av_index(first_ast.next@, i as int);
                            let r = ops.subrange(i as int, ops.len() as int);
                            assert(r[0] == ops[i as int]);
                            assert(r.subrange(1, r.len() as int) =~= ops.subrange(i as int + 1, ops.len() as int));
                        }
                        let o = &first_ast.next[i];
                        if !matches!(o.ast_type, ASTType::Integer(_, _)) {
                            match ast_symbol_map.get(&(o.value as usize)) {
                                None => {
                                    return false;
                                },
                                Some(sym) => {
                                    if sym.select_type == ASTSymbolValueType::Long {
                                        long_n = long_n + 1;
                                        id = o.value;
                                    }
                                },
                            }
                        }
                        i = i + 1;
                    }
                    proof {
                        assert(ops.subrange(i as int, ops.len() as int) =~= Seq::<AstView>::empty());
                    }
                    if long_n == 1 {
                        let mut sym = *ast_symbol_map.get(&(id as usize)).unwrap();
                        sym.select_type = *ptr_type;
                        ast_symbol_map.insert(sym.id, sym);
                    } else {
                        let ghost st0 = fix_state(ast_symbol_map, replace_map, target);
                        let mut j: usize = 0;
                        while j < first_ast.next.len()
                            invariant
                                j <= first_ast.next@.len(),
                                ops == children_av(first_ast.next@),
                                ops.len() == first_ast.next@.len(),
                                ast_symbol_map@ == syms,
                                mark_longs(ops.subrange(j as int, ops.len() as int), fix_state(ast_symbol_map, replace_map, target), *ptr_type)
                                    == mark_longs(ops, st0, *ptr_type),
                            decreases first_ast.next@.len() - j,
                        {
                            proof {
                                lemma_children_av_index(first_ast.next@, j as int);
                                let r = ops.subrange(j as int, ops.len() as int);
                                assert(r[0] == ops[j as int]);
                                assert(r.subrange(1, r.len() as int) =~= ops.subrange(j as int + 1, ops.len() as int));
                            }
                            let o = &first_ast.next[j];
                            if matches!(o.ast_type, ASTType::Variable(_)) {
                                match ast_symbol_map.get(&(o.value as usize)) {
                                    Some(sym) => {
                                        if sym.select_type == ASTSymbolValueType::Long {
                                            target.insert(o.value as usize);
                                            replace_map.insert(o.value as usize, *ptr_type);
                                        }
                                    },
                                    None => {},
                                }
                            }
                            j = j + 1;
                        }
                        proof {
                            assert(ops.subrange(j as int, ops.len() as int) =~= Seq::<AstView>::empty());
                        }
                    }
                    true
                },
                ASTType::Variable(_) => {
                    match ast_symbol_map.get(&(first_ast.value as usize)) {
                        None => false,
                        Some(found) => {
                            let mut sym = *found;
                            sym.select_type = *ptr_type;
                            ast_symbol_map.insert(first_ast.value as usize, sym);
                            true
                        },
                    }
                },
                _ => true,
            }
        },
        _ => {
            let ghost s = t.av().next;
            proof {
                assert(s.subrange(0, s.len() as int) =~= s);
            }
            let mut i: usize = 0;
            while i < t.next.len()
                invariant
                    i <= t.next@.len(),
                    s == children_av(t.next@),
                    s.len() == t.next@.len(),
                    m_search_targets(s.subrange(i as int, s.len() as int), fix_state(ast_symbol_map, replace_map, target), *ptr_type)
                        == goal,
                    goal == m_search_target(t.av(), fix_state(old(ast_symbol_map), old(replace_map), old(target)), *ptr_type),
                decreases t.next@.len() - i,
            {
                proof {
                    assert(decreases_to!(t => t.next));
                    assert(decreases_to!(t.next => t.next@));
                    assert(decreases_to!(t.next@ => t.next@[i as int]));
                    lemma_children_av_index(t.next@, i as int);
                    let r = s.subrange(i as int, s.len() as int);
                    assert(r[0] == s[i as int]);
                    assert(r.subrange(1, r.len() as int) =~= s.subrange(i as int + 1, s.len() as int));
                }
                if !search_target(&t.next[i], ast_symbol_map, target, replace_map, ptr_type) {
                    return false;
                }
                i = i + 1;
            }
            proof {
                assert(s.subrange(i as int, s.len() as int) =~= Seq::<AstView>::empty());
            }
            true
        },
    }
}

/// Moves the mark of the variable assigned by `t` to the variables it is
/// computed from (see `m_replace`); false where the pass would stop.
fn replace(
    t: &AbstractSyntaxTree,
    ast_symbol_map: &HashMap<usize, ASTSymbol>,
    target: &mut HashSet<usize>,
    replace_map: &mut HashMap<usize, ASTSymbolValueType>,
) -> (ok: bool)
    ensures
        ok == m_replace(t.av(), fix_state(ast_symbol_map, old(replace_map), old(target))) is Some,
        ok ==> Some(fix_state(ast_symbol_map, final(replace_map), final(target))) == m_replace(
            t.av(),
            fix_state(ast_symbol_map, old(replace_map), old(target)),
        ),
{
    let assign_id = t.value;
    let a = assign_id as usize;
    if !target.contains(&a) {
        return true;
    }
    proof {
        lemma_children_av_len(t.next@);
    }
    match &t.ast_type {
        ASTType::Assign(_) => {
            if t.next.len() == 0 {
                return false;
            }
            proof {
                lemma_children_av_index(t.next@, 0);
            }
            let first_ast = &t.next[0];
            match &first_ast.ast_type {
                ASTType::Operator(_) => {
                    let ghost ops = first_ast.av().next;
                    let ghost goal = m_replace_ops(ops, a, fix_state(ast_symbol_map, replace_map, target));
                    proof {
                        lemma_children_av_len(first_ast.next@);
                        assert(ops.subrange(0, ops.len() as int) =~= ops);
                    }
                    let mut i: usize = 0;
                    while i < first_ast.next.len()
                        invariant
                            i <= first_ast.next@.len(),
                            ops == children_av(first_ast.next@),
                            ops.len() == first_ast.next@.len(),
                            a == t.value as usize,
                            m_replace_ops(ops.subrange(i as int, ops.len() as int), a, fix_state(ast_symbol_map, replace_map, target))
                                == goal,
                            goal == m_replace(t.av(), fix_state(ast_symbol_map, old(replace_map), old(target))),
                        decreases first_ast.next@.len() - i,
                    {
                        proof {
                            lemma_children_av_index(first_ast.next@, i as int);
                            let r = ops.subrange(i as int, ops.len() as int);
                            assert(r[0] == ops[i as int]);
                            assert(r.subrange(1, r.len() as int) =~= ops.subrange(i as int + 1, ops.len() as int));
                        }
                        let o = &first_ast.next[i];
                        if !matches!(o.ast_type, ASTType::Integer(_, _)) {
                            let operand_sym = match ast_symbol_map.get(&(o.value as usize)) {
                                None => {
                                    return false;
                                },
                                Some(sym) => sym,
                            };
                            if operand_sym.select_type != ASTSymbolValueType::Long {
                                target.remove(&a);
                                replace_map.remove(&a);
                                return true;
                            } else {
                                let size = match replace_map.get(&a) {
                                    None => {
                                        return false;
                                    },
                                    Some(size) => *size,
                                };
                                target.remove(&a);
                                replace_map.remove(&a);
                                replace_map.insert(o.value as usize, size);
                                target.insert(o.value as usize);
                            }
                        }
                        i = i + 1;
                    }
                    proof {
                        assert(ops.subrange(i as int, ops.len() as int) =~= Seq::<AstView>::empty());
                    }
                    true
                },
                ASTType::Variable(_) => {
                    match replace_map.get(&a) {
                        None => false,
                        Some(size) => {
                            let size = *size;
                            replace_map.insert(first_ast.value as usize, size);
                            target.insert(first_ast.value as usize);
                            true
                        },
                    }
                },
                _ => true,
            }
        },
        _ => true,
    }
}

/// One statement of the pass (see `fix_stmt`); false where the pass would
/// stop.
fn fix_statement(
    next: &AbstractSyntaxTree,
    ast_symbol_map: &mut HashMap<usize, ASTSymbol>,
    replace_map: &mut HashMap<usize, ASTSymbolValueType>,
    target: &mut HashSet<usize>,
) -> (ok: bool)
    ensures
        ok == fix_stmt(next.av(), fix_state(old(ast_symbol_map), old(replace_map), old(target))) is Some,
        ok ==> Some(fix_state(final(ast_symbol_map), final(replace_map), final(target))) == fix_stmt(
            next.av(),
            fix_state(old(ast_symbol_map), old(replace_map), old(target)),
        ),
    decreases next, 1nat,
{
    match &next.ast_type {
        ASTType::Assign(is_ptr) => {
            let assign_sym = match ast_symbol_map.get(&(next.value as usize)) {
                None => {
                    return false;
                },
                Some(sym) => *sym,
            };
            if assign_sym.select_type == ASTSymbolValueType::Unknown {
                return false;
            }
            if is_type_ptr(&assign_sym.select_type) {
                let mut is_exist = false;
                if !is_exist_ptr(next, &mut is_exist, ast_symbol_map) {
                    return false;
                }
                if !is_exist && assign_sym.scope == Scope::Temp && !*is_ptr {
                    if !search_target(next, ast_symbol_map, target, replace_map, &assign_sym.select_type) {
                        return false;
                    }
                }
            }
            if target.contains(&(next.value as usize)) {
                replace(next, ast_symbol_map, target, replace_map)
            } else {
                true
            }
        },
        ASTType::If | ASTType::Loop | ASTType::True | ASTType::False => {
            reverse_ast(next, ast_symbol_map, replace_map, target)
        },
        _ => true,
    }
}

/// Passes over the statements of `ast` from the last to the first (see
/// `fix_stmts`), into `if`s, loops and branches; false where the pass
/// would stop.
fn reverse_ast(
    ast: &AbstractSyntaxTree,
    ast_symbol_map: &mut HashMap<usize, ASTSymbol>,
    replace_map: &mut HashMap<usize, ASTSymbolValueType>,
    target: &mut HashSet<usize>,
) -> (ok: bool)
    ensures
        ok == fix_stmts(ast.av().next, fix_state(old(ast_symbol_map), old(replace_map), old(target))) is Some,
        ok ==> Some(fix_state(final(ast_symbol_map), final(replace_map), final(target))) == fix_stmts(
            ast.av().next,
            fix_state(old(ast_symbol_map), old(replace_map), old(target)),
        ),
    decreases ast, 0nat,
{
    let ghost s = ast.av().next;
    let ghost goal = fix_stmts(s, fix_state(ast_symbol_map, replace_map, target));
    proof {
        lemma_children_av_len(ast.next@);
        assert(s.take(s.len() as int) =~= s);
    }
    let mut i: usize = ast.next.len();
    while i > 0
        invariant
            i <= ast.next@.len(),
            s == children_av(ast.next@),
            s.len() == ast.next@.len(),
            fix_stmts(s.take(i as int), fix_state(ast_symbol_map, replace_map, target)) == goal,
            goal == fix_stmts(ast.av().next, fix_state(old(ast_symbol_map), old(replace_map), old(target))),
        decreases i,
    {
        i = i - 1;
        let ghost cur = fix_state(ast_symbol_map, replace_map, target);
        proof {
            assert(decreases_to!(ast => ast.next));
            assert(decreases_to!(ast.next => ast.next@));
            assert(decreases_to!(ast.next@ => ast.next@[i as int]));
            lemma_children_av_index(ast.next@, i as int);
            assert(s.take(i as int + 1).last() == s[i as int]);
            assert(s.take(i as int + 1).drop_last() =~= s.take(i as int));
            assert(fix_stmts(s.take(i as int + 1), cur) == goal);
        }
        if !fix_statement(&ast.next[i], ast_symbol_map, replace_map, target) {
            return false;
        }
    }
    proof {
        assert(s.take(0) =~= Seq::<AstView>::empty());
    }
    true
}

/// The variables `syms` with the types of `rmap` given to the numbers
/// `keys` (see `apply_types`).
pub open spec fn apply_some(syms: Map<usize, ASTSymbol>, rmap: Map<usize, ASTSymbolValueType>, keys: Set<usize>) -> Map<
    usize,
    ASTSymbol,
> {
    Map::new(
        |k: usize| syms.contains_key(k) || keys.contains(k),
        |k: usize|
            if keys.contains(k) {
                retyped(if syms.contains_key(k) { syms[k] } else { fresh_symbol() }, rmap[k])
            } else {
                syms[k]
            },
    )
}

/// Gives each variable of `replace_map` its type, making a fresh variable
/// for a number that has none (see `apply_types`).
fn give_types(ast_symbol_map: &mut HashMap<usize, ASTSymbol>, replace_map: &HashMap<usize, ASTSymbolValueType>)
    ensures
        final(ast_symbol_map)@ == apply_types(old(ast_symbol_map)@, replace_map@),
{
    let ghost syms0 = ast_symbol_map@;
    let ghost rm = replace_map@;
    let ghost pairs = spec_hash_map_iter(replace_map).remaining();
    proof {
        assert(apply_some(syms0, rm, Set::empty()) =~= syms0);
    }
    for (id, size) in it: replace_map.iter()
        invariant
            replace_map@ == rm,
            it.seq() == pairs,
            pairs == spec_hash_map_iter(replace_map).remaining(),
            pairs.no_duplicates(),
            ast_symbol_map@ == apply_some(
                syms0,
                rm,
                Set::new(|k: usize| exists|i: int| 0 <= i < it.index() && *(#[trigger] pairs[i]).0 == k),
            ),
    {
        let mut sym = match ast_symbol_map.get(id) {
            Some(s) => *s,
            None => ASTSymbol::new(usize::MAX),
        };
        sym.select_type = *size;
        ast_symbol_map.insert(*id, sym);
    }
}

/// Gives the variables of the function `ast` the pointer types that its
/// statements show: walking the statements from the last to the first, an
/// assignment to a temporary pointer from values that hold no pointer
/// traces its type back to the variables it is computed from, and each
/// later assignment to such a variable passes the type on further (see
/// `m_updata_type`). The tree is left as it was.
pub fn updata_type(ast: &mut AbstractSyntaxTree, ast_symbol_map: &mut HashMap<usize, ASTSymbol>)
    requires
        m_updata_type(old(ast).av(), old(ast_symbol_map)@) is Some,
    ensures
        final(ast).av() == old(ast).av(),
        Some(final(ast_symbol_map)@) == m_updata_type(old(ast).av(), old(ast_symbol_map)@),
{
    let mut replace_map = HashMap::<usize, ASTSymbolValueType>::new();
    let mut target = HashSet::<usize>::new();
    proof {
        assert(fix_state(ast_symbol_map, &replace_map, &target) == TypeFix {
            syms: ast_symbol_map@,
            rmap: Map::empty(),
            target: Set::empty(),
        });
    }
    reverse_ast(ast, ast_symbol_map, &mut replace_map, &mut target);
    give_types(ast_symbol_map, &replace_map);
}

/// A copy of the variables.
fn copy_symbols(m: &HashMap<usize, ASTSymbol>) -> (r: HashMap<usize, ASTSymbol>)
    ensures
        r@ == m@,
{
    let mut r = HashMap::<usize, ASTSymbol>::new();
    let ghost pairs = spec_hash_map_iter(m).remaining();
    proof {
        assert(r@ =~= Map::new(|k: usize| exists|i: int| 0 <= i < 0 && *(#[trigger] pairs[i]).0 == k, |k: usize| m@[k]));
    }
    for (k, v) in it: m.iter()
        invariant
            it.seq() == pairs,
            pairs == spec_hash_map_iter(m).remaining(),
            r@ == Map::new(|k: usize| exists|i: int| 0 <= i < it.index() && *(#[trigger] pairs[i]).0 == k, |k: usize| m@[k]),
    {
        r.insert(*k, *v);
    }
    proof {
        assert(r@ =~= m@);
    }
    r
}

/// `updata_type` where it goes through: true, with the variables typed as
/// `updata_type` types them; false, with the variables left as they were,
/// where the pass would read a missing variable, the pointer test of an
/// unknown type, or a missing type to move (see `m_updata_type`).
pub fn try_updata_type(ast: &mut AbstractSyntaxTree, ast_symbol_map: &mut HashMap<usize, ASTSymbol>) -> (ok: bool)
    ensures
        final(ast).av() == old(ast).av(),
        ok == m_updata_type(old(ast).av(), old(ast_symbol_map)@) is Some,
        ok ==> Some(final(ast_symbol_map)@) == m_updata_type(old(ast).av(), old(ast_symbol_map)@),
        !ok ==> final(ast_symbol_map)@ == old(ast_symbol_map)@,
{
    let mut syms = copy_symbols(ast_symbol_map);
    let mut replace_map = HashMap::<usize, ASTSymbolValueType>::new();
    let mut target = HashSet::<usize>::new();
    proof {
        assert(fix_state(&syms, &replace_map, &target) == TypeFix {
            syms: ast_symbol_map@,
            rmap: Map::empty(),
            target: Set::empty(),
        });
    }
    if !reverse_ast(ast, &mut syms, &mut replace_map, &mut target) {
        return false;
    }
    give_types(&mut syms, &replace_map);
    *ast_symbol_map = syms;
    true
}

} // verus!
