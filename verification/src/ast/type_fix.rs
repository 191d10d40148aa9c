use vstd::prelude::*;
use std::collections::{HashMap, HashSet};
use crate::ast::{
    AbstractSyntaxTree, ASTSymbol, ASTType, AstTypeView, AstView, children_av, is_known_type, is_ptr, spec_is_ptr,
    lemma_children_av_index, lemma_children_av_len,
};

verus! {

broadcast use {vstd::std_specs::hash::group_hash_axioms, vstd::std_specs::vec::group_vec_axioms};

/// Every variable in `t` has a symbol of known type.
pub open spec fn vars_known(t: AstView, syms: Map<usize, ASTSymbol>) -> bool
    decreases t,
{
    match t.ast_type {
        AstTypeView::Variable(_) => syms.contains_key(t.value as usize) && is_known_type(syms[t.value as usize].select_type),
        _ => forall|i: int| 0 <= i < t.next.len() ==> vars_known(#[trigger] t.next[i], syms),
    }
}

/// A variable in `t` has a pointer type.
pub open spec fn has_ptr_var(t: AstView, syms: Map<usize, ASTSymbol>) -> bool
    decreases t,
{
    match t.ast_type {
        AstTypeView::Variable(_) => spec_is_ptr(syms[t.value as usize].select_type),
        _ => exists|i: int| 0 <= i < t.next.len() && has_ptr_var(#[trigger] t.next[i], syms),
    }
}

/// The numbers of the variables in `t` that have no pointer type.
pub open spec fn plain_vars(t: AstView, syms: Map<usize, ASTSymbol>) -> Set<usize>
    decreases t,
{
    match t.ast_type {
        AstTypeView::Variable(_) => if spec_is_ptr(syms[t.value as usize].select_type) {
            Set::empty()
        } else {
            set![t.value as usize]
        },
        _ => Set::new(|k: usize| exists|i: int| 0 <= i < t.next.len() && plain_vars(#[trigger] t.next[i], syms).contains(k)),
    }
}

/// The statements `s` each assign a variable with a symbol of known type,
/// and where that type is a pointer, the variables they read are known too.
pub open spec fn ptr_statements_known(s: Seq<AstView>, syms: Map<usize, ASTSymbol>) -> bool {
    forall|i: int| 0 <= i < s.len() ==> {
        let k = (#[trigger] s[i]).value as usize;
        &&& syms.contains_key(k)
        &&& is_known_type(syms[k].select_type)
        &&& spec_is_ptr(syms[k].select_type) ==> vars_known(s[i], syms)
    }
}

/// Sets `is_exist` where a variable in `ir_ast` has a pointer type, and adds
/// to `target` the variables that have none.
fn is_exist_ptr(ir_ast: &AbstractSyntaxTree, is_exist: &mut bool, ast_symbol_map: &HashMap<usize, ASTSymbol>, target: &mut HashSet<usize>)
    requires
        vars_known(ir_ast.av(), ast_symbol_map@),
    ensures
        *final(is_exist) == (*old(is_exist) || has_ptr_var(ir_ast.av(), ast_symbol_map@)),
        final(target)@ == old(target)@.union(plain_vars(ir_ast.av(), ast_symbol_map@)),
    decreases ir_ast,
{
    match &ir_ast.ast_type {
        ASTType::Variable(_) => {
            let sym = ast_symbol_map.get(&(ir_ast.value as usize)).unwrap();
            if is_ptr(&sym.select_type) {
                *is_exist = true;
                proof {
                    assert(target@.union(Set::<usize>::empty()) =~= target@);
                }
            } else {
                target.insert(ir_ast.value as usize);
                proof {
                    assert(old(target)@.insert(ir_ast.value as usize) =~= old(target)@.union(set![ir_ast.value as usize]));
                }
            }
        },
        _ => {
            let ghost s = ir_ast.av().next;
            let ghost e0 = *is_exist;
            let ghost t0 = target@;
            proof {
                lemma_children_av_len(ir_ast.next@);
                assert(t0.union(Set::<usize>::empty()) =~= t0);
            }
            let mut i: usize = 0;
            while i < ir_ast.next.len()
                invariant
                    i <= ir_ast.next@.len(),
                    s == children_av(ir_ast.next@),
                    s.len() == ir_ast.next@.len(),
                    forall|j: int| 0 <= j < s.len() ==> vars_known(#[trigger] s[j], ast_symbol_map@),
                    *is_exist == (e0 || exists|j: int| 0 <= j < i && has_ptr_var(#[trigger] s[j], ast_symbol_map@)),
                    target@ == t0.union(
                        Set::new(|k: usize| exists|j: int| 0 <= j < i && plain_vars(#[trigger] s[j], ast_symbol_map@).contains(k)),
                    ),
                decreases ir_ast.next@.len() - i,
            {
                proof {
                    assert(decreases_to!(ir_ast => ir_ast.next));
                    assert(decreases_to!(ir_ast.next => ir_ast.next@));
                    assert(decreases_to!(ir_ast.next@ => ir_ast.next@[i as int]));
                    lemma_children_av_index(ir_ast.next@, i as int);
                }
                let ghost tb = target@;
                let ghost eb = *is_exist;
                is_exist_ptr(&ir_ast.next[i], is_exist, ast_symbol_map, target);
                proof {
                    let si = s[i as int];
                    assert(target@ =~= t0.union(
                        Set::new(|k: usize| exists|j: int| 0 <= j < i + 1 && plain_vars(#[trigger] s[j], ast_symbol_map@).contains(k)),
                    )) by {
                        assert forall|k: usize| target@.contains(k) implies t0.union(
                            Set::new(|k: usize| exists|j: int| 0 <= j < i + 1 && plain_vars(#[trigger] s[j], ast_symbol_map@).contains(k)),
                        ).contains(k) by {
                            if plain_vars(si, ast_symbol_map@).contains(k) {
                                assert(plain_vars(s[i as int], ast_symbol_map@).contains(k));
                            }
                        }
                    }
                    if has_ptr_var(si, ast_symbol_map@) {
                        assert(has_ptr_var(s[i as int], ast_symbol_map@));
                    }
                }
                i = i + 1;
            }
            proof {
                assert(target@ =~= t0.union(plain_vars(ir_ast.av(), ast_symbol_map@)));
            }
        },
    }
}

/// Walks the statements of `irs_ast` from the last to the first, testing
/// for each assignment to a pointer whether the variables it reads hold a
/// pointer; nothing is changed by it.
pub fn updata_ptr(irs_ast: &mut AbstractSyntaxTree, ast_symbol_map: &mut HashMap<usize, ASTSymbol>)
    requires
        ptr_statements_known(old(irs_ast).av().next, old(ast_symbol_map)@),
    ensures
        final(irs_ast).av() == old(irs_ast).av(),
        final(ast_symbol_map)@ == old(ast_symbol_map)@,
{
    let ghost s = irs_ast.av().next;
    proof {
        lemma_children_av_len(irs_ast.next@);
    }
    let mut i: usize = irs_ast.next.len();
    while i > 0
        invariant
            i <= irs_ast.next@.len(),
            s == children_av(irs_ast.next@),
            s.len() == irs_ast.next@.len(),
            ptr_statements_known(s, ast_symbol_map@),
        decreases i,
    {
        i = i - 1;
        proof {
            lemma_children_av_index(irs_ast.next@, i as int);
        }
        let ir_ast = &irs_ast.next[i];
        let sym = ast_symbol_map.get(&(ir_ast.value as usize)).unwrap();
        if is_ptr(&sym.select_type) {
            let mut is_exist = false;
            let mut target = HashSet::<usize>::new();
            is_exist_ptr(ir_ast, &mut is_exist, ast_symbol_map, &mut target);
        }
    }
}

} // verus!
