use vstd::prelude::*;
use std::collections::HashMap;
use crate::ast::{
    AbstractSyntaxTree, ASTSymbol, ASTType, AstTypeView, AstView, Scope, spec_is_ptr, is_known_type, is_type_ptr,
    children_av, lemma_children_av_index, lemma_children_av_len, same_ast_type,
};
use crate::ast::text::{
    dec_text, num_text, value_type_name, op_text, push_str, push_u64, number_to_string, astvaluetype_to_string,
    operator_to_string, cond_op_text, rel_text, relation_to_string, convert_operator_to_string_in_condiction,
};
use crate::data_convert::{push_char, data_string, start_in_data, in_segment, has_terminator, get_c_string_from_data};
use crate::ast::text::{tabs, return_type_name, get_indent, return_type_to_string};
use crate::ast::assign_refined::{refined_bytes, refine_ok, refine_assign_str_bracket};
use vstd::utf8::{encode_utf8, decode_utf8};

verus! {

broadcast use {vstd::std_specs::hash::group_hash_axioms, vstd::std_specs::vec::group_vec_axioms};

/// A variable leaf reads a pointer's value: a temporary taken by address,
/// or a local read by value, whose type is a pointer.
pub open spec fn ptr_value_leaf(sym: ASTSymbol, is_val: bool) -> bool {
    ||| sym.scope == Scope::Temp && !is_val && spec_is_ptr(sym.select_type)
    ||| sym.scope == Scope::Local && is_val && spec_is_ptr(sym.select_type)
}

/// Some variable leaf of `t` (not looking below a variable) reads a
/// pointer's value.
pub open spec fn has_ptr_value(t: AstView, syms: Map<usize, ASTSymbol>) -> bool
    decreases t,
{
    match t.ast_type {
        AstTypeView::Variable(is_val) => ptr_value_leaf(syms[t.value as usize], is_val),
        _ => exists|i: int| 0 <= i < t.next.len() && has_ptr_value(#[trigger] t.next[i], syms),
    }
}

/// Each variable leaf of `t` has a symbol, of a known type where the test
/// of `ptr_value_leaf` reaches its type.
pub open spec fn ptr_scan_ok(t: AstView, syms: Map<usize, ASTSymbol>) -> bool
    decreases t,
{
    match t.ast_type {
        AstTypeView::Variable(is_val) => {
            &&& syms.contains_key(t.value as usize)
            &&& {
                let sym = syms[t.value as usize];
                (sym.scope == Scope::Temp && !is_val) || (sym.scope == Scope::Local && is_val) ==> is_known_type(sym.select_type)
            }
        },
        _ => forall|i: int| 0 <= i < t.next.len() ==> ptr_scan_ok(#[trigger] t.next[i], syms),
    }
}

/// Whether some variable leaf of `ast` reads a pointer's value (see
/// `has_ptr_value`); `is_exist_ptr` is set where one does, and kept as it
/// was otherwise.
fn test_is_value(ast: &AbstractSyntaxTree, ast_symbol_map: &HashMap<usize, ASTSymbol>, is_exist_ptr: &mut bool)
    requires
        ptr_scan_ok(ast.av(), ast_symbol_map@),
    ensures
        *final(is_exist_ptr) == (*old(is_exist_ptr) || has_ptr_value(ast.av(), ast_symbol_map@)),
    decreases ast,
{
    match &ast.ast_type {
        ASTType::Variable(is_val) => {
            let sym = *ast_symbol_map.get(&(ast.value as usize)).unwrap();
            if (sym.scope == Scope::Temp && *is_val == false && is_type_ptr(&sym.select_type) == true) || (sym.scope
                == Scope::Local && *is_val == true && is_type_ptr(&sym.select_type) == true) {
                *is_exist_ptr = true;
            }
        },
        _ => {
            let ghost s = ast.av().next;
            proof {
                lemma_children_av_len(ast.next@);
            }
            let mut i: usize = 0;
            while i < ast.next.len()
                invariant
                    i <= ast.next@.len(),
                    s == children_av(ast.next@),
                    s.len() == ast.next@.len(),
                    forall|j: int| 0 <= j < s.len() ==> ptr_scan_ok(#[trigger] s[j], ast_symbol_map@),
                    *is_exist_ptr == (*old(is_exist_ptr) || exists|j: int| 0 <= j < i && has_ptr_value(#[trigger] s[j], ast_symbol_map@)),
                decreases ast.next@.len() - i,
            {
                proof {
                    assert(decreases_to!(ast => ast.next));
                    assert(decreases_to!(ast.next => ast.next@));
                    assert(decreases_to!(ast.next@ => ast.next@[i as int]));
                    lemma_children_av_index(ast.next@, i as int);
                }
                let ghost before = *is_exist_ptr;
                test_is_value(&ast.next[i], ast_symbol_map, is_exist_ptr);
                proof {
                    if has_ptr_value(s[i as int], ast_symbol_map@) {
                        assert(exists|j: int| 0 <= j < i + 1 && has_ptr_value(#[trigger] s[j], ast_symbol_map@));
                    }
                }
                i = i + 1;
            }
        },
    }
}

/// The C text of an assignment tree and the declared variables after it:
/// an assignment declares its variable (by the type of its symbol) the
/// first time, then `varN = ` and the right side, with a `*` in front where
/// the variable or the right side stands for a pointer's value; an
/// operation is bracketed, `(a op b)`, over its first and last operand; a
/// variable is `&`-taken (a global one is `g_varN`) or dereferenced by its
/// scope; a number is written in decimal.
pub open spec fn assign_text(t: AstView, syms: Map<usize, ASTSymbol>, ts: Map<usize, bool>) -> (Seq<char>, Map<usize, bool>)
    decreases t, 1nat,
{
    match t.ast_type {
        AstTypeView::Assign(is_ptr) => {
            let (head, ts1, deref) = assign_head(t, is_ptr, syms, ts);
            let (rest, ts2) = assign_all(t.next, syms, ts1);
            (head + "var"@ + dec_text(t.value as int) + " = "@ + deref + rest, ts2)
        },
        AstTypeView::Operator(op) => if t.next.len() > 0 {
            let (a, ts1) = assign_text(t.next[0], syms, ts);
            let (c, ts2) = assign_text(t.next.last(), syms, ts1);
            ("("@ + a + " "@ + op_text(op) + " "@ + c + ")"@, ts2)
        } else {
            (Seq::empty(), ts)
        },
        AstTypeView::Variable(is_ptr) => {
            let sym = syms[t.value as usize];
            let name = dec_text(t.value as int);
            let text = match sym.scope {
                Scope::Global => (if !is_ptr { "&"@ } else { Seq::empty() }) + "g_var"@ + name,
                Scope::Local => (if !is_ptr { "&"@ } else { Seq::empty() }) + "var"@ + name,
                Scope::Temp => (if is_ptr { "*"@ } else { Seq::empty() }) + "var"@ + name,
            };
            (text, ts)
        },
        AstTypeView::Integer(signed, _) => (num_text(t.value, signed), ts),
        _ => (Seq::empty(), ts),
    }
}

/// The start of an assignment to the variable of `t`: its type where it is
/// declared here, else a `*` where a temporary is now written through; the
/// declared variables after it; and the `*` in front of the right side
/// where the variable stands for a value and the right side reads a
/// pointer's value.
pub open spec fn assign_head(t: AstView, is_ptr: bool, syms: Map<usize, ASTSymbol>, ts: Map<usize, bool>) -> (Seq<char>, Map<usize, bool>, Seq<char>) {
    let v = t.value as usize;
    let sym = syms[v];
    let exist = has_ptr_value(t, syms);
    let (head, ts1, is_value) = if !ts.contains_key(v) {
        let iv = if sym.scope == Scope::Temp && spec_is_ptr(sym.select_type) && !is_ptr {
            false
        } else if sym.scope == Scope::Local && spec_is_ptr(sym.select_type) && is_ptr {
            false
        } else {
            exist
        };
        (value_type_name(sym.select_type) + " "@, ts.insert(v, is_ptr), iv)
    } else if ts[v] != is_ptr && sym.scope == Scope::Temp && is_ptr {
        ("*"@, ts, true)
    } else {
        (Seq::empty(), ts, false)
    };
    (head, ts1, if is_value && exist { "*"@ } else { Seq::empty() })
}

/// The C texts of the trees `s` in turn (see `assign_text`).
pub open spec fn assign_all(s: Seq<AstView>, syms: Map<usize, ASTSymbol>, ts: Map<usize, bool>) -> (Seq<char>, Map<usize, bool>)
    decreases s, 0nat,
{
    if s.len() == 0 {
        (Seq::empty(), ts)
    } else {
        let (a, ts1) = assign_all(s.drop_last(), syms, ts);
        let (b, ts2) = assign_text(s.last(), syms, ts1);
        (a + b, ts2)
    }
}

/// Writing the assignment tree `t` meets symbols for its variables, types
/// that are known where their pointer-ness is asked, and operands under
/// each operation.
pub open spec fn assign_ok(t: AstView, syms: Map<usize, ASTSymbol>, ts: Map<usize, bool>) -> bool
    decreases t, 1nat,
{
    match t.ast_type {
        AstTypeView::Assign(is_ptr) => {
            let v = t.value as usize;
            let sym = syms[v];
            let ts1 = if !ts.contains_key(v) { ts.insert(v, is_ptr) } else { ts };
            &&& syms.contains_key(v)
            &&& !ts.contains_key(v) ==> ptr_scan_ok(t, syms) && ((sym.scope == Scope::Temp || sym.scope == Scope::Local)
                ==> is_known_type(sym.select_type))
            &&& ts.contains_key(v) && ts[v] != is_ptr && sym.scope == Scope::Temp && is_ptr ==> ptr_scan_ok(t, syms)
            &&& assign_all_ok(t.next, syms, ts1)
        },
        AstTypeView::Operator(_) => {
            &&& t.next.len() > 0
            &&& assign_ok(t.next[0], syms, ts)
            &&& assign_ok(t.next.last(), syms, assign_text(t.next[0], syms, ts).1)
        },
        AstTypeView::Variable(_) => syms.contains_key(t.value as usize),
        _ => true,
    }
}

/// Writing each of the trees `s` in turn is fine (see `assign_ok`).
pub open spec fn assign_all_ok(s: Seq<AstView>, syms: Map<usize, ASTSymbol>, ts: Map<usize, bool>) -> bool
    decreases s, 0nat,
{
    s.len() == 0 || (assign_all_ok(s.drop_last(), syms, ts) && assign_ok(s.last(), syms, assign_all(s.drop_last(), syms, ts).1))
}

proof fn lemma_assign_all_ok_prefix(s: Seq<AstView>, syms: Map<usize, ASTSymbol>, ts: Map<usize, bool>, k: int)
    requires
        assign_all_ok(s, syms, ts),
        0 <= k <= s.len(),
    ensures
        assign_all_ok(s.take(k), syms, ts),
    decreases s.len(),
{
    if k == s.len() {
        assert(s.take(k) =~= s);
    } else {
        lemma_assign_all_ok_prefix(s.drop_last(), syms, ts, k);
        assert(s.drop_last().take(k) =~= s.take(k));
    }
}

/// Appends the C text of the assignment tree `tree` to `assign_str` and
/// records the variables it declares in `type_set` (see `assign_text`).
fn assign_to_string(
    tree: &AbstractSyntaxTree,
    assign_str: &mut String,
    ast_symbol_map: &HashMap<usize, ASTSymbol>,
    type_set: &mut HashMap<usize, bool>,
)
    requires
        assign_ok(tree.av(), ast_symbol_map@, old(type_set)@),
    ensures
        final(assign_str)@ == old(assign_str)@ + assign_text(tree.av(), ast_symbol_map@, old(type_set)@).0,
        final(type_set)@ == assign_text(tree.av(), ast_symbol_map@, old(type_set)@).1,
    decreases tree, 1nat,
{
    let ghost syms = ast_symbol_map@;
    let ghost t = tree.av();
    proof {
        lemma_children_av_len(tree.next@);
    }
    match &tree.ast_type {
        ASTType::Assign(is_ptr) => {
            let ghost ts0 = type_set@;
            assign_declare(tree, *is_ptr, assign_str, ast_symbol_map, type_set);
            let ghost a1 = assign_str@;
            assign_children(tree, assign_str, ast_symbol_map, type_set);
            proof {
                let h = assign_head(t, *is_ptr, syms, ts0);
                assert(assign_str@ =~= old(assign_str)@ + (h.0 + "var"@ + dec_text(tree.value as int) + " = "@ + h.2
                    + assign_all(t.next, syms, h.1).0));
            }
        },
        ASTType::Operator(op) => {
            proof {
                assert(decreases_to!(tree => tree.next));
                assert(decreases_to!(tree.next => tree.next@));
                assert(decreases_to!(tree.next@ => tree.next@[0]));
                assert(decreases_to!(tree.next@ => tree.next@[tree.next@.len() - 1]));
                lemma_children_av_index(tree.next@, 0);
                lemma_children_av_index(tree.next@, tree.next@.len() - 1);
            }
            push_str(assign_str, "(");
            assign_to_string(&tree.next[0], assign_str, ast_symbol_map, type_set);
            push_str(assign_str, " ");
            operator_to_string(assign_str, op);
            push_str(assign_str, " ");
            let last = tree.next.len() - 1;
            assign_to_string(&tree.next[last], assign_str, ast_symbol_map, type_set);
            push_str(assign_str, ")");
        },
        ASTType::Variable(is_ptr) => {
            let sym = *ast_symbol_map.get(&(tree.value as usize)).unwrap();
            match &sym.scope {
                Scope::Global => {
                    if !*is_ptr {
                        push_str(assign_str, "&");
                    }
                    push_str(assign_str, "g_var");
                    push_u64(assign_str, tree.value);
                },
                Scope::Local => {
                    if !*is_ptr {
                        push_str(assign_str, "&");
                    }
                    push_str(assign_str, "var");
                    push_u64(assign_str, tree.value);
                },
                Scope::Temp => {
                    if *is_ptr {
                        push_str(assign_str, "*");
                    }
                    push_str(assign_str, "var");
                    push_u64(assign_str, tree.value);
                },
            }
        },
        ASTType::Integer(is_signed, _) => {
            number_to_string(assign_str, tree.value, *is_signed);
        },
        _ => {
            proof {
                assert(old(assign_str)@ + Seq::<char>::empty() =~= old(assign_str)@);
            }
        },
    }
}

/// Appends the start of the assignment `tree` to `assign_str`, up to its
/// right side (see `assign_head`).
fn assign_declare(
    tree: &AbstractSyntaxTree,
    is_ptr: bool,
    assign_str: &mut String,
    ast_symbol_map: &HashMap<usize, ASTSymbol>,
    type_set: &mut HashMap<usize, bool>,
)
    requires
        tree.ast_type@ == AstTypeView::Assign(is_ptr),
        assign_ok(tree.av(), ast_symbol_map@, old(type_set)@),
    ensures
        ({
            let h = assign_head(tree.av(), is_ptr, ast_symbol_map@, old(type_set)@);
            &&& final(assign_str)@ == old(assign_str)@ + (h.0 + "var"@ + dec_text(tree.value as int) + " = "@ + h.2)
            &&& final(type_set)@ == h.1
        }),
{
    let v = tree.value as usize;
    let sym = *ast_symbol_map.get(&v).unwrap();
    let mut is_value = false;
    match type_set.get(&v) {
        None => {
            astvaluetype_to_string(assign_str, &sym.select_type);
            push_str(assign_str, " ");
            type_set.insert(v, is_ptr);
            let mut exist_ptr = false;
            test_is_value(tree, ast_symbol_map, &mut exist_ptr);
            if exist_ptr == true {
                is_value = true;
            }
            match &sym.scope {
                Scope::Temp => {
                    if is_type_ptr(&sym.select_type) {
                        if is_ptr == false {
                            is_value = false;
                        }
                    }
                },
                Scope::Local => {
                    if is_type_ptr(&sym.select_type) {
                        if is_ptr == true {
                            is_value = false;
                        }
                    }
                },
                Scope::Global => {},
            }
        },
        Some(type_is_ptr) => {
            if *type_is_ptr != is_ptr {
                match &sym.scope {
                    Scope::Temp => {
                        if is_ptr {
                            push_str(assign_str, "*");
                            is_value = true;
                        }
                    },
                    Scope::Local => {},
                    Scope::Global => {},
                }
            }
        },
    }
    let ghost mid = assign_str@;
    push_str(assign_str, "var");
    push_u64(assign_str, tree.value);
    push_str(assign_str, " = ");
    let ghost before_deref = assign_str@;
    if is_value {
        let mut is_exist_ptr = false;
        test_is_value(tree, ast_symbol_map, &mut is_exist_ptr);
        if is_exist_ptr {
            push_str(assign_str, "*");
        }
    }
    proof {
        let h = assign_head(tree.av(), is_ptr, ast_symbol_map@, old(type_set)@);
        assert(mid =~= old(assign_str)@ + h.0);
        assert(assign_str@ =~= before_deref + h.2);
        assert(assign_str@ =~= old(assign_str)@ + (h.0 + "var"@ + dec_text(tree.value as int) + " = "@ + h.2));
    }
}

/// Appends the C texts of the children of `tree` in turn (see `assign_all`).
fn assign_children(
    tree: &AbstractSyntaxTree,
    assign_str: &mut String,
    ast_symbol_map: &HashMap<usize, ASTSymbol>,
    type_set: &mut HashMap<usize, bool>,
)
    requires
        assign_all_ok(tree.av().next, ast_symbol_map@, old(type_set)@),
    ensures
        final(assign_str)@ == old(assign_str)@ + assign_all(tree.av().next, ast_symbol_map@, old(type_set)@).0,
        final(type_set)@ == assign_all(tree.av().next, ast_symbol_map@, old(type_set)@).1,
    decreases tree, 0nat,
{
    let ghost syms = ast_symbol_map@;
    let ghost s = tree.av().next;
    let ghost a0 = assign_str@;
    let ghost ts1 = type_set@;
    proof {
        lemma_children_av_len(tree.next@);
        assert(s.take(0) =~= Seq::<AstView>::empty());
        assert(a0 + Seq::<char>::empty() =~= a0);
    }
    let mut i: usize = 0;
    while i < tree.next.len()
        invariant
            i <= tree.next@.len(),
            s == children_av(tree.next@),
            s.len() == tree.next@.len(),
            assign_all_ok(s, syms, ts1),
            ast_symbol_map@ == syms,
            assign_str@ == a0 + assign_all(s.take(i as int), syms, ts1).0,
            type_set@ == assign_all(s.take(i as int), syms, ts1).1,
        decreases tree.next@.len() - i,
    {
        proof {
            assert(decreases_to!(tree => tree.next));
            assert(decreases_to!(tree.next => tree.next@));
            assert(decreases_to!(tree.next@ => tree.next@[i as int]));
            lemma_children_av_index(tree.next@, i as int);
            assert(s.take(i as int + 1).drop_last() =~= s.take(i as int));
            assert(s.take(i as int + 1).last() == s[i as int]);
            lemma_assign_all_ok_prefix(s, syms, ts1, i as int + 1);
        }
        let ghost r = assign_all(s.take(i as int), syms, ts1);
        assign_to_string(&tree.next[i], assign_str, ast_symbol_map, type_set);
        proof {
            let b = assign_text(s[i as int], syms, r.1);
            assert(assign_str@ =~= a0 + (r.0 + b.0));
        }
        i = i + 1;
    }
    proof {
        assert(s.take(i as int) =~= s);
    }
}

/// Whether two trees are equal: the same kind, value and children.
pub(crate) fn same_tree(a: &AbstractSyntaxTree, b: &AbstractSyntaxTree) -> (r: bool)
    ensures
        r == (a.av() == b.av()),
    decreases a,
{
    proof {
        lemma_children_av_len(a.next@);
        lemma_children_av_len(b.next@);
    }
    if !same_ast_type(&a.ast_type, &b.ast_type) || a.value != b.value || a.next.len() != b.next.len() {
        return false;
    }
    let mut i: usize = 0;
    while i < a.next.len()
        invariant
            i <= a.next@.len(),
            a.next@.len() == b.next@.len(),
            children_av(a.next@).len() == a.next@.len(),
            children_av(b.next@).len() == b.next@.len(),
            forall|j: int| 0 <= j < i ==> children_av(a.next@)[j] == children_av(b.next@)[j],
        decreases a.next@.len() - i,
    {
        proof {
            assert(decreases_to!(a => a.next));
            assert(decreases_to!(a.next => a.next@));
            assert(decreases_to!(a.next@ => a.next@[i as int]));
            lemma_children_av_index(a.next@, i as int);
            lemma_children_av_index(b.next@, i as int);
        }
        if !same_tree(&a.next[i], &b.next[i]) {
            proof {
                assert(children_av(a.next@)[i as int] != children_av(b.next@)[i as int]);
            }
            return false;
        }
        i = i + 1;
    }
    proof {
        assert(children_av(a.next@) =~= children_av(b.next@));
    }
    true
}

/// The C text of an operand of a condition: a variable by the number of
/// its symbol, a number in decimal.
pub open spec fn cond_operand_text(o: AstView, syms: Map<usize, ASTSymbol>) -> Seq<char> {
    match o.ast_type {
        AstTypeView::Variable(_) => "var"@ + dec_text(syms[o.value as usize].id as int),
        AstTypeView::Integer(signed, _) => num_text(o.value, signed),
        _ => Seq::empty(),
    }
}

/// An operand of a condition is a variable with a symbol, or a number.
pub open spec fn cond_operand_ok(o: AstView, syms: Map<usize, ASTSymbol>) -> bool {
    match o.ast_type {
        AstTypeView::Variable(_) => syms.contains_key(o.value as usize),
        AstTypeView::Integer(_, _) => true,
        _ => false,
    }
}

/// The C text of a combination of conditions: the conditions of a
/// `Condictions` node one after another; those under an operator joined by
/// it (`||`, `&&`), with no join after a child equal to the last; a
/// condition as its first operand, its comparison and its last operand.
pub open spec fn cond_text(t: AstView, syms: Map<usize, ASTSymbol>) -> Seq<char>
    decreases t, 1nat,
{
    match t.ast_type {
        AstTypeView::Condictions => conds_text(t.next, syms),
        AstTypeView::Operator(o) => joined_text(t.next, t.next.last(), o, syms),
        AstTypeView::Condiction(r) => {
            let first = if t.next.len() > 0 { cond_operand_text(t.next[0], syms) } else { Seq::empty() };
            let last = if t.next.len() > 0 { cond_operand_text(t.next.last(), syms) } else { Seq::empty() };
            first + " "@ + rel_text(r) + " "@ + last
        },
        _ => Seq::empty(),
    }
}

/// The C texts of the conditions `s`, one after another.
pub open spec fn conds_text(s: Seq<AstView>, syms: Map<usize, ASTSymbol>) -> Seq<char>
    decreases s, 0nat,
{
    if s.len() == 0 {
        Seq::empty()
    } else {
        conds_text(s.drop_last(), syms) + cond_text(s.last(), syms)
    }
}

/// The C texts of the conditions `s` joined by `o`, with no join after one
/// equal to `last`.
pub open spec fn joined_text(s: Seq<AstView>, last: AstView, o: crate::ast::Operator, syms: Map<usize, ASTSymbol>) -> Seq<char>
    decreases s, 0nat,
{
    if s.len() == 0 {
        Seq::empty()
    } else {
        joined_text(s.drop_last(), last, o, syms) + cond_text(s.last(), syms) + if s.last() != last {
            " "@ + cond_op_text(o) + " "@
        } else {
            Seq::empty()
        }
    }
}

/// Each condition's operands are variables with symbols or numbers.
pub open spec fn cond_ok(t: AstView, syms: Map<usize, ASTSymbol>) -> bool
    decreases t,
{
    match t.ast_type {
        AstTypeView::Condictions | AstTypeView::Operator(_) => forall|i: int| 0 <= i < t.next.len() ==> cond_ok(#[trigger] t.next[i], syms),
        AstTypeView::Condiction(_) => t.next.len() > 0 ==> cond_operand_ok(t.next[0], syms) && cond_operand_ok(t.next.last(), syms),
        _ => true,
    }
}

/// Appends the C text of a condition operand (see `cond_operand_text`).
fn push_cond_operand(conds_str: &mut String, o: &AbstractSyntaxTree, ast_symbol_map: &HashMap<usize, ASTSymbol>)
    requires
        cond_operand_ok(o.av(), ast_symbol_map@),
    ensures
        final(conds_str)@ == old(conds_str)@ + cond_operand_text(o.av(), ast_symbol_map@),
{
    match &o.ast_type {
        ASTType::Variable(_) => {
            let symbol = *ast_symbol_map.get(&(o.value as usize)).unwrap();
            push_str(conds_str, "var");
            push_u64(conds_str, symbol.id as u64);
        },
        ASTType::Integer(is_signed, _) => {
            number_to_string(conds_str, o.value, *is_signed);
        },
        _ => {},
    }
}

/// Appends the C text of the combination of conditions `tree` (see
/// `cond_text`).
fn get_condictions_str(tree: &AbstractSyntaxTree, conds_str: &mut String, ast_symbol_map: &HashMap<usize, ASTSymbol>)
    requires
        cond_ok(tree.av(), ast_symbol_map@),
    ensures
        final(conds_str)@ == old(conds_str)@ + cond_text(tree.av(), ast_symbol_map@),
    decreases tree,
{
    let ghost syms = ast_symbol_map@;
    let ghost s = tree.av().next;
    let ghost c0 = conds_str@;
    proof {
        lemma_children_av_len(tree.next@);
        assert(s.take(0) =~= Seq::<AstView>::empty());
        assert(c0 + Seq::<char>::empty() =~= c0);
    }
    match &tree.ast_type {
        ASTType::Condictions => {
            let mut i: usize = 0;
            while i < tree.next.len()
                invariant
                    i <= tree.next@.len(),
                    s == children_av(tree.next@),
                    s.len() == tree.next@.len(),
                    forall|j: int| 0 <= j < s.len() ==> cond_ok(#[trigger] s[j], syms),
                    ast_symbol_map@ == syms,
                    conds_str@ == c0 + conds_text(s.take(i as int), syms),
                decreases tree.next@.len() - i,
            {
                proof {
                    assert(decreases_to!(tree => tree.next));
                    assert(decreases_to!(tree.next => tree.next@));
                    assert(decreases_to!(tree.next@ => tree.next@[i as int]));
                    lemma_children_av_index(tree.next@, i as int);
                    assert(s.take(i as int + 1).drop_last() =~= s.take(i as int));
                    assert(s.take(i as int + 1).last() == s[i as int]);
                }
                let ghost before = conds_str@;
                get_condictions_str(&tree.next[i], conds_str, ast_symbol_map);
                proof {
                    assert(conds_str@ =~= c0 + conds_text(s.take(i as int + 1), syms));
                }
                i = i + 1;
            }
            proof {
                assert(s.take(i as int) =~= s);
            }
        },
        ASTType::Operator(o) => {
            let mut i: usize = 0;
            while i < tree.next.len()
                invariant
                    i <= tree.next@.len(),
                    s == children_av(tree.next@),
                    s.len() == tree.next@.len(),
                    tree.av().ast_type == AstTypeView::Operator(*o),
                    forall|j: int| 0 <= j < s.len() ==> cond_ok(#[trigger] s[j], syms),
                    ast_symbol_map@ == syms,
                    conds_str@ == c0 + joined_text(s.take(i as int), s.last(), *o, syms),
                decreases tree.next@.len() - i,
            {
                proof {
                    assert(decreases_to!(tree => tree.next));
                    assert(decreases_to!(tree.next => tree.next@));
                    assert(decreases_to!(tree.next@ => tree.next@[i as int]));
                    lemma_children_av_index(tree.next@, i as int);
                    lemma_children_av_index(tree.next@, tree.next@.len() - 1);
                    assert(s.take(i as int + 1).drop_last() =~= s.take(i as int));
                    assert(s.take(i as int + 1).last() == s[i as int]);
                }
                get_condictions_str(&tree.next[i], conds_str, ast_symbol_map);
                let last = tree.next.len() - 1;
                if !same_tree(&tree.next[i], &tree.next[last]) {
                    push_str(conds_str, " ");
                    convert_operator_to_string_in_condiction(conds_str, o);
                    push_str(conds_str, " ");
                }
                proof {
                    assert(conds_str@ =~= c0 + joined_text(s.take(i as int + 1), s.last(), *o, syms));
                }
                i = i + 1;
            }
            proof {
                assert(s.take(i as int) =~= s);
            }
        },
        ASTType::Condiction(relation) => {
            proof {
                if tree.next@.len() > 0 {
                    lemma_children_av_index(tree.next@, 0);
                    lemma_children_av_index(tree.next@, tree.next@.len() - 1);
                }
            }
            if tree.next.len() > 0 {
                push_cond_operand(conds_str, &tree.next[0], ast_symbol_map);
            }
            push_str(conds_str, " ");
            relation_to_string(conds_str, relation);
            push_str(conds_str, " ");
            if tree.next.len() > 0 {
                let last = tree.next.len() - 1;
                push_cond_operand(conds_str, &tree.next[last], ast_symbol_map);
            }
            proof {
                let t = tree.av();
                let first = if t.next.len() > 0 { cond_operand_text(t.next[0], syms) } else { Seq::<char>::empty() };
                let lastt = if t.next.len() > 0 { cond_operand_text(t.next.last(), syms) } else { Seq::<char>::empty() };
                assert(conds_str@ =~= c0 + (first + " "@ + rel_text(*relation) + " "@ + lastt));
            }
        },
        _ => {},
    }
}

/// The height of a tree: one more than the highest of its children.
pub open spec fn height(t: AstView) -> nat
    decreases t, 1nat,
{
    1 + heights(t.next)
}

/// The height of the highest of the trees `s` (0 for none).
pub open spec fn heights(s: Seq<AstView>) -> nat
    decreases s, 0nat,
{
    if s.len() == 0 {
        0
    } else {
        let a = heights(s.drop_last());
        let b = height(s.last());
        if a >= b { a } else { b }
    }
}

pub proof fn lemma_heights(s: Seq<AstView>, i: int)
    requires
        0 <= i < s.len(),
    ensures
        height(s[i]) <= heights(s),
    decreases s.len(),
{
    if i < s.len() - 1 {
        lemma_heights(s.drop_last(), i);
        assert(s.drop_last()[i] == s[i]);
    }
}

/// A call argument: a variable by its number, a number in decimal.
pub open spec fn arg_text(n: AstView) -> Seq<char> {
    match n.ast_type {
        AstTypeView::Variable(_) => "var"@ + dec_text(n.value as int),
        AstTypeView::Integer(signed, _) => num_text(n.value, signed),
        _ => Seq::empty(),
    }
}

/// A call argument is a variable or a number.
pub open spec fn arg_ok(n: AstView) -> bool {
    n.ast_type is Variable || n.ast_type is Integer
}

/// The arguments of a call, from the `j`-th child on: the return slot is
/// passed over, the others written and joined by `, `, up to the first
/// that equals the last child.
pub open spec fn plain_args(s: Seq<AstView>, j: int) -> Seq<char>
    decreases s.len() - j,
{
    if j < 0 || j >= s.len() {
        Seq::empty()
    } else if s[j].ast_type == AstTypeView::Return {
        plain_args(s, j + 1)
    } else if s[j] == s.last() {
        arg_text(s[j])
    } else {
        arg_text(s[j]) + ", "@ + plain_args(s, j + 1)
    }
}

/// Each argument written by `plain_args` is a variable or a number.
pub open spec fn plain_args_ok(s: Seq<AstView>, j: int) -> bool
    decreases s.len() - j,
{
    if j < 0 || j >= s.len() {
        true
    } else if s[j].ast_type == AstTypeView::Return {
        plain_args_ok(s, j + 1)
    } else if s[j] == s.last() {
        arg_ok(s[j])
    } else {
        arg_ok(s[j]) && plain_args_ok(s, j + 1)
    }
}

/// The string of the data at `start`, quoted.
pub open spec fn quoted(data: &HashMap<u64, Vec<u8>>, start: u64) -> Seq<char> {
    "\""@ + data_string(data, start) + "\""@
}

/// The arguments of a `printf` or `puts` call, from the `i`-th child on:
/// the argument after the return slot is the address of a string, written
/// quoted; the others are written as arguments, joined by `, `.
pub open spec fn printf_args(s: Seq<AstView>, i: int, is_string: bool, data: &HashMap<u64, Vec<u8>>) -> Seq<char>
    decreases s.len() - i,
{
    if i < 0 || i >= s.len() {
        Seq::empty()
    } else if s[i].ast_type == AstTypeView::Return {
        printf_args(s, i + 1, true, data)
    } else {
        let here = if is_string { quoted(data, s[i].value) } else { arg_text(s[i]) };
        if i == s.len() - 1 {
            here
        } else {
            here + ", "@ + printf_args(s, i + 1, false, data)
        }
    }
}

/// There is a zero-terminated string of the data at `start`.
pub open spec fn string_ok(data: Map<u64, Vec<u8>>, start: u64) -> bool {
    &&& forall|k: u64| #[trigger] data.contains_key(k) ==> k + data[k]@.len() <= u64::MAX
    &&& forall|k: u64| #[trigger] data.contains_key(k) && in_segment(start, k, data[k]@.len())
        ==> has_terminator(data[k]@, start - k)
    &&& start_in_data(start, data)
}

/// Each argument written by `printf_args` is a number addressing a string
/// where a string is due, and a variable or a number elsewhere.
pub open spec fn printf_args_ok(s: Seq<AstView>, i: int, is_string: bool, data: Map<u64, Vec<u8>>) -> bool
    decreases s.len() - i,
{
    if i < 0 || i >= s.len() {
        true
    } else if s[i].ast_type == AstTypeView::Return {
        printf_args_ok(s, i + 1, true, data)
    } else {
        &&& if is_string { s[i].ast_type is Integer && string_ok(data, s[i].value) } else { arg_ok(s[i]) }
        &&& i < s.len() - 1 ==> printf_args_ok(s, i + 1, false, data)
    }
}

/// The function name is one whose first argument is a format string.
pub open spec fn is_print_name(name: Seq<char>) -> bool {
    name == "printf"@ || name == "puts"@
}

/// Where the call's value goes, from the `j`-th child on: the first return
/// slot, as a declaration of its variable by the type of its symbol.
pub open spec fn ret_binding(s: Seq<AstView>, j: int, syms: Map<usize, ASTSymbol>) -> Seq<char>
    decreases s.len() - j,
{
    if j < 0 || j >= s.len() {
        Seq::empty()
    } else if s[j].ast_type == AstTypeView::Return {
        return_type_name(syms[s[j].value as usize].select_type, false) + " var"@ + dec_text(s[j].value as int) + " = "@
    } else {
        ret_binding(s, j + 1, syms)
    }
}

/// The first return slot from the `j`-th child on, if any, has a symbol.
pub open spec fn ret_binding_ok(s: Seq<AstView>, j: int, syms: Map<usize, ASTSymbol>) -> bool
    decreases s.len() - j,
{
    if j < 0 || j >= s.len() {
        true
    } else if s[j].ast_type == AstTypeView::Return {
        syms.contains_key(s[j].value as usize)
    } else {
        ret_binding_ok(s, j + 1, syms)
    }
}

/// The return types that the children `s` declare, each followed by a space.
pub open spec fn return_types(s: Seq<AstView>) -> Seq<char>
    decreases s.len(),
{
    if s.len() == 0 {
        Seq::empty()
    } else {
        return_types(s.drop_last()) + match s.last().ast_type {
            AstTypeView::FunctionReturn(rt, p) => return_type_name(rt, p) + " "@,
            _ => Seq::empty(),
        }
    }
}

/// The parameters `ps` from the `k`-th on, each as its type and variable,
/// joined by `, `.
pub open spec fn params_text(ps: Seq<AstView>, k: int, syms: Map<usize, ASTSymbol>) -> Seq<char>
    decreases ps.len() - k,
{
    if k < 0 || k >= ps.len() {
        Seq::empty()
    } else {
        value_type_name(syms[ps[k].value as usize].select_type) + " var"@ + dec_text(ps[k].value as int) + (if k
            == ps.len() - 1 {
            Seq::empty()
        } else {
            ", "@
        }) + params_text(ps, k + 1, syms)
    }
}

/// The parameters of the first `Parameter` child from the `j`-th on.
pub open spec fn param_list(s: Seq<AstView>, j: int, syms: Map<usize, ASTSymbol>) -> Seq<char>
    decreases s.len() - j,
{
    if j < 0 || j >= s.len() {
        Seq::empty()
    } else if s[j].ast_type == AstTypeView::Parameter {
        params_text(s[j].next, 0, syms)
    } else {
        param_list(s, j + 1, syms)
    }
}

/// The parameters of the first `Parameter` child from the `j`-th on have
/// symbols.
pub open spec fn param_list_ok(s: Seq<AstView>, j: int, syms: Map<usize, ASTSymbol>) -> bool
    decreases s.len() - j,
{
    if j < 0 || j >= s.len() {
        true
    } else if s[j].ast_type == AstTypeView::Parameter {
        forall|k: int| 0 <= k < s[j].next.len() ==> syms.contains_key(#[trigger] s[j].next[k].value as usize)
    } else {
        param_list_ok(s, j + 1, syms)
    }
}

/// The condition of an `if`, from the `j`-th child on: the first
/// combination of conditions (see `cond_text`), or the first single
/// condition, with variables by their own numbers.
pub open spec fn if_cond(s: Seq<AstView>, j: int, syms: Map<usize, ASTSymbol>) -> Seq<char>
    decreases s.len() - j,
{
    if j < 0 || j >= s.len() {
        Seq::empty()
    } else {
        match s[j].ast_type {
            AstTypeView::Condictions => cond_text(s[j], syms),
            AstTypeView::Condiction(r) => {
                let c = s[j];
                let first = if c.next.len() > 0 { arg_text(c.next[0]) } else { Seq::empty() };
                let last = if c.next.len() > 0 { arg_text(c.next.last()) } else { Seq::empty() };
                first + " "@ + rel_text(r) + " "@ + last
            },
            _ => if_cond(s, j + 1, syms),
        }
    }
}

/// The condition that `if_cond` writes can be written.
pub open spec fn if_cond_ok(s: Seq<AstView>, j: int, syms: Map<usize, ASTSymbol>) -> bool
    decreases s.len() - j,
{
    if j < 0 || j >= s.len() {
        true
    } else {
        match s[j].ast_type {
            AstTypeView::Condictions => cond_ok(s[j], syms),
            AstTypeView::Condiction(_) => s[j].next.len() > 0 ==> arg_ok(s[j].next[0]) && arg_ok(s[j].next.last()),
            _ => if_cond_ok(s, j + 1, syms),
        }
    }
}

/// The first combination of conditions from the `j`-th child on, written
/// (see `cond_text`).
pub open spec fn first_conds(s: Seq<AstView>, j: int, syms: Map<usize, ASTSymbol>) -> Seq<char>
    decreases s.len() - j,
{
    if j < 0 || j >= s.len() {
        Seq::empty()
    } else if s[j].ast_type == AstTypeView::Condictions {
        cond_text(s[j], syms)
    } else {
        first_conds(s, j + 1, syms)
    }
}

/// The combination that `first_conds` writes can be written.
pub open spec fn first_conds_ok(s: Seq<AstView>, j: int, syms: Map<usize, ASTSymbol>) -> bool
    decreases s.len() - j,
{
    if j < 0 || j >= s.len() {
        true
    } else if s[j].ast_type == AstTypeView::Condictions {
        cond_ok(s[j], syms)
    } else {
        first_conds_ok(s, j + 1, syms)
    }
}

/// The C text of the tree `t` at `indent` tabs and the variables declared
/// after it: a function head with its return type and parameters and its
/// body in braces; `return`s, calls (a `printf` or `puts` with its string),
/// loops, `break`, `continue`, assignments (with the brackets that can go
/// taken out), `if`s with their `else`s and `while`s, each on its own lines
/// and indented; the branches of an `if` as their statements.
pub open spec fn render(t: AstView, indent: nat, syms: Map<usize, ASTSymbol>, ts: Map<usize, bool>, data: &HashMap<u64, Vec<u8>>)
    -> (Seq<char>, Map<usize, bool>)
    decreases t, 1nat, 0nat,
{
    let tab = tabs(indent);
    match t.ast_type {
        AstTypeView::Begin(name) => {
            let (body, ts1) = render_all(t.next, indent + 1, syms, ts, data);
            (return_types(t.next) + name + "("@ + param_list(t.next, 0, syms) + ")\n"@ + "{\n"@ + body + "}\n"@, ts1)
        },
        AstTypeView::EndReturn => (tab + "retrun "@ + (if t.next.len() > 0 { arg_text(t.next[0]) } else { Seq::empty() })
            + ";\n"@, ts),
        AstTypeView::Function(name) => {
            let args = if is_print_name(name) { printf_args(t.next, 0, false, data) } else { plain_args(t.next, 0) };
            (tab + ret_binding(t.next, 0, syms) + name + "("@ + args + ");\n"@, ts)
        },
        AstTypeView::Loop => {
            let (body, ts1) = render_all(t.next, indent + 1, syms, ts, data);
            (tab + "loop\n"@ + tab + "{\n"@ + body + tab + "}\n"@, ts1)
        },
        AstTypeView::Break => (tab + "break;\n"@, ts),
        AstTypeView::Continue => (tab + "continue;\n"@, ts),
        AstTypeView::Assign(_) => {
            let (a, ts1) = assign_text(t, syms, ts);
            (tab + decode_utf8(refined_bytes(encode_utf8(a))) + ";\n"@, ts1)
        },
        AstTypeView::If => {
            let (tb, ts1) = render_first_true(t.next, 0, indent + 1, syms, ts, data);
            let (fb, ts2) = render_falses(t.next, indent, syms, ts1, data);
            (tab + "if("@ + if_cond(t.next, 0, syms) + ")\n"@ + tab + "{\n"@ + tb + tab + "}\n"@ + fb, ts2)
        },
        AstTypeView::True | AstTypeView::False => render_all(t.next, indent, syms, ts, data),
        AstTypeView::While => {
            let (body, ts1) = render_nonconds(t.next, indent + 1, syms, ts, data);
            (tab + "while"@ + "("@ + first_conds(t.next, 0, syms) + ")\n"@ + tab + "{\n"@ + body + tab + "}\n"@, ts1)
        },
        _ => (Seq::empty(), ts),
    }
}

/// The C texts of the trees `s` in turn (see `render`).
pub open spec fn render_all(s: Seq<AstView>, indent: nat, syms: Map<usize, ASTSymbol>, ts: Map<usize, bool>, data: &HashMap<u64, Vec<u8>>)
    -> (Seq<char>, Map<usize, bool>)
    decreases s, 0nat, 0nat,
{
    if s.len() == 0 {
        (Seq::empty(), ts)
    } else {
        let (a, ts1) = render_all(s.drop_last(), indent, syms, ts, data);
        let (b, ts2) = render(s.last(), indent, syms, ts1, data);
        (a + b, ts2)
    }
}

/// The C text of the first `True` child from the `j`-th on (see `render`).
pub open spec fn render_first_true(s: Seq<AstView>, j: int, indent: nat, syms: Map<usize, ASTSymbol>, ts: Map<usize, bool>, data: &HashMap<u64, Vec<u8>>)
    -> (Seq<char>, Map<usize, bool>)
    decreases s, 0nat, s.len() - j,
{
    if j < 0 || j >= s.len() {
        (Seq::empty(), ts)
    } else if s[j].ast_type == AstTypeView::True {
        render(s[j], indent, syms, ts, data)
    } else {
        render_first_true(s, j + 1, indent, syms, ts, data)
    }
}

/// An `else` block in braces for each `False` child of `s` (see `render`).
pub open spec fn render_falses(s: Seq<AstView>, indent: nat, syms: Map<usize, ASTSymbol>, ts: Map<usize, bool>, data: &HashMap<u64, Vec<u8>>)
    -> (Seq<char>, Map<usize, bool>)
    decreases s, 0nat, 0nat,
{
    if s.len() == 0 {
        (Seq::empty(), ts)
    } else {
        let (a, ts1) = render_falses(s.drop_last(), indent, syms, ts, data);
        if s.last().ast_type == AstTypeView::False {
            let tab = tabs(indent);
            let (b, ts2) = render(s.last(), indent + 1, syms, ts1, data);
            (a + tab + "else\n"@ + tab + "{\n"@ + b + tab + "}\n"@, ts2)
        } else {
            (a, ts1)
        }
    }
}

/// The C texts of the children of `s` other than combinations of
/// conditions, in turn (see `render`).
pub open spec fn render_nonconds(s: Seq<AstView>, indent: nat, syms: Map<usize, ASTSymbol>, ts: Map<usize, bool>, data: &HashMap<u64, Vec<u8>>)
    -> (Seq<char>, Map<usize, bool>)
    decreases s, 0nat, 0nat,
{
    if s.len() == 0 {
        (Seq::empty(), ts)
    } else {
        let (a, ts1) = render_nonconds(s.drop_last(), indent, syms, ts, data);
        if s.last().ast_type != AstTypeView::Condictions {
            let (b, ts2) = render(s.last(), indent, syms, ts1, data);
            (a + b, ts2)
        } else {
            (a, ts1)
        }
    }
}

/// Writing the tree `t` (see `render`) meets what each part needs: symbols
/// for the variables it names, operands of the right kinds, strings for
/// `printf` and `puts`, and assignments that can be written and refined.
pub open spec fn render_ok(t: AstView, indent: nat, syms: Map<usize, ASTSymbol>, ts: Map<usize, bool>, data: &HashMap<u64, Vec<u8>>) -> bool
    decreases t, 1nat, 0nat,
{
    match t.ast_type {
        AstTypeView::Begin(_) => param_list_ok(t.next, 0, syms) && render_all_ok(t.next, indent + 1, syms, ts, data),
        AstTypeView::EndReturn => t.next.len() > 0 && arg_ok(t.next[0]),
        AstTypeView::Function(name) => ret_binding_ok(t.next, 0, syms) && if is_print_name(name) {
            printf_args_ok(t.next, 0, false, data@)
        } else {
            plain_args_ok(t.next, 0)
        },
        AstTypeView::Loop => render_all_ok(t.next, indent + 1, syms, ts, data),
        AstTypeView::Assign(_) => assign_ok(t, syms, ts) && refine_ok(encode_utf8(assign_text(t, syms, ts).0)),
        AstTypeView::If => {
            &&& if_cond_ok(t.next, 0, syms)
            &&& render_first_true_ok(t.next, 0, indent + 1, syms, ts, data)
            &&& render_falses_ok(t.next, indent, syms, render_first_true(t.next, 0, indent + 1, syms, ts, data).1, data)
        },
        AstTypeView::True | AstTypeView::False => render_all_ok(t.next, indent, syms, ts, data),
        AstTypeView::While => first_conds_ok(t.next, 0, syms) && render_nonconds_ok(t.next, indent + 1, syms, ts, data),
        _ => true,
    }
}

/// Writing each of the trees `s` in turn is fine (see `render_ok`).
pub open spec fn render_all_ok(s: Seq<AstView>, indent: nat, syms: Map<usize, ASTSymbol>, ts: Map<usize, bool>, data: &HashMap<u64, Vec<u8>>) -> bool
    decreases s, 0nat, 0nat,
{
    s.len() == 0 || (render_all_ok(s.drop_last(), indent, syms, ts, data) && render_ok(s.last(), indent, syms,
        render_all(s.drop_last(), indent, syms, ts, data).1, data))
}

/// Writing the first `True` child from the `j`-th on is fine.
pub open spec fn render_first_true_ok(s: Seq<AstView>, j: int, indent: nat, syms: Map<usize, ASTSymbol>, ts: Map<usize, bool>, data: &HashMap<u64, Vec<u8>>) -> bool
    decreases s, 0nat, s.len() - j,
{
    if j < 0 || j >= s.len() {
        true
    } else if s[j].ast_type == AstTypeView::True {
        render_ok(s[j], indent, syms, ts, data)
    } else {
        render_first_true_ok(s, j + 1, indent, syms, ts, data)
    }
}

/// Writing each `False` child of `s` in turn is fine.
pub open spec fn render_falses_ok(s: Seq<AstView>, indent: nat, syms: Map<usize, ASTSymbol>, ts: Map<usize, bool>, data: &HashMap<u64, Vec<u8>>) -> bool
    decreases s, 0nat, 0nat,
{
    s.len() == 0 || (render_falses_ok(s.drop_last(), indent, syms, ts, data) && (s.last().ast_type
        == AstTypeView::False ==> render_ok(s.last(), indent + 1, syms, render_falses(s.drop_last(), indent, syms, ts, data).1, data)))
}

/// Writing each child of `s` but the combinations of conditions in turn is
/// fine.
pub open spec fn render_nonconds_ok(s: Seq<AstView>, indent: nat, syms: Map<usize, ASTSymbol>, ts: Map<usize, bool>, data: &HashMap<u64, Vec<u8>>) -> bool
    decreases s, 0nat, 0nat,
{
    s.len() == 0 || (render_nonconds_ok(s.drop_last(), indent, syms, ts, data) && (s.last().ast_type
        != AstTypeView::Condictions ==> render_ok(s.last(), indent, syms, render_nonconds(s.drop_last(), indent, syms, ts, data).1, data)))
}

proof fn lemma_render_all_ok_prefix(s: Seq<AstView>, indent: nat, syms: Map<usize, ASTSymbol>, ts: Map<usize, bool>, data: &HashMap<u64, Vec<u8>>, k: int)
    requires
        render_all_ok(s, indent, syms, ts, data),
        0 <= k <= s.len(),
    ensures
        render_all_ok(s.take(k), indent, syms, ts, data),
    decreases s.len(),
{
    if k == s.len() {
        assert(s.take(k) =~= s);
    } else {
        lemma_render_all_ok_prefix(s.drop_last(), indent, syms, ts, data, k);
        assert(s.drop_last().take(k) =~= s.take(k));
    }
}

proof fn lemma_render_falses_ok_prefix(s: Seq<AstView>, indent: nat, syms: Map<usize, ASTSymbol>, ts: Map<usize, bool>, data: &HashMap<u64, Vec<u8>>, k: int)
    requires
        render_falses_ok(s, indent, syms, ts, data),
        0 <= k <= s.len(),
    ensures
        render_falses_ok(s.take(k), indent, syms, ts, data),
    decreases s.len(),
{
    if k == s.len() {
        assert(s.take(k) =~= s);
    } else {
        lemma_render_falses_ok_prefix(s.drop_last(), indent, syms, ts, data, k);
        assert(s.drop_last().take(k) =~= s.take(k));
    }
}

proof fn lemma_render_nonconds_ok_prefix(s: Seq<AstView>, indent: nat, syms: Map<usize, ASTSymbol>, ts: Map<usize, bool>, data: &HashMap<u64, Vec<u8>>, k: int)
    requires
        render_nonconds_ok(s, indent, syms, ts, data),
        0 <= k <= s.len(),
    ensures
        render_nonconds_ok(s.take(k), indent, syms, ts, data),
    decreases s.len(),
{
    if k == s.len() {
        assert(s.take(k) =~= s);
    } else {
        lemma_render_nonconds_ok_prefix(s.drop_last(), indent, syms, ts, data, k);
        assert(s.drop_last().take(k) =~= s.take(k));
    }
}

/// Appends a call argument (see `arg_text`).
fn push_arg(ast_str: &mut String, n: &AbstractSyntaxTree)
    requires
        arg_ok(n.av()),
    ensures
        final(ast_str)@ == old(ast_str)@ + arg_text(n.av()),
{
    match &n.ast_type {
        ASTType::Variable(_) => {
            push_str(ast_str, "var");
            push_u64(ast_str, n.value);
        },
        ASTType::Integer(is_signed, _) => {
            number_to_string(ast_str, n.value, *is_signed);
        },
        _ => {},
    }
}

/// Whether a function name is `printf` or `puts`.
fn is_print(name: &String) -> (r: bool)
    ensures
        r == is_print_name(name@),
{
    let p = "printf".to_owned();
    let q = "puts".to_owned();
    *name == p || *name == q
}

impl AbstractSyntaxTree {
    /// Appends the arguments of a call (see `plain_args`).
    fn push_plain_args(&self, ast_str: &mut String)
        requires
            plain_args_ok(self.av().next, 0),
        ensures
            final(ast_str)@ == old(ast_str)@ + plain_args(self.av().next, 0),
    {
        let ghost s = self.av().next;
        proof {
            lemma_children_av_len(self.next@);
        }
        let n = self.next.len();
        let mut j: usize = 0;
        while j < n
            invariant
                j <= n,
                n == s.len(),
                n == self.next@.len(),
                s == children_av(self.next@),
                old(ast_str)@ + plain_args(s, 0) == ast_str@ + plain_args(s, j as int),
                plain_args_ok(s, j as int),
            decreases n - j,
        {
            proof {
                lemma_children_av_index(self.next@, j as int);
                lemma_children_av_index(self.next@, n - 1);
            }
            let ghost before = ast_str@;
            let c = &self.next[j];
            if matches!(c.ast_type, ASTType::Return) {
            } else if same_tree(c, &self.next[n - 1]) {
                push_arg(ast_str, c);
                return ;
            } else {
                push_arg(ast_str, c);
                push_str(ast_str, ", ");
                proof {
                    assert(ast_str@ + plain_args(s, j + 1) =~= before + plain_args(s, j as int));
                }
            }
            j = j + 1;
        }
        proof {
            assert(ast_str@ + plain_args(s, j as int) =~= ast_str@);
        }
    }

    /// Appends the arguments of a `printf` or `puts` call (see
    /// `printf_args`).
    fn push_printf_args(&self, ast_str: &mut String, data: &HashMap<u64, Vec<u8>>)
        requires
            printf_args_ok(self.av().next, 0, false, data@),
        ensures
            final(ast_str)@ == old(ast_str)@ + printf_args(self.av().next, 0, false, data),
    {
        let ghost s = self.av().next;
        proof {
            lemma_children_av_len(self.next@);
        }
        let n = self.next.len();
        let mut is_string = false;
        let mut i: usize = 0;
        while i < n
            invariant
                i <= n,
                n == s.len(),
                n == self.next@.len(),
                s == children_av(self.next@),
                old(ast_str)@ + printf_args(s, 0, false, data) == ast_str@ + printf_args(s, i as int, is_string, data),
                printf_args_ok(s, i as int, is_string, data@),
            decreases n - i,
        {
            proof {
                lemma_children_av_index(self.next@, i as int);
            }
            let ghost before = ast_str@;
            let ghost was_string = is_string;
            let c = &self.next[i];
            if matches!(c.ast_type, ASTType::Return) {
                is_string = true;
            } else {
                if is_string {
                    let string = get_c_string_from_data(c.value, data).unwrap();
                    push_str(ast_str, "\"");
                    push_str(ast_str, string.as_str());
                    push_str(ast_str, "\"");
                    is_string = false;
                } else {
                    push_arg(ast_str, c);
                }
                if i == n - 1 {
                    proof {
                        assert(ast_str@ =~= before + printf_args(s, i as int, was_string, data));
                    }
                    return ;
                }
                push_str(ast_str, ", ");
                proof {
                    assert(ast_str@ + printf_args(s, i + 1, false, data) =~= before + printf_args(s, i as int, was_string, data));
                }
            }
            i = i + 1;
        }
        proof {
            assert(ast_str@ + printf_args(s, i as int, is_string, data) =~= ast_str@);
        }
    }

    /// Appends where the value of a call goes (see `ret_binding`).
    fn push_ret_binding(&self, ast_str: &mut String, ast_symbol_map: &HashMap<usize, ASTSymbol>)
        requires
            ret_binding_ok(self.av().next, 0, ast_symbol_map@),
        ensures
            final(ast_str)@ == old(ast_str)@ + ret_binding(self.av().next, 0, ast_symbol_map@),
    {
        let ghost s = self.av().next;
        let ghost syms = ast_symbol_map@;
        proof {
            lemma_children_av_len(self.next@);
        }
        let mut j: usize = 0;
        while j < self.next.len()
            invariant
                j <= self.next@.len(),
                s == children_av(self.next@),
                s.len() == self.next@.len(),
                syms == ast_symbol_map@,
                ret_binding(s, 0, syms) == ret_binding(s, j as int, syms),
                ret_binding_ok(s, j as int, syms),
                ast_str@ == old(ast_str)@,
            decreases self.next@.len() - j,
        {
            proof {
                lemma_children_av_index(self.next@, j as int);
            }
            let c = &self.next[j];
            if matches!(c.ast_type, ASTType::Return) {
                let sym = *ast_symbol_map.get(&(c.value as usize)).unwrap();
                return_type_to_string(ast_str, &sym.select_type, false);
                push_str(ast_str, " var");
                push_u64(ast_str, c.value);
                push_str(ast_str, " = ");
                proof {
                    assert(ast_str@ =~= old(ast_str)@ + ret_binding(s, j as int, syms));
                }
                return ;
            }
            j = j + 1;
        }
        proof {
            assert(old(ast_str)@ + ret_binding(s, j as int, syms) =~= old(ast_str)@);
        }
    }

    /// Appends the return types that the children declare (see
    /// `return_types`).
    fn push_return_types(&self, ast_str: &mut String)
        ensures
            final(ast_str)@ == old(ast_str)@ + return_types(self.av().next),
    {
        let ghost s = self.av().next;
        proof {
            lemma_children_av_len(self.next@);
            assert(s.take(0) =~= Seq::<AstView>::empty());
            assert(old(ast_str)@ + Seq::<char>::empty() =~= old(ast_str)@);
        }
        let mut i: usize = 0;
        while i < self.next.len()
            invariant
                i <= self.next@.len(),
                s == children_av(self.next@),
                s.len() == self.next@.len(),
                ast_str@ == old(ast_str)@ + return_types(s.take(i as int)),
            decreases self.next@.len() - i,
        {
            proof {
                lemma_children_av_index(self.next@, i as int);
                assert(s.take(i as int + 1).drop_last() =~= s.take(i as int));
                assert(s.take(i as int + 1).last() == s[i as int]);
            }
            let ghost before = ast_str@;
            match &self.next[i].ast_type {
                ASTType::FunctionReturn(return_type, is_ptr) => {
                    return_type_to_string(ast_str, return_type, *is_ptr);
                    push_str(ast_str, " ");
                },
                _ => {},
            }
            proof {
                assert(ast_str@ =~= old(ast_str)@ + return_types(s.take(i as int + 1)));
            }
            i = i + 1;
        }
        proof {
            assert(s.take(i as int) =~= s);
        }
    }

    /// Appends the parameters of the first `Parameter` child (see
    /// `param_list`).
    fn push_param_list(&self, ast_str: &mut String, ast_symbol_map: &HashMap<usize, ASTSymbol>)
        requires
            param_list_ok(self.av().next, 0, ast_symbol_map@),
        ensures
            final(ast_str)@ == old(ast_str)@ + param_list(self.av().next, 0, ast_symbol_map@),
    {
        let ghost s = self.av().next;
        let ghost syms = ast_symbol_map@;
        proof {
            lemma_children_av_len(self.next@);
        }
        let mut j: usize = 0;
        while j < self.next.len()
            invariant
                j <= self.next@.len(),
                s == children_av(self.next@),
                s.len() == self.next@.len(),
                syms == ast_symbol_map@,
                param_list(s, 0, syms) == param_list(s, j as int, syms),
                param_list_ok(s, j as int, syms),
                ast_str@ == old(ast_str)@,
            decreases self.next@.len() - j,
        {
            proof {
                lemma_children_av_index(self.next@, j as int);
            }
            let c = &self.next[j];
            if matches!(c.ast_type, ASTType::Parameter) {
                let ghost ps = c.av().next;
                proof {
                    lemma_children_av_len(c.next@);
                }
                let len = c.next.len();
                let mut k: usize = 0;
                while k < len
                    invariant
                        k <= len,
                        len == c.next@.len(),
                        ps == children_av(c.next@),
                        ps.len() == len,
                        syms == ast_symbol_map@,
                        forall|q: int| 0 <= q < ps.len() ==> syms.contains_key(#[trigger] ps[q].value as usize),
                        old(ast_str)@ + params_text(ps, 0, syms) == ast_str@ + params_text(ps, k as int, syms),
                    decreases len - k,
                {
                    proof {
                        lemma_children_av_index(c.next@, k as int);
                    }
                    let ghost before = ast_str@;
                    let p = &c.next[k];
                    let symbol = *ast_symbol_map.get(&(p.value as usize)).unwrap();
                    astvaluetype_to_string(ast_str, &symbol.select_type);
                    push_str(ast_str, " var");
                    push_u64(ast_str, p.value);
                    if k != len - 1 {
                        push_str(ast_str, ", ");
                    }
                    proof {
                        assert(ast_str@ + params_text(ps, k + 1, syms) =~= before + params_text(ps, k as int, syms));
                    }
                    k = k + 1;
                }
                proof {
                    assert(ast_str@ + params_text(ps, k as int, syms) =~= ast_str@);
                }
                return ;
            }
            j = j + 1;
        }
        proof {
            assert(old(ast_str)@ + param_list(s, j as int, syms) =~= old(ast_str)@);
        }
    }

    /// Appends the condition of an `if` (see `if_cond`).
    fn push_if_cond(&self, ast_str: &mut String, ast_symbol_map: &HashMap<usize, ASTSymbol>)
        requires
            if_cond_ok(self.av().next, 0, ast_symbol_map@),
        ensures
            final(ast_str)@ == old(ast_str)@ + if_cond(self.av().next, 0, ast_symbol_map@),
    {
        let ghost s = self.av().next;
        let ghost syms = ast_symbol_map@;
        proof {
            lemma_children_av_len(self.next@);
        }
        let mut j: usize = 0;
        while j < self.next.len()
            invariant
                j <= self.next@.len(),
                s == children_av(self.next@),
                s.len() == self.next@.len(),
                syms == ast_symbol_map@,
                if_cond(s, 0, syms) == if_cond(s, j as int, syms),
                if_cond_ok(s, j as int, syms),
                ast_str@ == old(ast_str)@,
            decreases self.next@.len() - j,
        {
            proof {
                lemma_children_av_index(self.next@, j as int);
            }
            let c = &self.next[j];
            match &c.ast_type {
                ASTType::Condictions => {
                    get_condictions_str(c, ast_str, ast_symbol_map);
                    return ;
                },
                ASTType::Condiction(relation) => {
                    proof {
                        if c.next@.len() > 0 {
                            lemma_children_av_index(c.next@, 0);
                            lemma_children_av_index(c.next@, c.next@.len() - 1);
                        }
                    }
                    if c.next.len() > 0 {
                        push_arg(ast_str, &c.next[0]);
                    }
                    push_str(ast_str, " ");
                    relation_to_string(ast_str, relation);
                    push_str(ast_str, " ");
                    if c.next.len() > 0 {
                        let last = c.next.len() - 1;
                        push_arg(ast_str, &c.next[last]);
                    }
                    proof {
                        let cv = c.av();
                        let first = if cv.next.len() > 0 { arg_text(cv.next[0]) } else { Seq::<char>::empty() };
                        let lastt = if cv.next.len() > 0 { arg_text(cv.next.last()) } else { Seq::<char>::empty() };
                        assert(ast_str@ =~= old(ast_str)@ + (first + " "@ + rel_text(*relation) + " "@ + lastt));
                    }
                    return ;
                },
                _ => {},
            }
            j = j + 1;
        }
        proof {
            assert(old(ast_str)@ + if_cond(s, j as int, syms) =~= old(ast_str)@);
        }
    }

    /// Appends the first combination of conditions (see `first_conds`).
    fn push_first_conds(&self, ast_str: &mut String, ast_symbol_map: &HashMap<usize, ASTSymbol>)
        requires
            first_conds_ok(self.av().next, 0, ast_symbol_map@),
        ensures
            final(ast_str)@ == old(ast_str)@ + first_conds(self.av().next, 0, ast_symbol_map@),
    {
        let ghost s = self.av().next;
        let ghost syms = ast_symbol_map@;
        proof {
            lemma_children_av_len(self.next@);
        }
        let mut j: usize = 0;
        while j < self.next.len()
            invariant
                j <= self.next@.len(),
                s == children_av(self.next@),
                s.len() == self.next@.len(),
                syms == ast_symbol_map@,
                first_conds(s, 0, syms) == first_conds(s, j as int, syms),
                first_conds_ok(s, j as int, syms),
                ast_str@ == old(ast_str)@,
            decreases self.next@.len() - j,
        {
            proof {
                lemma_children_av_index(self.next@, j as int);
            }
            let c = &self.next[j];
            if matches!(c.ast_type, ASTType::Condictions) {
                get_condictions_str(c, ast_str, ast_symbol_map);
                return ;
            }
            j = j + 1;
        }
        proof {
            assert(old(ast_str)@ + first_conds(s, j as int, syms) =~= old(ast_str)@);
        }
    }

    /// The C text of the function tree `self` (see `render`), with the
    /// strings that `printf` and `puts` print read from `data`.
    pub fn to_string(&self, ast_symbol_map: &HashMap<usize, ASTSymbol>, data: &HashMap<u64, Vec<u8>>) -> (r: String)
        requires
            render_ok(self.av(), 0, ast_symbol_map@, Map::empty(), data),
            height(self.av()) <= usize::MAX,
        ensures
            r@ == render(self.av(), 0, ast_symbol_map@, Map::empty(), data).0,
    {
        let mut ast_str = String::new();
        let mut type_set: HashMap<usize, bool> = HashMap::new();
        proof {
            assert(type_set@ =~= Map::<usize, bool>::empty());
        }
        self.to_string_recursion(&mut ast_str, 0, ast_symbol_map, &mut type_set, data);
        proof {
            assert(ast_str@ =~= render(self.av(), 0, ast_symbol_map@, Map::empty(), data).0);
        }
        ast_str
    }

    /// Appends the C text of the tree at `indent` tabs and records the
    /// variables it declares in `type_set` (see `render`).
    fn to_string_recursion(
        &self,
        ast_str: &mut String,
        indent: usize,
        ast_symbol_map: &HashMap<usize, ASTSymbol>,
        type_set: &mut HashMap<usize, bool>,
        data: &HashMap<u64, Vec<u8>>,
    )
        requires
            render_ok(self.av(), indent as nat, ast_symbol_map@, old(type_set)@, data),
            indent + height(self.av()) <= usize::MAX,
        ensures
            final(ast_str)@ == old(ast_str)@ + render(self.av(), indent as nat, ast_symbol_map@, old(type_set)@, data).0,
            final(type_set)@ == render(self.av(), indent as nat, ast_symbol_map@, old(type_set)@, data).1,
        decreases self, 1nat, 0nat,
    {
        let ghost t = self.av();
        let ghost syms = ast_symbol_map@;
        let ghost tab = crate::ast::text::tabs(indent as nat);
        proof {
            lemma_children_av_len(self.next@);
        }
        match &self.ast_type {
            ASTType::Begin(name) => {
                self.begin_to_string(name, ast_str, indent, ast_symbol_map, type_set, data);
            },
            ASTType::EndReturn => {
                proof {
                    lemma_children_av_index(self.next@, 0);
                }
                get_indent(ast_str, indent);
                push_str(ast_str, "retrun ");
                push_arg(ast_str, &self.next[0]);
                push_str(ast_str, ";\n");
                proof {
                    assert(ast_str@ =~= old(ast_str)@ + (tab + "retrun "@ + arg_text(t.next[0]) + ";\n"@));
                }
            },
            ASTType::Function(name) => {
                let ghost a0 = ast_str@;
                get_indent(ast_str, indent);
                self.push_ret_binding(ast_str, ast_symbol_map);
                push_str(ast_str, name.as_str());
                push_str(ast_str, "(");
                let ghost a1 = ast_str@;
                if is_print(name) {
                    self.push_printf_args(ast_str, data);
                } else {
                    self.push_plain_args(ast_str);
                }
                let ghost a2 = ast_str@;
                push_str(ast_str, ");\n");
                proof {
                    let args = if is_print_name(name@) { printf_args(t.next, 0, false, data) } else { plain_args(t.next, 0) };
                    assert(a2 == a1 + args);
                    assert(ast_str@ =~= old(ast_str)@ + (tab + ret_binding(t.next, 0, syms) + name@ + "("@ + args + ");\n"@));
                }
            },
            ASTType::Loop => {
                get_indent(ast_str, indent);
                push_str(ast_str, "loop\n");
                get_indent(ast_str, indent);
                push_str(ast_str, "{\n");
                let ghost a1 = ast_str@;
                self.children_to_string(ast_str, indent + 1, ast_symbol_map, type_set, data);
                let ghost a2 = ast_str@;
                get_indent(ast_str, indent);
                push_str(ast_str, "}\n");
                proof {
                    let body = render_all(t.next, (indent + 1) as nat, syms, old(type_set)@, data);
                    assert(ast_str@ =~= old(ast_str)@ + (tab + "loop\n"@ + tab + "{\n"@ + body.0 + tab + "}\n"@));
                }
            },
            ASTType::Break => {
                get_indent(ast_str, indent);
                push_str(ast_str, "break;\n");
                proof {
                    assert(ast_str@ =~= old(ast_str)@ + (tab + "break;\n"@));
                }
            },
            ASTType::Continue => {
                get_indent(ast_str, indent);
                push_str(ast_str, "continue;\n");
                proof {
                    assert(ast_str@ =~= old(ast_str)@ + (tab + "continue;\n"@));
                }
            },
            ASTType::Assign(_) => {
                get_indent(ast_str, indent);
                let mut assign_str = String::new();
                proof {
                    assert(assign_str@ + assign_text(t, syms, old(type_set)@).0 =~= assign_text(t, syms, old(type_set)@).0);
                }
                assign_to_string(self, &mut assign_str, ast_symbol_map, type_set);
                let refined = refine_assign_str_bracket(assign_str);
                push_str(ast_str, refined.as_str());
                push_str(ast_str, ";\n");
                proof {
                    let a = assign_text(t, syms, old(type_set)@).0;
                    assert(ast_str@ =~= old(ast_str)@ + (tab + decode_utf8(refined_bytes(encode_utf8(a))) + ";\n"@));
                }
            },
            ASTType::If => {
                self.if_to_string(ast_str, indent, ast_symbol_map, type_set, data);
            },
            ASTType::True | ASTType::False => {
                self.children_to_string(ast_str, indent, ast_symbol_map, type_set, data);
            },
            ASTType::While => {
                self.while_to_string(ast_str, indent, ast_symbol_map, type_set, data);
            },
            _ => {
                proof {
                    assert(old(ast_str)@ + Seq::<char>::empty() =~= old(ast_str)@);
                }
            },
        }
    }

    /// Appends the head and body of the function tree `self` named `name`
    /// (see `render`).
    fn begin_to_string(
        &self,
        name: &String,
        ast_str: &mut String,
        indent: usize,
        ast_symbol_map: &HashMap<usize, ASTSymbol>,
        type_set: &mut HashMap<usize, bool>,
        data: &HashMap<u64, Vec<u8>>,
    )
        requires
            self.ast_type@ == AstTypeView::Begin(name@),
            param_list_ok(self.av().next, 0, ast_symbol_map@),
            render_all_ok(self.av().next, (indent + 1) as nat, ast_symbol_map@, old(type_set)@, data),
            indent + height(self.av()) <= usize::MAX,
        ensures
            ({
                let t = self.av();
                let (body, ts1) = render_all(t.next, (indent + 1) as nat, ast_symbol_map@, old(type_set)@, data);
                &&& final(ast_str)@ == old(ast_str)@ + (return_types(t.next) + name@ + "("@ + param_list(t.next, 0, ast_symbol_map@)
                    + ")\n"@ + "{\n"@ + body + "}\n"@)
                &&& final(type_set)@ == ts1
            }),
        decreases self, 0nat, 1nat,
    {
        let ghost t = self.av();
        self.push_return_types(ast_str);
        push_str(ast_str, name.as_str());
        push_str(ast_str, "(");
        self.push_param_list(ast_str, ast_symbol_map);
        push_str(ast_str, ")\n");
        push_str(ast_str, "{\n");
        self.children_to_string(ast_str, indent + 1, ast_symbol_map, type_set, data);
        push_str(ast_str, "}\n");
        proof {
            let body = render_all(t.next, (indent + 1) as nat, ast_symbol_map@, old(type_set)@, data).0;
            assert(ast_str@ =~= old(ast_str)@ + (return_types(t.next) + name@ + "("@ + param_list(t.next, 0, ast_symbol_map@)
                + ")\n"@ + "{\n"@ + body + "}\n"@));
        }
    }

    /// Appends the `if` tree `self` at `indent` tabs (see `render`).
    fn if_to_string(
        &self,
        ast_str: &mut String,
        indent: usize,
        ast_symbol_map: &HashMap<usize, ASTSymbol>,
        type_set: &mut HashMap<usize, bool>,
        data: &HashMap<u64, Vec<u8>>,
    )
        requires
            self.ast_type@ == AstTypeView::If,
            render_ok(self.av(), indent as nat, ast_symbol_map@, old(type_set)@, data),
            indent + height(self.av()) <= usize::MAX,
        ensures
            final(ast_str)@ == old(ast_str)@ + render(self.av(), indent as nat, ast_symbol_map@, old(type_set)@, data).0,
            final(type_set)@ == render(self.av(), indent as nat, ast_symbol_map@, old(type_set)@, data).1,
        decreases self, 0nat, 1nat,
    {
        let ghost t = self.av();
        let ghost syms = ast_symbol_map@;
        let ghost tab = crate::ast::text::tabs(indent as nat);
        get_indent(ast_str, indent);
        push_str(ast_str, "if(");
        self.push_if_cond(ast_str, ast_symbol_map);
        push_str(ast_str, ")\n");
        get_indent(ast_str, indent);
        push_str(ast_str, "{\n");
        self.first_true_to_string(ast_str, indent + 1, ast_symbol_map, type_set, data);
        get_indent(ast_str, indent);
        push_str(ast_str, "}\n");
        let ghost a1 = ast_str@;
        self.falses_to_string(ast_str, indent, ast_symbol_map, type_set, data);
        proof {
            let (tb, ts1) = render_first_true(t.next, 0, (indent + 1) as nat, syms, old(type_set)@, data);
            let (fb, ts2) = render_falses(t.next, indent as nat, syms, ts1, data);
            assert(a1 =~= old(ast_str)@ + (tab + "if("@ + if_cond(t.next, 0, syms) + ")\n"@ + tab + "{\n"@ + tb + tab + "}\n"@));
            assert(ast_str@ =~= old(ast_str)@ + (tab + "if("@ + if_cond(t.next, 0, syms) + ")\n"@ + tab + "{\n"@ + tb + tab
                + "}\n"@ + fb));
        }
    }

    /// Appends the `while` tree `self` at `indent` tabs (see `render`).
    fn while_to_string(
        &self,
        ast_str: &mut String,
        indent: usize,
        ast_symbol_map: &HashMap<usize, ASTSymbol>,
        type_set: &mut HashMap<usize, bool>,
        data: &HashMap<u64, Vec<u8>>,
    )
        requires
            self.ast_type@ == AstTypeView::While,
            render_ok(self.av(), indent as nat, ast_symbol_map@, old(type_set)@, data),
            indent + height(self.av()) <= usize::MAX,
        ensures
            final(ast_str)@ == old(ast_str)@ + render(self.av(), indent as nat, ast_symbol_map@, old(type_set)@, data).0,
            final(type_set)@ == render(self.av(), indent as nat, ast_symbol_map@, old(type_set)@, data).1,
        decreases self, 0nat, 1nat,
    {
        let ghost t = self.av();
        let ghost syms = ast_symbol_map@;
        let ghost tab = crate::ast::text::tabs(indent as nat);
        get_indent(ast_str, indent);
        push_str(ast_str, "while");
        push_str(ast_str, "(");
        self.push_first_conds(ast_str, ast_symbol_map);
        push_str(ast_str, ")\n");
        get_indent(ast_str, indent);
        push_str(ast_str, "{\n");
        self.nonconds_to_string(ast_str, indent + 1, ast_symbol_map, type_set, data);
        get_indent(ast_str, indent);
        push_str(ast_str, "}\n");
        proof {
            let body = render_nonconds(t.next, (indent + 1) as nat, syms, old(type_set)@, data).0;
            assert(ast_str@ =~= old(ast_str)@ + (tab + "while"@ + "("@ + first_conds(t.next, 0, syms) + ")\n"@ + tab + "{\n"@
                + body + tab + "}\n"@));
        }
    }

    /// Appends the children in turn at `indent` tabs (see `render_all`).
    fn children_to_string(
        &self,
        ast_str: &mut String,
        indent: usize,
        ast_symbol_map: &HashMap<usize, ASTSymbol>,
        type_set: &mut HashMap<usize, bool>,
        data: &HashMap<u64, Vec<u8>>,
    )
        requires
            render_all_ok(self.av().next, indent as nat, ast_symbol_map@, old(type_set)@, data),
            indent + heights(self.av().next) <= usize::MAX,
        ensures
            final(ast_str)@ == old(ast_str)@ + render_all(self.av().next, indent as nat, ast_symbol_map@, old(type_set)@, data).0,
            final(type_set)@ == render_all(self.av().next, indent as nat, ast_symbol_map@, old(type_set)@, data).1,
        decreases self, 0nat, 0nat,
    {
        let ghost syms = ast_symbol_map@;
        let ghost s = self.av().next;
        let ghost a0 = ast_str@;
        let ghost ts0 = type_set@;
        proof {
            lemma_children_av_len(self.next@);
            assert(s.take(0) =~= Seq::<AstView>::empty());
            assert(a0 + Seq::<char>::empty() =~= a0);
        }
        let mut i: usize = 0;
        while i < self.next.len()
            invariant
                i <= self.next@.len(),
                s == children_av(self.next@),
                s.len() == self.next@.len(),
                render_all_ok(s, indent as nat, syms, ts0, data),
                indent + heights(s) <= usize::MAX,
                ast_symbol_map@ == syms,
                ast_str@ == a0 + render_all(s.take(i as int), indent as nat, syms, ts0, data).0,
                type_set@ == render_all(s.take(i as int), indent as nat, syms, ts0, data).1,
            decreases self.next@.len() - i,
        {
            proof {
                assert(decreases_to!(self => self.next));
                assert(decreases_to!(self.next => self.next@));
                assert(decreases_to!(self.next@ => self.next@[i as int]));
                lemma_children_av_index(self.next@, i as int);
                lemma_heights(s, i as int);
                assert(s.take(i as int + 1).drop_last() =~= s.take(i as int));
                assert(s.take(i as int + 1).last() == s[i as int]);
                lemma_render_all_ok_prefix(s, indent as nat, syms, ts0, data, i as int + 1);
            }
            let ghost r = render_all(s.take(i as int), indent as nat, syms, ts0, data);
            self.next[i].to_string_recursion(ast_str, indent, ast_symbol_map, type_set, data);
            proof {
                let b = render(s[i as int], indent as nat, syms, r.1, data);
                assert(ast_str@ =~= a0 + (r.0 + b.0));
            }
            i = i + 1;
        }
        proof {
            assert(s.take(i as int) =~= s);
        }
    }

    /// Appends the first `True` child at `indent` tabs (see
    /// `render_first_true`).
    fn first_true_to_string(
        &self,
        ast_str: &mut String,
        indent: usize,
        ast_symbol_map: &HashMap<usize, ASTSymbol>,
        type_set: &mut HashMap<usize, bool>,
        data: &HashMap<u64, Vec<u8>>,
    )
        requires
            render_first_true_ok(self.av().next, 0, indent as nat, ast_symbol_map@, old(type_set)@, data),
            indent + heights(self.av().next) <= usize::MAX,
        ensures
            final(ast_str)@ == old(ast_str)@ + render_first_true(self.av().next, 0, indent as nat, ast_symbol_map@, old(type_set)@, data).0,
            final(type_set)@ == render_first_true(self.av().next, 0, indent as nat, ast_symbol_map@, old(type_set)@, data).1,
        decreases self, 0nat, 0nat,
    {
        let ghost syms = ast_symbol_map@;
        let ghost s = self.av().next;
        let ghost ts0 = type_set@;
        proof {
            lemma_children_av_len(self.next@);
        }
        let mut j: usize = 0;
        while j < self.next.len()
            invariant
                j <= self.next@.len(),
                s == children_av(self.next@),
                s.len() == self.next@.len(),
                indent + heights(s) <= usize::MAX,
                ast_symbol_map@ == syms,
                render_first_true(s, 0, indent as nat, syms, ts0, data) == render_first_true(s, j as int, indent as nat, syms, ts0, data),
                render_first_true_ok(s, j as int, indent as nat, syms, ts0, data),
                ast_str@ == old(ast_str)@,
                type_set@ == ts0,
                ts0 == old(type_set)@,
            decreases self.next@.len() - j,
        {
            proof {
                assert(decreases_to!(self => self.next));
                assert(decreases_to!(self.next => self.next@));
                assert(decreases_to!(self.next@ => self.next@[j as int]));
                lemma_children_av_index(self.next@, j as int);
                lemma_heights(s, j as int);
            }
            if matches!(self.next[j].ast_type, ASTType::True) {
                proof {
                    assert(s[j as int].ast_type == AstTypeView::True);
                    assert(render_first_true(s, j as int, indent as nat, syms, ts0, data) == render(s[j as int], indent as nat, syms, ts0, data));
                }
                self.next[j].to_string_recursion(ast_str, indent, ast_symbol_map, type_set, data);
                return ;
            }
            j = j + 1;
        }
        proof {
            assert(old(ast_str)@ + Seq::<char>::empty() =~= old(ast_str)@);
        }
    }

    /// Appends an `else` block for each `False` child (see `render_falses`).
    fn falses_to_string(
        &self,
        ast_str: &mut String,
        indent: usize,
        ast_symbol_map: &HashMap<usize, ASTSymbol>,
        type_set: &mut HashMap<usize, bool>,
        data: &HashMap<u64, Vec<u8>>,
    )
        requires
            render_falses_ok(self.av().next, indent as nat, ast_symbol_map@, old(type_set)@, data),
            indent + 1 + heights(self.av().next) <= usize::MAX,
        ensures
            final(ast_str)@ == old(ast_str)@ + render_falses(self.av().next, indent as nat, ast_symbol_map@, old(type_set)@, data).0,
            final(type_set)@ == render_falses(self.av().next, indent as nat, ast_symbol_map@, old(type_set)@, data).1,
        decreases self, 0nat, 0nat,
    {
        let ghost syms = ast_symbol_map@;
        let ghost s = self.av().next;
        let ghost a0 = ast_str@;
        let ghost ts0 = type_set@;
        let ghost tab = crate::ast::text::tabs(indent as nat);
        proof {
            lemma_children_av_len(self.next@);
            assert(s.take(0) =~= Seq::<AstView>::empty());
            assert(a0 + Seq::<char>::empty() =~= a0);
        }
        let mut i: usize = 0;
        while i < self.next.len()
            invariant
                i <= self.next@.len(),
                s == children_av(self.next@),
                s.len() == self.next@.len(),
                render_falses_ok(s, indent as nat, syms, ts0, data),
                indent + 1 + heights(s) <= usize::MAX,
                ast_symbol_map@ == syms,
                tab == crate::ast::text::tabs(indent as nat),
                ast_str@ == a0 + render_falses(s.take(i as int), indent as nat, syms, ts0, data).0,
                type_set@ == render_falses(s.take(i as int), indent as nat, syms, ts0, data).1,
            decreases self.next@.len() - i,
        {
            proof {
                assert(decreases_to!(self => self.next));
                assert(decreases_to!(self.next => self.next@));
                assert(decreases_to!(self.next@ => self.next@[i as int]));
                lemma_children_av_index(self.next@, i as int);
                lemma_heights(s, i as int);
                assert(s.take(i as int + 1).drop_last() =~= s.take(i as int));
                assert(s.take(i as int + 1).last() == s[i as int]);
                lemma_render_falses_ok_prefix(s, indent as nat, syms, ts0, data, i as int + 1);
            }
            let ghost r = render_falses(s.take(i as int), indent as nat, syms, ts0, data);
            if matches!(self.next[i].ast_type, ASTType::False) {
                get_indent(ast_str, indent);
                push_str(ast_str, "else\n");
                get_indent(ast_str, indent);
                push_str(ast_str, "{\n");
                self.next[i].to_string_recursion(ast_str, indent + 1, ast_symbol_map, type_set, data);
                get_indent(ast_str, indent);
                push_str(ast_str, "}\n");
                proof {
                    let b = render(s[i as int], (indent + 1) as nat, syms, r.1, data);
                    assert(ast_str@ =~= a0 + (r.0 + tab + "else\n"@ + tab + "{\n"@ + b.0 + tab + "}\n"@));
                }
            }
            i = i + 1;
        }
        proof {
            assert(s.take(i as int) =~= s);
        }
    }

    /// Appends the children other than combinations of conditions in turn
    /// (see `render_nonconds`).
    fn nonconds_to_string(
        &self,
        ast_str: &mut String,
        indent: usize,
        ast_symbol_map: &HashMap<usize, ASTSymbol>,
        type_set: &mut HashMap<usize, bool>,
        data: &HashMap<u64, Vec<u8>>,
    )
        requires
            render_nonconds_ok(self.av().next, indent as nat, ast_symbol_map@, old(type_set)@, data),
            indent + heights(self.av().next) <= usize::MAX,
        ensures
            final(ast_str)@ == old(ast_str)@ + render_nonconds(self.av().next, indent as nat, ast_symbol_map@, old(type_set)@, data).0,
            final(type_set)@ == render_nonconds(self.av().next, indent as nat, ast_symbol_map@, old(type_set)@, data).1,
        decreases self, 0nat, 0nat,
    {
        let ghost syms = ast_symbol_map@;
        let ghost s = self.av().next;
        let ghost a0 = ast_str@;
        let ghost ts0 = type_set@;
        proof {
            lemma_children_av_len(self.next@);
            assert(s.take(0) =~= Seq::<AstView>::empty());
            assert(a0 + Seq::<char>::empty() =~= a0);
        }
        let mut i: usize = 0;
        while i < self.next.len()
            invariant
                i <= self.next@.len(),
                s == children_av(self.next@),
                s.len() == self.next@.len(),
                render_nonconds_ok(s, indent as nat, syms, ts0, data),
                indent + heights(s) <= usize::MAX,
                ast_symbol_map@ == syms,
                ast_str@ == a0 + render_nonconds(s.take(i as int), indent as nat, syms, ts0, data).0,
                type_set@ == render_nonconds(s.take(i as int), indent as nat, syms, ts0, data).1,
            decreases self.next@.len() - i,
        {
            proof {
                assert(decreases_to!(self => self.next));
                assert(decreases_to!(self.next => self.next@));
                assert(decreases_to!(self.next@ => self.next@[i as int]));
                lemma_children_av_index(self.next@, i as int);
                lemma_heights(s, i as int);
                assert(s.take(i as int + 1).drop_last() =~= s.take(i as int));
                assert(s.take(i as int + 1).last() == s[i as int]);
                lemma_render_nonconds_ok_prefix(s, indent as nat, syms, ts0, data, i as int + 1);
            }
            let ghost r = render_nonconds(s.take(i as int), indent as nat, syms, ts0, data);
            if !matches!(self.next[i].ast_type, ASTType::Condictions) {
                self.next[i].to_string_recursion(ast_str, indent, ast_symbol_map, type_set, data);
                proof {
                    let b = render(s[i as int], indent as nat, syms, r.1, data);
                    assert(ast_str@ =~= a0 + (r.0 + b.0));
                }
            }
            i = i + 1;
        }
        proof {
            assert(s.take(i as int) =~= s);
        }
    }
}

} // verus!
