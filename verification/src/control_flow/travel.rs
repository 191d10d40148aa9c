use vstd::prelude::*;
use std::collections::HashMap;
use crate::counter::Counter;
use crate::insn::NameValue;
use crate::control_flow::NodeType;
use crate::control_flow::tree::{ControlFlowTree, TreeView, children_tv, lemma_children_tv_index, lemma_children_tv_len, access_view};
use crate::control_flow::cfg::ControlFlowGraph;
use crate::block::Condiction;
use crate::data_flow::{DataFlowIr, DFIOperand, rel_not};
use crate::ast::{AbstractSyntaxTree, ASTSymbol, ASTType, AstTypeView, AstView, children_av, lemma_children_av_push, lemma_children_av_len};
use crate::ast::symbols::{
    AddressSymbolMap, SymState, sym_state, ids_known, condiction_step, access_step, operand_step, operand_parsable,
    and_step, or_step, groups, groups_parsable,
};
use crate::ast::parse::{dfi_ok, dfi_step, opt_av};

verus! {

broadcast use {vstd::std_specs::hash::group_hash_axioms, vstd::std_specs::vec::group_vec_axioms};

/// The tree of an optional tree, as a sequence of none or one.
pub open spec fn opt_seq(o: Option<AstView>) -> Seq<AstView> {
    match o {
        Some(t) => seq![t],
        None => Seq::empty(),
    }
}

/// The trees, the parameters and the naming after parsing the IR
/// instructions `irs` in order (see `dfi_step`).
pub open spec fn irs_step(irs: Seq<DataFlowIr>, functions: Map<u64, NameValue>, st: SymState) -> (Seq<AstView>, Seq<AstView>, SymState)
    decreases irs.len(),
{
    if irs.len() == 0 {
        (Seq::empty(), Seq::empty(), st)
    } else {
        let (a, p, st1) = irs_step(irs.drop_last(), functions, st);
        let (x, y, st2) = dfi_step(irs.last(), functions, st1);
        (a + opt_seq(x), p + opt_seq(y), st2)
    }
}

/// Each of the IR instructions `irs` can be parsed in its turn.
pub open spec fn irs_ok(irs: Seq<DataFlowIr>, functions: Map<u64, NameValue>, st: SymState) -> bool
    decreases irs.len(),
{
    irs.len() == 0 || (irs_ok(irs.drop_last(), functions, st) && dfi_ok(irs.last(), irs_step(irs.drop_last(), functions, st).2))
}

/// The first condition with the id `id`, if any.
pub open spec fn cond_by_id(l: Seq<(Condiction, isize)>, id: isize) -> Option<Condiction>
    decreases l.len(),
{
    if l.len() == 0 {
        None
    } else {
        match cond_by_id(l.drop_last(), id) {
            Some(c) => Some(c),
            None => if l.last().1 == id { Some(l.last().0) } else { None },
        }
    }
}

/// The absolute value of an access id.
pub open spec fn abs_id(cid: isize) -> isize {
    if cid < 0 { (-cid) as isize } else { cid }
}

/// The condition named by an access id: the condition of its absolute
/// value, with the relation negated for a negative id.
pub open spec fn access_cond(l: Seq<(Condiction, isize)>, cid: isize) -> Condiction {
    let c = cond_by_id(l, abs_id(cid))->Some_0;
    if cid < 0 {
        Condiction { relation: rel_not(c.relation), ..c }
    } else {
        c
    }
}

/// The groups of conditions of access ids.
pub open spec fn access_groups(l: Seq<(Condiction, isize)>, acc: Seq<Seq<isize>>) -> Seq<Seq<Condiction>> {
    acc.map_values(|g: Seq<isize>| g.map_values(|cid: isize| access_cond(l, cid)))
}

/// Every access id is the id, or the negated id, of a condition of `l`
/// whose operands can be parsed.
pub open spec fn access_ok(l: Seq<(Condiction, isize)>, acc: Seq<Seq<isize>>) -> bool {
    forall|i: int, j: int| 0 <= i < acc.len() && 0 <= j < acc[i].len() ==> {
        let cid = #[trigger] acc[i][j];
        &&& cid != isize::MIN
        &&& cond_by_id(l, abs_id(cid)) is Some
        &&& operand_parsable(access_cond(l, cid).operand1)
        &&& operand_parsable(access_cond(l, cid).operand2)
    }
}

/// What walking the control flow tree `t` adds to the syntax tree it is
/// walked into, the parameters it finds, and the naming after it: the trees
/// of the IR of its block; then, for a loop head, a `Loop` node over its
/// loop body followed by what its following nodes add; for a back edge a
/// `Continue` and for a break a `Break`; otherwise, where the node has a
/// condition, an `If` node over the condition and the `True` and `False`
/// nodes of its branches (each only where it is not empty), followed by
/// what each following node adds, under an `If` on its access conditions
/// where it has any.
pub open spec fn travel(t: TreeView, cfg: ControlFlowGraph, functions: Map<u64, NameValue>, st: SymState)
    -> (Seq<AstView>, Seq<AstView>, SymState)
    decreases t, 1nat,
{
    let (a0, p0, st0) = irs_step(cfg.nodes@[t.id].irs@, functions, st);
    if t.node_type == NodeType::Loop {
        let (body, p1, st1) = match t.loop_region {
            Some(r) => travel(*r, cfg, functions, st0),
            None => (Seq::empty(), Seq::empty(), st0),
        };
        let lp = AstView { ast_type: AstTypeView::Loop, value: 0, next: body };
        let (rest, p2, st2) = travel_all(t.next, cfg, functions, st1);
        (a0.push(lp) + rest, p0 + p1 + p2, st2)
    } else if t.node_type == NodeType::Back {
        (a0.push(AstView { ast_type: AstTypeView::Continue, value: 0, next: Seq::empty() }), p0, st0)
    } else if t.node_type == NodeType::Break {
        (a0.push(AstView { ast_type: AstTypeView::Break, value: 0, next: Seq::empty() }), p0, st0)
    } else {
        let (ifs, p1, st1) = match t.condiction {
            Some(c_id) => travel_if(t, c_id, cfg, functions, st0),
            None => (Seq::empty(), Seq::empty(), st0),
        };
        let (rest, p2, st2) = travel_next(t.next, cfg, functions, st1);
        (a0 + ifs + rest, p0 + p1 + p2, st2)
    }
}

/// What the condition `c_id` of the node `t` adds: an `If` node over the
/// tree of the condition, then a `True` node over what its true branch adds
/// and a `False` node over what its false branch adds, each only where the
/// branch is there and adds something.
pub open spec fn travel_if(t: TreeView, c_id: isize, cfg: ControlFlowGraph, functions: Map<u64, NameValue>, st: SymState)
    -> (Seq<AstView>, Seq<AstView>, SymState)
    decreases t, 0nat,
{
    let (cond, sa) = condiction_step(cond_by_id(cfg.condiction@, c_id)->Some_0, st);
    let (tb, pt, sb) = match t.true_next {
        Some(x) => travel(*x, cfg, functions, sa),
        None => (Seq::empty(), Seq::empty(), sa),
    };
    let (fb, pf, sc) = match t.false_next {
        Some(x) => travel(*x, cfg, functions, sb),
        None => (Seq::empty(), Seq::empty(), sb),
    };
    let tn = if t.true_next is Some && tb.len() > 0 {
        seq![AstView { ast_type: AstTypeView::True, value: 0, next: tb }]
    } else {
        Seq::empty()
    };
    let fnx = if t.false_next is Some && fb.len() > 0 {
        seq![AstView { ast_type: AstTypeView::False, value: 0, next: fb }]
    } else {
        Seq::empty()
    };
    (seq![AstView { ast_type: AstTypeView::If, value: 0, next: seq![cond] + tn + fnx }], pt + pf, sc)
}

/// The condition `c_id` of the node `t` is one of `cfg` with operands that
/// can be parsed, and walking its branches in turn is fine.
pub open spec fn travel_if_ok(t: TreeView, c_id: isize, cfg: ControlFlowGraph, functions: Map<u64, NameValue>, st: SymState) -> bool
    decreases t, 0nat,
{
    let c = cond_by_id(cfg.condiction@, c_id);
    &&& c is Some
    &&& operand_parsable(c->Some_0.operand1)
    &&& operand_parsable(c->Some_0.operand2)
    &&& {
        let sa = condiction_step(c->Some_0, st).1;
        let sb = match t.true_next {
            Some(x) => travel(*x, cfg, functions, sa).2,
            None => sa,
        };
        &&& (t.true_next matches Some(x) ==> travel_ok(*x, cfg, functions, sa))
        &&& (t.false_next matches Some(x) ==> travel_ok(*x, cfg, functions, sb))
    }
}

/// What the trees `s` add, walked in turn (see `travel`).
pub open spec fn travel_all(s: Seq<TreeView>, cfg: ControlFlowGraph, functions: Map<u64, NameValue>, st: SymState)
    -> (Seq<AstView>, Seq<AstView>, SymState)
    decreases s, 0nat,
{
    if s.len() == 0 {
        (Seq::empty(), Seq::empty(), st)
    } else {
        let (a, p, st1) = travel_all(s.drop_last(), cfg, functions, st);
        let (b, q, st2) = travel(s.last(), cfg, functions, st1);
        (a + b, p + q, st2)
    }
}

/// What the following nodes `s` add after a node that is no loop head:
/// each walked directly, or under an `If` on its access conditions where
/// it has any.
pub open spec fn travel_next(s: Seq<TreeView>, cfg: ControlFlowGraph, functions: Map<u64, NameValue>, st: SymState)
    -> (Seq<AstView>, Seq<AstView>, SymState)
    decreases s, 0nat,
{
    if s.len() == 0 {
        (Seq::empty(), Seq::empty(), st)
    } else {
        let (a, p, st1) = travel_next(s.drop_last(), cfg, functions, st);
        let c = s.last();
        if c.access.len() == 0 {
            let (b, q, st2) = travel(c, cfg, functions, st1);
            (a + b, p + q, st2)
        } else {
            let (acc, sa) = access_step(access_groups(cfg.condiction@, c.access), st1);
            let (b, q, st2) = travel(c, cfg, functions, sa);
            let node = AstView {
                ast_type: AstTypeView::If,
                value: 0,
                next: seq![acc, AstView { ast_type: AstTypeView::True, value: 0, next: b }],
            };
            (a.push(node), p + q, st2)
        }
    }
}

/// Walking the tree `t` (see `travel`) meets only blocks of `cfg`, IR
/// that can be parsed in its turn, a loop body under each loop head,
/// conditions of `cfg` with operands that can be parsed, and access ids of
/// such conditions.
pub open spec fn travel_ok(t: TreeView, cfg: ControlFlowGraph, functions: Map<u64, NameValue>, st: SymState) -> bool
    decreases t, 1nat,
{
    let (a0, p0, st0) = irs_step(cfg.nodes@[t.id].irs@, functions, st);
    &&& cfg.nodes@.contains_key(t.id)
    &&& irs_ok(cfg.nodes@[t.id].irs@, functions, st)
    &&& if t.node_type == NodeType::Loop {
        match t.loop_region {
            Some(r) => {
                let (body, p1, st1) = travel(*r, cfg, functions, st0);
                travel_ok(*r, cfg, functions, st0) && travel_all_ok(t.next, cfg, functions, st1)
            },
            None => false,
        }
    } else if t.node_type == NodeType::Back || t.node_type == NodeType::Break {
        true
    } else {
        let st1 = match t.condiction {
            Some(c_id) => travel_if(t, c_id, cfg, functions, st0).2,
            None => st0,
        };
        &&& (t.condiction matches Some(c_id) ==> travel_if_ok(t, c_id, cfg, functions, st0))
        &&& travel_next_ok(t.next, cfg, functions, st1)
    }
}

/// Walking each of the trees `s` in turn is fine (see `travel_ok`).
pub open spec fn travel_all_ok(s: Seq<TreeView>, cfg: ControlFlowGraph, functions: Map<u64, NameValue>, st: SymState) -> bool
    decreases s, 0nat,
{
    s.len() == 0 || (travel_all_ok(s.drop_last(), cfg, functions, st)
        && travel_ok(s.last(), cfg, functions, travel_all(s.drop_last(), cfg, functions, st).2))
}

/// Walking the following nodes `s` in turn is fine, with their access
/// conditions (see `travel_next`).
pub open spec fn travel_next_ok(s: Seq<TreeView>, cfg: ControlFlowGraph, functions: Map<u64, NameValue>, st: SymState) -> bool
    decreases s, 0nat,
{
    s.len() == 0 || {
        let st1 = travel_next(s.drop_last(), cfg, functions, st).2;
        let c = s.last();
        &&& travel_next_ok(s.drop_last(), cfg, functions, st)
        &&& if c.access.len() == 0 {
            travel_ok(c, cfg, functions, st1)
        } else {
            &&& access_ok(cfg.condiction@, c.access)
            &&& travel_ok(c, cfg, functions, access_step(access_groups(cfg.condiction@, c.access), st1).1)
        }
    }
}

/// Conditions with the same value give the same tree and naming.
proof fn lemma_condiction_step_view(c1: Condiction, c2: Condiction, st: SymState)
    requires
        c1@ == c2@,
    ensures
        condiction_step(c1, st) == condiction_step(c2, st),
{
    lemma_operand_step_view(c1.operand1, c2.operand1, st);
    let st1 = operand_step(c1.operand1, st).1;
    lemma_operand_step_view(c1.operand2, c2.operand2, st1);
}

proof fn lemma_operand_step_view(o1: DFIOperand, o2: DFIOperand, st: SymState)
    requires
        o1@ == o2@,
    ensures
        operand_step(o1, st) == operand_step(o2, st),
{
    match o1 {
        DFIOperand::Number(n) => {
            assert(o2 == DFIOperand::Number(n));
        },
        DFIOperand::Symbol(x) => {
            assert(o2 == DFIOperand::Symbol(x));
        },
        DFIOperand::Parameter(_) => {
            assert(o2 is Parameter);
        },
    }
}

/// Groups of conditions of the same shape whose conditions have the same values.
pub open spec fn groups_same(a: Seq<Seq<Condiction>>, b: Seq<Seq<Condiction>>) -> bool {
    &&& a.len() == b.len()
    &&& forall|i: int| 0 <= i < a.len() ==> (#[trigger] a[i]).len() == b[i].len()
    &&& forall|i: int, j: int| 0 <= i < a.len() && 0 <= j < a[i].len() ==> (#[trigger] a[i][j])@ == b[i][j]@
}

proof fn lemma_and_step_same(a: Seq<Condiction>, b: Seq<Condiction>, st: SymState)
    requires
        a.len() == b.len(),
        forall|j: int| 0 <= j < a.len() ==> (#[trigger] a[j])@ == b[j]@,
    ensures
        and_step(a, st) == and_step(b, st),
    decreases a.len(),
{
    if a.len() > 0 {
        lemma_and_step_same(a.drop_last(), b.drop_last(), st);
        let st1 = and_step(a.drop_last(), st).1;
        lemma_condiction_step_view(a.last(), b.last(), st1);
    }
}

proof fn lemma_or_step_same(a: Seq<Seq<Condiction>>, b: Seq<Seq<Condiction>>, st: SymState)
    requires
        groups_same(a, b),
    ensures
        or_step(a, st) == or_step(b, st),
    decreases a.len(),
{
    if a.len() > 0 {
        assert(groups_same(a.drop_last(), b.drop_last())) by {
            assert forall|i: int, j: int| 0 <= i < a.drop_last().len() && 0 <= j < a.drop_last()[i].len()
                implies (#[trigger] a.drop_last()[i][j])@ == b.drop_last()[i][j]@ by {
                assert(a.drop_last()[i] == a[i]);
                assert(b.drop_last()[i] == b[i]);
            }
        }
        lemma_or_step_same(a.drop_last(), b.drop_last(), st);
        let st1 = or_step(a.drop_last(), st).1;
        let i = a.len() - 1;
        assert forall|j: int| 0 <= j < a.last().len() implies (#[trigger] a.last()[j])@ == b.last()[j]@ by {
            assert(a[i][j]@ == b[i][j]@);
        }
        lemma_and_step_same(a.last(), b.last(), st1);
    }
}

/// The values of a list of trees.
pub open spec fn tree_views(s: Seq<AbstractSyntaxTree>) -> Seq<AstView> {
    s.map_values(|t: AbstractSyntaxTree| t.av())
}

/// Adds `t` at the end of the children of `ast`.
fn push_child(ast: &mut AbstractSyntaxTree, t: AbstractSyntaxTree)
    ensures
        children_av(final(ast).next@) == children_av(old(ast).next@).push(t.av()),
        final(ast).ast_type == old(ast).ast_type,
        final(ast).value == old(ast).value,
{
    let ghost n0 = ast.next@;
    ast.next.push(Box::new(t));
    proof {
        lemma_children_av_push(n0, Box::new(t));
    }
}

/// Adds `t` at the end of `params`.
fn push_param(params: &mut Vec<AbstractSyntaxTree>, t: AbstractSyntaxTree)
    ensures
        tree_views(final(params)@) == tree_views(old(params)@).push(t.av()),
{
    params.push(t);
    proof {
        assert(tree_views(params@) =~= tree_views(old(params)@).push(t.av()));
    }
}

/// Parses the IR instructions `irs` in order, adding their trees to `ast`
/// and the parameters they reveal to `params` (see `irs_step`).
fn parse_irs(
    irs: &Vec<DataFlowIr>,
    ast: &mut AbstractSyntaxTree,
    ast_symbol_map: &mut HashMap<usize, ASTSymbol>,
    address_symbol_map: &mut AddressSymbolMap,
    counter: &mut Counter,
    params: &mut Vec<AbstractSyntaxTree>,
    functions: &HashMap<u64, NameValue>,
)
    requires
        irs_ok(irs@, functions@, sym_state(old(address_symbol_map), old(ast_symbol_map), old(counter))),
        ids_known(sym_state(old(address_symbol_map), old(ast_symbol_map), old(counter))),
    ensures
        ({
            let r = irs_step(irs@, functions@, sym_state(old(address_symbol_map), old(ast_symbol_map), old(counter)));
            &&& children_av(final(ast).next@) == children_av(old(ast).next@) + r.0
            &&& tree_views(final(params)@) == tree_views(old(params)@) + r.1
            &&& sym_state(final(address_symbol_map), final(ast_symbol_map), final(counter)) == r.2
        }),
        ids_known(sym_state(final(address_symbol_map), final(ast_symbol_map), final(counter))),
        final(ast).ast_type == old(ast).ast_type,
        final(ast).value == old(ast).value,
{
    let ghost st0 = sym_state(address_symbol_map, ast_symbol_map, counter);
    let ghost a0 = children_av(ast.next@);
    let ghost q0 = tree_views(params@);
    let mut i: usize = 0;
    proof {
        assert(irs@.take(0) =~= Seq::<DataFlowIr>::empty());
        assert(a0 + Seq::<AstView>::empty() =~= a0);
        assert(q0 + Seq::<AstView>::empty() =~= q0);
        lemma_irs_ok_prefix(irs@, functions@, st0, irs@.len() as int);
    }
    while i < irs.len()
        invariant
            i <= irs@.len(),
            forall|k: int| 0 <= k <= irs@.len() ==> irs_ok(#[trigger] irs@.take(k), functions@, st0),
            ids_known(sym_state(address_symbol_map, ast_symbol_map, counter)),
            ast.ast_type == old(ast).ast_type,
            ast.value == old(ast).value,
            ({
                let r = irs_step(irs@.take(i as int), functions@, st0);
                &&& children_av(ast.next@) == a0 + r.0
                &&& tree_views(params@) == q0 + r.1
                &&& sym_state(address_symbol_map, ast_symbol_map, counter) == r.2
            }),
        decreases irs@.len() - i,
    {
        proof {
            assert(irs@.take(i as int + 1).drop_last() =~= irs@.take(i as int));
            assert(irs@.take(i as int + 1).last() == irs@[i as int]);
            assert(irs_ok(irs@.take(i as int + 1), functions@, st0));
        }
        let ghost r = irs_step(irs@.take(i as int), functions@, st0);
        let (t, p) = AbstractSyntaxTree::parse_dfi(&irs[i], ast_symbol_map, address_symbol_map, counter, functions);
        let ghost x = opt_av(t);
        let ghost y = opt_av(p);
        match t {
            Some(t) => push_child(ast, t),
            None => {},
        }
        match p {
            Some(p) => push_param(params, p),
            None => {},
        }
        proof {
            assert(children_av(ast.next@) =~= a0 + (r.0 + opt_seq(x)));
            assert(tree_views(params@) =~= q0 + (r.1 + opt_seq(y)));
        }
        i = i + 1;
    }
    proof {
        assert(irs@.take(i as int) =~= irs@);
    }
}

proof fn lemma_irs_ok_prefix(irs: Seq<DataFlowIr>, functions: Map<u64, NameValue>, st: SymState, n: int)
    requires
        0 <= n <= irs.len(),
        irs_ok(irs.take(n), functions, st) || (n == irs.len() && irs_ok(irs, functions, st)),
    ensures
        forall|k: int| 0 <= k <= n ==> irs_ok(#[trigger] irs.take(k), functions, st),
    decreases n,
{
    if n == irs.len() {
        assert(irs.take(n) =~= irs);
    }
    if n > 0 {
        assert(irs.take(n).drop_last() =~= irs.take(n - 1));
        lemma_irs_ok_prefix(irs, functions, st, n - 1);
    }
}

/// A copy of the first condition with the id `id`, if any.
fn cond_with_id(l: &Vec<(Condiction, isize)>, id: isize) -> (r: Option<Condiction>)
    ensures
        r is Some <==> cond_by_id(l@, id) is Some,
        r matches Some(c) ==> c@ == cond_by_id(l@, id)->Some_0@,
{
    let mut i: usize = 0;
    proof {
        assert(l@.take(0) =~= Seq::<(Condiction, isize)>::empty());
    }
    while i < l.len()
        invariant
            i <= l@.len(),
            cond_by_id(l@.take(i as int), id) is None,
        decreases l@.len() - i,
    {
        proof {
            assert(l@.take(i as int + 1).drop_last() =~= l@.take(i as int));
            assert(l@.take(i as int + 1).last() == l@[i as int]);
        }
        if l[i].1 == id {
            proof {
                lemma_cond_by_id_prefix(l@, id, i as int + 1);
            }
            return Some(l[i].0.duplicate());
        }
        i = i + 1;
    }
    proof {
        assert(l@.take(i as int) =~= l@);
    }
    None
}

proof fn lemma_cond_by_id_prefix(l: Seq<(Condiction, isize)>, id: isize, k: int)
    requires
        0 <= k <= l.len(),
        cond_by_id(l.take(k), id) is Some,
    ensures
        cond_by_id(l, id) == cond_by_id(l.take(k), id),
    decreases l.len() - k,
{
    if k < l.len() {
        assert(l.take(k + 1).drop_last() =~= l.take(k));
        lemma_cond_by_id_prefix(l, id, k + 1);
    } else {
        assert(l.take(k) =~= l);
    }
}

/// The groups of conditions of the access ids `acc` (see `access_groups`).
fn build_access_groups(l: &Vec<(Condiction, isize)>, acc: &Vec<Vec<isize>>) -> (r: Vec<Vec<Condiction>>)
    requires
        access_ok(l@, access_view(acc@)),
    ensures
        groups_same(groups(r@), access_groups(l@, access_view(acc@))),
{
    let ghost av = access_view(acc@);
    let ghost target = access_groups(l@, av);
    let mut r: Vec<Vec<Condiction>> = Vec::new();
    let mut i: usize = 0;
    while i < acc.len()
        invariant
            i <= acc@.len(),
            av == access_view(acc@),
            av.len() == acc@.len(),
            target == access_groups(l@, av),
            access_ok(l@, av),
            r@.len() == i,
            forall|q: int| 0 <= q < i ==> (#[trigger] groups(r@)[q]).len() == target[q].len(),
            forall|q: int, j: int| 0 <= q < i && 0 <= j < groups(r@)[q].len() ==> (#[trigger] groups(r@)[q][j])@ == target[q][j]@,
        decreases acc@.len() - i,
    {
        let g = &acc[i];
        proof {
            assert(av[i as int] == g@);
        }
        let mut gr: Vec<Condiction> = Vec::new();
        let mut j: usize = 0;
        while j < g.len()
            invariant
                i < acc@.len(),
                av == access_view(acc@),
                av[i as int] == g@,
                target == access_groups(l@, av),
                access_ok(l@, av),
                j <= g@.len(),
                gr@.len() == j,
                forall|q: int| 0 <= q < j ==> (#[trigger] gr@[q])@ == target[i as int][q]@,
            decreases g@.len() - j,
        {
            let cid = g[j];
            proof {
                assert(av[i as int][j as int] == cid);
            }
            let a = if cid < 0 { -cid } else { cid };
            let c = cond_with_id(l, a).unwrap();
            let c2 = if cid < 0 {
                Condiction { relation: c.relation.not(), operand1: c.operand1, operand2: c.operand2 }
            } else {
                c
            };
            proof {
                assert(target[i as int][j as int] == access_cond(l@, cid));
            }
            gr.push(c2);
            j = j + 1;
        }
        let ghost r0 = r@;
        r.push(gr);
        proof {
            assert forall|q: int| 0 <= q < i + 1 implies (#[trigger] groups(r@)[q]).len() == target[q].len() by {
                if q < i {
                    assert(groups(r@)[q] == groups(r0)[q]);
                }
            }
            assert forall|q: int, j2: int| 0 <= q < i + 1 && 0 <= j2 < groups(r@)[q].len()
                implies (#[trigger] groups(r@)[q][j2])@ == target[q][j2]@ by {
                if q < i {
                    assert(groups(r@)[q] == groups(r0)[q]);
                }
            }
        }
        i = i + 1;
    }
    r
}

/// Operands with the same value can both be parsed, or neither.
proof fn lemma_operand_parsable_view(o1: DFIOperand, o2: DFIOperand)
    requires
        o1@ == o2@,
    ensures
        operand_parsable(o1) == operand_parsable(o2),
{
    match o1 {
        DFIOperand::Number(n) => {
            assert(o2 == DFIOperand::Number(n));
        },
        DFIOperand::Symbol(x) => {
            assert(o2 == DFIOperand::Symbol(x));
        },
        DFIOperand::Parameter(_) => {
            assert(o2 is Parameter);
        },
    }
}

/// Groups of conditions with the values of those of the access ids `acc`
/// can be parsed.
proof fn lemma_groups_parsable(a: Seq<Seq<Condiction>>, l: Seq<(Condiction, isize)>, acc: Seq<Seq<isize>>)
    requires
        groups_same(a, access_groups(l, acc)),
        access_ok(l, acc),
    ensures
        groups_parsable(a),
{
    let g = access_groups(l, acc);
    assert forall|i: int, j: int| 0 <= i < a.len() && 0 <= j < a[i].len()
        implies operand_parsable((#[trigger] a[i][j]).operand1) && operand_parsable(a[i][j].operand2) by {
        assert(g[i] == acc[i].map_values(|cid: isize| access_cond(l, cid)));
        assert(g[i][j] == access_cond(l, acc[i][j]));
        assert(a[i][j]@ == g[i][j]@);
        lemma_operand_parsable_view(a[i][j].operand1, g[i][j].operand1);
        lemma_operand_parsable_view(a[i][j].operand2, g[i][j].operand2);
    }
}

proof fn lemma_travel_all_ok_prefix(s: Seq<TreeView>, cfg: ControlFlowGraph, functions: Map<u64, NameValue>, st: SymState, k: int)
    requires
        travel_all_ok(s, cfg, functions, st),
        0 <= k <= s.len(),
    ensures
        travel_all_ok(s.take(k), cfg, functions, st),
    decreases s.len(),
{
    if k == s.len() {
        assert(s.take(k) =~= s);
    } else {
        lemma_travel_all_ok_prefix(s.drop_last(), cfg, functions, st, k);
        assert(s.drop_last().take(k) =~= s.take(k));
    }
}

proof fn lemma_travel_next_ok_prefix(s: Seq<TreeView>, cfg: ControlFlowGraph, functions: Map<u64, NameValue>, st: SymState, k: int)
    requires
        travel_next_ok(s, cfg, functions, st),
        0 <= k <= s.len(),
    ensures
        travel_next_ok(s.take(k), cfg, functions, st),
    decreases s.len(),
{
    if k == s.len() {
        assert(s.take(k) =~= s);
    } else {
        lemma_travel_next_ok_prefix(s.drop_last(), cfg, functions, st, k);
        assert(s.drop_last().take(k) =~= s.take(k));
    }
}

impl ControlFlowTree {
    /// Walks the tree into `ast`: the trees of the IR of each block, and
    /// the loops, `continue`s, `break`s and `if`s that the tree's shape
    /// stands for (see `travel`); the parameters the IR reveals go to
    /// `params`, and the naming of registers and slots is carried along.
    #[verifier::spinoff_prover]
    #[verifier::rlimit(40)]
    pub fn travel_cft_with_ast(
        &self,
        ast: &mut AbstractSyntaxTree,
        cfg: &ControlFlowGraph,
        ast_symbol_map: &mut HashMap<usize, ASTSymbol>,
        address_symbol_map: &mut AddressSymbolMap,
        counter: &mut Counter,
        params: &mut Vec<AbstractSyntaxTree>,
        functions: &HashMap<u64, NameValue>,
    )
        requires
            travel_ok(self.tv(), *cfg, functions@, sym_state(old(address_symbol_map), old(ast_symbol_map), old(counter))),
            ids_known(sym_state(old(address_symbol_map), old(ast_symbol_map), old(counter))),
        ensures
            ({
                let r = travel(self.tv(), *cfg, functions@, sym_state(old(address_symbol_map), old(ast_symbol_map), old(counter)));
                &&& children_av(final(ast).next@) == children_av(old(ast).next@) + r.0
                &&& tree_views(final(params)@) == tree_views(old(params)@) + r.1
                &&& sym_state(final(address_symbol_map), final(ast_symbol_map), final(counter)) == r.2
            }),
            ids_known(sym_state(final(address_symbol_map), final(ast_symbol_map), final(counter))),
            final(ast).ast_type == old(ast).ast_type,
            final(ast).value == old(ast).value,
        decreases self, 1nat,
    {
        let ghost st = sym_state(address_symbol_map, ast_symbol_map, counter);
        let ghost t = self.tv();
        let ghost a_init = children_av(ast.next@);
        let ghost q_init = tree_views(params@);
        let node = cfg.nodes.get(&self.id).unwrap();
        parse_irs(&node.irs, ast, ast_symbol_map, address_symbol_map, counter, params, functions);
        let ghost x0 = irs_step(cfg.nodes@[t.id].irs@, functions@, st);
        let ghost a_mid = children_av(ast.next@);
        let ghost q_mid = tree_views(params@);
        let ghost st0 = sym_state(address_symbol_map, ast_symbol_map, counter);
        if self.node_type == NodeType::Loop {
            let mut loop_ast = AbstractSyntaxTree::leaf(ASTType::Loop, 0);
            match &self.loop_region {
                Some(r) => {
                    proof {
                        assert(decreases_to!(self => self.loop_region));
                    }
                    r.travel_cft_with_ast(&mut loop_ast, cfg, ast_symbol_map, address_symbol_map, counter, params, functions);
                },
                None => {},
            }
            let ghost lp = loop_ast.av();
            let ghost q1 = tree_views(params@);
            push_child(ast, loop_ast);
            let ghost a1 = children_av(ast.next@);
            self.travel_all_next(ast, cfg, ast_symbol_map, address_symbol_map, counter, params, functions);
            proof {
                let body = travel(*t.loop_region->Some_0, *cfg, functions@, st0);
                let rest = travel_all(t.next, *cfg, functions@, body.2);
                assert(children_av(loop_ast.next@) =~= Seq::<AstView>::empty() + body.0);
                assert(children_av(ast.next@) =~= a_init + (x0.0.push(lp) + rest.0));
                assert(tree_views(params@) =~= q_init + (x0.1 + body.1 + rest.1));
            }
        } else if self.node_type == NodeType::Back {
            push_child(ast, AbstractSyntaxTree::leaf(ASTType::Continue, 0));
            proof {
                assert(children_av(ast.next@) =~= a_init + x0.0.push(
                    AstView { ast_type: AstTypeView::Continue, value: 0, next: Seq::empty() }));
            }
        } else if self.node_type == NodeType::Break {
            push_child(ast, AbstractSyntaxTree::leaf(ASTType::Break, 0));
            proof {
                assert(children_av(ast.next@) =~= a_init + x0.0.push(
                    AstView { ast_type: AstTypeView::Break, value: 0, next: Seq::empty() }));
            }
        } else {
            match self.condiction {
                Some(c_id) => {
                    let if_ast = self.travel_if_node(c_id, cfg, ast_symbol_map, address_symbol_map, counter, params, functions);
                    push_child(ast, if_ast);
                },
                None => {},
            }
            let ghost a1 = children_av(ast.next@);
            let ghost q1 = tree_views(params@);
            let ghost st1 = sym_state(address_symbol_map, ast_symbol_map, counter);
            self.travel_following(ast, cfg, ast_symbol_map, address_symbol_map, counter, params, functions);
            proof {
                let ifs = match t.condiction {
                    Some(c_id) => travel_if(t, c_id, *cfg, functions@, st0),
                    None => (Seq::empty(), Seq::empty(), st0),
                };
                let rest = travel_next(t.next, *cfg, functions@, ifs.2);
                assert(a1 =~= a_mid + ifs.0);
                assert(q1 =~= q_mid + ifs.1);
                assert(children_av(ast.next@) =~= a_init + (x0.0 + ifs.0 + rest.0));
                assert(tree_views(params@) =~= q_init + (x0.1 + ifs.1 + rest.1));
            }
        }
    }

    /// Walks the nodes that follow a loop head, each in its turn (see
    /// `travel_all`).
    fn travel_all_next(
        &self,
        ast: &mut AbstractSyntaxTree,
        cfg: &ControlFlowGraph,
        ast_symbol_map: &mut HashMap<usize, ASTSymbol>,
        address_symbol_map: &mut AddressSymbolMap,
        counter: &mut Counter,
        params: &mut Vec<AbstractSyntaxTree>,
        functions: &HashMap<u64, NameValue>,
    )
        requires
            travel_all_ok(self.tv().next, *cfg, functions@, sym_state(old(address_symbol_map), old(ast_symbol_map), old(counter))),
            ids_known(sym_state(old(address_symbol_map), old(ast_symbol_map), old(counter))),
        ensures
            ({
                let r = travel_all(self.tv().next, *cfg, functions@, sym_state(old(address_symbol_map), old(ast_symbol_map), old(counter)));
                &&& children_av(final(ast).next@) == children_av(old(ast).next@) + r.0
                &&& tree_views(final(params)@) == tree_views(old(params)@) + r.1
                &&& sym_state(final(address_symbol_map), final(ast_symbol_map), final(counter)) == r.2
            }),
            ids_known(sym_state(final(address_symbol_map), final(ast_symbol_map), final(counter))),
            final(ast).ast_type == old(ast).ast_type,
            final(ast).value == old(ast).value,
        decreases self, 0nat,
    {
        let ghost st0 = sym_state(address_symbol_map, ast_symbol_map, counter);
        let ghost a0 = children_av(ast.next@);
        let ghost q0 = tree_views(params@);
        let ghost s = self.tv().next;
        proof {
            lemma_children_tv_len(self.next@);
            assert(s.take(0) =~= Seq::<TreeView>::empty());
            assert(a0 + Seq::<AstView>::empty() =~= a0);
            assert(q0 + Seq::<AstView>::empty() =~= q0);
        }
        let mut i: usize = 0;
        while i < self.next.len()
            invariant
                i <= self.next@.len(),
                s == children_tv(self.next@),
                s.len() == self.next@.len(),
                travel_all_ok(s, *cfg, functions@, st0),
                ids_known(sym_state(address_symbol_map, ast_symbol_map, counter)),
                ast.ast_type == old(ast).ast_type,
                ast.value == old(ast).value,
                ({
                    let r = travel_all(s.take(i as int), *cfg, functions@, st0);
                    &&& children_av(ast.next@) == a0 + r.0
                    &&& tree_views(params@) == q0 + r.1
                    &&& sym_state(address_symbol_map, ast_symbol_map, counter) == r.2
                }),
            decreases self.next@.len() - i,
        {
            proof {
                assert(decreases_to!(self => self.next));
                assert(decreases_to!(self.next => self.next@));
                assert(decreases_to!(self.next@ => self.next@[i as int]));
                lemma_children_tv_index(self.next@, i as int);
                assert(s.take(i as int + 1).drop_last() =~= s.take(i as int));
                assert(s.take(i as int + 1).last() == s[i as int]);
                lemma_travel_all_ok_prefix(s, *cfg, functions@, st0, i as int + 1);
            }
            let ghost r = travel_all(s.take(i as int), *cfg, functions@, st0);
            self.next[i].travel_cft_with_ast(ast, cfg, ast_symbol_map, address_symbol_map, counter, params, functions);
            proof {
                let b = travel(s[i as int], *cfg, functions@, r.2);
                assert(children_av(ast.next@) =~= a0 + (r.0 + b.0));
                assert(tree_views(params@) =~= q0 + (r.1 + b.1));
            }
            i = i + 1;
        }
        proof {
            assert(s.take(i as int) =~= s);
        }
    }

    /// The `If` node of the condition `c_id` of this node over its branches
    /// (see `travel_if`).
    fn travel_if_node(
        &self,
        c_id: isize,
        cfg: &ControlFlowGraph,
        ast_symbol_map: &mut HashMap<usize, ASTSymbol>,
        address_symbol_map: &mut AddressSymbolMap,
        counter: &mut Counter,
        params: &mut Vec<AbstractSyntaxTree>,
        functions: &HashMap<u64, NameValue>,
    ) -> (r: AbstractSyntaxTree)
        requires
            travel_if_ok(self.tv(), c_id, *cfg, functions@, sym_state(old(address_symbol_map), old(ast_symbol_map), old(counter))),
            ids_known(sym_state(old(address_symbol_map), old(ast_symbol_map), old(counter))),
        ensures
            ({
                let x = travel_if(self.tv(), c_id, *cfg, functions@, sym_state(old(address_symbol_map), old(ast_symbol_map), old(counter)));
                &&& seq![r.av()] == x.0
                &&& tree_views(final(params)@) == tree_views(old(params)@) + x.1
                &&& sym_state(final(address_symbol_map), final(ast_symbol_map), final(counter)) == x.2
            }),
            ids_known(sym_state(final(address_symbol_map), final(ast_symbol_map), final(counter))),
        decreases self, 0nat,
    {
        let ghost st0 = sym_state(address_symbol_map, ast_symbol_map, counter);
        let ghost t = self.tv();
        let ghost q0 = tree_views(params@);
        let ghost orig = cond_by_id(cfg.condiction@, c_id)->Some_0;
        let c = cond_with_id(&cfg.condiction, c_id).unwrap();
        proof {
            lemma_condiction_step_view(c, orig, st0);
            lemma_operand_parsable_view(c.operand1, orig.operand1);
            lemma_operand_parsable_view(c.operand2, orig.operand2);
        }
        let cond_ast = AbstractSyntaxTree::parse_condiction(c, address_symbol_map, ast_symbol_map, counter);
        let ghost cond = cond_ast.av();
        let ghost sa = sym_state(address_symbol_map, ast_symbol_map, counter);
        let mut if_ast = AbstractSyntaxTree::leaf(ASTType::If, 0);
        push_child(&mut if_ast, cond_ast);
        let ghost tn: Seq<AstView> = Seq::empty();
        match &self.true_next {
            Some(x) => {
                let mut true_ast = AbstractSyntaxTree::leaf(ASTType::True, 0);
                proof {
                    assert(decreases_to!(self => self.true_next));
                }
                x.travel_cft_with_ast(&mut true_ast, cfg, ast_symbol_map, address_symbol_map, counter, params, functions);
                proof {
                    lemma_children_av_len(true_ast.next@);
                    assert(children_av(true_ast.next@) =~= Seq::<AstView>::empty() + travel(x.tv(), *cfg, functions@, sa).0);
                }
                if true_ast.next.len() != 0 {
                    proof {
                        tn = seq![true_ast.av()];
                    }
                    push_child(&mut if_ast, true_ast);
                }
            },
            None => {},
        }
        let ghost sb = sym_state(address_symbol_map, ast_symbol_map, counter);
        let ghost q1 = tree_views(params@);
        let ghost a1 = children_av(if_ast.next@);
        let ghost fnx: Seq<AstView> = Seq::empty();
        match &self.false_next {
            Some(x) => {
                let mut false_ast = AbstractSyntaxTree::leaf(ASTType::False, 0);
                proof {
                    assert(decreases_to!(self => self.false_next));
                }
                x.travel_cft_with_ast(&mut false_ast, cfg, ast_symbol_map, address_symbol_map, counter, params, functions);
                proof {
                    lemma_children_av_len(false_ast.next@);
                    assert(children_av(false_ast.next@) =~= Seq::<AstView>::empty() + travel(x.tv(), *cfg, functions@, sb).0);
                }
                if false_ast.next.len() != 0 {
                    proof {
                        fnx = seq![false_ast.av()];
                    }
                    push_child(&mut if_ast, false_ast);
                }
            },
            None => {},
        }
        proof {
            let tb = match t.true_next {
                Some(x) => travel(*x, *cfg, functions@, sa),
                None => (Seq::empty(), Seq::empty(), sa),
            };
            let fb = match t.false_next {
                Some(x) => travel(*x, *cfg, functions@, tb.2),
                None => (Seq::empty(), Seq::empty(), tb.2),
            };
            assert(sb == tb.2);
            assert(q1 =~= q0 + tb.1);
            assert(children_av(if_ast.next@) =~= seq![cond] + tn + fnx);
            assert(tree_views(params@) =~= q0 + (tb.1 + fb.1));
        }
        if_ast
    }

    /// Walks the nodes that follow a node that is no loop head, each in
    /// its turn, under an `If` on its access conditions where it has any
    /// (see `travel_next`).
    fn travel_following(
        &self,
        ast: &mut AbstractSyntaxTree,
        cfg: &ControlFlowGraph,
        ast_symbol_map: &mut HashMap<usize, ASTSymbol>,
        address_symbol_map: &mut AddressSymbolMap,
        counter: &mut Counter,
        params: &mut Vec<AbstractSyntaxTree>,
        functions: &HashMap<u64, NameValue>,
    )
        requires
            travel_next_ok(self.tv().next, *cfg, functions@, sym_state(old(address_symbol_map), old(ast_symbol_map), old(counter))),
            ids_known(sym_state(old(address_symbol_map), old(ast_symbol_map), old(counter))),
        ensures
            ({
                let r = travel_next(self.tv().next, *cfg, functions@, sym_state(old(address_symbol_map), old(ast_symbol_map), old(counter)));
                &&& children_av(final(ast).next@) == children_av(old(ast).next@) + r.0
                &&& tree_views(final(params)@) == tree_views(old(params)@) + r.1
                &&& sym_state(final(address_symbol_map), final(ast_symbol_map), final(counter)) == r.2
            }),
            ids_known(sym_state(final(address_symbol_map), final(ast_symbol_map), final(counter))),
            final(ast).ast_type == old(ast).ast_type,
            final(ast).value == old(ast).value,
        decreases self, 0nat,
    {
        let ghost st0 = sym_state(address_symbol_map, ast_symbol_map, counter);
        let ghost a0 = children_av(ast.next@);
        let ghost q0 = tree_views(params@);
        let ghost s = self.tv().next;
        proof {
            lemma_children_tv_len(self.next@);
            assert(s.take(0) =~= Seq::<TreeView>::empty());
            assert(a0 + Seq::<AstView>::empty() =~= a0);
            assert(q0 + Seq::<AstView>::empty() =~= q0);
        }
        let mut i: usize = 0;
        while i < self.next.len()
            invariant
                i <= self.next@.len(),
                s == children_tv(self.next@),
                s.len() == self.next@.len(),
                travel_next_ok(s, *cfg, functions@, st0),
                ids_known(sym_state(address_symbol_map, ast_symbol_map, counter)),
                ast.ast_type == old(ast).ast_type,
                ast.value == old(ast).value,
                ({
                    let r = travel_next(s.take(i as int), *cfg, functions@, st0);
                    &&& children_av(ast.next@) == a0 + r.0
                    &&& tree_views(params@) == q0 + r.1
                    &&& sym_state(address_symbol_map, ast_symbol_map, counter) == r.2
                }),
            decreases self.next@.len() - i,
        {
            proof {
                assert(decreases_to!(self => self.next));
                assert(decreases_to!(self.next => self.next@));
                assert(decreases_to!(self.next@ => self.next@[i as int]));
                lemma_children_tv_index(self.next@, i as int);
                assert(s.take(i as int + 1).drop_last() =~= s.take(i as int));
                assert(s.take(i as int + 1).last() == s[i as int]);
                lemma_travel_next_ok_prefix(s, *cfg, functions@, st0, i as int + 1);
            }
            let ghost r = travel_next(s.take(i as int), *cfg, functions@, st0);
            let c = &self.next[i];
            if c.access_condiction.len() == 0 {
                c.travel_cft_with_ast(ast, cfg, ast_symbol_map, address_symbol_map, counter, params, functions);
                proof {
                    let b = travel(s[i as int], *cfg, functions@, r.2);
                    assert(children_av(ast.next@) =~= a0 + (r.0 + b.0));
                    assert(tree_views(params@) =~= q0 + (r.1 + b.1));
                }
            } else {
                let ghost l = cfg.condiction@;
                let ghost acc = access_view(c.access_condiction@);
                let g = build_access_groups(&cfg.condiction, &c.access_condiction);
                proof {
                    lemma_groups_parsable(groups(g@), l, acc);
                    lemma_or_step_same(groups(g@), access_groups(l, acc), r.2);
                }
                let acc_ast = AbstractSyntaxTree::parse_access_condiction(g, address_symbol_map, ast_symbol_map, counter);
                let mut true_body = AbstractSyntaxTree::leaf(ASTType::True, 0);
                c.travel_cft_with_ast(&mut true_body, cfg, ast_symbol_map, address_symbol_map, counter, params, functions);
                let mut if_ast = AbstractSyntaxTree::leaf(ASTType::If, 0);
                let ghost x = acc_ast.av();
                let ghost y = true_body.av();
                push_child(&mut if_ast, acc_ast);
                push_child(&mut if_ast, true_body);
                let ghost node = if_ast.av();
                push_child(ast, if_ast);
                proof {
                    let sa = access_step(access_groups(l, acc), r.2).1;
                    let b = travel(s[i as int], *cfg, functions@, sa);
                    assert(children_av(true_body.next@) =~= Seq::<AstView>::empty() + b.0);
                    assert(children_av(if_ast.next@) =~= seq![x, y]);
                    assert(children_av(ast.next@) =~= a0 + r.0.push(node));
                    assert(tree_views(params@) =~= q0 + (r.1 + b.1));
                }
            }
            i = i + 1;
        }
        proof {
            assert(s.take(i as int) =~= s);
        }
    }
}

} // verus!
