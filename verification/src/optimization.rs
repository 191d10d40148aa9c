use vstd::prelude::*;
use crate::data_flow::rel_not;
use std::collections::HashSet;
use crate::ast::{
    AbstractSyntaxTree, ASTType, AstTypeView, AstView, Operator, children_av, lemma_children_av_push,
    lemma_children_av_take, lemma_children_av_len, lemma_children_av_index,
};
use crate::ast::render::{height, lemma_heights};

verus! {

broadcast use {vstd::std_specs::vec::group_vec_axioms, vstd::std_specs::hash::group_hash_axioms};

/// The index of the first tree of `s` that is a single condition, or -1.
pub open spec fn first_condiction(s: Seq<AstView>) -> int
    decreases s.len(),
{
    if s.len() == 0 {
        -1
    } else if s[0].ast_type is Condiction {
        0
    } else {
        let r = first_condiction(s.drop_first());
        if r < 0 { -1 } else { r + 1 }
    }
}

/// A `Condictions` node holding the single tree `c`.
pub open spec fn wrap_condiction(c: AstView) -> AstView {
    AstView { ast_type: AstTypeView::Condictions, value: 0, next: seq![c] }
}

/// The tree `t` with the first single condition below each `If` node put
/// under a `Condictions` node of its own.
pub open spec fn m_format(t: AstView) -> AstView
    decreases t,
{
    let k = if t.ast_type is If { first_condiction(t.next) } else { -1 };
    AstView { next: m_format_all(t.next, k), ..t }
}

/// `m_format` on each tree of `s`, the one at index `k` also wrapped.
pub open spec fn m_format_all(s: Seq<AstView>, k: int) -> Seq<AstView>
    decreases s,
{
    if s.len() == 0 {
        Seq::empty()
    } else {
        let c = m_format(s.last());
        m_format_all(s.drop_last(), k).push(if s.len() - 1 == k { wrap_condiction(c) } else { c })
    }
}

/// The index of the first of the trees `s` that is a single condition, or -1.
fn find_condiction(s: &Vec<Box<AbstractSyntaxTree>>) -> (r: Option<usize>)
    ensures
        opt_index(r) == first_condiction(children_av(s@)),
{
    let ghost cs = children_av(s@);
    let mut i: usize = 0;
    proof {
        lemma_children_av_len(s@);
    }
    while i < s.len()
        invariant
            i <= s@.len(),
            cs == children_av(s@),
            cs.len() == s@.len(),
            forall|j: int| 0 <= j < i ==> !(cs[j].ast_type is Condiction),
        decreases s@.len() - i,
    {
        proof {
            lemma_children_av_index(s@, i as int);
        }
        if let ASTType::Condiction(_) = &s[i].ast_type {
            proof {
                lemma_first_condiction_at(cs, i as int);
            }
            return Some(i);
        }
        i = i + 1;
    }
    proof {
        lemma_first_condiction_none(cs);
    }
    None
}

/// An index, or -1 for none.
pub open spec fn opt_index(o: Option<usize>) -> int {
    match o {
        Some(i) => i as int,
        None => -1,
    }
}

proof fn lemma_first_condiction_at(s: Seq<AstView>, i: int)
    requires
        0 <= i < s.len(),
        s[i].ast_type is Condiction,
        forall|j: int| 0 <= j < i ==> !(s[j].ast_type is Condiction),
    ensures
        first_condiction(s) == i,
    decreases i,
{
    if i > 0 {
        assert forall|j: int| 0 <= j < i - 1 implies !(s.drop_first()[j].ast_type is Condiction) by {
            assert(s.drop_first()[j] == s[j + 1]);
        }
        lemma_first_condiction_at(s.drop_first(), i - 1);
    }
}

proof fn lemma_first_condiction_none(s: Seq<AstView>)
    requires
        forall|j: int| 0 <= j < s.len() ==> !(s[j].ast_type is Condiction),
    ensures
        first_condiction(s) == -1,
    decreases s.len(),
{
    if s.len() > 0 {
        assert forall|j: int| 0 <= j < s.len() - 1 implies !(s.drop_first()[j].ast_type is Condiction) by {
            assert(s.drop_first()[j] == s[j + 1]);
        }
        lemma_first_condiction_none(s.drop_first());
    }
}

proof fn lemma_m_format_all_push(s: Seq<AstView>, x: AstView, k: int)
    ensures
        m_format_all(s.push(x), k) == m_format_all(s, k).push(
            if s.len() == k { wrap_condiction(m_format(x)) } else { m_format(x) },
        ),
{
    assert(s.push(x).drop_last() =~= s);
}

/// Puts the first single condition below each `If` node of `ast` under a
/// `Condictions` node of its own (see `m_format`).
pub fn format_condictions(ast: &mut AbstractSyntaxTree)
    ensures
        final(ast).av() == m_format(old(ast).av()),
    decreases *old(ast),
{
    let ghost t0 = old(ast).av();
    let k: Option<usize> = match &ast.ast_type {
        ASTType::If => find_condiction(&ast.next),
        _ => None,
    };
    let ghost kk = opt_index(k);
    proof {
        assert(kk == if t0.ast_type is If { first_condiction(t0.next) } else { -1 });
    }
    let mut old_next: Vec<Box<AbstractSyntaxTree>> = Vec::new();
    std::mem::swap(&mut old_next, &mut ast.next);
    let ghost on = old_next@;
    proof {
        assert(on.len() == old_next.len());
    }
    let mut new_next: Vec<Box<AbstractSyntaxTree>> = Vec::new();
    let ghost mut j: int = 0;
    let mut idx: usize = 0;
    proof {
        assert(on.take(0) =~= Seq::<Box<AbstractSyntaxTree>>::empty());
        assert(children_av(new_next@) =~= Seq::<AstView>::empty());
        assert(children_av(on) == t0.next);
    }
    for c in it: old_next.into_iter()
        invariant
            it.seq() == on,
            on == old(ast).next@,
            j == it.index(),
            idx == j,
            on.len() <= usize::MAX,
            kk == opt_index(k),
            children_av(on) == t0.next,
            children_av(new_next@) == m_format_all(children_av(on.take(j)), kk),
    {
        proof {
            assert(j < on.len());
            assert(c == on[j]);
            assert(decreases_to!(*old(ast) => old(ast).next));
            assert(decreases_to!(old(ast).next => old(ast).next@));
            assert(decreases_to!(old(ast).next@ => old(ast).next@[j]));
            assert(decreases_to!(*old(ast) => *c));
            lemma_children_av_take(on, j);
            lemma_children_av_len(on.take(j));
            lemma_m_format_all_push(children_av(on.take(j)), on[j].av(), kk);
        }
        let mut c = c;
        let ghost cv = c.av();
        format_condictions(&mut *c);
        let ghost prev = new_next@;
        let here = match k {
            Some(x) => x == idx,
            None => false,
        };
        if here {
            let mut w = AbstractSyntaxTree::leaf(ASTType::Condictions, 0);
            let ghost w0 = w.next@;
            w.next.push(c);
            proof {
                lemma_children_av_push(w0, c);
                assert(children_av(w0) =~= Seq::<AstView>::empty());
                assert(w.av() == wrap_condiction(m_format(cv)));
            }
            new_next.push(Box::new(w));
            proof {
                lemma_children_av_push(prev, Box::new(w));
            }
        } else {
            new_next.push(c);
            proof {
                lemma_children_av_push(prev, c);
            }
        }
        proof {
            j = j + 1;
        }
        idx = idx + 1;
    }
    proof {
        assert(on.take(j) =~= on);
    }
    ast.next = new_next;
}

/// A false branch becomes a true one and a condition is negated; other
/// kinds stay.
pub open spec fn flip_kind(k: AstTypeView) -> AstTypeView {
    match k {
        AstTypeView::False => AstTypeView::True,
        AstTypeView::Condiction(r) => AstTypeView::Condiction(rel_not(r)),
        _ => k,
    }
}

/// Among the trees `s` there is a false branch and no true one.
pub open spec fn only_false(s: Seq<AstView>) -> bool {
    &&& !exists|i: int| 0 <= i < s.len() && (#[trigger] s[i]).ast_type is True
    &&& exists|i: int| 0 <= i < s.len() && (#[trigger] s[i]).ast_type is False
}

/// The tree `t`, taken as of kind `kind`, with its branches refined: below
/// an `If` that has only a false branch, that branch becomes the true one
/// and its condition is negated; the walk goes down through `If`, `Loop`,
/// `True`, `False` and `Begin` nodes.
pub open spec fn m_refine_as(t: AstView, kind: AstTypeView) -> AstView
    decreases t,
{
    match kind {
        AstTypeView::If => AstView { ast_type: kind, next: m_refine_all(t.next, only_false(t.next)), ..t },
        AstTypeView::Loop | AstTypeView::False | AstTypeView::True | AstTypeView::Begin(_) =>
            AstView { ast_type: kind, next: m_refine_all(t.next, false), ..t },
        _ => AstView { ast_type: kind, ..t },
    }
}

/// `m_refine_as` on each tree of `s`, of its kind flipped where `flip` holds.
pub open spec fn m_refine_all(s: Seq<AstView>, flip: bool) -> Seq<AstView>
    decreases s,
{
    if s.len() == 0 {
        Seq::empty()
    } else {
        let c = s.last();
        m_refine_all(s.drop_last(), flip).push(m_refine_as(c, if flip { flip_kind(c.ast_type) } else { c.ast_type }))
    }
}

/// The tree `t` with its branches refined (see `m_refine_as`).
pub open spec fn m_refine(t: AstView) -> AstView {
    m_refine_as(t, t.ast_type)
}

proof fn lemma_refine_flip(t: AstView)
    ensures
        m_refine_as(t, flip_kind(t.ast_type)) == (AstView { ast_type: flip_kind(t.ast_type), ..m_refine(t) }),
{
}

proof fn lemma_m_refine_all_push(s: Seq<AstView>, x: AstView, flip: bool)
    ensures
        m_refine_all(s.push(x), flip) == m_refine_all(s, flip).push(
            m_refine_as(x, if flip { flip_kind(x.ast_type) } else { x.ast_type }),
        ),
{
    assert(s.push(x).drop_last() =~= s);
}

/// The kind `k` flipped (see `flip_kind`).
fn flip_type(k: &ASTType) -> (r: ASTType)
    ensures
        r@ == flip_kind(k@),
{
    match k {
        ASTType::False => ASTType::True,
        ASTType::Condiction(r) => ASTType::Condiction(r.not()),
        _ => crate::ast::copy_ast_type(k),
    }
}

/// Whether among the trees `s` there is a false branch and no true one.
fn has_only_false(s: &Vec<Box<AbstractSyntaxTree>>) -> (r: bool)
    ensures
        r == only_false(children_av(s@)),
{
    let ghost cs = children_av(s@);
    let mut exist_true = false;
    let mut exist_false = false;
    let mut i: usize = 0;
    proof {
        lemma_children_av_len(s@);
    }
    while i < s.len()
        invariant
            i <= s@.len(),
            cs == children_av(s@),
            cs.len() == s@.len(),
            exist_true == exists|j: int| 0 <= j < i && (#[trigger] cs[j]).ast_type is True,
            exist_false == exists|j: int| 0 <= j < i && (#[trigger] cs[j]).ast_type is False,
        decreases s@.len() - i,
    {
        proof {
            lemma_children_av_index(s@, i as int);
        }
        match &s[i].ast_type {
            ASTType::True => exist_true = true,
            ASTType::False => exist_false = true,
            _ => {},
        }
        i = i + 1;
    }
    !exist_true && exist_false
}

/// Refines the branches of `ast` (see `m_refine`).
pub fn branch_refine(ast: &mut AbstractSyntaxTree)
    ensures
        final(ast).av() == m_refine(old(ast).av()),
    decreases *old(ast),
{
    let ghost t0 = old(ast).av();
    let flip = match &ast.ast_type {
        ASTType::If => has_only_false(&ast.next),
        ASTType::Loop | ASTType::False | ASTType::True | ASTType::Begin(_) => false,
        _ => {
            return;
        },
    };
    proof {
        assert(children_av(old(ast).next@) == t0.next);
    }
    let mut old_next: Vec<Box<AbstractSyntaxTree>> = Vec::new();
    std::mem::swap(&mut old_next, &mut ast.next);
    let ghost on = old_next@;
    let mut new_next: Vec<Box<AbstractSyntaxTree>> = Vec::new();
    let ghost mut j: int = 0;
    proof {
        assert(on.take(0) =~= Seq::<Box<AbstractSyntaxTree>>::empty());
        assert(children_av(new_next@) =~= Seq::<AstView>::empty());
    }
    for c in it: old_next.into_iter()
        invariant
            it.seq() == on,
            on == old(ast).next@,
            j == it.index(),
            children_av(on) == t0.next,
            children_av(new_next@) == m_refine_all(children_av(on.take(j)), flip),
    {
        proof {
            assert(j < on.len());
            assert(c == on[j]);
            assert(decreases_to!(*old(ast) => old(ast).next));
            assert(decreases_to!(old(ast).next => old(ast).next@));
            assert(decreases_to!(old(ast).next@ => old(ast).next@[j]));
            assert(decreases_to!(*old(ast) => *c));
            lemma_children_av_take(on, j);
            lemma_m_refine_all_push(children_av(on.take(j)), on[j].av(), flip);
        }
        let mut c = c;
        let ghost cv = c.av();
        branch_refine(&mut *c);
        if flip {
            let k = flip_type(&c.ast_type);
            c.ast_type = k;
            proof {
                lemma_refine_flip(cv);
                assert(c.av() == m_refine_as(cv, flip_kind(cv.ast_type)));
            }
        }
        let ghost prev = new_next@;
        new_next.push(c);
        proof {
            lemma_children_av_push(prev, c);
            j = j + 1;
        }
    }
    proof {
        assert(on.take(j) =~= on);
    }
    ast.next = new_next;
}

/// One of the trees `s` is an operator.
pub open spec fn has_operator(s: Seq<AstView>) -> bool {
    exists|i: int| 0 <= i < s.len() && (#[trigger] s[i]).ast_type is Operator
}

/// The conditions `t` can be joined with `c2` (see `m_and`): where a node
/// of conditions has no operator below it, it has a last condition and
/// `c2` a first.
pub open spec fn and_ok(t: AstView, c2: AstView) -> bool
    decreases t,
{
    if t.ast_type is Condictions || t.ast_type is Operator {
        if has_operator(t.next) {
            and_ok_all(t.next, c2)
        } else {
            t.next.len() > 0 && c2.next.len() > 0
        }
    } else {
        true
    }
}

/// `and_ok` holds of each tree of `s`.
pub open spec fn and_ok_all(s: Seq<AstView>, c2: AstView) -> bool
    decreases s,
{
    s.len() == 0 || (and_ok_all(s.drop_last(), c2) && and_ok(s.last(), c2))
}

/// The conditions `t` joined with the conditions `c2`: going down through
/// the nodes of conditions and operators that have an operator below them,
/// the last condition of each other such node is replaced by an `And` of it
/// and the first condition of `c2`.
pub open spec fn m_and(t: AstView, c2: AstView) -> AstView
    decreases t,
{
    if t.ast_type is Condictions || t.ast_type is Operator {
        if has_operator(t.next) {
            AstView { next: m_and_all(t.next, c2), ..t }
        } else {
            AstView {
                next: t.next.drop_last().push(
                    AstView { ast_type: AstTypeView::Operator(Operator::And), value: 0, next: seq![t.next.last(), c2.next[0]] },
                ),
                ..t
            }
        }
    } else {
        t
    }
}

/// `m_and` on each tree of `s`.
pub open spec fn m_and_all(s: Seq<AstView>, c2: AstView) -> Seq<AstView>
    decreases s,
{
    if s.len() == 0 {
        Seq::empty()
    } else {
        m_and_all(s.drop_last(), c2).push(m_and(s.last(), c2))
    }
}

proof fn lemma_and_ok_all_index(s: Seq<AstView>, c2: AstView, i: int)
    requires
        and_ok_all(s, c2),
        0 <= i < s.len(),
    ensures
        and_ok(s[i], c2),
    decreases s.len(),
{
    if i < s.len() - 1 {
        lemma_and_ok_all_index(s.drop_last(), c2, i);
    }
}

/// Whether one of the trees `s` is an operator.
fn any_operator(s: &Vec<Box<AbstractSyntaxTree>>) -> (r: bool)
    ensures
        r == has_operator(children_av(s@)),
{
    let ghost cs = children_av(s@);
    let mut i: usize = 0;
    proof {
        lemma_children_av_len(s@);
    }
    while i < s.len()
        invariant
            i <= s@.len(),
            cs == children_av(s@),
            cs.len() == s@.len(),
            forall|j: int| 0 <= j < i ==> !((#[trigger] cs[j]).ast_type is Operator),
        decreases s@.len() - i,
    {
        proof {
            lemma_children_av_index(s@, i as int);
        }
        if let ASTType::Operator(_) = &s[i].ast_type {
            return true;
        }
        i = i + 1;
    }
    false
}

/// Joins the conditions `conds1` with the conditions `conds2` (see `m_and`).
pub fn and_condictions(conds1: &mut AbstractSyntaxTree, conds2: &AbstractSyntaxTree)
    requires
        and_ok(old(conds1).av(), conds2.av()),
    ensures
        final(conds1).av() == m_and(old(conds1).av(), conds2.av()),
    decreases *old(conds1),
{
    let ghost t0 = old(conds1).av();
    let ghost c2 = conds2.av();
    match &conds1.ast_type {
        ASTType::Condictions | ASTType::Operator(_) => {},
        _ => {
            return;
        },
    }
    proof {
        assert(children_av(old(conds1).next@) == t0.next);
    }
    if any_operator(&conds1.next) {
        let mut old_next: Vec<Box<AbstractSyntaxTree>> = Vec::new();
        std::mem::swap(&mut old_next, &mut conds1.next);
        let ghost on = old_next@;
        let mut new_next: Vec<Box<AbstractSyntaxTree>> = Vec::new();
        let ghost mut j: int = 0;
        proof {
            assert(on.take(0) =~= Seq::<Box<AbstractSyntaxTree>>::empty());
            assert(children_av(new_next@) =~= Seq::<AstView>::empty());
            assert(and_ok_all(t0.next, c2));
        }
        for c in it: old_next.into_iter()
            invariant
                it.seq() == on,
                on == old(conds1).next@,
                j == it.index(),
                c2 == conds2.av(),
                children_av(on) == t0.next,
                and_ok_all(t0.next, c2),
                children_av(new_next@) == m_and_all(children_av(on.take(j)), c2),
        {
            proof {
                assert(j < on.len());
                assert(c == on[j]);
                assert(decreases_to!(*old(conds1) => old(conds1).next));
                assert(decreases_to!(old(conds1).next => old(conds1).next@));
                assert(decreases_to!(old(conds1).next@ => old(conds1).next@[j]));
                assert(decreases_to!(*old(conds1) => *c));
                lemma_children_av_take(on, j);
                lemma_children_av_index(on, j);
                lemma_and_ok_all_index(t0.next, c2, j);
                let s = children_av(on.take(j));
                assert(s.push(on[j].av()).drop_last() =~= s);
            }
            let mut c = c;
            and_condictions(&mut *c, conds2);
            let ghost prev = new_next@;
            new_next.push(c);
            proof {
                lemma_children_av_push(prev, c);
                j = j + 1;
            }
        }
        proof {
            assert(on.take(j) =~= on);
        }
        conds1.next = new_next;
    } else {
        let ghost n0 = conds1.next@;
        proof {
            lemma_children_av_len(n0);
            lemma_children_av_len(conds2.next@);
            assert(n0.len() > 0);
            lemma_children_av_index(conds2.next@, 0);
        }
        let last = conds1.next.pop().unwrap();
        let first = conds2.next[0].duplicate();
        let mut and_ast = AbstractSyntaxTree::leaf(ASTType::Operator(Operator::And), 0);
        let ghost a0 = and_ast.next@;
        and_ast.next.push(last);
        proof {
            lemma_children_av_push(a0, last);
        }
        let ghost a1 = and_ast.next@;
        and_ast.next.push(Box::new(first));
        proof {
            lemma_children_av_push(a1, Box::new(first));
            assert(children_av(a0) =~= Seq::<AstView>::empty());
            assert(n0.drop_last().push(last) =~= n0);
            lemma_children_av_push(n0.drop_last(), last);
            assert(children_av(and_ast.next@) =~= seq![t0.next.last(), c2.next[0]]);
        }
        let ghost n1 = conds1.next@;
        conds1.next.push(Box::new(and_ast));
        proof {
            lemma_children_av_push(n1, Box::new(and_ast));
            assert(children_av(n1) == t0.next.drop_last());
        }
    }
}

proof fn lemma_refine_all_kinds(s: Seq<AstView>, flip: bool)
    ensures
        m_refine_all(s, flip).len() == s.len(),
        forall|i: int| 0 <= i < s.len() ==> (#[trigger] m_refine_all(s, flip)[i]).ast_type
            == if flip { flip_kind(s[i].ast_type) } else { s[i].ast_type },
    decreases s.len(),
{
    if s.len() > 0 {
        lemma_refine_all_kinds(s.drop_last(), flip);
        let c = s.last();
        let k = if flip { flip_kind(c.ast_type) } else { c.ast_type };
        assert(m_refine_as(c, k).ast_type == k);
        assert forall|i: int| 0 <= i < s.len() implies (#[trigger] m_refine_all(s, flip)[i]).ast_type
            == if flip { flip_kind(s[i].ast_type) } else { s[i].ast_type } by {
            if i < s.len() - 1 {
                assert(m_refine_all(s, flip)[i] == m_refine_all(s.drop_last(), flip)[i]);
                assert(s.drop_last()[i] == s[i]);
            }
        }
    }
}

proof fn lemma_refine_as_idem(t: AstView, kind: AstTypeView)
    ensures
        m_refine(m_refine_as(t, kind)) == m_refine_as(t, kind),
    decreases t, 1nat,
{
    let r = m_refine_as(t, kind);
    match kind {
        AstTypeView::If => {
            let f = only_false(t.next);
            lemma_refine_all_idem(t.next, f);
            lemma_refine_all_kinds(t.next, f);
            if f {
                let i = choose|i: int| 0 <= i < t.next.len() && (#[trigger] t.next[i]).ast_type is False;
                assert(r.next[i].ast_type is True);
            } else {
                assert forall|i: int| 0 <= i < r.next.len() implies (#[trigger] r.next[i]).ast_type == t.next[i].ast_type by {}
                if only_false(r.next) {
                    let i = choose|i: int| 0 <= i < r.next.len() && (#[trigger] r.next[i]).ast_type is False;
                    assert(t.next[i].ast_type is False);
                    assert(!exists|j: int| 0 <= j < t.next.len() && (#[trigger] t.next[j]).ast_type is True) by {
                        if exists|j: int| 0 <= j < t.next.len() && (#[trigger] t.next[j]).ast_type is True {
                            let j = choose|j: int| 0 <= j < t.next.len() && (#[trigger] t.next[j]).ast_type is True;
                            assert(r.next[j].ast_type is True);
                        }
                    }
                    assert(only_false(t.next));
                }
            }
            assert(!only_false(r.next));
        },
        AstTypeView::Loop | AstTypeView::False | AstTypeView::True | AstTypeView::Begin(_) => {
            lemma_refine_all_idem(t.next, false);
        },
        _ => {},
    }
}

proof fn lemma_refine_all_idem(s: Seq<AstView>, flip: bool)
    ensures
        m_refine_all(m_refine_all(s, flip), false) == m_refine_all(s, flip),
    decreases s, 0nat,
{
    if s.len() > 0 {
        let c = s.last();
        let k = if flip { flip_kind(c.ast_type) } else { c.ast_type };
        lemma_refine_all_idem(s.drop_last(), flip);
        lemma_refine_as_idem(c, k);
        let r = m_refine_all(s, flip);
        assert(r.drop_last() =~= m_refine_all(s.drop_last(), flip));
        assert(r.last() == m_refine_as(c, k));
        assert(m_refine_as(c, k).ast_type == k);
    }
}

/// Refining the branches twice gives what refining them once gives.
pub proof fn lemma_branch_refine_idempotent(t: AstView)
    ensures
        m_refine(m_refine(t)) == m_refine(t),
{
    lemma_refine_as_idem(t, t.ast_type);
}


/// How often the variable `id` is assigned or read in `t`, looking through
/// statement lists, operations and conditions (not into what an
/// assignment computes).
pub open spec fn var_uses(t: AstView, id: u64) -> nat
    decreases t, 1nat,
{
    match t.ast_type {
        AstTypeView::Begin(_) | AstTypeView::While | AstTypeView::Loop | AstTypeView::If | AstTypeView::True
        | AstTypeView::False | AstTypeView::Operator(_) | AstTypeView::Condictions | AstTypeView::Condiction(_)
        | AstTypeView::Function(_) | AstTypeView::Parameter => var_uses_all(t.next, id),
        AstTypeView::Assign(_) | AstTypeView::Variable(_) => if t.value == id { 1 } else { 0 },
        _ => 0,
    }
}

/// `var_uses` summed over the trees `s`.
pub open spec fn var_uses_all(s: Seq<AstView>, id: u64) -> nat
    decreases s, 0nat,
{
    if s.len() == 0 {
        0
    } else {
        var_uses_all(s.drop_last(), id) + var_uses(s.last(), id)
    }
}

/// Adds to `n` how often the variable `id` is assigned or read in `ir_ast`
/// (see `var_uses`).
pub fn search_var(ir_ast: &AbstractSyntaxTree, id: u64, n: &mut usize)
    requires
        *old(n) + var_uses(ir_ast.av(), id) <= usize::MAX,
    ensures
        *final(n) == *old(n) + var_uses(ir_ast.av(), id),
    decreases ir_ast,
{
    match &ir_ast.ast_type {
        ASTType::Begin(_) | ASTType::While | ASTType::Loop | ASTType::If | ASTType::True | ASTType::False
        | ASTType::Operator(_) | ASTType::Condictions | ASTType::Condiction(_) | ASTType::Function(_)
        | ASTType::Parameter => {
            let ghost s = ir_ast.av().next;
            let ghost n0 = *n;
            proof {
                lemma_children_av_len(ir_ast.next@);
                assert(s.take(0) =~= Seq::<AstView>::empty());
                lemma_var_uses_prefix(s, id, s.len() as int);
                assert(s.take(s.len() as int) =~= s);
            }
            let mut i: usize = 0;
            while i < ir_ast.next.len()
                invariant
                    i <= ir_ast.next@.len(),
                    s == children_av(ir_ast.next@),
                    s.len() == ir_ast.next@.len(),
                    n0 + var_uses_all(s, id) <= usize::MAX,
                    *n == n0 + var_uses_all(s.take(i as int), id),
                decreases ir_ast.next@.len() - i,
            {
                proof {
                    assert(decreases_to!(ir_ast => ir_ast.next));
                    assert(decreases_to!(ir_ast.next => ir_ast.next@));
                    assert(decreases_to!(ir_ast.next@ => ir_ast.next@[i as int]));
                    lemma_children_av_index(ir_ast.next@, i as int);
                    assert(s.take(i as int + 1).drop_last() =~= s.take(i as int));
                    assert(s.take(i as int + 1).last() == s[i as int]);
                    lemma_var_uses_prefix(s, id, i as int + 1);
                }
                search_var(&ir_ast.next[i], id, n);
                i = i + 1;
            }
            proof {
                assert(s.take(i as int) =~= s);
            }
        },
        ASTType::Assign(_) | ASTType::Variable(_) => {
            if ir_ast.value == id {
                *n = *n + 1;
            }
        },
        _ => {},
    }
}

/// A prefix of the trees counts no more uses than all of them.
proof fn lemma_var_uses_prefix(s: Seq<AstView>, id: u64, k: int)
    requires
        0 <= k <= s.len(),
    ensures
        var_uses_all(s.take(k), id) <= var_uses_all(s, id),
    decreases s.len(),
{
    if k < s.len() {
        lemma_var_uses_prefix(s.drop_last(), id, k);
        assert(s.drop_last().take(k) =~= s.take(k));
    } else {
        assert(s.take(k) =~= s);
    }
}

/// The variables assigned by the statements inside `t` that are used
/// nowhere else in `irs` (each statement list: its assignments and, below
/// its other statements, the statement lists deeper down).
pub open spec fn redundant(t: AstView, irs: AstView) -> Set<u64>
    decreases t, 1nat,
{
    match t.ast_type {
        AstTypeView::Begin(_) | AstTypeView::Loop | AstTypeView::While | AstTypeView::True | AstTypeView::False => {
            redundant_stmts(t.next, irs)
        },
        _ => redundant_each(t.next, irs),
    }
}

/// One statement of a list: an assignment whose variable `irs` holds only
/// there, or what lies below the statement's children.
pub open spec fn redundant_stmt(x: AstView, irs: AstView) -> Set<u64>
    decreases x, 1nat,
{
    if x.ast_type is Assign {
        if var_uses(irs, x.value) == 1 { set![x.value] } else { Set::empty() }
    } else {
        redundant_each(x.next, irs)
    }
}

/// `redundant_stmt` over the statements `s`.
pub open spec fn redundant_stmts(s: Seq<AstView>, irs: AstView) -> Set<u64>
    decreases s, 0nat,
{
    if s.len() == 0 {
        Set::empty()
    } else {
        redundant_stmts(s.drop_last(), irs).union(redundant_stmt(s.last(), irs))
    }
}

/// `redundant` over the trees `s`.
pub open spec fn redundant_each(s: Seq<AstView>, irs: AstView) -> Set<u64>
    decreases s, 0nat,
{
    if s.len() == 0 {
        Set::empty()
    } else {
        redundant_each(s.drop_last(), irs).union(redundant(s.last(), irs))
    }
}

/// Adds to `delete_set` the variables assigned in the statement lists of
/// `ir_ast` that are used nowhere else in `irs` (see `redundant`).
pub fn search_redundant_ir(ir_ast: &AbstractSyntaxTree, irs: &AbstractSyntaxTree, delete_set: &mut HashSet<u64>)
    requires
        forall|v: u64| var_uses(irs.av(), v) < usize::MAX,
    ensures
        final(delete_set)@ == old(delete_set)@.union(redundant(ir_ast.av(), irs.av())),
    decreases ir_ast, 1nat,
{
    match &ir_ast.ast_type {
        ASTType::Begin(_) | ASTType::Loop | ASTType::While | ASTType::True | ASTType::False => {
            let ghost s = ir_ast.av().next;
            let ghost d0 = delete_set@;
            proof {
                lemma_children_av_len(ir_ast.next@);
                assert(s.take(0) =~= Seq::<AstView>::empty());
                assert(d0.union(Set::<u64>::empty()) =~= d0);
            }
            let mut i: usize = 0;
            while i < ir_ast.next.len()
                invariant
                    i <= ir_ast.next@.len(),
                    s == children_av(ir_ast.next@),
                    s.len() == ir_ast.next@.len(),
                    forall|v: u64| var_uses(irs.av(), v) < usize::MAX,
                    delete_set@ == d0.union(redundant_stmts(s.take(i as int), irs.av())),
                decreases ir_ast.next@.len() - i,
            {
                proof {
                    assert(decreases_to!(ir_ast => ir_ast.next));
                    assert(decreases_to!(ir_ast.next => ir_ast.next@));
                    assert(decreases_to!(ir_ast.next@ => ir_ast.next@[i as int]));
                    lemma_children_av_index(ir_ast.next@, i as int);
                    assert(s.take(i as int + 1).drop_last() =~= s.take(i as int));
                    assert(s.take(i as int + 1).last() == s[i as int]);
                }
                let next = &ir_ast.next[i];
                let ghost x = s[i as int];
                proof {
                    assert(x == next.av());
                    assert(redundant_stmts(s.take(i as int + 1), irs.av()) == redundant_stmts(s.take(i as int), irs.av()).union(
                        redundant_stmt(x, irs.av()),
                    ));
                }
                if matches!(next.ast_type, ASTType::Assign(_)) {
                    let mut n: usize = 0;
                    assert(0 + var_uses(irs.av(), next.value) <= usize::MAX);
                    search_var(irs, next.value, &mut n);
                    if n == 1 {
                        delete_set.insert(next.value);
                        proof {
                            assert(redundant_stmt(x, irs.av()) == set![next.value]);
                        }
                    } else {
                        proof {
                            assert(redundant_stmt(x, irs.av()) == Set::<u64>::empty());
                        }
                    }
                } else {
                    search_redundant_each(next, irs, delete_set);
                }
                proof {
                    assert(delete_set@ =~= d0.union(redundant_stmts(s.take(i as int + 1), irs.av())));
                }
                i = i + 1;
            }
            proof {
                assert(s.take(i as int) =~= s);
            }
        },
        _ => {
            search_redundant_each(ir_ast, irs, delete_set);
        },
    }
}

/// `search_redundant_ir` on each child of `t` (see `redundant_each`).
fn search_redundant_each(t: &AbstractSyntaxTree, irs: &AbstractSyntaxTree, delete_set: &mut HashSet<u64>)
    requires
        forall|v: u64| var_uses(irs.av(), v) < usize::MAX,
    ensures
        final(delete_set)@ == old(delete_set)@.union(redundant_each(t.av().next, irs.av())),
    decreases t, 0nat,
{
    let ghost s = t.av().next;
    let ghost d0 = delete_set@;
    proof {
        lemma_children_av_len(t.next@);
        assert(s.take(0) =~= Seq::<AstView>::empty());
        assert(d0.union(Set::<u64>::empty()) =~= d0);
    }
    let mut i: usize = 0;
    while i < t.next.len()
        invariant
            i <= t.next@.len(),
            s == children_av(t.next@),
            s.len() == t.next@.len(),
            forall|v: u64| var_uses(irs.av(), v) < usize::MAX,
            delete_set@ == d0.union(redundant_each(s.take(i as int), irs.av())),
        decreases t.next@.len() - i,
    {
        proof {
            assert(decreases_to!(t => t.next));
            assert(decreases_to!(t.next => t.next@));
            assert(decreases_to!(t.next@ => t.next@[i as int]));
            lemma_children_av_index(t.next@, i as int);
            assert(s.take(i as int + 1).drop_last() =~= s.take(i as int));
            assert(s.take(i as int + 1).last() == s[i as int]);
        }
        search_redundant_ir(&t.next[i], irs, delete_set);
        proof {
            assert(delete_set@ =~= d0.union(redundant_each(s.take(i as int + 1), irs.av())));
        }
        i = i + 1;
    }
    proof {
        assert(s.take(i as int) =~= s);
    }
}


/// The statements of a list, in order: which are dropped (an assignment to
/// a variable still in the set, which then leaves the set) and the set
/// that is left.
pub open spec fn drop_flags(s: Seq<AstView>, set: Set<u64>) -> (Seq<bool>, Set<u64>)
    decreases s.len(),
{
    if s.len() == 0 {
        (Seq::empty(), set)
    } else {
        let (f, st) = drop_flags(s.drop_last(), set);
        let x = s.last();
        if x.ast_type is Assign && st.contains(x.value) {
            (f.push(true), st.remove(x.value))
        } else {
            (f.push(false), st)
        }
    }
}

/// Statement lists, `if`s and branches: what `delete_redundant_ir` walks into.
pub open spec fn holds_statements(k: AstTypeView) -> bool {
    k is Begin || k is While || k is Loop || k is If || k is True || k is False
}

/// The tree `t` with, in each of its statement lists, the first assignment
/// to each variable of `set` dropped, walking the list before what lies
/// below it; with the variables left.
pub open spec fn m_delete(t: AstView, set: Set<u64>) -> (AstView, Set<u64>)
    decreases t, 1nat,
{
    let (f, st) = drop_flags(t.next, set);
    let (kids, st2) = m_delete_each(t.next, f, st);
    (AstView { next: kids, ..t }, st2)
}

/// The trees `s` but those flagged in `f`, each that holds statements
/// walked in turn (see `m_delete`).
pub open spec fn m_delete_each(s: Seq<AstView>, f: Seq<bool>, set: Set<u64>) -> (Seq<AstView>, Set<u64>)
    decreases s, 0nat,
{
    if s.len() == 0 {
        (Seq::empty(), set)
    } else {
        let (d, st) = m_delete_each(s.drop_last(), f, set);
        let x = s.last();
        if f[s.len() - 1] {
            (d, st)
        } else if holds_statements(x.ast_type) {
            let (x2, st2) = m_delete(x, st);
            (d.push(x2), st2)
        } else {
            (d.push(x), st)
        }
    }
}

proof fn lemma_drop_flags_len(s: Seq<AstView>, set: Set<u64>)
    ensures
        drop_flags(s, set).0.len() == s.len(),
    decreases s.len(),
{
    if s.len() > 0 {
        lemma_drop_flags_len(s.drop_last(), set);
    }
}

/// Drops, in each statement list of `ast`, the first assignment to each
/// variable of `delete_set`, which leaves the set, walking into the
/// statement lists, `if`s and branches that remain (see `m_delete`).
pub fn delete_redundant_ir(ast: &mut AbstractSyntaxTree, delete_set: &mut HashSet<u64>)
    ensures
        (final(ast).av(), final(delete_set)@) == m_delete(old(ast).av(), old(delete_set)@),
    decreases height(old(ast).av()),
{
    let ghost t0 = ast.av();
    let ghost s = t0.next;
    let ghost set0 = delete_set@;
    let mut kids: Vec<Box<AbstractSyntaxTree>> = Vec::new();
    std::mem::swap(&mut kids, &mut ast.next);
    proof {
        lemma_children_av_len(kids@);
        assert(s.take(0) =~= Seq::<AstView>::empty());
    }
    let mut flags: Vec<bool> = Vec::new();
    let mut i: usize = 0;
    while i < kids.len()
        invariant
            i <= kids@.len(),
            s == children_av(kids@),
            s.len() == kids@.len(),
            (flags@, delete_set@) == drop_flags(s.take(i as int), set0),
        decreases kids@.len() - i,
    {
        proof {
            lemma_children_av_index(kids@, i as int);
            assert(s.take(i as int + 1).drop_last() =~= s.take(i as int));
            assert(s.take(i as int + 1).last() == s[i as int]);
        }
        let ir = &kids[i];
        let removed = matches!(ir.ast_type, ASTType::Assign(_)) && delete_set.contains(&ir.value);
        if removed {
            delete_set.remove(&ir.value);
        }
        flags.push(removed);
        i = i + 1;
    }
    proof {
        assert(s.take(i as int) =~= s);
        lemma_drop_flags_len(s, set0);
    }
    let ghost fl = flags@;
    let ghost on = kids@;
    let ghost mut j: int = 0;
    let mut k: usize = 0;
    let mut done: Vec<Box<AbstractSyntaxTree>> = Vec::new();
    proof {
        assert(children_av(done@) =~= Seq::<AstView>::empty());
        assert(kids.len() == on.len());
    }
    for b in it: kids.into_iter()
        invariant
            it.seq() == on,
            j == it.index(),
            k == j,
            on.len() <= usize::MAX,
            s == children_av(on),
            s.len() == on.len(),
            fl.len() == s.len(),
            flags@ == fl,
            t0.next == s,
            t0 == old(ast).av(),
            (children_av(done@), delete_set@) == m_delete_each(s.take(j), fl, drop_flags(s, set0).1),
            set0 == old(delete_set)@,
            fl == drop_flags(s, set0).0,
    {
        proof {
            assert(b == on[j]);
            lemma_children_av_index(on, j);
            lemma_heights(s, j);
            assert(s.take(j + 1).drop_last() =~= s.take(j));
            assert(s.take(j + 1).last() == s[j]);
        }
        if !flags[k] {
            let mut c = *b;
            if matches!(c.ast_type, ASTType::Begin(_) | ASTType::While | ASTType::Loop | ASTType::If | ASTType::True | ASTType::False) {
                delete_redundant_ir(&mut c, delete_set);
            }
            let ghost d0 = done@;
            done.push(Box::new(c));
            proof {
                lemma_children_av_push(d0, Box::new(c));
            }
        }
        proof {
            j = j + 1;
        }
        k = k + 1;
    }
    proof {
        assert(s.take(j) =~= s);
    }
    ast.next = done;
}


/// Every `If` in `t` has at most one single condition among its children.
pub open spec fn lone_conds(t: AstView) -> bool
    decreases t,
{
    &&& (t.ast_type is If ==> forall|i: int, j: int|
        0 <= i < t.next.len() && 0 <= j < t.next.len() && (#[trigger] t.next[i]).ast_type is Condiction
            && (#[trigger] t.next[j]).ast_type is Condiction ==> i == j)
    &&& forall|i: int| 0 <= i < t.next.len() ==> lone_conds(#[trigger] t.next[i])
}

/// No `If` in `t` has a single condition among its children.
pub open spec fn no_if_conds(t: AstView) -> bool
    decreases t,
{
    &&& (t.ast_type is If ==> forall|i: int| 0 <= i < t.next.len() ==> !((#[trigger] t.next[i]).ast_type is Condiction))
    &&& forall|i: int| 0 <= i < t.next.len() ==> no_if_conds(#[trigger] t.next[i])
}

proof fn lemma_first_condiction_found(s: Seq<AstView>)
    ensures
        first_condiction(s) == -1 ==> forall|j: int| 0 <= j < s.len() ==> !(#[trigger] s[j].ast_type is Condiction),
        first_condiction(s) != -1 ==> 0 <= first_condiction(s) < s.len() && s[first_condiction(s)].ast_type is Condiction,
    decreases s.len(),
{
    if s.len() > 0 && !(s[0].ast_type is Condiction) {
        lemma_first_condiction_found(s.drop_first());
        assert forall|j: int| 0 <= j < s.len() && first_condiction(s) == -1 implies !(#[trigger] s[j].ast_type is Condiction) by {
            if j > 0 {
                assert(s[j] == s.drop_first()[j - 1]);
            }
        }
        if first_condiction(s) != -1 {
            assert(s[first_condiction(s)] == s.drop_first()[first_condiction(s) - 1]);
        }
    }
}

proof fn lemma_m_format_all_index(s: Seq<AstView>, k: int)
    ensures
        m_format_all(s, k).len() == s.len(),
        forall|i: int|
            0 <= i < s.len() ==> #[trigger] m_format_all(s, k)[i] == if i == k {
                wrap_condiction(m_format(s[i]))
            } else {
                m_format(s[i])
            },
    decreases s.len(),
{
    if s.len() > 0 {
        lemma_m_format_all_index(s.drop_last(), k);
        assert forall|i: int| 0 <= i < s.len() implies #[trigger] m_format_all(s, k)[i] == if i == k {
            wrap_condiction(m_format(s[i]))
        } else {
            m_format(s[i])
        } by {
            if i < s.len() - 1 {
                assert(s.drop_last()[i] == s[i]);
            }
        }
    }
}

/// A tree in which no `If` has a single condition among its children is
/// left as it is.
proof fn lemma_format_fixed(t: AstView)
    requires
        no_if_conds(t),
    ensures
        m_format(t) == t,
    decreases t,
{
    let k = if t.ast_type is If { first_condiction(t.next) } else { -1 };
    lemma_first_condiction_found(t.next);
    assert(k == -1);
    lemma_m_format_all_index(t.next, k);
    assert forall|i: int| 0 <= i < t.next.len() implies m_format_all(t.next, k)[i] == t.next[i] by {
        lemma_format_fixed(t.next[i]);
    }
    assert(m_format_all(t.next, k) =~= t.next);
}

/// Formatting a tree whose `If`s have at most one single condition each
/// leaves no `If` with one.
proof fn lemma_format_clears(t: AstView)
    requires
        lone_conds(t),
    ensures
        no_if_conds(m_format(t)),
    decreases t,
{
    let k = if t.ast_type is If { first_condiction(t.next) } else { -1 };
    lemma_first_condiction_found(t.next);
    lemma_m_format_all_index(t.next, k);
    let r = m_format(t);
    assert forall|i: int| 0 <= i < r.next.len() implies no_if_conds(#[trigger] r.next[i]) by {
        lemma_format_clears(t.next[i]);
        if i == k {
            let w = wrap_condiction(m_format(t.next[i]));
            assert(w.next[0] == m_format(t.next[i]));
            assert(no_if_conds(w));
        }
    }
    assert forall|i: int| 0 <= i < r.next.len() && r.ast_type is If implies !((#[trigger] r.next[i]).ast_type is Condiction) by {
        if i != k && t.next[i].ast_type is Condiction {
            assert(t.next[k].ast_type is Condiction);
        }
    }
}

/// Formatting the conditions is idempotent: where no `if` has two single
/// conditions among its children, one pass leaves no `if` with a single
/// condition, and a second pass changes nothing.
pub proof fn lemma_format_condictions_idempotent(t: AstView)
    requires
        lone_conds(t),
    ensures
        no_if_conds(m_format(t)),
        m_format(m_format(t)) == m_format(t),
{
    lemma_format_clears(t);
    lemma_format_fixed(m_format(t));
}


/// The kinds of node through which uses are counted: statement lists,
/// branches, `if`s, operations, conditions, calls and parameter lists.
pub open spec fn counted_through(k: AstTypeView) -> bool {
    k is Begin || k is While || k is Loop || k is If || k is True || k is False || k is Operator || k is Condictions
        || k is Condiction || k is Function || k is Parameter
}

proof fn lemma_var_uses_all_one(s: Seq<AstView>, id: u64, i: int)
    requires
        0 <= i < s.len(),
    ensures
        var_uses(s[i], id) <= var_uses_all(s, id),
    decreases s.len(),
{
    if i < s.len() - 1 {
        lemma_var_uses_all_one(s.drop_last(), id, i);
        assert(s.drop_last()[i] == s[i]);
    }
}

proof fn lemma_var_uses_all_two(s: Seq<AstView>, id: u64, i: int, j: int)
    requires
        0 <= i < j < s.len(),
    ensures
        var_uses(s[i], id) + var_uses(s[j], id) <= var_uses_all(s, id),
    decreases s.len(),
{
    let d = s.drop_last();
    if j < s.len() - 1 {
        lemma_var_uses_all_two(d, id, i, j);
        assert(d[i] == s[i] && d[j] == s[j]);
    } else {
        lemma_var_uses_all_one(d, id, i);
        assert(d[i] == s[i]);
    }
}

/// The uses of a variable are counted through every statement list,
/// branch, `if`, operation, condition, call and parameter list: such a node
/// counts at least the uses of each of its children; and an assignment to
/// the variable, or a read of it, counts once.
pub proof fn lemma_var_uses_through(t: AstView, id: u64)
    ensures
        counted_through(t.ast_type) ==> forall|i: int| 0 <= i < t.next.len() ==> var_uses(#[trigger] t.next[i], id) <= var_uses(t, id),
        (t.ast_type is Assign || t.ast_type is Variable) && t.value == id ==> var_uses(t, id) == 1,
{
    if counted_through(t.ast_type) {
        assert forall|i: int| 0 <= i < t.next.len() implies var_uses(#[trigger] t.next[i], id) <= var_uses(t, id) by {
            lemma_var_uses_all_one(t.next, id, i);
        }
    }
}

/// A variable that `irs` does not hold exactly once is reported redundant
/// nowhere.
pub proof fn lemma_redundant_needs_one_use(t: AstView, irs: AstView, id: u64)
    requires
        var_uses(irs, id) != 1,
    ensures
        !redundant(t, irs).contains(id),
    decreases t, 1nat,
{
    match t.ast_type {
        AstTypeView::Begin(_) | AstTypeView::Loop | AstTypeView::While | AstTypeView::True | AstTypeView::False => {
            lemma_redundant_stmts_needs_one_use(t.next, irs, id);
        },
        _ => {
            lemma_redundant_each_needs_one_use(t.next, irs, id);
        },
    }
}

proof fn lemma_redundant_stmts_needs_one_use(s: Seq<AstView>, irs: AstView, id: u64)
    requires
        var_uses(irs, id) != 1,
    ensures
        !redundant_stmts(s, irs).contains(id),
    decreases s, 0nat,
{
    if s.len() > 0 {
        lemma_redundant_stmts_needs_one_use(s.drop_last(), irs, id);
        let x = s.last();
        if !(x.ast_type is Assign) {
            lemma_redundant_each_needs_one_use(x.next, irs, id);
        } else if x.value == id {
            assert(redundant_stmt(x, irs) =~= Set::<u64>::empty());
        } else {
            assert(!set![x.value].contains(id));
        }
        assert(!redundant_stmt(x, irs).contains(id));
    }
}

proof fn lemma_redundant_each_needs_one_use(s: Seq<AstView>, irs: AstView, id: u64)
    requires
        var_uses(irs, id) != 1,
    ensures
        !redundant_each(s, irs).contains(id),
    decreases s, 0nat,
{
    if s.len() > 0 {
        lemma_redundant_each_needs_one_use(s.drop_last(), irs, id);
        lemma_redundant_needs_one_use(s.last(), irs, id);
    }
}

/// A variable read in a condition is never reported redundant: where the
/// statement list `irs` assigns the variable `id` in one statement and, in
/// another, an `if` whose combination of conditions holds a condition that
/// reads `id`, `id` is counted at least twice and no walk reports it.
pub proof fn lemma_condition_read_kept(irs: AstView, id: u64, i: int, j: int, c: int, d: int, e: int, t: AstView)
    requires
        irs.ast_type is Begin,
        0 <= i < irs.next.len(),
        0 <= j < irs.next.len(),
        i != j,
        irs.next[i].ast_type is Assign,
        irs.next[i].value == id,
        irs.next[j].ast_type is If,
        0 <= c < irs.next[j].next.len(),
        irs.next[j].next[c].ast_type is Condictions,
        0 <= d < irs.next[j].next[c].next.len(),
        irs.next[j].next[c].next[d].ast_type is Condiction,
        0 <= e < irs.next[j].next[c].next[d].next.len(),
        irs.next[j].next[c].next[d].next[e].ast_type is Variable,
        irs.next[j].next[c].next[d].next[e].value == id,
    ensures
        var_uses(irs, id) >= 2,
        !redundant(t, irs).contains(id),
{
    let x = irs.next[j];
    let y = x.next[c];
    let z = y.next[d];
    lemma_var_uses_through(z.next[e], id);
    lemma_var_uses_through(z, id);
    lemma_var_uses_through(y, id);
    lemma_var_uses_through(x, id);
    lemma_var_uses_through(irs.next[i], id);
    if i < j {
        lemma_var_uses_all_two(irs.next, id, i, j);
    } else {
        lemma_var_uses_all_two(irs.next, id, j, i);
    }
    lemma_redundant_needs_one_use(t, irs, id);
}

} // verus!
