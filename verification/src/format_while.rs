use vstd::prelude::*;
use crate::ast::{
    AbstractSyntaxTree, ASTType, AstTypeView, AstView, children_av, lemma_children_av_index, lemma_children_av_insert,
    lemma_children_av_len, lemma_children_av_push,
};
use crate::ast::render::{height, heights, lemma_heights, same_tree};

verus! {

broadcast use vstd::std_specs::vec::group_vec_axioms;

/// A new tree: the leaf `Begin("None")`.
pub open spec fn none_leaf() -> AstView {
    AstView { ast_type: AstTypeView::Begin("None"@), value: 0, next: Seq::empty() }
}

/// The `break`s and the `continue`s of a tree, not looking into nested
/// loops.
pub open spec fn exits(t: AstView) -> (nat, nat)
    decreases t, 1nat,
{
    match t.ast_type {
        AstTypeView::Loop => (0, 0),
        AstTypeView::Break => (1, 0),
        AstTypeView::Continue => (0, 1),
        _ => exits_all(t.next),
    }
}

/// The `break`s and the `continue`s of the trees `s` together.
pub open spec fn exits_all(s: Seq<AstView>) -> (nat, nat)
    decreases s, 0nat,
{
    if s.len() == 0 {
        (0, 0)
    } else {
        let (a, b) = exits_all(s.drop_last());
        let (c, d) = exits(s.last());
        (a + c, b + d)
    }
}

/// A loop with one `break` and one `continue` among its statements.
pub open spec fn simple_loop(l: AstView) -> bool {
    exits_all(l.next) == (1nat, 1nat)
}

/// A branch that is a lone `break`.
pub open spec fn lone_break(x: AstView) -> bool {
    x.next.len() == 1 && x.next[0].ast_type == AstTypeView::Break
}

/// The children of an `if`, first pass: the last combination of
/// conditions, the side of the last branch that is a lone `break`, and
/// whether there is one (starting from `conds` and `break_tf`).
pub open spec fn if_scan(s: Seq<AstView>, conds: AstView, break_tf: bool) -> (AstView, bool, bool)
    decreases s.len(),
{
    if s.len() == 0 {
        (conds, break_tf, false)
    } else {
        let (c, b, f) = if_scan(s.drop_last(), conds, break_tf);
        let x = s.last();
        if x.ast_type == AstTypeView::Condictions {
            (x, b, f)
        } else if x.ast_type == AstTypeView::True && lone_break(x) {
            (c, true, true)
        } else if x.ast_type == AstTypeView::False && lone_break(x) {
            (c, false, true)
        } else {
            (c, b, f)
        }
    }
}

/// The children of an `if` from the `j`-th on, second pass: the first
/// branch on the side that does not break (`body` where there is none).
pub open spec fn body_pick(s: Seq<AstView>, j: int, break_tf: bool, body: AstView) -> AstView
    decreases s.len() - j,
{
    if j < 0 || j >= s.len() {
        body
    } else if (s[j].ast_type == AstTypeView::True && !break_tf) || (s[j].ast_type == AstTypeView::False && break_tf) {
        s[j]
    } else {
        body_pick(s, j + 1, break_tf, body)
    }
}

/// The statements of a loop, scanned in order: the conditions and the
/// side of the last `if` with a lone `break` branch, the body on its other
/// side, and the statements that are no such `if`.
pub open spec fn while_scan(s: Seq<AstView>) -> (AstView, bool, AstView, Seq<AstView>)
    decreases s.len(),
{
    if s.len() == 0 {
        (none_leaf(), false, none_leaf(), Seq::empty())
    } else {
        let (c, b, w, init) = while_scan(s.drop_last());
        let x = s.last();
        if x.ast_type == AstTypeView::If {
            let (c1, b1, found) = if_scan(x.next, c, b);
            if found {
                (c1, b1, body_pick(x.next, 0, b1, w), init)
            } else {
                (c1, b1, w, init.push(x))
            }
        } else {
            (c, b, w, init.push(x))
        }
    }
}

/// A variable on the right side of an assignment.
pub open spec fn has_right_var(t: AstView) -> bool
    decreases t,
{
    match t.ast_type {
        AstTypeView::Assign(_) | AstTypeView::Operator(_) => exists|i: int| 0 <= i < t.next.len() && has_right_var(#[trigger] t.next[i]),
        AstTypeView::Variable(_) => true,
        _ => false,
    }
}

/// An assignment inside `t` (through loops, `if`s and branches) to the
/// variable of one of `init` that is not that statement itself.
pub open spec fn assign_clash(t: AstView, init: Seq<AstView>) -> bool
    decreases t,
{
    match t.ast_type {
        AstTypeView::While | AstTypeView::Loop | AstTypeView::If | AstTypeView::True | AstTypeView::False => exists|i: int|
            0 <= i < t.next.len() && assign_clash(#[trigger] t.next[i], init),
        AstTypeView::Assign(_) => exists|j: int| 0 <= j < init.len() && init[j] != t && init[j].value == t.value,
        _ => false,
    }
}

/// The statements `init` cannot go before the loop `l`: one is no
/// assignment, or one reads a variable while the loop assigns the variable
/// of one of them elsewhere.
pub open spec fn init_blocked(l: AstView, init: Seq<AstView>) -> bool {
    ||| exists|j: int| 0 <= j < init.len() && !((#[trigger] init[j]).ast_type is Assign)
    ||| assign_clash(l, init) && exists|j: int| 0 <= j < init.len() && (#[trigger] init[j]).ast_type is Assign && has_right_var(init[j])
}

/// The trees `s` but the `continue`s.
pub open spec fn no_continues(s: Seq<AstView>) -> Seq<AstView>
    decreases s.len(),
{
    if s.len() == 0 {
        s
    } else if s.last().ast_type == AstTypeView::Continue {
        no_continues(s.drop_last())
    } else {
        no_continues(s.drop_last()).push(s.last())
    }
}

/// A simple loop as a `while` on the conditions of its breaking `if`, over
/// the body on the other side without `continue`s (nothing where the break
/// is on the true side), with its other statements to go before it; where
/// they cannot, the loop as it was and nothing.
pub open spec fn while_of(l: AstView) -> (AstView, AstView) {
    let (c, b, w, init) = while_scan(l.next);
    if init_blocked(l, init) {
        (l, none_leaf())
    } else {
        (
            AstView {
                ast_type: AstTypeView::While,
                value: l.value,
                next: if b { Seq::empty() } else { seq![c] + no_continues(w.next) },
            },
            AstView { ast_type: AstTypeView::Begin("None"@), value: 0, next: init },
        )
    }
}

/// The trees `s` are all no higher than `k`, so neither is the highest.
proof fn lemma_heights_bound(s: Seq<AstView>, k: nat)
    requires
        forall|i: int| 0 <= i < s.len() ==> height(#[trigger] s[i]) <= k,
    ensures
        heights(s) <= k,
    decreases s.len(),
{
    if s.len() > 0 {
        assert(height(s[s.len() - 1]) <= k);
        assert forall|i: int| 0 <= i < s.drop_last().len() implies height(#[trigger] s.drop_last()[i]) <= k by {
            assert(s.drop_last()[i] == s[i]);
        }
        lemma_heights_bound(s.drop_last(), k);
    }
}

/// A nonempty list of trees is at least one high.
proof fn lemma_heights_pos(s: Seq<AstView>)
    requires
        s.len() > 0,
    ensures
        heights(s) >= 1,
{
    lemma_heights(s, 0);
}

proof fn lemma_no_continues_from(s: Seq<AstView>)
    ensures
        no_continues(s).len() <= s.len(),
        forall|i: int| 0 <= i < no_continues(s).len() ==> exists|j: int| 0 <= j < s.len() && #[trigger] no_continues(s)[i] == s[j],
    decreases s.len(),
{
    if s.len() > 0 {
        lemma_no_continues_from(s.drop_last());
        let p = no_continues(s.drop_last());
        assert forall|i: int| 0 <= i < no_continues(s).len() implies exists|j: int| 0 <= j < s.len() && #[trigger] no_continues(s)[i] == s[j] by {
            if i < p.len() {
                assert(no_continues(s)[i] == p[i]);
                let j = choose|j: int| 0 <= j < s.drop_last().len() && p[i] == s.drop_last()[j];
                assert(s.drop_last()[j] == s[j]);
            } else {
                assert(no_continues(s)[i] == s[s.len() - 1]);
            }
        }
    }
}

/// What the first pass over an `if` keeps as conditions is what it
/// started from or one of the children.
proof fn lemma_if_scan_from(s: Seq<AstView>, conds: AstView, break_tf: bool)
    ensures
        if_scan(s, conds, break_tf).0 == conds || exists|j: int| 0 <= j < s.len() && if_scan(s, conds, break_tf).0 == s[j],
    decreases s.len(),
{
    if s.len() > 0 {
        lemma_if_scan_from(s.drop_last(), conds, break_tf);
        let c = if_scan(s.drop_last(), conds, break_tf).0;
        if c != conds && if_scan(s, conds, break_tf).0 == c {
            let j = choose|j: int| 0 <= j < s.drop_last().len() && c == s.drop_last()[j];
            assert(s.drop_last()[j] == s[j]);
        }
    }
}

proof fn lemma_body_pick_from(s: Seq<AstView>, j: int, break_tf: bool, body: AstView)
    ensures
        body_pick(s, j, break_tf, body) == body || exists|k: int| 0 <= k < s.len() && body_pick(s, j, break_tf, body) == s[k],
    decreases s.len() - j,
{
    if 0 <= j < s.len() {
        lemma_body_pick_from(s, j + 1, break_tf, body);
    }
}

/// The conditions and the body the scan of a loop keeps are new trees or
/// children of its `if`s.
proof fn lemma_while_scan_from(s: Seq<AstView>)
    ensures
        ({
            let (c, b, w, init) = while_scan(s);
            &&& c == none_leaf() || exists|i: int, j: int| 0 <= i < s.len() && 0 <= j < s[i].next.len() && c == s[i].next[j]
            &&& w == none_leaf() || exists|i: int, j: int| 0 <= i < s.len() && 0 <= j < s[i].next.len() && w == s[i].next[j]
        }),
    decreases s.len(),
{
    if s.len() > 0 {
        let d = s.drop_last();
        lemma_while_scan_from(d);
        let (c, b, w, init) = while_scan(d);
        let x = s.last();
        let k = s.len() - 1;
        assert(x == s[k]);
        if x.ast_type == AstTypeView::If {
            lemma_if_scan_from(x.next, c, b);
            let (c1, b1, found) = if_scan(x.next, c, b);
            lemma_body_pick_from(x.next, 0, b1, w);
        }
        let (c2, b2, w2, init2) = while_scan(s);
        if c2 != none_leaf() {
            if c2 == c {
                let (i, j) = choose|i: int, j: int| 0 <= i < d.len() && 0 <= j < d[i].next.len() && c == d[i].next[j];
                assert(d[i] == s[i]);
            }
        }
        if w2 != none_leaf() {
            if w2 == w {
                let (i, j) = choose|i: int, j: int| 0 <= i < d.len() && 0 <= j < d[i].next.len() && w == d[i].next[j];
                assert(d[i] == s[i]);
            }
        }
    }
}

/// A grandchild of the trees `s` is lower than the highest of them.
proof fn lemma_grandchild_height(s: Seq<AstView>, i: int, j: int)
    requires
        0 <= i < s.len(),
        0 <= j < s[i].next.len(),
    ensures
        height(s[i].next[j]) + 1 <= heights(s),
{
    lemma_heights(s, i);
    lemma_heights(s[i].next, j);
}

/// A simple loop made a `while` is no higher than the loop.
pub proof fn lemma_while_of_height(l: AstView)
    requires
        simple_loop(l),
    ensures
        height(while_of(l).0) <= height(l),
{
    let s = l.next;
    let (c, b, w, init) = while_scan(s);
    if !init_blocked(l, init) {
        assert(s.len() > 0);
        lemma_heights_pos(s);
        lemma_while_scan_from(s);
        let h = heights(s);
        if c != none_leaf() {
            let (i, j) = choose|i: int, j: int| 0 <= i < s.len() && 0 <= j < s[i].next.len() && c == s[i].next[j];
            lemma_grandchild_height(s, i, j);
        }
        assert(height(c) <= h) by {
            if c == none_leaf() {
                assert(heights(none_leaf().next) == 0);
            }
        }
        assert(heights(w.next) + 1 <= h) by {
            if w == none_leaf() {
            } else {
                let (i, j) = choose|i: int, j: int| 0 <= i < s.len() && 0 <= j < s[i].next.len() && w == s[i].next[j];
                lemma_grandchild_height(s, i, j);
            }
        }
        let nc = no_continues(w.next);
        lemma_no_continues_from(w.next);
        let kids: Seq<AstView> = if b { Seq::empty() } else { seq![c] + nc };
        assert forall|q: int| 0 <= q < kids.len() implies height(#[trigger] kids[q]) <= h by {
            if q == 0 {
                assert(kids[q] == c);
            } else {
                assert(kids[q] == nc[q - 1]);
                let j = choose|j: int| 0 <= j < w.next.len() && nc[q - 1] == w.next[j];
                lemma_heights(w.next, j);
            }
        }
        lemma_heights_bound(kids, h);
        assert(while_of(l).0.next == kids);
    }
}

/// The items `items` put in at `idx`.
pub open spec fn insert_items(v: Seq<AstView>, idx: int, items: Seq<AstView>) -> Seq<AstView> {
    v.subrange(0, idx) + items + v.subrange(idx, v.len() as int)
}

/// The statements of each record put in, in turn, at its index.
pub open spec fn inserted(v: Seq<AstView>, ins: Seq<(int, Seq<AstView>)>) -> Seq<AstView>
    decreases ins.len(),
{
    if ins.len() == 0 {
        v
    } else {
        insert_items(inserted(v, ins.drop_last()), ins.last().0, ins.last().1)
    }
}

/// The children of a node that `format_while` walks: each simple loop
/// made a `while` (see `while_of`), each loop walked in turn, the children
/// of each other child walked; with, for each simple loop, its index and
/// the statements to go before it.
pub open spec fn fw_kids(s: Seq<AstView>) -> (Seq<AstView>, Seq<(int, Seq<AstView>)>)
    decreases heights(s), 1nat, s.len(),
{
    if s.len() == 0 {
        (Seq::empty(), Seq::empty())
    } else {
        let (done, ins) = fw_kids(s.drop_last());
        let c = s.last();
        let i = s.len() - 1;
        proof {
            lemma_heights(s, i);
        }
        if c.ast_type == AstTypeView::Loop {
            if simple_loop(c) {
                let (c1, init) = while_of(c);
                proof {
                    lemma_while_of_height(c);
                }
                (done.push(m_format_while(c1)), ins.push((i, init.next)))
            } else {
                (done.push(m_format_while(c)), ins)
            }
        } else {
            (done.push(AstView { next: fw_each(c.next), ..c }), ins)
        }
    }
}

/// Each of the trees `s` walked (see `m_format_while`).
pub open spec fn fw_each(s: Seq<AstView>) -> Seq<AstView>
    decreases heights(s), 1nat, s.len(),
{
    if s.len() == 0 {
        Seq::empty()
    } else {
        proof {
            lemma_heights(s, s.len() - 1);
        }
        fw_each(s.drop_last()).push(m_format_while(s.last()))
    }
}

/// The tree with its children walked (see `fw_kids`), then the statements
/// of each simple loop put in at the loop's index, in the order of the
/// loops, each at the index it had before any was put in.
pub open spec fn m_format_while(t: AstView) -> AstView
    decreases height(t), 0nat, 0nat,
{
    let (kids, ins) = fw_kids(t.next);
    AstView { next: inserted(kids, ins), ..t }
}

/// `n`, but at most two.
pub open spec fn cap2(n: int) -> int {
    if n >= 2 { 2 } else { n }
}

/// Counts the `break`s and `continue`s of `t` (see `exits`), each count
/// kept at two at most, which is all that a test for one of each needs.
fn chech_is_simple_while(t: &AbstractSyntaxTree, break_n: &mut u64, continue_n: &mut u64)
    requires
        *old(break_n) <= 2,
        *old(continue_n) <= 2,
    ensures
        *final(break_n) == cap2(*old(break_n) + exits(t.av()).0),
        *final(continue_n) == cap2(*old(continue_n) + exits(t.av()).1),
    decreases t,
{
    match &t.ast_type {
        ASTType::Loop => {},
        ASTType::Break => {
            if *break_n < 2 {
                *break_n = *break_n + 1;
            }
        },
        ASTType::Continue => {
            if *continue_n < 2 {
                *continue_n = *continue_n + 1;
            }
        },
        _ => {
            let ghost s = t.av().next;
            let ghost b0 = *break_n;
            let ghost c0 = *continue_n;
            proof {
                lemma_children_av_len(t.next@);
                assert(s.take(0) =~= Seq::<AstView>::empty());
            }
            let mut i: usize = 0;
            while i < t.next.len()
                invariant
                    i <= t.next@.len(),
                    s == children_av(t.next@),
                    s.len() == t.next@.len(),
                    b0 <= 2,
                    c0 <= 2,
                    *break_n == cap2(b0 + exits_all(s.take(i as int)).0),
                    *continue_n == cap2(c0 + exits_all(s.take(i as int)).1),
                decreases t.next@.len() - i,
            {
                proof {
                    assert(decreases_to!(t => t.next));
                    assert(decreases_to!(t.next => t.next@));
                    assert(decreases_to!(t.next@ => t.next@[i as int]));
                    lemma_children_av_index(t.next@, i as int);
                    assert(s.take(i as int + 1).drop_last() =~= s.take(i as int));
                    assert(s.take(i as int + 1).last() == s[i as int]);
                }
                chech_is_simple_while(&t.next[i], break_n, continue_n);
                i = i + 1;
            }
            proof {
                assert(s.take(i as int) =~= s);
            }
        },
    }
}

/// Whether some variable is on the right side (see `has_right_var`).
fn get_right_var(t: &AbstractSyntaxTree) -> (r: bool)
    ensures
        r == has_right_var(t.av()),
    decreases t,
{
    match &t.ast_type {
        ASTType::Assign(_) | ASTType::Operator(_) => {
            let ghost s = t.av().next;
            proof {
                lemma_children_av_len(t.next@);
            }
            let mut i: usize = 0;
            while i < t.next.len()
                invariant
                    i <= t.next@.len(),
                    s == children_av(t.next@),
                    s.len() == t.next@.len(),
                    forall|j: int| 0 <= j < i ==> !has_right_var(#[trigger] s[j]),
                    t.av().ast_type is Assign || t.av().ast_type is Operator,
                    t.av().next == s,
                decreases t.next@.len() - i,
            {
                proof {
                    assert(decreases_to!(t => t.next));
                    assert(decreases_to!(t.next => t.next@));
                    assert(decreases_to!(t.next@ => t.next@[i as int]));
                    lemma_children_av_index(t.next@, i as int);
                }
                if get_right_var(&t.next[i]) {
                    proof {
                        assert(has_right_var(s[i as int]));
                    }
                    return true;
                }
                i = i + 1;
            }
            false
        },
        ASTType::Variable(_) => true,
        _ => false,
    }
}

/// Whether an assignment inside `t` clashes with one of `init` (see
/// `assign_clash`).
fn check_var_static(t: &AbstractSyntaxTree, init: &Vec<Box<AbstractSyntaxTree>>) -> (r: bool)
    ensures
        r == assign_clash(t.av(), children_av(init@)),
    decreases t,
{
    let ghost inits = children_av(init@);
    proof {
        lemma_children_av_len(init@);
        lemma_children_av_len(t.next@);
    }
    match &t.ast_type {
        ASTType::While | ASTType::Loop | ASTType::If | ASTType::True | ASTType::False => {
            let ghost s = t.av().next;
            let mut i: usize = 0;
            while i < t.next.len()
                invariant
                    i <= t.next@.len(),
                    s == children_av(t.next@),
                    s.len() == t.next@.len(),
                    inits == children_av(init@),
                    forall|j: int| 0 <= j < i ==> !assign_clash(#[trigger] s[j], inits),
                    t.av().ast_type is While || t.av().ast_type is Loop || t.av().ast_type is If || t.av().ast_type is True
                        || t.av().ast_type is False,
                    t.av().next == s,
                decreases t.next@.len() - i,
            {
                proof {
                    assert(decreases_to!(t => t.next));
                    assert(decreases_to!(t.next => t.next@));
                    assert(decreases_to!(t.next@ => t.next@[i as int]));
                    lemma_children_av_index(t.next@, i as int);
                }
                if check_var_static(&t.next[i], init) {
                    proof {
                        assert(assign_clash(s[i as int], inits));
                    }
                    return true;
                }
                i = i + 1;
            }
            false
        },
        ASTType::Assign(_) => {
            let mut j: usize = 0;
            while j < init.len()
                invariant
                    j <= init@.len(),
                    inits == children_av(init@),
                    inits.len() == init@.len(),
                    forall|k: int| 0 <= k < j ==> !((#[trigger] inits[k]) != t.av() && inits[k].value == t.value),
                    t.av().ast_type is Assign,
                decreases init@.len() - j,
            {
                proof {
                    lemma_children_av_index(init@, j as int);
                }
                if !same_tree(&init[j], t) && init[j].value == t.value {
                    proof {
                        assert(inits[j as int] != t.av() && inits[j as int].value == t.value);
                    }
                    return true;
                }
                j = j + 1;
            }
            false
        },
        _ => false,
    }
}

/// Whether the branch `y` is a lone `break` (see `lone_break`).
fn is_lone_break(y: &AbstractSyntaxTree) -> (r: bool)
    ensures
        r == lone_break(y.av()),
{
    proof {
        lemma_children_av_len(y.next@);
        if y.next@.len() > 0 {
            lemma_children_av_index(y.next@, 0);
        }
    }
    y.next.len() == 1 && matches!(y.next[0].ast_type, ASTType::Break)
}

/// The first pass over the `if` `x` (see `if_scan`).
fn scan_if(x: &AbstractSyntaxTree, conds: &mut AbstractSyntaxTree, break_tf: &mut bool) -> (found: bool)
    ensures
        (final(conds).av(), *final(break_tf), found) == if_scan(x.av().next, old(conds).av(), *old(break_tf)),
{
    let ghost s = x.av().next;
    let ghost c0 = conds.av();
    let ghost b0 = *break_tf;
    proof {
        lemma_children_av_len(x.next@);
        assert(s.take(0) =~= Seq::<AstView>::empty());
    }
    let mut found = false;
    let mut i: usize = 0;
    while i < x.next.len()
        invariant
            i <= x.next@.len(),
            s == children_av(x.next@),
            s.len() == x.next@.len(),
            (conds.av(), *break_tf, found) == if_scan(s.take(i as int), c0, b0),
        decreases x.next@.len() - i,
    {
        proof {
            lemma_children_av_index(x.next@, i as int);
            assert(s.take(i as int + 1).drop_last() =~= s.take(i as int));
            assert(s.take(i as int + 1).last() == s[i as int]);
        }
        let y = &x.next[i];
        match &y.ast_type {
            ASTType::Condictions => {
                *conds = y.duplicate();
            },
            ASTType::True => {
                if is_lone_break(y) {
                    *break_tf = true;
                    found = true;
                }
            },
            ASTType::False => {
                if is_lone_break(y) {
                    *break_tf = false;
                    found = true;
                }
            },
            _ => {},
        }
        i = i + 1;
    }
    proof {
        assert(s.take(i as int) =~= s);
    }
    found
}

/// The second pass over the `if` `x` (see `body_pick`).
fn pick_body(x: &AbstractSyntaxTree, break_tf: bool, body: &mut AbstractSyntaxTree)
    ensures
        final(body).av() == body_pick(x.av().next, 0, break_tf, old(body).av()),
{
    let ghost s = x.av().next;
    proof {
        lemma_children_av_len(x.next@);
    }
    let mut j: usize = 0;
    while j < x.next.len()
        invariant
            j <= x.next@.len(),
            s == children_av(x.next@),
            s.len() == x.next@.len(),
            body.av() == old(body).av(),
            body_pick(s, 0, break_tf, old(body).av()) == body_pick(s, j as int, break_tf, old(body).av()),
        decreases x.next@.len() - j,
    {
        proof {
            lemma_children_av_index(x.next@, j as int);
        }
        let y = &x.next[j];
        let hit = match &y.ast_type {
            ASTType::True => !break_tf,
            ASTType::False => break_tf,
            _ => false,
        };
        if hit {
            *body = y.duplicate();
            return ;
        }
        j = j + 1;
    }
}

/// Adds `t` at the end of the children of `ast`.
fn push_child(ast: &mut AbstractSyntaxTree, t: AbstractSyntaxTree)
    ensures
        children_av(final(ast).next@) == children_av(old(ast).next@).push(t.av()),
        final(ast).ast_type == old(ast).ast_type,
        final(ast).value == old(ast).value,
{
    let ghost n0 = ast.next@;
    ast.next.push(Box::new(t));
    proof {
        lemma_children_av_push(n0, Box::new(t));
    }
}

/// Makes the simple loop `loop_ast` a `while` and gives the statements that
/// go before it; where they cannot, leaves the loop and gives a new tree
/// (see `while_of`).
fn format_simple_while(loop_ast: &mut AbstractSyntaxTree) -> (init: AbstractSyntaxTree)
    ensures
        (final(loop_ast).av(), init.av()) == while_of(old(loop_ast).av()),
{
    let ghost l = loop_ast.av();
    let ghost s = l.next;
    let mut condictions = AbstractSyntaxTree::new();
    let mut break_tf = false;
    let mut while_body = AbstractSyntaxTree::new();
    let mut init_block = AbstractSyntaxTree::new();
    proof {
        lemma_children_av_len(loop_ast.next@);
        assert(s.take(0) =~= Seq::<AstView>::empty());
        assert(children_av(init_block.next@) =~= Seq::<AstView>::empty());
    }
    let mut i: usize = 0;
    while i < loop_ast.next.len()
        invariant
            i <= loop_ast.next@.len(),
            loop_ast.av() == l,
            s == children_av(loop_ast.next@),
            s.len() == loop_ast.next@.len(),
            init_block.ast_type@ == AstTypeView::Begin("None"@),
            init_block.value == 0,
            (condictions.av(), break_tf, while_body.av(), children_av(init_block.next@)) == while_scan(s.take(i as int)),
        decreases loop_ast.next@.len() - i,
    {
        proof {
            lemma_children_av_index(loop_ast.next@, i as int);
            assert(s.take(i as int + 1).drop_last() =~= s.take(i as int));
            assert(s.take(i as int + 1).last() == s[i as int]);
        }
        let x = &loop_ast.next[i];
        if matches!(x.ast_type, ASTType::If) {
            let found = scan_if(x, &mut condictions, &mut break_tf);
            if !found {
                push_child(&mut init_block, x.duplicate());
            } else {
                pick_body(x, break_tf, &mut while_body);
            }
        } else {
            push_child(&mut init_block, x.duplicate());
        }
        i = i + 1;
    }
    proof {
        assert(s.take(i as int) =~= s);
    }
    let ghost init = children_av(init_block.next@);
    let mut non_assign = false;
    let mut assign_with_var = false;
    let mut k: usize = 0;
    proof {
        lemma_children_av_len(init_block.next@);
    }
    while k < init_block.next.len()
        invariant
            k <= init_block.next@.len(),
            init == children_av(init_block.next@),
            init.len() == init_block.next@.len(),
            non_assign == exists|j: int| 0 <= j < k && !((#[trigger] init[j]).ast_type is Assign),
            assign_with_var == exists|j: int| 0 <= j < k && (#[trigger] init[j]).ast_type is Assign && has_right_var(init[j]),
        decreases init_block.next@.len() - k,
    {
        proof {
            lemma_children_av_index(init_block.next@, k as int);
        }
        let x = &init_block.next[k];
        if matches!(x.ast_type, ASTType::Assign(_)) {
            if get_right_var(x) {
                assign_with_var = true;
            }
        } else {
            non_assign = true;
        }
        proof {
            if non_assign {
                if !(exists|j: int| 0 <= j < k && !((#[trigger] init[j]).ast_type is Assign)) {
                    assert(!(init[k as int].ast_type is Assign));
                }
            }
            if assign_with_var {
                if !(exists|j: int| 0 <= j < k && (#[trigger] init[j]).ast_type is Assign && has_right_var(init[j])) {
                    assert(init[k as int].ast_type is Assign && has_right_var(init[k as int]));
                }
            }
        }
        k = k + 1;
    }
    let blocked = non_assign || (assign_with_var && check_var_static(loop_ast, &init_block.next));
    if blocked {
        return AbstractSyntaxTree::new();
    }
    let ghost w = while_body.av();
    loop_ast.ast_type = ASTType::While;
    let mut next: Vec<Box<AbstractSyntaxTree>> = Vec::new();
    proof {
        assert(children_av(next@) =~= Seq::<AstView>::empty());
    }
    if !break_tf {
        let ghost cv = condictions.av();
        let ghost n0 = next@;
        next.push(Box::new(condictions));
        proof {
            lemma_children_av_push(n0, Box::new(condictions));
            assert(children_av(next@) =~= seq![cv]);
        }
        let ghost on = while_body.next@;
        let ghost mut j: int = 0;
        proof {
            assert(children_av(on) == w.next);
            assert(on.take(0) =~= Seq::<Box<AbstractSyntaxTree>>::empty());
        }
        for c in it: while_body.next.into_iter()
            invariant
                it.seq() == on,
                j == it.index(),
                children_av(on) == w.next,
                children_av(next@) == seq![cv] + no_continues(children_av(on.take(j))),
        {
            proof {
                assert(j < on.len());
                assert(c == on[j]);
                crate::ast::lemma_children_av_take(on, j);
                let p = children_av(on.take(j));
                assert(children_av(on.take(j + 1)).drop_last() =~= p);
            }
            if !matches!(c.ast_type, ASTType::Continue) {
                let ghost n1 = next@;
                next.push(c);
                proof {
                    lemma_children_av_push(n1, c);
                    assert(children_av(next@) =~= seq![cv] + no_continues(children_av(on.take(j + 1))));
                }
            } else {
                proof {
                    assert(children_av(next@) =~= seq![cv] + no_continues(children_av(on.take(j + 1))));
                }
            }
            proof {
                j = j + 1;
            }
        }
        proof {
            assert(on.take(j) =~= on);
        }
    }
    loop_ast.next = next;
    init_block
}


/// Whether the loop `l` has one `break` and one `continue` among its
/// statements (see `simple_loop`).
fn is_simple_loop(l: &AbstractSyntaxTree) -> (r: bool)
    ensures
        r == simple_loop(l.av()),
{
    let ghost s = l.av().next;
    let mut break_n: u64 = 0;
    let mut continue_n: u64 = 0;
    proof {
        lemma_children_av_len(l.next@);
        assert(s.take(0) =~= Seq::<AstView>::empty());
    }
    let mut i: usize = 0;
    while i < l.next.len()
        invariant
            i <= l.next@.len(),
            s == children_av(l.next@),
            s.len() == l.next@.len(),
            break_n == cap2(exits_all(s.take(i as int)).0 as int),
            continue_n == cap2(exits_all(s.take(i as int)).1 as int),
        decreases l.next@.len() - i,
    {
        proof {
            lemma_children_av_index(l.next@, i as int);
            assert(s.take(i as int + 1).drop_last() =~= s.take(i as int));
            assert(s.take(i as int + 1).last() == s[i as int]);
        }
        chech_is_simple_while(&l.next[i], &mut break_n, &mut continue_n);
        i = i + 1;
    }
    proof {
        assert(s.take(i as int) =~= s);
    }
    break_n == 1 && continue_n == 1
}

/// The records of a walk as values: each index with its statements.
pub open spec fn ins_view(v: Seq<(usize, Vec<Box<AbstractSyntaxTree>>)>) -> Seq<(int, Seq<AstView>)> {
    Seq::new(v.len(), |k: int| (v[k].0 as int, children_av(v[k].1@)))
}

/// Puts the statements `items` in at `idx`, in their order.
fn insert_all(v: &mut Vec<Box<AbstractSyntaxTree>>, idx: usize, items: Vec<Box<AbstractSyntaxTree>>)
    requires
        idx <= old(v)@.len(),
    ensures
        children_av(final(v)@) == insert_items(children_av(old(v)@), idx as int, children_av(items@)),
{
    let ghost v0 = children_av(v@);
    let ghost n0 = v@.len();
    let ghost on = items@;
    let ghost mut j: int = 0;
    let mut pos: usize = idx;
    proof {
        lemma_children_av_len(v@);
        assert(on.take(0) =~= Seq::<Box<AbstractSyntaxTree>>::empty());
        assert(v0 =~= v0.subrange(0, idx as int) + children_av(on.take(0)) + v0.subrange(idx as int, v0.len() as int));
    }
    for b in it: items.into_iter()
        invariant
            it.seq() == on,
            j == it.index(),
            v0.len() == n0,
            idx <= n0,
            pos == idx + j,
            v@.len() == n0 + j,
            children_av(v@) == v0.subrange(0, idx as int) + children_av(on.take(j)) + v0.subrange(idx as int, n0 as int),
    {
        proof {
            assert(b == on[j]);
            crate::ast::lemma_children_av_take(on, j);
            lemma_children_av_len(on.take(j));
            lemma_children_av_insert(v@, pos as int, b);
        }
        let ghost before = children_av(v@);
        v.insert(pos, b);
        proof {
            assert(children_av(v@) =~= v0.subrange(0, idx as int) + children_av(on.take(j + 1)) + v0.subrange(idx as int, n0 as int));
            assert(v.len() == v@.len());
            j = j + 1;
        }
        pos = pos + 1;
    }
    proof {
        assert(on.take(j) =~= on);
    }
}

/// Putting statements in never makes the list shorter.
proof fn lemma_inserted_len(v: Seq<AstView>, ins: Seq<(int, Seq<AstView>)>)
    requires
        forall|k: int| 0 <= k < ins.len() ==> 0 <= (#[trigger] ins[k]).0 <= v.len(),
    ensures
        inserted(v, ins).len() >= v.len(),
    decreases ins.len(),
{
    if ins.len() > 0 {
        let d = ins.drop_last();
        assert forall|k: int| 0 <= k < d.len() implies 0 <= (#[trigger] d[k]).0 <= v.len() by {
            assert(d[k] == ins[k]);
        }
        lemma_inserted_len(v, d);
        assert(ins.last() == ins[ins.len() - 1]);
    }
}

/// Walks each child of `t` (see `fw_each`).
fn format_each(t: &mut AbstractSyntaxTree)
    ensures
        final(t).av() == (AstView { next: fw_each(old(t).av().next), ..old(t).av() }),
    decreases height(old(t).av()),
{
    let ghost t0 = t.av();
    let ghost s = t0.next;
    let mut kids: Vec<Box<AbstractSyntaxTree>> = Vec::new();
    std::mem::swap(&mut kids, &mut t.next);
    let ghost on = kids@;
    let ghost mut j: int = 0;
    let mut done: Vec<Box<AbstractSyntaxTree>> = Vec::new();
    proof {
        lemma_children_av_len(on);
        assert(s.take(0) =~= Seq::<AstView>::empty());
        assert(children_av(done@) =~= Seq::<AstView>::empty());
    }
    for b in it: kids.into_iter()
        invariant
            it.seq() == on,
            j == it.index(),
            s == children_av(on),
            s.len() == on.len(),
            t0.next == s,
            t0 == old(t).av(),
            children_av(done@) == fw_each(s.take(j)),
    {
        proof {
            assert(b == on[j]);
            lemma_children_av_index(on, j);
            lemma_heights(s, j);
            assert(s.take(j + 1).drop_last() =~= s.take(j));
            assert(s.take(j + 1).last() == s[j]);
        }
        let mut c = *b;
        format_while(&mut c);
        let ghost d0 = done@;
        done.push(Box::new(c));
        proof {
            lemma_children_av_push(d0, Box::new(c));
            j = j + 1;
        }
    }
    proof {
        assert(s.take(j) =~= s);
    }
    t.next = done;
}

/// Makes each simple loop among the statements of `ast` a `while`, its
/// other statements going before it, and walks on into the loops and into
/// the children of the other statements (see `m_format_while`).
pub fn format_while(ast: &mut AbstractSyntaxTree)
    ensures
        final(ast).av() == m_format_while(old(ast).av()),
    decreases height(old(ast).av()),
{
    let ghost t0 = ast.av();
    let ghost s = t0.next;
    let mut kids: Vec<Box<AbstractSyntaxTree>> = Vec::new();
    std::mem::swap(&mut kids, &mut ast.next);
    let ghost on = kids@;
    let ghost mut j: int = 0;
    let mut done: Vec<Box<AbstractSyntaxTree>> = Vec::new();
    let mut ins: Vec<(usize, Vec<Box<AbstractSyntaxTree>>)> = Vec::new();
    let mut i: usize = 0;
    proof {
        lemma_children_av_len(on);
        assert(s.take(0) =~= Seq::<AstView>::empty());
        assert(children_av(done@) =~= Seq::<AstView>::empty());
        assert(ins_view(ins@) =~= Seq::<(int, Seq<AstView>)>::empty());
        assert(kids.len() == on.len());
    }
    for b in it: kids.into_iter()
        invariant
            it.seq() == on,
            j == it.index(),
            i == j,
            on.len() <= usize::MAX,
            s == children_av(on),
            s.len() == on.len(),
            t0.next == s,
            t0 == old(ast).av(),
            (children_av(done@), ins_view(ins@)) == fw_kids(s.take(j)),
            forall|k: int| 0 <= k < ins@.len() ==> (#[trigger] ins@[k]).0 < on.len(),
    {
        proof {
            assert(b == on[j]);
            lemma_children_av_index(on, j);
            lemma_heights(s, j);
            assert(s.take(j + 1).drop_last() =~= s.take(j));
            assert(s.take(j + 1).last() == s[j]);
        }
        let mut c = *b;
        let ghost c0 = c.av();
        if matches!(c.ast_type, ASTType::Loop) {
            if is_simple_loop(&c) {
                let init = format_simple_while(&mut c);
                proof {
                    lemma_while_of_height(c0);
                }
                let ghost i0 = ins@;
                ins.push((i, init.next));
                proof {
                    assert(ins_view(ins@) =~= ins_view(i0).push((i as int, init.av().next)));
                }
            }
            format_while(&mut c);
        } else {
            format_each(&mut c);
        }
        let ghost d0 = done@;
        done.push(Box::new(c));
        proof {
            lemma_children_av_push(d0, Box::new(c));
            j = j + 1;
        }
        i = i + 1;
    }
    proof {
        assert(s.take(j) =~= s);
    }
    let ghost kv = children_av(done@);
    let ghost iv = ins_view(ins@);
    let ghost oi = ins@;
    let ghost mut q: int = 0;
    proof {
        lemma_children_av_len(done@);
        assert(kv.len() == s.len()) by {
            lemma_fw_kids_len(s);
        }
        assert(iv.take(0) =~= Seq::<(int, Seq<AstView>)>::empty());
    }
    for e in it2: ins.into_iter()
        invariant
            it2.seq() == oi,
            q == it2.index(),
            iv == ins_view(oi),
            kv.len() == s.len(),
            forall|k: int| 0 <= k < oi.len() ==> (#[trigger] oi[k]).0 < s.len(),
            children_av(done@) == inserted(kv, iv.take(q)),
    {
        let (idx, items) = e;
        proof {
            assert(e == oi[q]);
            let t = iv.take(q);
            assert forall|k: int| 0 <= k < t.len() implies 0 <= (#[trigger] t[k]).0 <= kv.len() by {
                assert(t[k] == iv[k]);
                assert(oi[k].0 < s.len());
            }
            lemma_inserted_len(kv, t);
            lemma_children_av_len(done@);
            assert(iv.take(q + 1).drop_last() =~= iv.take(q));
            assert(iv.take(q + 1).last() == iv[q]);
        }
        insert_all(&mut done, idx, items);
        proof {
            q = q + 1;
        }
    }
    proof {
        assert(iv.take(q) =~= iv);
    }
    ast.next = done;
}

/// The first part of a walk over `s` has one result per tree.
proof fn lemma_fw_kids_len(s: Seq<AstView>)
    ensures
        fw_kids(s).0.len() == s.len(),
    decreases s.len(),
{
    if s.len() > 0 {
        lemma_fw_kids_len(s.drop_last());
    }
}

} // verus!
