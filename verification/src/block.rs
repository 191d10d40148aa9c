use vstd::prelude::*;
use crate::data_flow::{
    DataFlowIr, DFIOperand, Relation, rel_not, operand_eq, opv_eq, reg_eq, lemma_sym_eq_symmetric, OperandView,
};

verus! {

/// A condition of a conditional jump: `operand1 relation operand2`.
#[derive(Debug)]
pub struct Condiction {
    pub relation: Relation,
    pub operand1: DFIOperand,
    pub operand2: DFIOperand,
}

/// A basic block of the IR: its address, its IR instructions, and where
/// control goes after it (straight on, or on the truth of its condition).
#[derive(Debug)]
pub struct Block {
    pub address: u64,
    pub irs: Vec<DataFlowIr>,
    pub next: Option<u64>,
    pub condiction: Option<Condiction>,
    pub true_next: Option<u64>,
    pub false_next: Option<u64>,
}

/// The value of a condition.
pub struct CondView {
    pub relation: Relation,
    pub operand1: OperandView,
    pub operand2: OperandView,
}

impl View for Condiction {
    type V = CondView;

    open spec fn view(&self) -> CondView {
        CondView { relation: self.relation, operand1: self.operand1@, operand2: self.operand2@ }
    }
}

/// The value of an optional condition.
pub open spec fn opt_cond_view(c: Option<Condiction>) -> Option<CondView> {
    match c {
        Some(x) => Some(x@),
        None => None,
    }
}

/// The equality of condition values (see `cond_eq`).
pub open spec fn condv_eq(a: CondView, b: CondView) -> bool {
    ||| (a.relation == b.relation && opv_eq(a.operand1, b.operand1) && opv_eq(a.operand2, a.operand2))
    ||| (rel_not(a.relation) == b.relation && opv_eq(a.operand2, b.operand1) && opv_eq(a.operand1, b.operand2))
}

/// The negation of a condition: the relation negated, the operands swapped.
pub open spec fn cond_not(c: Condiction) -> Condiction {
    Condiction { relation: rel_not(c.relation), operand1: c.operand2, operand2: c.operand1 }
}

/// The equality of conditions: the same relation and first operand (and a
/// second operand equal to itself), or the relation negated with the
/// operands swapped.
pub open spec fn cond_eq(a: Condiction, b: Condiction) -> bool {
    condv_eq(a@, b@)
}

impl Condiction {
    /// The negation of the condition (see `cond_not`).
    pub fn not(self) -> (r: Condiction)
        ensures
            r == cond_not(self),
    {
        Condiction { relation: self.relation.not(), operand1: self.operand2, operand2: self.operand1 }
    }

    /// A copy of the condition.
    pub fn duplicate(&self) -> (r: Condiction)
        ensures
            r@ == self@,
    {
        Condiction { relation: self.relation, operand1: self.operand1.duplicate(), operand2: self.operand2.duplicate() }
    }

    /// The equality `cond_eq`.
    pub fn eq(&self, other: &Self) -> (r: bool)
        ensures
            r == cond_eq(*self, *other),
    {
        if self.relation == other.relation && self.operand1.eq(&other.operand1) && self.operand2.eq(&self.operand2) {
            true
        } else {
            self.relation.not() == other.relation && self.operand2.eq(&other.operand1) && self.operand1.eq(&other.operand2)
        }
    }
}

impl Block {
    /// An empty block at address 0 that leads nowhere.
    pub fn new() -> (b: Self)
        ensures
            b.address == 0,
            b.irs@ == Seq::<DataFlowIr>::empty(),
            b.next is None,
            b.condiction is None,
            b.true_next is None,
            b.false_next is None,
    {
        Block { address: 0, irs: Vec::new(), next: None, condiction: None, true_next: None, false_next: None }
    }
}

/// Negating a condition twice gives it back.
pub proof fn lemma_cond_not_involution(c: Condiction)
    ensures
        cond_not(cond_not(c)) == c,
{
}

/// The equality of register contents is symmetric.
pub proof fn lemma_reg_eq_symmetric(a: crate::data_flow::RegisterRecord, b: crate::data_flow::RegisterRecord)
    ensures
        reg_eq(a, b) == reg_eq(b, a),
{
    match (a, b) {
        (crate::data_flow::RegisterRecord::Symbol(x), crate::data_flow::RegisterRecord::Symbol(y)) => lemma_sym_eq_symmetric(x, y),
        _ => {},
    }
}

/// The equality of operands is symmetric.
pub proof fn lemma_operand_eq_symmetric(a: DFIOperand, b: DFIOperand)
    ensures
        operand_eq(a, b) == operand_eq(b, a),
{
    match (a, b) {
        (DFIOperand::Symbol(x), DFIOperand::Symbol(y)) => lemma_sym_eq_symmetric(x, y),
        (DFIOperand::Parameter(x), DFIOperand::Parameter(y)) => {
            assert forall|i: int| 0 <= i < x@.len() && x@.len() == y@.len() implies reg_eq(#[trigger] x@[i], y@[i]) == reg_eq(y@[i], x@[i]) by {
                lemma_reg_eq_symmetric(x@[i], y@[i]);
            }
            if operand_eq(b, a) {
                assert forall|i: int| 0 <= i < x@.len() implies reg_eq(#[trigger] x@[i], y@[i]) by {
                    assert(reg_eq(y@[i], x@[i]));
                    lemma_reg_eq_symmetric(x@[i], y@[i]);
                }
            }
            if operand_eq(a, b) {
                assert forall|i: int| 0 <= i < y@.len() implies reg_eq(#[trigger] y@[i], x@[i]) by {
                    assert(reg_eq(x@[i], y@[i]));
                    lemma_reg_eq_symmetric(x@[i], y@[i]);
                }
            }
        },
        _ => {},
    }
}

/// The equality of conditions is symmetric between conditions whose
/// operands are each equal to themselves.
pub proof fn lemma_cond_eq_symmetric(a: Condiction, b: Condiction)
    requires
        operand_eq(a.operand1, a.operand1),
        operand_eq(a.operand2, a.operand2),
        operand_eq(b.operand1, b.operand1),
        operand_eq(b.operand2, b.operand2),
    ensures
        cond_eq(a, b) == cond_eq(b, a),
{
    lemma_operand_eq_symmetric(a.operand1, b.operand1);
    lemma_operand_eq_symmetric(a.operand2, b.operand1);
    lemma_operand_eq_symmetric(a.operand1, b.operand2);
    lemma_operand_eq_symmetric(a.operand2, b.operand2);
    crate::data_flow::lemma_rel_not_involution(a.relation);
    crate::data_flow::lemma_rel_not_involution(b.relation);
}

/// A condition whose operands are each equal to themselves is equal to its
/// negation, both ways round: a condition and its negation name the same test.
pub proof fn lemma_cond_eq_not(c: Condiction)
    requires
        operand_eq(c.operand1, c.operand1),
        operand_eq(c.operand2, c.operand2),
    ensures
        cond_eq(c, cond_not(c)),
        cond_eq(cond_not(c), c),
{
    crate::data_flow::lemma_rel_not_involution(c.relation);
}

} // verus!
