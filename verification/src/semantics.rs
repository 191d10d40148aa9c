use vstd::prelude::*;
use crate::ast::{AstTypeView, Operator};
use crate::ast::text::{cond_op_text, dec_text, digit_char, digits, op_text, rel_text};
use crate::ast::parse::dfi_step;
use crate::ast::symbols::SymState;
use crate::data_flow::{DataFlowIr, DataFlowIrOpcode, Relation, rel_not};
use crate::insn::{AssemblyInstruction, NameValue};
use crate::data_flow::{Number, OperandView, Size};
use crate::data_flow::state::{DFState, reg_of, signed_operand, unsigned_operand};
use crate::data_flow::beq::beq_step;
use crate::data_flow::branch::{beqz_step, bgeu_step, blt_step};
use crate::data_flow::RegisterRecord;
use crate::data_flow::state::{imm_of, names_reg, fits_i64};
use crate::data_flow::add_d::add_d_step;
use crate::data_flow::addi_d::addi_d_step;
use crate::data_flow::addi_w::addi_w_step;
use crate::data_flow::andi::andi_step;
use crate::data_flow::or::or_step;

verus! {

/// What the comparison `r` says of the numbers `a` and `b`.
pub open spec fn rel_holds(r: Relation, a: int, b: int) -> bool {
    match r {
        Relation::EQ => a == b,
        Relation::NE => a != b,
        Relation::L => a < b,
        Relation::G => a > b,
        Relation::LE => a <= b,
        Relation::GE => a >= b,
    }
}

/// What the C comparison spelled `op` says of `a` and `b`; false for a
/// text that spells no comparison.
pub open spec fn c_compare(op: Seq<char>, a: int, b: int) -> bool {
    if op == "=="@ {
        a == b
    } else if op == "!="@ {
        a != b
    } else if op == "<"@ {
        a < b
    } else if op == ">"@ {
        a > b
    } else if op == "<="@ {
        a <= b
    } else if op == ">="@ {
        a >= b
    } else {
        false
    }
}

/// What the C binary operator spelled `op` computes from `a` and `b`;
/// `None` for a text that spells none.
pub open spec fn c_arith(op: Seq<char>, a: i64, b: i64) -> Option<int> {
    if op == "+"@ {
        Some(a + b)
    } else if op == "-"@ {
        Some(a - b)
    } else if op == "*"@ {
        Some(a * b)
    } else if op == "/"@ {
        Some(a / b)
    } else if op == "&"@ {
        Some((a & b) as int)
    } else if op == "|"@ {
        Some((a | b) as int)
    } else if op == "^"@ {
        Some((a ^ b) as int)
    } else {
        None
    }
}

/// What a binary operator of the syntax tree computes from `a` and `b`
/// (`Not` takes one operand and has no value here).
pub open spec fn op_value(op: Operator, a: i64, b: i64) -> Option<int> {
    match op {
        Operator::Add => Some(a + b),
        Operator::Sub => Some(a - b),
        Operator::Mul => Some(a * b),
        Operator::Div => Some(a / b),
        Operator::And => Some((a & b) as int),
        Operator::Or => Some((a | b) as int),
        Operator::Xor => Some((a ^ b) as int),
        Operator::Not => None,
    }
}

/// What a two-operand IR instruction with the opcode `opc` computes from
/// its operands `a` and `b`; `None` for an opcode that is no such
/// operation.
pub open spec fn ir_value(opc: DataFlowIrOpcode, a: i64, b: i64) -> Option<int> {
    match opc {
        DataFlowIrOpcode::Add => Some(a + b),
        DataFlowIrOpcode::Sub => Some(a - b),
        DataFlowIrOpcode::Mul => Some(a * b),
        DataFlowIrOpcode::Div => Some(a / b),
        DataFlowIrOpcode::And => Some((a & b) as int),
        DataFlowIrOpcode::Or => Some((a | b) as int),
        DataFlowIrOpcode::Xor => Some((a ^ b) as int),
        _ => None,
    }
}

/// Each comparison is spelled as the C operator that says the same of
/// any two numbers.
pub proof fn lemma_rel_text_means(r: Relation, a: int, b: int)
    ensures
        c_compare(rel_text(r), a, b) == rel_holds(r, a, b),
{
    reveal_strlit("==");
    reveal_strlit("!=");
    reveal_strlit("<");
    reveal_strlit(">");
    reveal_strlit("<=");
    reveal_strlit(">=");
    assert("=="@.len() == 2 && "=="@[0] == '=');
    assert("!="@.len() == 2 && "!="@[0] == '!');
    assert("<"@.len() == 1 && "<"@[0] == '<');
    assert(">"@.len() == 1 && ">"@[0] == '>');
    assert("<="@.len() == 2 && "<="@[0] == '<');
    assert(">="@.len() == 2 && ">="@[0] == '>');
}

/// The negation of a comparison holds exactly where the comparison fails.
pub proof fn lemma_rel_not_negates(r: Relation, a: int, b: int)
    ensures
        rel_holds(rel_not(r), a, b) == !rel_holds(r, a, b),
{
}

/// Each binary operator is spelled as the C operator that computes the
/// same from any two numbers.
pub proof fn lemma_op_text_means(op: Operator, a: i64, b: i64)
    requires
        op != Operator::Not,
    ensures
        c_arith(op_text(op), a, b) == op_value(op, a, b),
{
    reveal_strlit("+");
    reveal_strlit("-");
    reveal_strlit("*");
    reveal_strlit("/");
    reveal_strlit("&");
    reveal_strlit("|");
    reveal_strlit("^");
    assert("+"@[0] == '+' && "-"@[0] == '-' && "*"@[0] == '*' && "/"@[0] == '/');
    assert("&"@[0] == '&' && "|"@[0] == '|' && "^"@[0] == '^');
}

/// Parsing a two-operand IR instruction gives an assignment of an
/// operation that computes what the instruction computes, for any values of
/// its operands.
pub proof fn lemma_parse_binary_means(ir: DataFlowIr, functions: Map<u64, NameValue>, st: SymState, a: i64, b: i64)
    requires
        ir_value(ir.opcode, a, b) is Some,
    ensures
        ({
            let t = dfi_step(ir, functions, st).0;
            &&& t is Some
            &&& t->Some_0.ast_type is Assign
            &&& t->Some_0.next.len() == 1
            &&& t->Some_0.next[0].ast_type matches AstTypeView::Operator(op) && op_value(op, a, b) == ir_value(
                ir.opcode,
                a,
                b,
            )
        }),
{
}


/// The last instruction emitted is a conditional jump comparing `x` with
/// `y`.
pub open spec fn last_jump_of(s: DFState, x: OperandView, y: OperandView) -> bool {
    &&& s.irs.len() > 0
    &&& s.irs.last().opcode is Jcc
    &&& s.irs.last().operand1 == Some(x)
    &&& s.irs.last().operand2 == Some(y)
}

/// Each conditional branch emits one jump that compares its first register
/// with its second (or with 0) and is taken exactly when the comparison
/// its name gives holds: `beq` on equality, `beqz` on equality with zero,
/// `bgeu` on greater-or-equal (unsigned), `blt` on less-than (signed).
pub proof fn lemma_branches_compare(s: DFState, insn: AssemblyInstruction, a: int, b: int)
    ensures
        last_jump_of(beq_step(s, insn), signed_operand(s.gr[reg_of(insn.operand1)].value),
            signed_operand(s.gr[reg_of(insn.operand2)].value)),
        beq_step(s, insn).irs.last().opcode matches DataFlowIrOpcode::Jcc(r) && rel_holds(r, a, b) == (a == b),
        last_jump_of(beqz_step(s, insn), crate::data_flow::state::reg_operand(s.gr[reg_of(insn.operand1)].value),
            OperandView::Number(Number { value: 0, signed: false, size: Size::Unsigned64 })),
        beqz_step(s, insn).irs.last().opcode matches DataFlowIrOpcode::Jcc(r) && rel_holds(r, a, 0) == (a == 0),
        last_jump_of(bgeu_step(s, insn), unsigned_operand(s.gr[reg_of(insn.operand1)].value),
            unsigned_operand(s.gr[reg_of(insn.operand2)].value)),
        bgeu_step(s, insn).irs.last().opcode matches DataFlowIrOpcode::Jcc(r) && rel_holds(r, a, b) == (a >= b),
        last_jump_of(blt_step(s, insn), signed_operand(s.gr[reg_of(insn.operand1)].value),
            signed_operand(s.gr[reg_of(insn.operand2)].value)),
        blt_step(s, insn).irs.last().opcode matches DataFlowIrOpcode::Jcc(r) && rel_holds(r, a, b) == (a < b),
{
}


/// Register `i` of `s` has been read and holds the number `n`.
pub open spec fn holds_number(s: DFState, i: int, n: Number) -> bool {
    &&& 0 <= i < s.gr.len()
    &&& s.gr[i].state
    &&& s.gr[i].value == RegisterRecord::Number(n)
}

/// Register `i` of `s` holds a number whose value is `v`.
pub open spec fn holds_value(s: DFState, i: int, v: int) -> bool {
    &&& s.gr[i].value is Number
    &&& s.gr[i].value->Number_0.value == v
}

/// On known numbers the arithmetic instructions compute what their names
/// say: `add.d rd, rj, rk` puts rj + rk in rd, `addi.d` and `addi.w` put
/// rj + imm, `andi` puts rj & imm (rd not the zero register), and `or rd,
/// rj, rk` puts rj | rk (rk not the zero register).
pub proof fn lemma_number_arithmetic(s: DFState, insn: AssemblyInstruction, n2: Number, n3: Number)
    requires
        names_reg(insn.operand1, s.gr.len()),
        names_reg(insn.operand2, s.gr.len()),
        insn.operand3 is Some,
        s.gp.len() == s.gr.len(),
        holds_number(s, reg_of(insn.operand2), n2),
    ensures
        holds_number(s, reg_of(insn.operand3), n3) && fits_i64(n2.value + n3.value)
            ==> holds_value(add_d_step(s, insn), reg_of(insn.operand1), n2.value + n3.value),
        fits_i64(n2.value + imm_of(insn.operand3)) ==> holds_value(
            addi_d_step(s, insn),
            reg_of(insn.operand1),
            n2.value + imm_of(insn.operand3),
        ),
        fits_i64(n2.value + imm_of(insn.operand3)) ==> holds_value(
            addi_w_step(s, insn),
            reg_of(insn.operand1),
            n2.value + imm_of(insn.operand3),
        ),
        reg_of(insn.operand1) != 0 ==> holds_value(
            andi_step(s, insn),
            reg_of(insn.operand1),
            (n2.value & (imm_of(insn.operand3) as i64)) as int,
        ),
        holds_number(s, reg_of(insn.operand3), n3) && reg_of(insn.operand3) != 0 ==> holds_value(
            or_step(s, insn),
            reg_of(insn.operand1),
            (n2.value | n3.value) as int,
        ),
{
}


/// The value of a decimal digit character.
pub open spec fn digit_value(c: char) -> int {
    (c as int) - ('0' as int)
}

/// A character is a decimal digit.
pub open spec fn is_digit(c: char) -> bool {
    '0' <= c <= '9'
}

/// The number that the decimal digits `s` are read as.
pub open spec fn read_digits(s: Seq<char>) -> int
    decreases s.len(),
{
    if s.len() == 0 {
        0
    } else {
        read_digits(s.drop_last()) * 10 + digit_value(s.last())
    }
}

/// The number that a decimal text, with an optional leading `-`, is read as.
pub open spec fn read_dec(s: Seq<char>) -> int {
    if s.len() > 0 && s[0] == '-' {
        -read_digits(s.drop_first())
    } else {
        read_digits(s)
    }
}

proof fn lemma_digit_char(d: nat)
    requires
        d < 10,
    ensures
        is_digit(digit_char(d)),
        digit_value(digit_char(d)) == d,
{
}

/// The decimal digits of `n` are digits, with no leading zero but for zero
/// itself, and read back as `n`.
pub proof fn lemma_digits_read_back(n: nat)
    ensures
        digits(n).len() > 0,
        forall|i: int| 0 <= i < digits(n).len() ==> is_digit(#[trigger] digits(n)[i]),
        digits(n)[0] == '0' ==> n == 0,
        read_digits(digits(n)) == n,
    decreases n,
{
    if n < 10 {
        lemma_digit_char(n);
        assert(seq![digit_char(n)].drop_last() =~= Seq::<char>::empty());
        assert(read_digits(digits(n)) == read_digits(Seq::<char>::empty()) * 10 + digit_value(digit_char(n)));
    } else {
        lemma_digits_read_back(n / 10);
        lemma_digit_char(n % 10);
        let p = digits(n / 10);
        assert(p.push(digit_char(n % 10)).drop_last() =~= p);
        assert forall|i: int| 0 <= i < digits(n).len() implies is_digit(#[trigger] digits(n)[i]) by {
            if i < p.len() {
                assert(digits(n)[i] == p[i]);
            }
        }
        assert(digits(n)[0] == p[0]);
        assert(read_digits(digits(n)) == read_digits(p) * 10 + digit_value(digit_char(n % 10)));
        assert((n / 10) * 10 + n % 10 == n) by (nonlinear_arith);
    }
}

/// A number written in decimal reads back as that number.
pub proof fn lemma_dec_text_read_back(n: int)
    ensures
        read_dec(dec_text(n)) == n,
{
    if n < 0 {
        lemma_digits_read_back((-n) as nat);
        assert((seq!['-'] + digits((-n) as nat)).drop_first() =~= digits((-n) as nat));
    } else {
        lemma_digits_read_back(n as nat);
        assert(is_digit(digits(n as nat)[0]));
    }
}

/// What the C operator spelled `op` says of two conditions `p` and `q`;
/// `None` for a text that joins no conditions.
pub open spec fn c_connect(op: Seq<char>, p: bool, q: bool) -> Option<bool> {
    if op == "&&"@ {
        Some(p && q)
    } else if op == "||"@ {
        Some(p || q)
    } else {
        None
    }
}

/// Conditions are joined with the C operator of the same meaning: `And`
/// holds where both hold, `Or` where either does.
pub proof fn lemma_cond_op_text_means(p: bool, q: bool)
    ensures
        c_connect(cond_op_text(Operator::And), p, q) == Some(p && q),
        c_connect(cond_op_text(Operator::Or), p, q) == Some(p || q),
{
    reveal_strlit("&&");
    reveal_strlit("||");
    assert("&&"@[0] == '&' && "||"@[0] == '|');
}

} // verus!
