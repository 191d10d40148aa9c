use vstd::prelude::*;
use vstd::string::StrSliceExecFns;
use crate::ast::{ASTSymbolValueType, Operator};
use crate::data_convert::push_char;
use crate::data_flow::Relation;

verus! {

/// The decimal digit of `d`, below ten.
pub open spec fn digit_char(d: nat) -> char {
    if d == 0 {
        '0'
    } else if d == 1 {
        '1'
    } else if d == 2 {
        '2'
    } else if d == 3 {
        '3'
    } else if d == 4 {
        '4'
    } else if d == 5 {
        '5'
    } else if d == 6 {
        '6'
    } else if d == 7 {
        '7'
    } else if d == 8 {
        '8'
    } else {
        '9'
    }
}

/// The decimal digits of `n`, without leading zeros (`0` for zero).
pub open spec fn digits(n: nat) -> Seq<char>
    decreases n,
{
    if n < 10 {
        seq![digit_char(n)]
    } else {
        digits(n / 10).push(digit_char(n % 10))
    }
}

/// `n` in decimal, with a `-` in front where it is negative.
pub open spec fn dec_text(n: int) -> Seq<char> {
    if n < 0 {
        seq!['-'] + digits((-n) as nat)
    } else {
        digits(n as nat)
    }
}

/// A number as it is written: the 64 bits read as a signed number where
/// `signed`.
pub open spec fn num_text(v: u64, signed: bool) -> Seq<char> {
    if signed {
        dec_text((v as i64) as int)
    } else {
        dec_text(v as int)
    }
}

/// `n` tab characters.
pub open spec fn tabs(n: nat) -> Seq<char>
    decreases n,
{
    if n == 0 {
        Seq::empty()
    } else {
        tabs((n - 1) as nat).push('\t')
    }
}

/// Appends the text `t` to `s`.
pub fn push_str(s: &mut String, t: &str)
    ensures
        final(s)@ == old(s)@ + t@,
{
    let n = t.unicode_len();
    let mut i: usize = 0;
    while i < n
        invariant
            n == t@.len(),
            i <= n,
            s@ == old(s)@ + t@.take(i as int),
        decreases n - i,
    {
        let c = t.get_char(i);
        push_char(s, c);
        proof {
            assert(t@.take(i as int + 1) =~= t@.take(i as int).push(c));
        }
        i = i + 1;
    }
    proof {
        assert(t@.take(i as int) =~= t@);
    }
}

/// Appends the decimal digits of `n` to `s`.
fn push_digits(s: &mut String, n: u64)
    ensures
        final(s)@ == old(s)@ + digits(n as nat),
    decreases n,
{
    if n >= 10 {
        push_digits(s, n / 10);
    }
    let d = n % 10;
    let c = if d == 0 {
        '0'
    } else if d == 1 {
        '1'
    } else if d == 2 {
        '2'
    } else if d == 3 {
        '3'
    } else if d == 4 {
        '4'
    } else if d == 5 {
        '5'
    } else if d == 6 {
        '6'
    } else if d == 7 {
        '7'
    } else if d == 8 {
        '8'
    } else {
        '9'
    };
    push_char(s, c);
    proof {
        if n < 10 {
            assert(n % 10 == n);
        }
    }
}

/// Appends `n` in decimal to `s` (see `dec_text`).
pub fn push_u64(s: &mut String, n: u64)
    ensures
        final(s)@ == old(s)@ + dec_text(n as int),
{
    push_digits(s, n);
}

/// Appends `n` in decimal to `s` (see `dec_text`).
pub fn push_i64(s: &mut String, n: i64)
    ensures
        final(s)@ == old(s)@ + dec_text(n as int),
{
    if n < 0 {
        push_char(s, '-');
        let m: u64 = ((-(n + 1)) as u64) + 1;
        push_digits(s, m);
        proof {
            assert(seq!['-'] + digits(m as nat) =~= seq!['-'] + digits((-n) as nat));
            assert(old(s)@.push('-') + digits(m as nat) =~= old(s)@ + (seq!['-'] + digits(m as nat)));
        }
    } else {
        push_digits(s, n as u64);
    }
}

/// Appends the number `num` to `s` (see `num_text`).
pub fn number_to_string(s: &mut String, num: u64, is_signed: bool)
    ensures
        final(s)@ == old(s)@ + num_text(num, is_signed),
{
    if is_signed {
        push_i64(s, num as i64);
    } else {
        push_u64(s, num);
    }
}

/// Appends `indent` tab characters to `s`.
pub fn get_indent(s: &mut String, indent: usize)
    ensures
        final(s)@ == old(s)@ + tabs(indent as nat),
{
    let mut i: usize = 0;
    while i < indent
        invariant
            i <= indent,
            s@ == old(s)@ + tabs(i as nat),
        decreases indent - i,
    {
        push_char(s, '\t');
        proof {
            assert(tabs((i + 1) as nat) == tabs(i as nat).push('\t'));
        }
        i = i + 1;
    }
}

/// The C spelling of a type.
pub open spec fn value_type_name(t: ASTSymbolValueType) -> Seq<char> {
    match t {
        ASTSymbolValueType::UnsignedChar => "unsigned char"@,
        ASTSymbolValueType::Char => "char"@,
        ASTSymbolValueType::UnsignedShort => "unsigned short"@,
        ASTSymbolValueType::Short => "short"@,
        ASTSymbolValueType::UnsignedInt => "unsigned int"@,
        ASTSymbolValueType::Int => "int"@,
        ASTSymbolValueType::UnsignedLong => "unsigned long"@,
        ASTSymbolValueType::Long => "long"@,
        ASTSymbolValueType::PtrUnsignedChar => "unsigned char*"@,
        ASTSymbolValueType::PtrChar => "char*"@,
        ASTSymbolValueType::PtrUnsignedShort => "unsigned short*"@,
        ASTSymbolValueType::PtrShort => "short*"@,
        ASTSymbolValueType::PtrUnsignedInt => "unsigned int*"@,
        ASTSymbolValueType::PtrInt => "int*"@,
        ASTSymbolValueType::PtrUnsignedLong => "unsigned long*"@,
        ASTSymbolValueType::PtrLong => "long*"@,
        ASTSymbolValueType::Unknown => "unkown"@,
        ASTSymbolValueType::Ptr => "void*"@,
    }
}

/// Appends the C spelling of a type to `s` (see `value_type_name`).
pub fn astvaluetype_to_string(s: &mut String, ast_type: &ASTSymbolValueType)
    ensures
        final(s)@ == old(s)@ + value_type_name(*ast_type),
{
    let t = match ast_type {
        ASTSymbolValueType::UnsignedChar => "unsigned char",
        ASTSymbolValueType::Char => "char",
        ASTSymbolValueType::UnsignedShort => "unsigned short",
        ASTSymbolValueType::Short => "short",
        ASTSymbolValueType::UnsignedInt => "unsigned int",
        ASTSymbolValueType::Int => "int",
        ASTSymbolValueType::UnsignedLong => "unsigned long",
        ASTSymbolValueType::Long => "long",
        ASTSymbolValueType::PtrUnsignedChar => "unsigned char*",
        ASTSymbolValueType::PtrChar => "char*",
        ASTSymbolValueType::PtrUnsignedShort => "unsigned short*",
        ASTSymbolValueType::PtrShort => "short*",
        ASTSymbolValueType::PtrUnsignedInt => "unsigned int*",
        ASTSymbolValueType::PtrInt => "int*",
        ASTSymbolValueType::PtrUnsignedLong => "unsigned long*",
        ASTSymbolValueType::PtrLong => "long*",
        ASTSymbolValueType::Unknown => "unkown",
        ASTSymbolValueType::Ptr => "void*",
    };
    push_str(s, t);
}

/// The C spelling of a return type: as a pointer where `is_ptr`, where a
/// pointer type stands for what it points to; `Unknown` is `void`.
pub open spec fn return_type_name(t: ASTSymbolValueType, is_ptr: bool) -> Seq<char> {
    if is_ptr {
        match t {
            ASTSymbolValueType::Char => "char*"@,
            ASTSymbolValueType::UnsignedChar => "unsigned char*"@,
            ASTSymbolValueType::Short => "short*"@,
            ASTSymbolValueType::UnsignedShort => "unsigned short*"@,
            ASTSymbolValueType::Int => "int*"@,
            ASTSymbolValueType::UnsignedInt => "unsigned int*"@,
            ASTSymbolValueType::Long => "long*"@,
            ASTSymbolValueType::UnsignedLong => "unsigned long*"@,
            ASTSymbolValueType::PtrChar => "*(char*)"@,
            ASTSymbolValueType::PtrUnsignedChar => "*(unsigned char*)"@,
            ASTSymbolValueType::PtrShort => "*(short*)"@,
            ASTSymbolValueType::PtrUnsignedShort => "*(unsigned short*)"@,
            ASTSymbolValueType::PtrInt => "*(int*)"@,
            ASTSymbolValueType::PtrUnsignedInt => "*(unsigned int*)"@,
            ASTSymbolValueType::PtrLong => "*(long*)"@,
            ASTSymbolValueType::PtrUnsignedLong => "*(unsigned long*)"@,
            ASTSymbolValueType::Unknown => "void"@,
            ASTSymbolValueType::Ptr => "ptr"@,
        }
    } else {
        match t {
            ASTSymbolValueType::Char => "char"@,
            ASTSymbolValueType::UnsignedChar => "unsigned char"@,
            ASTSymbolValueType::Short => "short"@,
            ASTSymbolValueType::UnsignedShort => "unsigned short"@,
            ASTSymbolValueType::Int => "int"@,
            ASTSymbolValueType::UnsignedInt => "unsigned int"@,
            ASTSymbolValueType::Long => "long"@,
            ASTSymbolValueType::UnsignedLong => "unsigned long"@,
            ASTSymbolValueType::PtrChar => "char*"@,
            ASTSymbolValueType::PtrUnsignedChar => "unsigned char*"@,
            ASTSymbolValueType::PtrShort => "short*"@,
            ASTSymbolValueType::PtrUnsignedShort => "unsigned short*"@,
            ASTSymbolValueType::PtrInt => "int*"@,
            ASTSymbolValueType::PtrUnsignedInt => "unsigned int*"@,
            ASTSymbolValueType::PtrLong => "long*"@,
            ASTSymbolValueType::PtrUnsignedLong => "unsigned long*"@,
            ASTSymbolValueType::Unknown => "void"@,
            ASTSymbolValueType::Ptr => "ptr"@,
        }
    }
}

/// Appends the C spelling of a return type to `s` (see `return_type_name`).
pub fn return_type_to_string(s: &mut String, return_type: &ASTSymbolValueType, is_ptr: bool)
    ensures
        final(s)@ == old(s)@ + return_type_name(*return_type, is_ptr),
{
    let t = if is_ptr {
        match return_type {
            ASTSymbolValueType::Char => "char*",
            ASTSymbolValueType::UnsignedChar => "unsigned char*",
            ASTSymbolValueType::Short => "short*",
            ASTSymbolValueType::UnsignedShort => "unsigned short*",
            ASTSymbolValueType::Int => "int*",
            ASTSymbolValueType::UnsignedInt => "unsigned int*",
            ASTSymbolValueType::Long => "long*",
            ASTSymbolValueType::UnsignedLong => "unsigned long*",
            ASTSymbolValueType::PtrChar => "*(char*)",
            ASTSymbolValueType::PtrUnsignedChar => "*(unsigned char*)",
            ASTSymbolValueType::PtrShort => "*(short*)",
            ASTSymbolValueType::PtrUnsignedShort => "*(unsigned short*)",
            ASTSymbolValueType::PtrInt => "*(int*)",
            ASTSymbolValueType::PtrUnsignedInt => "*(unsigned int*)",
            ASTSymbolValueType::PtrLong => "*(long*)",
            ASTSymbolValueType::PtrUnsignedLong => "*(unsigned long*)",
            ASTSymbolValueType::Unknown => "void",
            ASTSymbolValueType::Ptr => "ptr",
        }
    } else {
        match return_type {
            ASTSymbolValueType::Char => "char",
            ASTSymbolValueType::UnsignedChar => "unsigned char",
            ASTSymbolValueType::Short => "short",
            ASTSymbolValueType::UnsignedShort => "unsigned short",
            ASTSymbolValueType::Int => "int",
            ASTSymbolValueType::UnsignedInt => "unsigned int",
            ASTSymbolValueType::Long => "long",
            ASTSymbolValueType::UnsignedLong => "unsigned long",
            ASTSymbolValueType::PtrChar => "char*",
            ASTSymbolValueType::PtrUnsignedChar => "unsigned char*",
            ASTSymbolValueType::PtrShort => "short*",
            ASTSymbolValueType::PtrUnsignedShort => "unsigned short*",
            ASTSymbolValueType::PtrInt => "int*",
            ASTSymbolValueType::PtrUnsignedInt => "unsigned int*",
            ASTSymbolValueType::PtrLong => "long*",
            ASTSymbolValueType::PtrUnsignedLong => "unsigned long*",
            ASTSymbolValueType::Unknown => "void",
            ASTSymbolValueType::Ptr => "ptr",
        }
    };
    push_str(s, t);
}

/// The C spelling of an operator in an expression.
pub open spec fn op_text(op: Operator) -> Seq<char> {
    match op {
        Operator::Add => "+"@,
        Operator::Sub => "-"@,
        Operator::Mul => "*"@,
        Operator::Div => "/"@,
        Operator::And => "&"@,
        Operator::Or => "|"@,
        Operator::Xor => "^"@,
        Operator::Not => "!"@,
    }
}

/// Appends the C spelling of an operator to `s` (see `op_text`).
pub fn operator_to_string(s: &mut String, op: &Operator)
    ensures
        final(s)@ == old(s)@ + op_text(*op),
{
    let t = match op {
        Operator::Add => "+",
        Operator::Sub => "-",
        Operator::Mul => "*",
        Operator::Div => "/",
        Operator::And => "&",
        Operator::Or => "|",
        Operator::Xor => "^",
        Operator::Not => "!",
    };
    push_str(s, t);
}

/// The C spelling of an operator joining conditions: `||` and `&&`, and
/// nothing for the others.
pub open spec fn cond_op_text(op: Operator) -> Seq<char> {
    match op {
        Operator::Or => "||"@,
        Operator::And => "&&"@,
        _ => Seq::empty(),
    }
}

/// Appends the C spelling of an operator joining conditions to `s` (see
/// `cond_op_text`).
pub fn convert_operator_to_string_in_condiction(s: &mut String, operator: &Operator)
    ensures
        final(s)@ == old(s)@ + cond_op_text(*operator),
{
    match operator {
        Operator::Or => push_str(s, "||"),
        Operator::And => push_str(s, "&&"),
        _ => {
            proof {
                assert(old(s)@ + Seq::<char>::empty() =~= old(s)@);
            }
        },
    }
}

/// The C spelling of a comparison.
pub open spec fn rel_text(r: Relation) -> Seq<char> {
    match r {
        Relation::EQ => "=="@,
        Relation::L => "<"@,
        Relation::G => ">"@,
        Relation::LE => "<="@,
        Relation::GE => ">="@,
        Relation::NE => "!="@,
    }
}

/// Appends the C spelling of a comparison to `s` (see `rel_text`).
pub fn relation_to_string(s: &mut String, r: &Relation)
    ensures
        final(s)@ == old(s)@ + rel_text(*r),
{
    let t = match r {
        Relation::EQ => "==",
        Relation::L => "<",
        Relation::G => ">",
        Relation::LE => "<=",
        Relation::GE => ">=",
        Relation::NE => "!=",
    };
    push_str(s, t);
}

} // verus!
