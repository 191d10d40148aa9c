use vstd::prelude::*;
use std::collections::HashMap;
use crate::data_flow::{
    Address, DataFlowIr, DataFlowIrOpcode, DFIOperand, DFISymbolRecord, DFISymbolType, Number, RegisterRecord, Size,
};
use crate::insn::NameValue;
use crate::ast::text::{dec_text, rel_text, push_str, push_i64, push_u64, relation_to_string};
use crate::ast::parse::{hex_digits, push_hex};
use crate::data_convert::{data_string, start_in_data, in_segment, has_terminator, get_c_string_from_data};

verus! {

broadcast use {vstd::std_specs::hash::group_hash_axioms, vstd::std_specs::vec::group_vec_axioms};

/// The C name of a width.
pub open spec fn size_text(s: Size) -> Seq<char> {
    match s {
        Size::Signed8 => "char"@,
        Size::Unsigned8 => "unsigned char"@,
        Size::Signed16 => "short"@,
        Size::Unsigned16 => "unsigned short"@,
        Size::Signed32 => "int"@,
        Size::Unsigned32 => "unsigned int"@,
        Size::Signed64 => "long"@,
        Size::Unsigned64 => "unsigned long"@,
    }
}

/// Appends the C name of a width (see `size_text`).
fn push_size(s: &mut String, size: Size)
    ensures
        final(s)@ == old(s)@ + size_text(size),
{
    let t = match size {
        Size::Signed8 => "char",
        Size::Unsigned8 => "unsigned char",
        Size::Signed16 => "short",
        Size::Unsigned16 => "unsigned short",
        Size::Signed32 => "int",
        Size::Unsigned32 => "unsigned int",
        Size::Signed64 => "long",
        Size::Unsigned64 => "unsigned long",
    };
    push_str(s, t);
}

/// The name of a kind of symbol.
pub open spec fn kind_text(k: DFISymbolType) -> Seq<char> {
    match k {
        DFISymbolType::Temp => "temp"@,
        DFISymbolType::Untyped => "none"@,
        DFISymbolType::Local => "stack"@,
        DFISymbolType::Func => "func"@,
        DFISymbolType::Param => "param"@,
        DFISymbolType::Global => "global"@,
        DFISymbolType::Label => "label"@,
        DFISymbolType::Return => "return"@,
    }
}

/// Appends the name of a kind of symbol (see `kind_text`).
fn push_kind(s: &mut String, k: DFISymbolType)
    ensures
        final(s)@ == old(s)@ + kind_text(k),
{
    let t = match k {
        DFISymbolType::Temp => "temp",
        DFISymbolType::Untyped => "none",
        DFISymbolType::Local => "stack",
        DFISymbolType::Func => "func",
        DFISymbolType::Param => "param",
        DFISymbolType::Global => "global",
        DFISymbolType::Label => "label",
        DFISymbolType::Return => "return",
    };
    push_str(s, t);
}

/// The hexadecimal digits of `v`, with zeros in front up to eight digits.
pub open spec fn hex8_text(v: u64) -> Seq<char> {
    let d = hex_digits(v as nat);
    if d.len() < 8 {
        Seq::new((8 - d.len()) as nat, |i: int| '0') + d
    } else {
        d
    }
}

/// Appends the hexadecimal digits of `v` padded to eight (see `hex8_text`).
fn push_hex8(s: &mut String, v: u64)
    ensures
        final(s)@ == old(s)@ + hex8_text(v),
{
    let mut digits = String::new();
    push_hex(&mut digits, v);
    let n = digits.as_str().unicode_len();
    proof {
        assert(digits@ =~= hex_digits(v as nat));
    }
    if n < 8 {
        let mut k: usize = 0;
        while k < 8 - n
            invariant
                n < 8,
                k <= 8 - n,
                s@ == old(s)@ + Seq::new(k as nat, |i: int| '0'),
            decreases 8 - n - k,
        {
            crate::data_convert::push_char(s, '0');
            proof {
                assert(Seq::new(k as nat, |i: int| '0').push('0') =~= Seq::new((k + 1) as nat, |i: int| '0'));
            }
            k = k + 1;
        }
    }
    push_str(s, digits.as_str());
    proof {
        assert(s@ =~= old(s)@ + hex8_text(v));
    }
}

/// A symbol by its kind and id: `kind@id`.
pub open spec fn sym_at(s: DFISymbolRecord) -> Seq<char> {
    kind_text(s.sym_type) + "@"@ + dec_text(s.id as int)
}

/// Appends a symbol by its kind and id (see `sym_at`).
fn push_sym_at(s: &mut String, sym: &DFISymbolRecord)
    ensures
        final(s)@ == old(s)@ + sym_at(*sym),
{
    push_kind(s, sym.sym_type);
    push_str(s, "@");
    push_u64(s, sym.id as u64);
    proof {
        assert(final(s)@ =~= old(s)@ + sym_at(*sym));
    }
}

/// `*(size*)(stack@offset)`: the value of width `size` in a stack slot.
pub open spec fn stack_value(size: Size, offset: i64) -> Seq<char> {
    "*("@ + size_text(size) + "*)(stack@"@ + dec_text(offset as int) + ")"@
}

/// Appends the value of a stack slot (see `stack_value`).
fn push_stack_value(s: &mut String, size: Size, offset: i64)
    ensures
        final(s)@ == old(s)@ + stack_value(size, offset),
{
    push_str(s, "*(");
    push_size(s, size);
    push_str(s, "*)(stack@");
    push_i64(s, offset);
    push_str(s, ")");
    proof {
        assert(final(s)@ =~= old(s)@ + stack_value(size, offset));
    }
}

/// The string of the data at `start` can be read: no segment runs past the
/// end of the address space, and each that holds `start` has a zero byte
/// after it.
pub open spec fn readable(data: Map<u64, Vec<u8>>, start: u64) -> bool {
    &&& forall|k: u64| #[trigger] data.contains_key(k) ==> k + data[k]@.len() <= u64::MAX
    &&& forall|k: u64| #[trigger] data.contains_key(k) && in_segment(start, k, data[k]@.len())
        ==> has_terminator(data[k]@, start - k)
}

/// An argument of a call, followed by `sep`: a number that addresses a
/// string of the data as that string quoted, another number in decimal; a
/// stack slot by its value or address; a register by its value or name; a
/// memory cell not at all.
pub open spec fn arg_item(r: RegisterRecord, sep: Seq<char>, data: &HashMap<u64, Vec<u8>>) -> Seq<char> {
    match r {
        RegisterRecord::Number(n) => if start_in_data(n.value as u64, data@) {
            "\""@ + data_string(data, n.value as u64) + "\""@ + sep
        } else {
            dec_text(n.value as int) + sep
        },
        RegisterRecord::Symbol(sym) => match sym.address {
            Address::Stack(st) => if sym.value {
                stack_value(sym.size, st) + sep
            } else {
                "stack@"@ + dec_text(st as int) + sep
            },
            Address::Memory(_) => Seq::empty(),
            _ => if !sym.value {
                sym_at(sym) + sep
            } else {
                "*("@ + size_text(sym.size) + "*)"@ + sym_at(sym) + sep
            },
        },
    }
}

/// The arguments `ps[k..]` of a call: each followed by `, ` but the last.
pub open spec fn args_text(ps: Seq<RegisterRecord>, k: int, data: &HashMap<u64, Vec<u8>>) -> Seq<char>
    decreases ps.len() - k,
{
    if k < 0 || k >= ps.len() {
        Seq::empty()
    } else if k == ps.len() - 1 {
        arg_item(ps[k], Seq::empty(), data)
    } else {
        arg_item(ps[k], ", "@, data) + args_text(ps, k + 1, data)
    }
}

/// The numbers among the arguments address readable strings.
pub open spec fn args_ok(ps: Seq<RegisterRecord>, data: Map<u64, Vec<u8>>) -> bool {
    forall|k: int| 0 <= k < ps.len() ==> (#[trigger] ps[k] matches RegisterRecord::Number(n) ==> readable(data, n.value as u64))
}

/// Where the value of a call goes: the destination declared.
pub open spec fn call_dest(ir: DataFlowIr) -> Seq<char> {
    match ir.operand3 {
        Some(DFIOperand::Symbol(s3)) => size_text(s3.size) + " "@ + sym_at(s3) + " = "@,
        _ => Seq::empty(),
    }
}

/// The function a call goes to (see `callee_text`).
pub open spec fn call_callee(ir: DataFlowIr, functions: Map<u64, NameValue>) -> Seq<char> {
    match ir.operand1 {
        Some(DFIOperand::Number(n)) => callee_text(n, functions),
        _ => Seq::empty(),
    }
}

/// The arguments of a call in brackets.
pub open spec fn call_args(ir: DataFlowIr, data: &HashMap<u64, Vec<u8>>) -> Seq<char> {
    match ir.operand2 {
        Some(DFIOperand::Parameter(ps)) => "("@ + args_text(ps@, 0, data) + ");"@,
        _ => Seq::empty(),
    }
}

/// A call: where its value goes, the function by its name (or its address
/// where it has none), and its arguments in brackets.
pub open spec fn call_text(ir: DataFlowIr, functions: Map<u64, NameValue>, data: &HashMap<u64, Vec<u8>>) -> Seq<char> {
    call_dest(ir) + call_callee(ir, functions) + call_args(ir, data)
}

/// What a function returns: a local slot by its value or address, a
/// parameter by its id, a register by its name, a number in decimal.
pub open spec fn ret_text(ir: DataFlowIr) -> Seq<char> {
    "return "@ + match ir.operand1 {
        Some(DFIOperand::Symbol(sym)) => match sym.address {
            Address::Stack(st) => if sym.sym_type == DFISymbolType::Local {
                if sym.value {
                    stack_value(sym.size, st)
                } else {
                    "stack@"@ + dec_text(st as int)
                }
            } else if sym.sym_type == DFISymbolType::Param {
                "param@"@ + dec_text(sym.id as int)
            } else {
                Seq::empty()
            },
            Address::Memory(_) => Seq::empty(),
            _ => sym_at(sym),
        },
        Some(DFIOperand::Number(n)) => dec_text(n.value as int),
        _ => Seq::empty(),
    } + ";"@
}

/// The width of an operand that is a symbol or a number.
pub open spec fn operand_size(o: DFIOperand) -> Size {
    match o {
        DFIOperand::Symbol(s) => s.size,
        DFIOperand::Number(n) => n.size,
        DFIOperand::Parameter(_) => Size::Signed64,
    }
}

/// The start of an addition or subtraction: the destination declared where
/// it is a temporary or a parameter.
pub open spec fn arith_head(o1: DFIOperand) -> Seq<char> {
    match o1 {
        DFIOperand::Symbol(s) => if s.sym_type == DFISymbolType::Temp || s.sym_type == DFISymbolType::Param {
            size_text(s.size) + " "@ + sym_at(s) + " = "@
        } else {
            Seq::empty()
        },
        _ => Seq::empty(),
    }
}

/// An operand of an addition followed by `tail`: a local slot or memory
/// cell read through a pointer of the destination's width, a register by
/// its name (the second operand only: a number by its sign).
pub open spec fn add_operand(o: DFIOperand, size: Size, tail: Seq<char>, second: bool) -> Seq<char> {
    match o {
        DFIOperand::Symbol(sym) => match sym.address {
            Address::Stack(st) => if sym.sym_type == DFISymbolType::Local {
                "*(*"@ + size_text(size) + ")("@ + kind_text(sym.sym_type) + "@"@ + dec_text(st as int) + ")"@ + tail
            } else {
                sym_at(sym) + tail
            },
            Address::Memory(m) => "*(*"@ + size_text(size) + ")("@ + kind_text(sym.sym_type) + "@0x"@ + hex_digits(m as nat)
                + ")"@ + tail,
            _ => sym_at(sym) + tail,
        },
        DFIOperand::Number(n) => if second && !n.signed {
            dec_text((n.value as u64) as int) + tail
        } else {
            dec_text(n.value as int) + tail
        },
        _ => Seq::empty(),
    }
}

/// The text of the IR instruction: its address in hexadecimal, a tab, and
/// the instruction in a C-like form by its kind.
pub open spec fn ir_text(ir: DataFlowIr, functions: Map<u64, NameValue>, data: &HashMap<u64, Vec<u8>>) -> Seq<char> {
    "0x"@ + hex8_text(ir.address) + "\t"@ + body_text(ir, functions, data)
}

/// The instruction in a C-like form by its kind (nothing for the kinds
/// that are not written).
pub open spec fn body_text(ir: DataFlowIr, functions: Map<u64, NameValue>, data: &HashMap<u64, Vec<u8>>) -> Seq<char> {
    match ir.opcode {
        DataFlowIrOpcode::Call => call_text(ir, functions, data),
        DataFlowIrOpcode::Ret => ret_text(ir),
        DataFlowIrOpcode::Jmp => jmp_text(ir.operand1),
        DataFlowIrOpcode::Add => add_text(ir.operand1->Some_0, ir.operand2->Some_0, ir.operand3->Some_0),
        DataFlowIrOpcode::Sub => {
            let o1 = ir.operand1->Some_0;
            let size = operand_size(o1);
            arith_head(o1) + sub_second(ir.operand2->Some_0, size) + sub_third(ir.operand3->Some_0, size)
        },
        DataFlowIrOpcode::Store => store_text(ir.operand1->Some_0, ir.operand2->Some_0),
        DataFlowIrOpcode::Jcc(r) => jcc_text(r, ir.operand1, ir.operand2, ir.operand3),
        DataFlowIrOpcode::Mul => mul_text(ir.operand1->Some_0, ir.operand2->Some_0, ir.operand3->Some_0),
        DataFlowIrOpcode::Load => load_text(ir.operand1->Some_0, ir.operand2->Some_0),
        DataFlowIrOpcode::Function => function_text(ir.operand1),
        _ => Seq::empty(),
    }
}

/// A jump: `goto` the label at the address.
pub open spec fn jmp_text(o1: Option<DFIOperand>) -> Seq<char> {
    match o1 {
        Some(DFIOperand::Number(n)) => "goto label@0x"@ + hex_digits((n.value as u64) as nat) + ";"@,
        _ => Seq::empty(),
    }
}

/// An addition: the destination, then its two operands.
pub open spec fn add_text(o1: DFIOperand, o2: DFIOperand, o3: DFIOperand) -> Seq<char> {
    let size = operand_size(o1);
    arith_head(o1) + add_operand(o2, size, " + "@, true) + add_operand(o3, size, ";"@, false)
}

/// A conditional jump: `if(a r b) goto` the label.
pub open spec fn jcc_text(r: crate::data_flow::Relation, o1: Option<DFIOperand>, o2: Option<DFIOperand>, o3: Option<DFIOperand>) -> Seq<char> {
    "if("@ + jcc_left(o1) + " "@ + rel_text(r) + " "@ + jcc_right(o2) + ") goto "@ + match o3 {
        Some(DFIOperand::Number(n)) => "label@0x"@ + hex_digits((n.value as u64) as nat),
        _ => Seq::empty(),
    }
}

/// The head of a function with its parameters.
pub open spec fn function_text(o1: Option<DFIOperand>) -> Seq<char> {
    "function begin("@ + match o1 {
        Some(DFIOperand::Parameter(ps)) => if ps@.len() != 0 {
            params_list(ps@, 0)
        } else {
            ")"@
        },
        _ => Seq::empty(),
    }
}

/// A store: where to, then what, each by its kind.
pub open spec fn store_text(o1: DFIOperand, o2: DFIOperand) -> Seq<char> {
    store_target(o2) + store_value(o1)
}

/// Where a store goes.
pub open spec fn store_target(o2: DFIOperand) -> Seq<char> {
    match o2 {
        DFIOperand::Number(n) => dec_text(n.value as int),
        DFIOperand::Symbol(sym) => match sym.address {
            Address::Stack(st) => if sym.sym_type == DFISymbolType::Local {
                if sym.value {
                    stack_value(sym.size, st) + " = "@
                } else {
                    "stack@"@ + dec_text(st as int) + " = "@
                }
            } else {
                Seq::empty()
            },
            Address::Memory(m) => if sym.value {
                "*("@ + size_text(sym.size) + "*)(global@0x"@ + hex_digits(m as nat) + ") = "@
            } else {
                "global@0x"@ + hex_digits(m as nat) + " = "@
            },
            _ => if !sym.value {
                sym_at(sym) + " = "@
            } else {
                "*("@ + size_text(sym.size) + "*)("@ + sym_at(sym) + ") = "@
            },
        },
        _ => Seq::empty(),
    }
}

/// What a store stores.
pub open spec fn store_value(o1: DFIOperand) -> Seq<char> {
    match o1 {
        DFIOperand::Number(n) => dec_text(n.value as int) + ";"@,
        DFIOperand::Symbol(sym) => match sym.address {
            Address::Stack(st) => if sym.sym_type == DFISymbolType::Local {
                if sym.value {
                    stack_value(sym.size, st) + ";"@
                } else {
                    "stack@"@ + dec_text(st as int) + ";"@
                }
            } else if sym.sym_type == DFISymbolType::Param {
                "param@"@ + dec_text(sym.id as int) + ";"@
            } else {
                Seq::empty()
            },
            Address::Memory(m) => if sym.value {
                "*("@ + size_text(sym.size) + "*)(global@0x"@ + hex_digits(m as nat) + ");"@
            } else {
                "global@0x"@ + hex_digits(m as nat) + ";"@
            },
            _ => sym_at(sym) + ";"@,
        },
        _ => Seq::empty(),
    }
}

/// The left side of a conditional jump.
pub open spec fn jcc_left(o: Option<DFIOperand>) -> Seq<char> {
    match o {
        Some(DFIOperand::Number(n)) => dec_text(n.value as int),
        Some(DFIOperand::Symbol(sym)) => match sym.address {
            Address::Stack(st) => stack_value(sym.size, st),
            Address::Memory(_) => Seq::empty(),
            _ => sym_at(sym),
        },
        _ => Seq::empty(),
    }
}

/// The right side of a conditional jump: a stack slot only by the value of
/// an `int`.
pub open spec fn jcc_right(o: Option<DFIOperand>) -> Seq<char> {
    match o {
        Some(DFIOperand::Number(n)) => dec_text(n.value as int),
        Some(DFIOperand::Symbol(sym)) => match sym.address {
            Address::Stack(st) => if sym.value && sym.size == Size::Signed32 {
                "*(int*)(stack@"@ + dec_text(st as int) + ")"@
            } else {
                Seq::empty()
            },
            Address::Memory(_) => Seq::empty(),
            _ => sym_at(sym),
        },
        _ => Seq::empty(),
    }
}

/// The destination of a multiplication or a load: declared where it is a
/// register.
pub open spec fn reg_head(o1: DFIOperand) -> Seq<char> {
    match o1 {
        DFIOperand::Symbol(s) => match s.address {
            Address::Stack(_) | Address::Memory(_) => Seq::empty(),
            _ => size_text(s.size) + " "@ + sym_at(s) + " = "@,
        },
        _ => Seq::empty(),
    }
}

/// A multiplication: the destination, then its operands.
pub open spec fn mul_text(o1: DFIOperand, o2: DFIOperand, o3: DFIOperand) -> Seq<char> {
    reg_head(o1) + mul_second(o2) + mul_third(o3)
}

/// The second operand of a multiplication.
pub open spec fn mul_second(o2: DFIOperand) -> Seq<char> {
    match o2 {
        DFIOperand::Symbol(sym) => match sym.address {
            Address::Stack(st) => if sym.value { stack_value(sym.size, st) + " * "@ } else { Seq::empty() },
            Address::Memory(_) => Seq::empty(),
            _ => sym_at(sym) + " * "@,
        },
        _ => Seq::empty(),
    }
}

/// The third operand of a multiplication.
pub open spec fn mul_third(o3: DFIOperand) -> Seq<char> {
    match o3 {
        DFIOperand::Number(n) => dec_text(n.value as int) + ";"@,
        DFIOperand::Symbol(sym) => match sym.address {
            Address::Stack(_) | Address::Memory(_) => Seq::empty(),
            _ => sym_at(sym) + " * "@,
        },
        _ => Seq::empty(),
    }
}

/// A load through a pointer of the destination's width.
pub open spec fn load_text(o1: DFIOperand, o2: DFIOperand) -> Seq<char> {
    let size = operand_size(o1);
    let source = match o2 {
        DFIOperand::Symbol(sym) => match sym.address {
            Address::Stack(st) => if sym.value {
                "*("@ + size_text(size) + "*)"@ + kind_text(sym.sym_type) + "@"@ + dec_text(st as int) + ";"@
            } else {
                Seq::empty()
            },
            Address::Memory(_) => Seq::empty(),
            _ => if sym.value {
                "*("@ + size_text(size) + "*)"@ + sym_at(sym) + ";"@
            } else {
                Seq::empty()
            },
        },
        _ => Seq::empty(),
    };
    reg_head(o1) + source
}

/// The parameters `ps[k..]` of a function's head: each symbol as
/// `param@id`, followed by `, ` but the last, which is followed by `)`.
pub open spec fn params_list(ps: Seq<RegisterRecord>, k: int) -> Seq<char>
    decreases ps.len() - k,
{
    if k < 0 || k >= ps.len() {
        Seq::empty()
    } else {
        let sep = if k == ps.len() - 1 { ")"@ } else { ", "@ };
        (match ps[k] {
            RegisterRecord::Symbol(sym) => "param@"@ + dec_text(sym.id as int) + sep,
            RegisterRecord::Number(_) => Seq::empty(),
        }) + params_list(ps, k + 1)
    }
}

/// The instruction can be written: the operands that its kind reads are
/// there (the first a symbol or a number where its width is read), and the
/// numbers passed to a call address readable strings.
pub open spec fn ir_text_ok(ir: DataFlowIr, data: Map<u64, Vec<u8>>) -> bool {
    match ir.opcode {
        DataFlowIrOpcode::Call => ir.operand2 matches Some(DFIOperand::Parameter(ps)) ==> args_ok(ps@, data),
        DataFlowIrOpcode::Add | DataFlowIrOpcode::Sub | DataFlowIrOpcode::Mul => {
            &&& ir.operand1 is Some && !(ir.operand1->Some_0 is Parameter)
            &&& ir.operand2 is Some
            &&& ir.operand3 is Some
        },
        DataFlowIrOpcode::Load => ir.operand1 is Some && !(ir.operand1->Some_0 is Parameter) && ir.operand2 is Some,
        DataFlowIrOpcode::Store => ir.operand1 is Some && ir.operand2 is Some,
        _ => true,
    }
}

/// Appends an argument of a call followed by `sep` (see `arg_item`).
fn push_arg_item(s: &mut String, r: &RegisterRecord, sep: &str, data: &HashMap<u64, Vec<u8>>)
    requires
        r matches RegisterRecord::Number(n) ==> readable(data@, n.value as u64),
    ensures
        final(s)@ == old(s)@ + arg_item(*r, sep@, data),
{
    match r {
        RegisterRecord::Number(n) => {
            match get_c_string_from_data(n.value as u64, data) {
                Some(t) => {
                    push_str(s, "\"");
                    push_str(s, t.as_str());
                    push_str(s, "\"");
                    push_str(s, sep);
                },
                None => {
                    push_i64(s, n.value);
                    push_str(s, sep);
                },
            }
        },
        RegisterRecord::Symbol(sym) => {
            match sym.address {
                Address::Stack(st) => {
                    if sym.value {
                        push_stack_value(s, sym.size, st);
                    } else {
                        push_str(s, "stack@");
                        push_i64(s, st);
                    }
                    push_str(s, sep);
                },
                Address::Memory(_) => {},
                _ => {
                    if !sym.value {
                        push_sym_at(s, sym);
                    } else {
                        push_str(s, "*(");
                        push_size(s, sym.size);
                        push_str(s, "*)");
                        push_sym_at(s, sym);
                    }
                    push_str(s, sep);
                },
            }
        },
    }
    proof {
        assert(final(s)@ =~= old(s)@ + arg_item(*r, sep@, data));
    }
}

/// Appends the arguments of a call (see `args_text`).
fn push_args(s: &mut String, ps: &Vec<RegisterRecord>, data: &HashMap<u64, Vec<u8>>)
    requires
        args_ok(ps@, data@),
    ensures
        final(s)@ == old(s)@ + args_text(ps@, 0, data),
{
    let n = ps.len();
    let mut k: usize = 0;
    while k < n
        invariant
            n == ps@.len(),
            k <= n,
            args_ok(ps@, data@),
            old(s)@ + args_text(ps@, 0, data) == s@ + args_text(ps@, k as int, data),
        decreases n - k,
    {
        let ghost before = s@;
        proof {
            assert(ps@[k as int] matches RegisterRecord::Number(m) ==> readable(data@, m.value as u64));
        }
        if k == n - 1 {
            push_arg_item(s, &ps[k], "", data);
            proof {
                assert(""@ =~= Seq::<char>::empty()) by {
                    reveal_strlit("");
                }
            }
        } else {
            push_arg_item(s, &ps[k], ", ", data);
        }
        proof {
            assert(s@ + args_text(ps@, k + 1, data) =~= before + args_text(ps@, k as int, data));
        }
        k = k + 1;
    }
    proof {
        assert(s@ + args_text(ps@, k as int, data) =~= s@);
    }
}

/// The function a call goes to: its name, or its address where it has
/// none.
pub open spec fn callee_text(n: Number, functions: Map<u64, NameValue>) -> Seq<char> {
    if functions.contains_key(n.value as u64) && functions[n.value as u64] is Name {
        functions[n.value as u64]->Name_0@
    } else {
        "func@0x"@ + hex8_text(n.value as u64)
    }
}

/// Appends the function a call goes to (see `callee_text`).
fn push_callee(s: &mut String, n: &Number, functions: &HashMap<u64, NameValue>)
    ensures
        final(s)@ == old(s)@ + callee_text(*n, functions@),
{
    match functions.get(&(n.value as u64)) {
        Some(NameValue::Name(name)) => {
            push_str(s, name.as_str());
        },
        _ => {
            push_str(s, "func@0x");
            push_hex8(s, n.value as u64);
            proof {
                assert(final(s)@ =~= old(s)@ + callee_text(*n, functions@));
            }
        },
    }
}

/// Appends a call (see `call_text`).
fn push_call(s: &mut String, ir: &DataFlowIr, functions: &HashMap<u64, NameValue>, data: &HashMap<u64, Vec<u8>>)
    requires
        ir.operand2 matches Some(DFIOperand::Parameter(ps)) ==> args_ok(ps@, data@),
    ensures
        final(s)@ == old(s)@ + call_text(*ir, functions@, data),
{
    match &ir.operand3 {
        Some(DFIOperand::Symbol(s3)) => {
            push_size(s, s3.size);
            push_str(s, " ");
            push_sym_at(s, s3);
            push_str(s, " = ");
        },
        _ => {},
    }
    let ghost a1 = s@;
    proof {
        assert(a1 =~= old(s)@ + call_dest(*ir));
    }
    match &ir.operand1 {
        Some(DFIOperand::Number(n)) => {
            push_callee(s, n, functions);
        },
        _ => {},
    }
    let ghost a2 = s@;
    proof {
        assert(a2 =~= a1 + call_callee(*ir, functions@));
    }
    match &ir.operand2 {
        Some(DFIOperand::Parameter(ps)) => {
            push_str(s, "(");
            push_args(s, ps, data);
            push_str(s, ");");
        },
        _ => {},
    }
    proof {
        assert(s@ =~= a2 + call_args(*ir, data));
        assert(s@ =~= old(s)@ + (call_dest(*ir) + call_callee(*ir, functions@) + call_args(*ir, data)));
    }
}

/// Appends a return (see `ret_text`).
fn push_ret(s: &mut String, ir: &DataFlowIr)
    ensures
        final(s)@ == old(s)@ + ret_text(*ir),
{
    push_str(s, "return ");
    match &ir.operand1 {
        Some(DFIOperand::Symbol(sym)) => {
            match sym.address {
                Address::Stack(st) => {
                    if sym.sym_type == DFISymbolType::Local {
                        if sym.value {
                            push_stack_value(s, sym.size, st);
                        } else {
                            push_str(s, "stack@");
                            push_i64(s, st);
                        }
                    } else if sym.sym_type == DFISymbolType::Param {
                        push_str(s, "param@");
                        push_u64(s, sym.id as u64);
                    }
                },
                Address::Memory(_) => {},
                _ => {
                    push_sym_at(s, sym);
                },
            }
        },
        Some(DFIOperand::Number(n)) => {
            push_i64(s, n.value);
        },
        _ => {},
    }
    push_str(s, ";");
    proof {
        assert(final(s)@ =~= old(s)@ + ret_text(*ir));
    }
}

/// The width of an operand that is a symbol or a number (see
/// `operand_size`).
fn get_size(o: &DFIOperand) -> (r: Size)
    ensures
        r == operand_size(*o),
{
    match o {
        DFIOperand::Symbol(sym) => sym.size,
        DFIOperand::Number(n) => n.size,
        DFIOperand::Parameter(_) => Size::Signed64,
    }
}

/// Appends the destination of an addition or subtraction (see `arith_head`).
fn push_arith_head(s: &mut String, o1: &DFIOperand)
    ensures
        final(s)@ == old(s)@ + arith_head(*o1),
{
    match o1 {
        DFIOperand::Symbol(sym) => {
            if sym.sym_type == DFISymbolType::Temp || sym.sym_type == DFISymbolType::Param {
                push_size(s, sym.size);
                push_str(s, " ");
                push_sym_at(s, sym);
                push_str(s, " = ");
            }
        },
        _ => {},
    }
    proof {
        assert(final(s)@ =~= old(s)@ + arith_head(*o1));
    }
}

/// Appends an operand of an addition (see `add_operand`).
fn push_add_operand(s: &mut String, o: &DFIOperand, size: Size, tail: &str, second: bool)
    ensures
        final(s)@ == old(s)@ + add_operand(*o, size, tail@, second),
{
    match o {
        DFIOperand::Symbol(sym) => {
            match sym.address {
                Address::Stack(st) => {
                    if sym.sym_type == DFISymbolType::Local {
                        push_str(s, "*(*");
                        push_size(s, size);
                        push_str(s, ")(");
                        push_kind(s, sym.sym_type);
                        push_str(s, "@");
                        push_i64(s, st);
                        push_str(s, ")");
                    } else {
                        push_sym_at(s, sym);
                    }
                },
                Address::Memory(m) => {
                    push_str(s, "*(*");
                    push_size(s, size);
                    push_str(s, ")(");
                    push_kind(s, sym.sym_type);
                    push_str(s, "@0x");
                    push_hex(s, m);
                    push_str(s, ")");
                },
                _ => {
                    push_sym_at(s, sym);
                },
            }
            push_str(s, tail);
        },
        DFIOperand::Number(n) => {
            if second && !n.signed {
                push_u64(s, n.value as u64);
            } else {
                push_i64(s, n.value);
            }
            push_str(s, tail);
        },
        _ => {},
    }
    proof {
        assert(final(s)@ =~= old(s)@ + add_operand(*o, size, tail@, second));
    }
}

/// The second operand of a subtraction: a stack slot read through a
/// pointer of the destination's width.
pub open spec fn sub_second(o: DFIOperand, size: Size) -> Seq<char> {
    match o {
        DFIOperand::Symbol(sym) => match sym.address {
            Address::Stack(st) => "*("@ + size_text(size) + "*)("@ + kind_text(sym.sym_type) + "@"@ + dec_text(st as int) + ") - "@,
            _ => Seq::empty(),
        },
        _ => Seq::empty(),
    }
}

/// The third operand of a subtraction: a number, a temporary, or a stack
/// slot read as an `int` where the destination is one.
pub open spec fn sub_third(o: DFIOperand, size: Size) -> Seq<char> {
    match o {
        DFIOperand::Number(n) => dec_text(n.value as int) + ";"@,
        DFIOperand::Symbol(sym) => if sym.sym_type == DFISymbolType::Temp {
            sym_at(sym) + ";"@
        } else {
            match sym.address {
                Address::Stack(st) => if size == Size::Signed32 {
                    "*(int*)(stack@"@ + dec_text(st as int) + ");"@
                } else {
                    Seq::empty()
                },
                _ => Seq::empty(),
            }
        },
        _ => Seq::empty(),
    }
}

/// Appends the operands of a subtraction (see `sub_second`, `sub_third`).
fn push_sub_operands(s: &mut String, o2: &DFIOperand, o3: &DFIOperand, size: Size)
    ensures
        final(s)@ == old(s)@ + sub_second(*o2, size) + sub_third(*o3, size),
{
    match o2 {
        DFIOperand::Symbol(sym) => {
            match sym.address {
                Address::Stack(st) => {
                    push_str(s, "*(");
                    push_size(s, size);
                    push_str(s, "*)(");
                    push_kind(s, sym.sym_type);
                    push_str(s, "@");
                    push_i64(s, st);
                    push_str(s, ") - ");
                },
                _ => {},
            }
        },
        _ => {},
    }
    let ghost a1 = s@;
    proof {
        assert(a1 =~= old(s)@ + sub_second(*o2, size));
    }
    match o3 {
        DFIOperand::Number(n) => {
            push_i64(s, n.value);
            push_str(s, ";");
        },
        DFIOperand::Symbol(sym) => {
            if sym.sym_type == DFISymbolType::Temp {
                push_sym_at(s, sym);
                push_str(s, ";");
            } else {
                match sym.address {
                    Address::Stack(st) => {
                        if size == Size::Signed32 {
                            push_str(s, "*(int*)(stack@");
                            push_i64(s, st);
                            push_str(s, ");");
                        }
                    },
                    _ => {},
                }
            }
        },
        _ => {},
    }
    proof {
        assert(s@ =~= a1 + sub_third(*o3, size));
    }
}

/// Appends where a store goes (see `store_target`).
fn push_store_target(s: &mut String, o2: &DFIOperand)
    ensures
        final(s)@ == old(s)@ + store_target(*o2),
{
    match o2 {
        DFIOperand::Number(n) => {
            push_i64(s, n.value);
        },
        DFIOperand::Symbol(sym) => {
            match sym.address {
                Address::Stack(st) => {
                    if sym.sym_type == DFISymbolType::Local {
                        if sym.value {
                            push_stack_value(s, sym.size, st);
                            push_str(s, " = ");
                        } else {
                            push_str(s, "stack@");
                            push_i64(s, st);
                            push_str(s, " = ");
                        }
                    }
                },
                Address::Memory(m) => {
                    if sym.value {
                        push_str(s, "*(");
                        push_size(s, sym.size);
                        push_str(s, "*)(global@0x");
                        push_hex(s, m);
                        push_str(s, ") = ");
                    } else {
                        push_str(s, "global@0x");
                        push_hex(s, m);
                        push_str(s, " = ");
                    }
                },
                _ => {
                    if !sym.value {
                        push_sym_at(s, sym);
                        push_str(s, " = ");
                    } else {
                        push_str(s, "*(");
                        push_size(s, sym.size);
                        push_str(s, "*)(");
                        push_sym_at(s, sym);
                        push_str(s, ") = ");
                    }
                },
            }
        },
        _ => {},
    }
    proof {
        assert(final(s)@ =~= old(s)@ + store_target(*o2));
    }
}

/// Appends what a store stores (see `store_value`).
fn push_store_value(s: &mut String, o1: &DFIOperand)
    ensures
        final(s)@ == old(s)@ + store_value(*o1),
{
    match o1 {
        DFIOperand::Number(n) => {
            push_i64(s, n.value);
            push_str(s, ";");
        },
        DFIOperand::Symbol(sym) => {
            match sym.address {
                Address::Stack(st) => {
                    if sym.sym_type == DFISymbolType::Local {
                        if sym.value {
                            push_stack_value(s, sym.size, st);
                            push_str(s, ";");
                        } else {
                            push_str(s, "stack@");
                            push_i64(s, st);
                            push_str(s, ";");
                        }
                    } else if sym.sym_type == DFISymbolType::Param {
                        push_str(s, "param@");
                        push_u64(s, sym.id as u64);
                        push_str(s, ";");
                    }
                },
                Address::Memory(m) => {
                    if sym.value {
                        push_str(s, "*(");
                        push_size(s, sym.size);
                        push_str(s, "*)(global@0x");
                        push_hex(s, m);
                        push_str(s, ");");
                    } else {
                        push_str(s, "global@0x");
                        push_hex(s, m);
                        push_str(s, ";");
                    }
                },
                _ => {
                    push_sym_at(s, sym);
                    push_str(s, ";");
                },
            }
        },
        _ => {},
    }
    proof {
        assert(final(s)@ =~= old(s)@ + store_value(*o1));
    }
}

/// Appends the left side of a conditional jump (see `jcc_left`).
fn push_jcc_left(s: &mut String, o: &Option<DFIOperand>)
    ensures
        final(s)@ == old(s)@ + jcc_left(*o),
{
    match o {
        Some(DFIOperand::Number(n)) => {
            push_i64(s, n.value);
        },
        Some(DFIOperand::Symbol(sym)) => {
            match sym.address {
                Address::Stack(st) => {
                    push_stack_value(s, sym.size, st);
                },
                Address::Memory(_) => {},
                _ => {
                    push_sym_at(s, sym);
                },
            }
        },
        _ => {},
    }
    proof {
        assert(final(s)@ =~= old(s)@ + jcc_left(*o));
    }
}

/// Appends the right side of a conditional jump (see `jcc_right`).
fn push_jcc_right(s: &mut String, o: &Option<DFIOperand>)
    ensures
        final(s)@ == old(s)@ + jcc_right(*o),
{
    match o {
        Some(DFIOperand::Number(n)) => {
            push_i64(s, n.value);
        },
        Some(DFIOperand::Symbol(sym)) => {
            match sym.address {
                Address::Stack(st) => {
                    if sym.value && sym.size == Size::Signed32 {
                        push_str(s, "*(int*)(stack@");
                        push_i64(s, st);
                        push_str(s, ")");
                    }
                },
                Address::Memory(_) => {},
                _ => {
                    push_sym_at(s, sym);
                },
            }
        },
        _ => {},
    }
    proof {
        assert(final(s)@ =~= old(s)@ + jcc_right(*o));
    }
}

/// Appends the destination of a multiplication or load (see `reg_head`).
fn push_reg_head(s: &mut String, o1: &DFIOperand)
    ensures
        final(s)@ == old(s)@ + reg_head(*o1),
{
    match o1 {
        DFIOperand::Symbol(sym) => {
            match sym.address {
                Address::Stack(_) | Address::Memory(_) => {},
                _ => {
                    push_size(s, sym.size);
                    push_str(s, " ");
                    push_sym_at(s, sym);
                    push_str(s, " = ");
                },
            }
        },
        _ => {},
    }
    proof {
        assert(final(s)@ =~= old(s)@ + reg_head(*o1));
    }
}

/// Appends a multiplication (see `mul_text`).
fn push_mul(s: &mut String, o1: &DFIOperand, o2: &DFIOperand, o3: &DFIOperand)
    ensures
        final(s)@ == old(s)@ + mul_text(*o1, *o2, *o3),
{
    push_reg_head(s, o1);
    let ghost a1 = s@;
    match o2 {
        DFIOperand::Symbol(sym) => {
            match sym.address {
                Address::Stack(st) => {
                    if sym.value {
                        push_stack_value(s, sym.size, st);
                        push_str(s, " * ");
                    }
                },
                Address::Memory(_) => {},
                _ => {
                    push_sym_at(s, sym);
                    push_str(s, " * ");
                },
            }
        },
        _ => {},
    }
    let ghost a2 = s@;
    proof {
        assert(a2 =~= a1 + mul_second(*o2));
    }
    match o3 {
        DFIOperand::Number(n) => {
            push_i64(s, n.value);
            push_str(s, ";");
        },
        DFIOperand::Symbol(sym) => {
            match sym.address {
                Address::Stack(_) | Address::Memory(_) => {},
                _ => {
                    push_sym_at(s, sym);
                    push_str(s, " * ");
                },
            }
        },
        _ => {},
    }
    proof {
        assert(s@ =~= a2 + mul_third(*o3));
        assert(final(s)@ =~= old(s)@ + mul_text(*o1, *o2, *o3));
    }
}

/// Appends a load (see `load_text`).
fn push_load(s: &mut String, o1: &DFIOperand, o2: &DFIOperand)
    ensures
        final(s)@ == old(s)@ + load_text(*o1, *o2),
{
    let size = get_size(o1);
    push_reg_head(s, o1);
    match o2 {
        DFIOperand::Symbol(sym) => {
            match sym.address {
                Address::Stack(st) => {
                    if sym.value {
                        push_str(s, "*(");
                        push_size(s, size);
                        push_str(s, "*)");
                        push_kind(s, sym.sym_type);
                        push_str(s, "@");
                        push_i64(s, st);
                        push_str(s, ";");
                    }
                },
                Address::Memory(_) => {},
                _ => {
                    if sym.value {
                        push_str(s, "*(");
                        push_size(s, size);
                        push_str(s, "*)");
                        push_sym_at(s, sym);
                        push_str(s, ";");
                    }
                },
            }
        },
        _ => {},
    }
    proof {
        assert(final(s)@ =~= old(s)@ + load_text(*o1, *o2));
    }
}

/// Appends the parameters of a function's head (see `params_list`).
fn push_params_list(s: &mut String, ps: &Vec<RegisterRecord>)
    ensures
        final(s)@ == old(s)@ + params_list(ps@, 0),
{
    let n = ps.len();
    let mut k: usize = 0;
    while k < n
        invariant
            n == ps@.len(),
            k <= n,
            old(s)@ + params_list(ps@, 0) == s@ + params_list(ps@, k as int),
        decreases n - k,
    {
        let ghost before = s@;
        match &ps[k] {
            RegisterRecord::Symbol(sym) => {
                push_str(s, "param@");
                push_u64(s, sym.id as u64);
                if k == n - 1 {
                    push_str(s, ")");
                } else {
                    push_str(s, ", ");
                }
            },
            RegisterRecord::Number(_) => {},
        }
        proof {
            assert(s@ + params_list(ps@, k + 1) =~= before + params_list(ps@, k as int));
        }
        k = k + 1;
    }
    proof {
        assert(s@ + params_list(ps@, k as int) =~= s@);
    }
}

/// Appends a jump (see `jmp_text`).
fn push_jmp(s: &mut String, o1: &Option<DFIOperand>)
    ensures
        final(s)@ == old(s)@ + jmp_text(*o1),
{
    match o1 {
        Some(DFIOperand::Number(n)) => {
            push_str(s, "goto label@0x");
            push_hex(s, n.value as u64);
            push_str(s, ";");
        },
        _ => {},
    }
    proof {
        assert(final(s)@ =~= old(s)@ + jmp_text(*o1));
    }
}

/// Appends a conditional jump (see `jcc_text`).
fn push_jcc(s: &mut String, r: &crate::data_flow::Relation, o1: &Option<DFIOperand>, o2: &Option<DFIOperand>, o3: &Option<DFIOperand>)
    ensures
        final(s)@ == old(s)@ + jcc_text(*r, *o1, *o2, *o3),
{
    push_str(s, "if(");
    push_jcc_left(s, o1);
    push_str(s, " ");
    relation_to_string(s, r);
    push_str(s, " ");
    push_jcc_right(s, o2);
    push_str(s, ") goto ");
    match o3 {
        Some(DFIOperand::Number(n)) => {
            push_str(s, "label@0x");
            push_hex(s, n.value as u64);
        },
        _ => {},
    }
    proof {
        assert(final(s)@ =~= old(s)@ + jcc_text(*r, *o1, *o2, *o3));
    }
}

/// Appends the head of a function (see `function_text`).
fn push_function(s: &mut String, o1: &Option<DFIOperand>)
    ensures
        final(s)@ == old(s)@ + function_text(*o1),
{
    push_str(s, "function begin(");
    match o1 {
        Some(DFIOperand::Parameter(ps)) => {
            if ps.len() != 0 {
                push_params_list(s, ps);
            } else {
                push_str(s, ")");
            }
        },
        _ => {},
    }
    proof {
        assert(final(s)@ =~= old(s)@ + function_text(*o1));
    }
}

/// Appends an addition (see `add_text`).
fn push_add(s: &mut String, o1: &DFIOperand, o2: &DFIOperand, o3: &DFIOperand)
    ensures
        final(s)@ == old(s)@ + add_text(*o1, *o2, *o3),
{
    let size = get_size(o1);
    push_arith_head(s, o1);
    push_add_operand(s, o2, size, " + ", true);
    push_add_operand(s, o3, size, ";", false);
    proof {
        assert(final(s)@ =~= old(s)@ + add_text(*o1, *o2, *o3));
    }
}

/// Appends the instruction by its kind (see `body_text`).
fn push_body(s: &mut String, ir: &DataFlowIr, functions: &HashMap<u64, NameValue>, data: &HashMap<u64, Vec<u8>>)
    requires
        ir_text_ok(*ir, data@),
    ensures
        final(s)@ == old(s)@ + body_text(*ir, functions@, data),
{
    match &ir.opcode {
        DataFlowIrOpcode::Call => push_call(s, ir, functions, data),
        DataFlowIrOpcode::Ret => push_ret(s, ir),
        DataFlowIrOpcode::Jmp => push_jmp(s, &ir.operand1),
        DataFlowIrOpcode::Add => {
            push_add(s, ir.operand1.as_ref().unwrap(), ir.operand2.as_ref().unwrap(), ir.operand3.as_ref().unwrap());
        },
        DataFlowIrOpcode::Sub => {
            let o1 = ir.operand1.as_ref().unwrap();
            let size = get_size(o1);
            push_arith_head(s, o1);
            push_sub_operands(s, ir.operand2.as_ref().unwrap(), ir.operand3.as_ref().unwrap(), size);
            proof {
                assert(final(s)@ =~= old(s)@ + body_text(*ir, functions@, data));
            }
        },
        DataFlowIrOpcode::Store => {
            push_store_target(s, ir.operand2.as_ref().unwrap());
            push_store_value(s, ir.operand1.as_ref().unwrap());
            proof {
                assert(final(s)@ =~= old(s)@ + body_text(*ir, functions@, data));
            }
        },
        DataFlowIrOpcode::Jcc(r) => push_jcc(s, r, &ir.operand1, &ir.operand2, &ir.operand3),
        DataFlowIrOpcode::Mul => {
            push_mul(s, ir.operand1.as_ref().unwrap(), ir.operand2.as_ref().unwrap(), ir.operand3.as_ref().unwrap());
        },
        DataFlowIrOpcode::Load => {
            push_load(s, ir.operand1.as_ref().unwrap(), ir.operand2.as_ref().unwrap());
        },
        DataFlowIrOpcode::Function => push_function(s, &ir.operand1),
        _ => {
            proof {
                assert(old(s)@ + Seq::<char>::empty() =~= old(s)@);
            }
        },
    }
}

impl DataFlowIr {
    /// The text of the instruction (see `ir_text`): calls are named by
    /// `functions`, and the strings they are passed read from `data`.
    pub fn fmt(&self, functions: &HashMap<u64, NameValue>, data: &HashMap<u64, Vec<u8>>) -> (r: String)
        requires
            ir_text_ok(*self, data@),
        ensures
            r@ == ir_text(*self, functions@, data),
    {
        let mut s = String::new();
        push_str(&mut s, "0x");
        push_hex8(&mut s, self.address);
        push_str(&mut s, "\t");
        push_body(&mut s, self, functions, data);
        proof {
            assert(s@ =~= ir_text(*self, functions@, data));
        }
        s
    }
}

} // verus!
