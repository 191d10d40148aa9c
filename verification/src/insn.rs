use vstd::prelude::*;

verus! {

/// The opcodes of the LoongArch instructions that the decompiler reads.
#[derive(Debug, Clone, Copy, PartialEq, Eq, Structural)]
#[allow(non_camel_case_types)]
pub enum Opcode {
    ADD_D,
    ADD_W,
    SUB_W,
    SUB_D,
    ADDI_D,
    ADDI_W,
    AND,
    ANDI,
    OR,
    ORI,
    XOR,
    XORI,
    ST_D,
    ST_W,
    LD_D,
    LD_W,
    STPTR_D,
    STPTR_W,
    LDPTR_D,
    LDPTR_W,
    BL,
    B,
    BEQ,
    BNE,
    BGE,
    BLT,
    BLTU,
    BGEU,
    BEQZ,
    BNEZ,
    PCADDU12I,
    PCADDI,
    LU12I_W,
    LU52I_D,
    JIRL,
    SLLI_W,
    SLLI_D,
    MUL_W,
    DIV_W,
    NOP,
}

/// The kind of an ELF symbol.
#[derive(Debug, Clone, Copy, PartialEq, Eq, Structural)]
pub enum SymbolType {
    NoType,
    Object,
    Func,
    Section,
    File,
}

/// An entry of the ELF symbol table.
#[derive(Debug, Clone)]
pub struct SymbolRecord {
    pub name: String,
    pub offset: u64,
    pub size: u64,
    pub sym_type: SymbolType,
}

/// An entry of the ELF dynamic symbol table.
#[derive(Debug, Clone)]
pub struct DynSymbolRecord {
    pub name: String,
    pub offset: u64,
}

/// What an address is known as: a function or global name, or a plain value.
#[derive(Debug, Clone)]
pub enum NameValue {
    Name(String),
    Value(u64),
}

/// An operand of a disassembled instruction: a register number or an immediate.
#[derive(Debug, Clone)]
pub struct Operand {
    pub value: i64,
    pub symbol: Option<SymbolRecord>,
}

/// A disassembled instruction.
#[derive(Debug, Clone)]
pub struct AssemblyInstruction {
    pub address: u64,
    pub label: Option<String>,
    pub opcode: Opcode,
    pub operand1: Option<Operand>,
    pub operand2: Option<Operand>,
    pub operand3: Option<Operand>,
    pub operand4: Option<Operand>,
}

impl SymbolRecord {
    /// An empty symbol record.
    pub fn new() -> (r: Self)
        ensures
            r.name@ == Seq::<char>::empty(),
            r.offset == 0,
            r.size == 0,
            r.sym_type == SymbolType::NoType,
    {
        SymbolRecord { name: String::new(), offset: 0, size: 0, sym_type: SymbolType::NoType }
    }

    /// A copy of the record.
    pub fn duplicate(&self) -> (r: Self)
        ensures
            r == *self,
    {
        SymbolRecord { name: self.name.clone(), offset: self.offset, size: self.size, sym_type: self.sym_type }
    }
}

/// A copy of an optional operand.
pub fn copy_operand(o: &Option<Operand>) -> (r: Option<Operand>)
    ensures
        r == *o,
{
    match o {
        Some(x) => Some(Operand {
            value: x.value,
            symbol: match &x.symbol {
                Some(s) => Some(s.duplicate()),
                None => None,
            },
        }),
        None => None,
    }
}

impl AssemblyInstruction {
    /// A copy of the instruction.
    pub fn duplicate(&self) -> (r: Self)
        ensures
            r == *self,
    {
        AssemblyInstruction {
            address: self.address,
            label: match &self.label {
                Some(l) => Some(l.clone()),
                None => None,
            },
            opcode: self.opcode,
            operand1: copy_operand(&self.operand1),
            operand2: copy_operand(&self.operand2),
            operand3: copy_operand(&self.operand3),
            operand4: copy_operand(&self.operand4),
        }
    }
}

} // verus!
