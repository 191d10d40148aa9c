use vstd::prelude::*;
use crate::counter::Counter;

pub mod state;
pub mod addi_d;
pub mod b;
pub mod beq;
pub mod jirl;
pub mod pcaddu12i;
pub mod or;
pub mod slli_w;
pub mod ld_d;
pub mod st_d;
pub mod stptr_w;
pub mod branch;
pub mod andi;
pub mod ldptr_d;
pub mod add_d;
pub mod stptr_d;
pub mod addi_w;
pub mod st_w;
pub mod ldptr_w;
pub mod extern_function;
pub mod bl;
pub mod parameter;
pub mod analysis;
pub mod ir_text;

verus! {

/// An instruction of the data-flow intermediate representation.
#[derive(Debug, Clone)]
pub struct DataFlowIr {
    pub address: u64,
    pub opcode: DataFlowIrOpcode,
    pub operand1: Option<DFIOperand>,
    pub operand2: Option<DFIOperand>,
    pub operand3: Option<DFIOperand>,
}

#[derive(Debug, Clone, Copy, PartialEq, Eq, Structural)]
pub enum DataFlowIrOpcode {
    Add,
    Sub,
    Mul,
    Div,
    And,
    Or,
    Xor,
    Not,
    Call,
    Load,
    Store,
    Ret,
    Jmp,
    Jcc(Relation),
    Function,
    Nop,
}

/// The value of an IR operand: a parameter list is a sequence.
pub enum OperandView {
    Symbol(DFISymbolRecord),
    Number(Number),
    Parameter(Seq<RegisterRecord>),
}

/// The value of an IR instruction.
pub struct IrView {
    pub address: u64,
    pub opcode: DataFlowIrOpcode,
    pub operand1: Option<OperandView>,
    pub operand2: Option<OperandView>,
    pub operand3: Option<OperandView>,
}

impl View for DFIOperand {
    type V = OperandView;

    open spec fn view(&self) -> OperandView {
        match self {
            DFIOperand::Symbol(s) => OperandView::Symbol(*s),
            DFIOperand::Number(n) => OperandView::Number(*n),
            DFIOperand::Parameter(p) => OperandView::Parameter(p@),
        }
    }
}

/// The value of an optional operand.
pub open spec fn opt_operand_view(o: Option<DFIOperand>) -> Option<OperandView> {
    match o {
        Some(x) => Some(x@),
        None => None,
    }
}

impl View for DataFlowIr {
    type V = IrView;

    open spec fn view(&self) -> IrView {
        IrView {
            address: self.address,
            opcode: self.opcode,
            operand1: opt_operand_view(self.operand1),
            operand2: opt_operand_view(self.operand2),
            operand3: opt_operand_view(self.operand3),
        }
    }
}

/// The values of a sequence of IR instructions.
pub open spec fn irs_view(irs: Seq<DataFlowIr>) -> Seq<IrView> {
    irs.map_values(|ir: DataFlowIr| ir@)
}

/// A comparison between two operands.
#[derive(Debug, Clone, Copy, PartialEq, Eq, Structural)]
pub enum Relation {
    EQ,
    L,
    G,
    LE,
    GE,
    NE,
}

#[derive(Debug, Clone)]
pub enum DFIOperand {
    Symbol(DFISymbolRecord),
    Number(Number),
    Parameter(Vec<RegisterRecord>),
}

#[derive(Debug, Clone, Copy, PartialEq, Eq, Structural)]
pub struct Number {
    pub value: i64,
    pub signed: bool,
    pub size: Size,
}

/// A symbol of the data-flow IR: a register, stack slot or memory cell,
/// with its kind, an id, a width and whether it stands for the value held there.
#[derive(Debug, Clone, Copy)]
pub struct DFISymbolRecord {
    pub address: Address,
    pub sym_type: DFISymbolType,
    pub id: usize,
    pub size: Size,
    pub value: bool,
}

#[derive(Debug, Clone, Copy, PartialEq, Eq, Structural)]
pub enum Address {
    GR(usize),
    FR(usize),
    Stack(i64),
    Memory(u64),
}

#[derive(Debug, Clone, Copy, PartialEq, Eq, Structural)]
pub enum DFISymbolType {
    Param,
    Local,
    Temp,
    Global,
    Func,
    Label,
    Return,
    Untyped,
}

#[derive(Debug, Clone, Copy, PartialEq, Eq, Structural)]
pub enum Size {
    Signed8,
    Unsigned8,
    Signed16,
    Unsigned16,
    Signed32,
    Unsigned32,
    Signed64,
    Unsigned64,
}

/// What the analysis knows of a general register.
#[derive(Debug, Clone, Copy)]
pub struct GRRecord {
    pub value: RegisterRecord,
    pub state: bool,
}

#[derive(Debug, Clone, Copy)]
pub enum RegisterRecord {
    Number(Number),
    Symbol(DFISymbolRecord),
}

/// The equality of two symbols: register symbols are equal when both are
/// parameters or both temporaries with the same id (whatever the register),
/// stack symbols when both are locals at the same offset, memory symbols
/// when both are globals at the same address.
pub open spec fn sym_eq(a: DFISymbolRecord, b: DFISymbolRecord) -> bool {
    match a.address {
        Address::GR(_) => b.address is GR && (
            (a.sym_type == DFISymbolType::Param && b.sym_type == DFISymbolType::Param)
            || (a.sym_type == DFISymbolType::Temp && b.sym_type == DFISymbolType::Temp))
            && a.id == b.id,
        Address::FR(_) => b.address is FR && (
            (a.sym_type == DFISymbolType::Param && b.sym_type == DFISymbolType::Param)
            || (a.sym_type == DFISymbolType::Temp && b.sym_type == DFISymbolType::Temp))
            && a.id == b.id,
        Address::Stack(s1) => match b.address {
            Address::Stack(s2) => a.sym_type == DFISymbolType::Local && b.sym_type == DFISymbolType::Local && s1 == s2,
            _ => false,
        },
        Address::Memory(m1) => match b.address {
            Address::Memory(m2) => a.sym_type == DFISymbolType::Global && b.sym_type == DFISymbolType::Global && m1 == m2,
            _ => false,
        },
    }
}

impl DFISymbolRecord {
    /// The symbol equality `sym_eq`.
    pub fn eq(&self, other: &Self) -> (r: bool)
        ensures
            r == sym_eq(*self, *other),
    {
        match self.address {
            Address::GR(_) => {
                if let Address::GR(_) = other.address {
                    if (self.sym_type == DFISymbolType::Param && other.sym_type == DFISymbolType::Param)
                        || (self.sym_type == DFISymbolType::Temp && other.sym_type == DFISymbolType::Temp) {
                        self.id == other.id
                    } else {
                        false
                    }
                } else {
                    false
                }
            },
            Address::FR(_) => {
                if let Address::FR(_) = other.address {
                    if (self.sym_type == DFISymbolType::Param && other.sym_type == DFISymbolType::Param)
                        || (self.sym_type == DFISymbolType::Temp && other.sym_type == DFISymbolType::Temp) {
                        self.id == other.id
                    } else {
                        false
                    }
                } else {
                    false
                }
            },
            Address::Stack(s1) => {
                if let Address::Stack(s2) = other.address {
                    if self.sym_type == DFISymbolType::Local && other.sym_type == DFISymbolType::Local {
                        s1 == s2
                    } else {
                        false
                    }
                } else {
                    false
                }
            },
            Address::Memory(m1) => {
                if let Address::Memory(m2) = other.address {
                    if self.sym_type == DFISymbolType::Global && other.sym_type == DFISymbolType::Global {
                        m1 == m2
                    } else {
                        false
                    }
                } else {
                    false
                }
            },
        }
    }

    /// A placeholder temporary symbol.
    pub fn new() -> (r: Self)
        ensures
            r == (DFISymbolRecord { address: Address::Memory(0), sym_type: DFISymbolType::Temp, id: 0, size: Size::Signed8, value: false }),
    {
        DFISymbolRecord { address: Address::Memory(0), sym_type: DFISymbolType::Temp, id: 0, size: Size::Signed8, value: false }
    }
}

/// Whether `s` holds a symbol equal (by `sym_eq`) to `x`.
pub open spec fn contains_equiv(s: Seq<DFISymbolRecord>, x: DFISymbolRecord) -> bool {
    exists|i: int| 0 <= i < s.len() && sym_eq(#[trigger] s[i], x)
}

/// The first symbol of `s` equal to `x`, if any.
pub open spec fn lookup(s: Seq<DFISymbolRecord>, x: DFISymbolRecord) -> Option<DFISymbolRecord>
    decreases s.len(),
{
    if s.len() == 0 {
        None
    } else if sym_eq(s[0], x) {
        Some(s[0])
    } else {
        lookup(s.drop_first(), x)
    }
}

/// The id of the first symbol of `s` at `address`, if any.
pub open spec fn first_id_at(s: Seq<DFISymbolRecord>, address: Address) -> Option<usize>
    decreases s.len(),
{
    if s.len() == 0 {
        None
    } else if s[0].address == address {
        Some(s[0].id)
    } else {
        first_id_at(s.drop_first(), address)
    }
}

/// `s` with `x` added at the end unless it holds an equal symbol.
pub open spec fn set_with(s: Seq<DFISymbolRecord>, x: DFISymbolRecord) -> Seq<DFISymbolRecord> {
    if contains_equiv(s, x) {
        s
    } else {
        s.push(x)
    }
}

proof fn lemma_lookup_skip(s: Seq<DFISymbolRecord>, x: DFISymbolRecord, i: int)
    requires
        0 <= i < s.len(),
    ensures
        lookup(s.skip(i), x) == (if sym_eq(s[i], x) { Some(s[i]) } else { lookup(s.skip(i + 1), x) }),
{
    assert(s.skip(i).drop_first() =~= s.skip(i + 1));
}

/// A lookup finds a symbol exactly when an equal one is held, and what it
/// finds is held and equal.
pub proof fn lemma_lookup_contains(s: Seq<DFISymbolRecord>, x: DFISymbolRecord)
    ensures
        lookup(s, x) is Some <==> contains_equiv(s, x),
        lookup(s, x) matches Some(e) ==> s.contains(e) && sym_eq(e, x),
    decreases s.len(),
{
    if s.len() > 0 {
        lemma_lookup_contains(s.drop_first(), x);
        if contains_equiv(s, x) && !sym_eq(s[0], x) {
            let i = choose|i: int| 0 <= i < s.len() && sym_eq(#[trigger] s[i], x);
            assert(s.drop_first()[i - 1] == s[i]);
        }
        if let Some(e) = lookup(s.drop_first(), x) {
            let j = choose|j: int| 0 <= j < s.drop_first().len() && s.drop_first()[j] == e;
            assert(s[j + 1] == e);
        }
        if contains_equiv(s.drop_first(), x) {
            let j = choose|j: int| 0 <= j < s.drop_first().len() && sym_eq(#[trigger] s.drop_first()[j], x);
            assert(sym_eq(s[j + 1], x));
        }
    }
}

/// No two symbols of `s` are equal by `sym_eq`.
pub open spec fn no_equiv_dups(s: Seq<DFISymbolRecord>) -> bool {
    forall|i: int, j: int| 0 <= i < s.len() && 0 <= j < s.len() && i != j ==> !sym_eq(#[trigger] s[i], #[trigger] s[j])
}

/// A set of symbols under the symbol equality `sym_eq`: inserting a symbol
/// equal to one already held leaves the set unchanged.
#[derive(Debug, Clone)]
pub struct SymbolSet {
    items: Vec<DFISymbolRecord>,
}

impl View for SymbolSet {
    type V = Seq<DFISymbolRecord>;

    closed spec fn view(&self) -> Seq<DFISymbolRecord> {
        self.items@
    }
}

impl SymbolSet {
    pub fn new() -> (s: Self)
        ensures
            s@ == Seq::<DFISymbolRecord>::empty(),
    {
        SymbolSet { items: Vec::new() }
    }

    pub fn len(&self) -> (n: usize)
        ensures
            n == self@.len(),
    {
        self.items.len()
    }

    /// The symbol at position `i` in insertion order.
    pub fn at(&self, i: usize) -> (r: DFISymbolRecord)
        requires
            i < self@.len(),
        ensures
            r == self@[i as int],
    {
        self.items[i]
    }

    /// The first held symbol equal to `x`, if any.
    pub fn get(&self, x: &DFISymbolRecord) -> (r: Option<DFISymbolRecord>)
        ensures
            r == lookup(self@, *x),
    {
        let mut i: usize = 0;
        assert(self.items@.skip(0) =~= self.items@);
        while i < self.items.len()
            invariant
                i <= self.items@.len(),
                lookup(self.items@, *x) == lookup(self.items@.skip(i as int), *x),
            decreases self.items@.len() - i,
        {
            proof {
                lemma_lookup_skip(self.items@, *x, i as int);
            }
            if self.items[i].eq(x) {
                return Some(self.items[i]);
            }
            i = i + 1;
        }
        proof {
            assert(self.items@.skip(i as int).len() == 0);
        }
        None
    }

    /// Inserts `x` unless an equal symbol is held; returns whether it was inserted.
    pub fn insert(&mut self, x: DFISymbolRecord) -> (inserted: bool)
        ensures
            inserted == !contains_equiv(old(self)@, x),
            final(self)@ == set_with(old(self)@, x),
    {
        proof {
            lemma_lookup_contains(self@, x);
        }
        match self.get(&x) {
            Some(_) => false,
            None => {
                self.items.push(x);
                true
            },
        }
    }

    /// The id of the first held symbol at `address`, if any.
    pub fn first_id_at(&self, address: Address) -> (r: Option<usize>)
        ensures
            r == first_id_at(self@, address),
    {
        let mut i: usize = 0;
        assert(self.items@.skip(0) =~= self.items@);
        while i < self.items.len()
            invariant
                i <= self.items@.len(),
                first_id_at(self.items@, address) == first_id_at(self.items@.skip(i as int), address),
            decreases self.items@.len() - i,
        {
            proof {
                assert(self.items@.skip(i as int).drop_first() =~= self.items@.skip(i + 1));
            }
            if self.items[i].address == address {
                return Some(self.items[i].id);
            }
            i = i + 1;
        }
        proof {
            assert(self.items@.skip(i as int).len() == 0);
        }
        None
    }

    /// Removes every symbol.
    pub fn clear(&mut self)
        ensures
            final(self)@ == Seq::<DFISymbolRecord>::empty(),
    {
        self.items.clear();
    }
}

/// The symbol equality is symmetric.
pub proof fn lemma_sym_eq_symmetric(a: DFISymbolRecord, b: DFISymbolRecord)
    ensures
        sym_eq(a, b) == sym_eq(b, a),
{
}

/// Inserting into a symbol set never makes it hold two equal symbols.
pub proof fn lemma_insert_keeps_no_dups(s: Seq<DFISymbolRecord>, x: DFISymbolRecord)
    requires
        no_equiv_dups(s),
    ensures
        no_equiv_dups(set_with(s, x)),
{
    if !contains_equiv(s, x) {
        let t = s.push(x);
        assert forall|i: int, j: int| 0 <= i < t.len() && 0 <= j < t.len() && i != j implies !sym_eq(#[trigger] t[i], #[trigger] t[j]) by {
            if i == s.len() {
                assert(!sym_eq(s[j], x));
                lemma_sym_eq_symmetric(s[j], x);
            } else if j == s.len() {
                assert(!sym_eq(s[i], x));
            }
        }
    }
}

/// The symbol table of one function.
#[derive(Debug, Clone)]
pub struct DFISymbolRecordTable {
    pub symbols: SymbolSet,
    pub loc_counter: Counter,
    pub global_counter: Counter,
    pub tmp_counter: Counter,
}

impl Number {
    /// The number 0, unsigned 64-bit.
    pub fn new() -> (n: Self)
        ensures
            n == (Number { value: 0, signed: false, size: Size::Unsigned64 }),
    {
        Number { value: 0, signed: false, size: Size::Unsigned64 }
    }

    pub fn from(value: i64, signed: bool, size: Size) -> (n: Self)
        ensures
            n == (Number { value, signed, size }),
    {
        Number { value, signed, size }
    }
}

impl GRRecord {
    /// A register of which nothing is known yet.
    pub fn new() -> (r: Self)
        ensures
            r.state == false,
            r.value == RegisterRecord::Number(Number { value: 0, signed: false, size: Size::Unsigned64 }),
    {
        GRRecord { value: RegisterRecord::Number(Number::new()), state: false }
    }
}

/// The negation of a comparison.
pub open spec fn rel_not(r: Relation) -> Relation {
    match r {
        Relation::EQ => Relation::NE,
        Relation::NE => Relation::EQ,
        Relation::L => Relation::GE,
        Relation::G => Relation::LE,
        Relation::LE => Relation::G,
        Relation::GE => Relation::L,
    }
}

impl Relation {
    /// The negation of the comparison (see `rel_not`).
    pub fn not(self) -> (r: Relation)
        ensures
            r == rel_not(self),
    {
        match self {
            Relation::EQ => Relation::NE,
            Relation::NE => Relation::EQ,
            Relation::L => Relation::GE,
            Relation::G => Relation::LE,
            Relation::LE => Relation::G,
            Relation::GE => Relation::L,
        }
    }
}

/// Negating a comparison twice gives it back.
pub proof fn lemma_rel_not_involution(r: Relation)
    ensures
        rel_not(rel_not(r)) == r,
{
}

/// The equality of register contents: numbers by value, symbols by `sym_eq`.
pub open spec fn reg_eq(a: RegisterRecord, b: RegisterRecord) -> bool {
    match (a, b) {
        (RegisterRecord::Number(x), RegisterRecord::Number(y)) => x == y,
        (RegisterRecord::Symbol(x), RegisterRecord::Symbol(y)) => sym_eq(x, y),
        _ => false,
    }
}

/// The equality of IR operands: symbols by `sym_eq`, numbers by value,
/// parameter lists element by element.
pub open spec fn operand_eq(a: DFIOperand, b: DFIOperand) -> bool {
    opv_eq(a@, b@)
}

/// The equality of operand values (see `operand_eq`).
pub open spec fn opv_eq(a: OperandView, b: OperandView) -> bool {
    match (a, b) {
        (OperandView::Symbol(x), OperandView::Symbol(y)) => sym_eq(x, y),
        (OperandView::Number(x), OperandView::Number(y)) => x == y,
        (OperandView::Parameter(x), OperandView::Parameter(y)) => x.len() == y.len()
            && forall|i: int| 0 <= i < x.len() ==> reg_eq(#[trigger] x[i], y[i]),
        _ => false,
    }
}

impl RegisterRecord {
    /// The equality `reg_eq`.
    pub fn eq(&self, other: &Self) -> (r: bool)
        ensures
            r == reg_eq(*self, *other),
    {
        match (self, other) {
            (RegisterRecord::Number(x), RegisterRecord::Number(y)) => x.value == y.value && x.signed == y.signed && x.size == y.size,
            (RegisterRecord::Symbol(x), RegisterRecord::Symbol(y)) => x.eq(y),
            _ => false,
        }
    }
}

impl DFIOperand {
    /// A copy of the operand.
    pub fn duplicate(&self) -> (r: DFIOperand)
        ensures
            r@ == self@,
    {
        match self {
            DFIOperand::Symbol(x) => DFIOperand::Symbol(*x),
            DFIOperand::Number(x) => DFIOperand::Number(*x),
            DFIOperand::Parameter(x) => {
                let mut v: Vec<RegisterRecord> = Vec::new();
                let mut i: usize = 0;
                while i < x.len()
                    invariant
                        i <= x@.len(),
                        v@ == x@.take(i as int),
                    decreases x@.len() - i,
                {
                    proof {
                        assert(x@.take(i + 1) =~= x@.take(i as int).push(x@[i as int]));
                    }
                    v.push(x[i]);
                    i = i + 1;
                }
                proof {
                    assert(x@.take(i as int) =~= x@);
                }
                DFIOperand::Parameter(v)
            },
        }
    }

    /// The equality `operand_eq`.
    pub fn eq(&self, other: &Self) -> (r: bool)
        ensures
            r == operand_eq(*self, *other),
    {
        match self {
            DFIOperand::Symbol(x) => match other {
                DFIOperand::Symbol(y) => x.eq(y),
                _ => false,
            },
            DFIOperand::Number(x) => match other {
                DFIOperand::Number(y) => x.value == y.value && x.signed == y.signed && x.size == y.size,
                _ => false,
            },
            DFIOperand::Parameter(x) => match other {
                DFIOperand::Parameter(y) => params_eq(x, y),
                _ => false,
            },
        }
    }
}

/// Two parameter lists are equal element by element (see `reg_eq`).
fn params_eq(x: &Vec<RegisterRecord>, y: &Vec<RegisterRecord>) -> (r: bool)
    ensures
        r == (x@.len() == y@.len() && forall|i: int| 0 <= i < x@.len() ==> reg_eq(#[trigger] x@[i], y@[i])),
{
    if x.len() != y.len() {
        return false;
    }
    let mut i: usize = 0;
    while i < x.len()
        invariant
            i <= x@.len(),
            x@.len() == y@.len(),
            forall|j: int| 0 <= j < i ==> reg_eq(#[trigger] x@[j], y@[j]),
        decreases x@.len() - i,
    {
        if !x[i].eq(&y[i]) {
            assert(!reg_eq(x@[i as int], y@[i as int]));
            return false;
        }
        i = i + 1;
    }
    true
}

impl DataFlowIr {
    /// The no-operation IR instruction at `address`.
    pub fn nop(address: u64) -> (ir: Self)
        ensures
            ir == (DataFlowIr { address, opcode: DataFlowIrOpcode::Nop, operand1: None, operand2: None, operand3: None }),
    {
        DataFlowIr { address, opcode: DataFlowIrOpcode::Nop, operand1: None, operand2: None, operand3: None }
    }

    /// A copy of the instruction.
    pub fn duplicate(&self) -> (r: Self)
        ensures
            r@ == self@,
    {
        DataFlowIr {
            address: self.address,
            opcode: self.opcode,
            operand1: match &self.operand1 {
                Some(o) => Some(o.duplicate()),
                None => None,
            },
            operand2: match &self.operand2 {
                Some(o) => Some(o.duplicate()),
                None => None,
            },
            operand3: match &self.operand3 {
                Some(o) => Some(o.duplicate()),
                None => None,
            },
        }
    }
}

} // verus!
