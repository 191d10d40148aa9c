use vstd::prelude::*;
use crate::data_flow::{IrView, OperandView, irs_view};
use crate::counter::after;
use crate::data_convert::{spec_set_signed, spec_set_unsigned};
use crate::insn::{AssemblyInstruction, Operand};
use crate::data_flow::{
    DataFlowIr, DataFlowIrOpcode, DFIOperand, Number, Relation, DFISymbolRecord, DFISymbolRecordTable,
    Address, DFISymbolType, Size, GRRecord, RegisterRecord, SymbolSet, set_with, contains_equiv,
};

verus! {

/// The abstract state that the instruction handlers of the data-flow
/// analysis work on: the IR emitted so far, what is known of each general
/// register, the symbol table (its symbols and the next value of each of its
/// counters), and the copies of registers and symbols kept for the
/// parameter analysis.
pub struct DFState {
    pub irs: Seq<IrView>,
    pub gr: Seq<GRRecord>,
    pub syms: Seq<DFISymbolRecord>,
    pub tmp: int,
    pub loc: int,
    pub glob: int,
    pub gp: Seq<GRRecord>,
    pub sp: Seq<DFISymbolRecord>,
}

/// The abstract state held by the handlers' arguments.
pub open spec fn df_state(
    irs: Vec<DataFlowIr>,
    gr: Vec<GRRecord>,
    table: DFISymbolRecordTable,
    gp: Vec<GRRecord>,
    sp: SymbolSet,
) -> DFState {
    DFState {
        irs: irs_view(irs@),
        gr: gr@,
        syms: table.symbols@,
        tmp: table.tmp_counter.next_value(),
        loc: table.loc_counter.next_value(),
        glob: table.global_counter.next_value(),
        gp: gp@,
        sp: sp@,
    }
}

/// A register whose content is known to be `v`.
pub open spec fn known(v: RegisterRecord) -> GRRecord {
    GRRecord { value: v, state: true }
}

/// The parameter symbol that an unread register `index` becomes.
pub open spec fn param_symbol(index: int, id: int) -> DFISymbolRecord {
    DFISymbolRecord {
        address: Address::GR(index as usize),
        sym_type: DFISymbolType::Param,
        id: id as usize,
        size: Size::Signed64,
        value: false,
    }
}

/// A temporary held in register `index`.
pub open spec fn temp_symbol(index: int, id: int, size: Size) -> DFISymbolRecord {
    DFISymbolRecord {
        address: Address::GR(index as usize),
        sym_type: DFISymbolType::Temp,
        id: id as usize,
        size,
        value: false,
    }
}

/// The register number named by an instruction operand.
pub open spec fn reg_of(op: Option<Operand>) -> int {
    op.unwrap().value as int
}

/// The immediate of an instruction operand.
pub open spec fn imm_of(op: Option<Operand>) -> int {
    op.unwrap().value as int
}

/// `op` names one of the `n` general registers.
pub open spec fn names_reg(op: Option<Operand>, n: nat) -> bool {
    op is Some && 0 <= op.unwrap().value < n
}

/// The signed form of a register's content, as an operand.
pub open spec fn signed_operand(v: RegisterRecord) -> OperandView {
    match v {
        RegisterRecord::Number(n) => OperandView::Number(Number { signed: true, size: spec_set_signed(n.size), ..n }),
        RegisterRecord::Symbol(s) => OperandView::Symbol(DFISymbolRecord { size: spec_set_signed(s.size), ..s }),
    }
}

/// The unsigned form of a register's content, as an operand.
pub open spec fn unsigned_operand(v: RegisterRecord) -> OperandView {
    match v {
        RegisterRecord::Number(n) => OperandView::Number(Number { signed: false, size: spec_set_unsigned(n.size), ..n }),
        RegisterRecord::Symbol(s) => OperandView::Symbol(DFISymbolRecord { size: spec_set_unsigned(s.size), ..s }),
    }
}

/// A conditional jump on `a relation b` to `target`.
pub open spec fn jcc_ir(address: u64, relation: Relation, a: OperandView, b: OperandView, target: int) -> IrView {
    IrView {
        address,
        opcode: DataFlowIrOpcode::Jcc(relation),
        operand1: Some(a),
        operand2: Some(b),
        operand3: Some(OperandView::Number(Number { value: target as i64, signed: false, size: Size::Unsigned64 })),
    }
}

/// A store of `a` into `b`.
pub open spec fn store_ir(address: u64, a: OperandView, b: OperandView) -> IrView {
    IrView { address, opcode: DataFlowIrOpcode::Store, operand1: Some(a), operand2: Some(b), operand3: None }
}

/// `x` fits in an `i64`.
pub open spec fn fits_i64(x: int) -> bool {
    i64::MIN <= x <= i64::MAX
}

/// The no-operation IR instruction at `address`.
pub open spec fn nop_ir(address: u64) -> IrView {
    IrView { address, opcode: DataFlowIrOpcode::Nop, operand1: None, operand2: None, operand3: None }
}

/// An IR instruction with three operands.
pub open spec fn ir3(
    address: u64,
    opcode: DataFlowIrOpcode,
    a: OperandView,
    b: OperandView,
    c: OperandView,
) -> IrView {
    IrView { address, opcode, operand1: Some(a), operand2: Some(b), operand3: Some(c) }
}

/// The operand form of a register's content.
pub open spec fn reg_operand(v: RegisterRecord) -> OperandView {
    match v {
        RegisterRecord::Number(n) => OperandView::Number(n),
        RegisterRecord::Symbol(s) => OperandView::Symbol(s),
    }
}

impl DFState {
    /// Reading register `i`: one of which nothing is known becomes a fresh
    /// parameter symbol, recorded in both symbol sets.
    pub open spec fn with_param(self, i: int) -> DFState {
        if self.gr[i].state {
            self
        } else {
            let p = param_symbol(i, self.tmp);
            DFState {
                gr: self.gr.update(i, known(RegisterRecord::Symbol(p))),
                gp: self.gp.update(i, known(RegisterRecord::Symbol(p))),
                syms: set_with(self.syms, p),
                sp: set_with(self.sp, p),
                tmp: after(self.tmp),
                ..self
            }
        }
    }

    /// Register `i` (and its copy) is marked known, its content unchanged.
    pub open spec fn with_known(self, i: int) -> DFState {
        DFState {
            gr: self.gr.update(i, GRRecord { state: true, ..self.gr[i] }),
            gp: self.gp.update(i, GRRecord { state: true, ..self.gp[i] }),
            ..self
        }
    }

    /// Register `i` (and its copy) is set to `v`.
    pub open spec fn with_reg(self, i: int, v: RegisterRecord) -> DFState {
        DFState { gr: self.gr.update(i, known(v)), gp: self.gp.update(i, known(v)), ..self }
    }

    /// The copy of register `i` is made equal to the register.
    pub open spec fn with_copy(self, i: int) -> DFState {
        DFState { gp: self.gp.update(i, self.gr[i]), ..self }
    }

    /// Register `i` alone (not its copy) is set to `v`.
    pub open spec fn with_gr(self, i: int, v: RegisterRecord) -> DFState {
        DFState { gr: self.gr.update(i, known(v)), ..self }
    }

    /// `ir` is appended to the emitted IR.
    pub open spec fn with_ir(self, ir: IrView) -> DFState {
        DFState { irs: self.irs.push(ir), ..self }
    }

    /// A no-operation at `address` is appended to the emitted IR.
    pub open spec fn with_nop(self, address: u64) -> DFState {
        self.with_ir(nop_ir(address))
    }

    /// The temporary counter has handed out a value.
    pub open spec fn next_tmp(self) -> DFState {
        DFState { tmp: after(self.tmp), ..self }
    }

    /// The global counter has handed out a value.
    pub open spec fn next_glob(self) -> DFState {
        DFState { glob: after(self.glob), ..self }
    }

    /// `x` is added to both symbol sets.
    pub open spec fn with_symbol(self, x: DFISymbolRecord) -> DFState {
        DFState { syms: set_with(self.syms, x), sp: set_with(self.sp, x), ..self }
    }
}

/// The registers `gr` and their copies `gp` are alike in number and `i` is one of them.
pub open spec fn valid_reg(gr: Seq<GRRecord>, gp: Seq<GRRecord>, i: int) -> bool {
    gr.len() == gp.len() && 0 <= i < gr.len()
}

/// Appends `ir` to the emitted IR.
pub fn push_ir(irs: &mut Vec<DataFlowIr>, ir: DataFlowIr)
    ensures
        final(irs)@ == old(irs)@.push(ir),
        irs_view(final(irs)@) == irs_view(old(irs)@).push(ir@),
{
    irs.push(ir);
    proof {
        assert(irs_view(irs@) =~= irs_view(old(irs)@).push(ir@));
    }
}

/// Turns an unread register `i` into a parameter symbol (see `with_param`).
pub fn ensure_param(
    i: usize,
    irs: &mut Vec<DataFlowIr>,
    gr: &mut Vec<GRRecord>,
    table: &mut DFISymbolRecordTable,
    gp: &mut Vec<GRRecord>,
    sp: &mut SymbolSet,
)
    requires
        valid_reg(old(gr)@, old(gp)@, i as int),
    ensures
        df_state(*final(irs), *final(gr), *final(table), *final(gp), *final(sp))
            == df_state(*old(irs), *old(gr), *old(table), *old(gp), *old(sp)).with_param(i as int),
{
    if !gr[i].state {
        let id = table.tmp_counter.get();
        let p = DFISymbolRecord {
            address: Address::GR(i),
            sym_type: DFISymbolType::Param,
            id,
            size: Size::Signed64,
            value: false,
        };
        table.symbols.insert(p);
        sp.insert(p);
        gr.set(i, GRRecord { value: RegisterRecord::Symbol(p), state: true });
        gp.set(i, GRRecord { value: RegisterRecord::Symbol(p), state: true });
    }
}

/// Marks register `i` (and its copy) known (see `with_known`).
pub fn mark_known(i: usize, gr: &mut Vec<GRRecord>, gp: &mut Vec<GRRecord>)
    requires
        valid_reg(old(gr)@, old(gp)@, i as int),
    ensures
        final(gr)@ == old(gr)@.update(i as int, GRRecord { state: true, ..old(gr)@[i as int] }),
        final(gp)@ == old(gp)@.update(i as int, GRRecord { state: true, ..old(gp)@[i as int] }),
{
    let r = gr[i];
    gr.set(i, GRRecord { value: r.value, state: true });
    let q = gp[i];
    gp.set(i, GRRecord { value: q.value, state: true });
}

/// Sets register `i` (and its copy) to `v` (see `with_reg`).
pub fn put_reg(i: usize, v: RegisterRecord, gr: &mut Vec<GRRecord>, gp: &mut Vec<GRRecord>)
    requires
        valid_reg(old(gr)@, old(gp)@, i as int),
    ensures
        final(gr)@ == old(gr)@.update(i as int, known(v)),
        final(gp)@ == old(gp)@.update(i as int, known(v)),
{
    gr.set(i, GRRecord { value: v, state: true });
    gp.set(i, GRRecord { value: v, state: true });
}

/// Adds `x` to both symbol sets (see `with_symbol`).
pub fn add_symbol(x: DFISymbolRecord, table: &mut DFISymbolRecordTable, sp: &mut SymbolSet)
    ensures
        final(table).symbols@ == set_with(old(table).symbols@, x),
        final(sp)@ == set_with(old(sp)@, x),
        final(table).tmp_counter == old(table).tmp_counter,
        final(table).loc_counter == old(table).loc_counter,
        final(table).global_counter == old(table).global_counter,
{
    table.symbols.insert(x);
    sp.insert(x);
}

/// Adds `x` to both symbol sets when the symbol table holds no symbol equal to it.
pub fn add_new_symbol(x: DFISymbolRecord, table: &mut DFISymbolRecordTable, sp: &mut SymbolSet)
    ensures
        contains_equiv(old(table).symbols@, x) ==> final(table).symbols@ == old(table).symbols@ && final(sp)@ == old(sp)@,
        !contains_equiv(old(table).symbols@, x) ==> final(table).symbols@ == set_with(old(table).symbols@, x)
            && final(sp)@ == set_with(old(sp)@, x),
        final(table).tmp_counter == old(table).tmp_counter,
        final(table).loc_counter == old(table).loc_counter,
        final(table).global_counter == old(table).global_counter,
{
    if table.symbols.insert(x) {
        sp.insert(x);
    }
}

/// Makes the copy of register `i` equal to the register (see `with_copy`).
pub fn copy_reg(i: usize, gr: &Vec<GRRecord>, gp: &mut Vec<GRRecord>)
    requires
        valid_reg(gr@, old(gp)@, i as int),
    ensures
        final(gp)@ == old(gp)@.update(i as int, gr@[i as int]),
{
    let r = gr[i];
    gp.set(i, r);
}

/// The register number named by an operand.
pub fn reg_index(op: &Option<Operand>) -> (i: usize)
    requires
        op is Some,
        0 <= op.unwrap().value <= usize::MAX,
    ensures
        i == op.unwrap().value,
{
    match op {
        Some(o) => o.value as usize,
        None => 0,
    }
}

/// The immediate of an operand.
pub fn imm(op: &Option<Operand>) -> (v: i64)
    requires
        op is Some,
    ensures
        v == op.unwrap().value,
{
    match op {
        Some(o) => o.value,
        None => 0,
    }
}

} // verus!
