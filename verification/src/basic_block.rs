use vstd::prelude::*;
use std::collections::HashMap;
use crate::data_flow::{DataFlowIr, DataFlowIrOpcode, DFIOperand, IrView, OperandView, irs_view};
use crate::block::{Block, Condiction, CondView, opt_cond_view};

verus! {

broadcast use {vstd::std_specs::hash::group_hash_axioms, vstd::std_specs::vec::group_vec_axioms};

/// The value of a block.
pub struct BlockView {
    pub address: u64,
    pub irs: Seq<IrView>,
    pub next: Option<u64>,
    pub condiction: Option<CondView>,
    pub true_next: Option<u64>,
    pub false_next: Option<u64>,
}

impl View for Block {
    type V = BlockView;

    open spec fn view(&self) -> BlockView {
        BlockView {
            address: self.address,
            irs: irs_view(self.irs@),
            next: self.next,
            condiction: opt_cond_view(self.condiction),
            true_next: self.true_next,
            false_next: self.false_next,
        }
    }
}

/// An empty block at address 0 that leads nowhere.
pub open spec fn empty_block() -> BlockView {
    BlockView { address: 0, irs: Seq::empty(), next: None, condiction: None, true_next: None, false_next: None }
}

/// The address a jump names: the first operand of a jump, the third of a
/// conditional jump (0 for anything else).
pub open spec fn jump_target(ir: IrView) -> u64 {
    match ir.opcode {
        DataFlowIrOpcode::Jmp => match ir.operand1 {
            Some(OperandView::Number(n)) => n.value as u64,
            _ => 0,
        },
        DataFlowIrOpcode::Jcc(_) => match ir.operand3 {
            Some(OperandView::Number(n)) => n.value as u64,
            _ => 0,
        },
        _ => 0,
    }
}

/// `ir` is a jump or a conditional jump.
pub open spec fn is_jump(ir: IrView) -> bool {
    ir.opcode is Jmp || ir.opcode is Jcc
}

/// A jump names its target by a number; a conditional jump also has the
/// two operands it compares.
pub open spec fn jump_well_formed(ir: IrView) -> bool {
    &&& (ir.opcode is Jmp ==> (ir.operand1 is Some && ir.operand1.unwrap() is Number))
    &&& (ir.opcode is Jcc ==> (ir.operand3 is Some && ir.operand3.unwrap() is Number && ir.operand1 is Some && ir.operand2 is Some))
}

/// What the first walk over the IR learns: the addresses where blocks
/// start and where they end, and whether the next instruction starts one.
pub struct Marks {
    pub starts: Set<u64>,
    pub ends: Set<u64>,
    pub start: bool,
}

/// The start and end addresses of the blocks of `irs`, whose addresses span
/// `lo` to `hi`: the function's entry, each jump target in the span and the
/// instruction after each such jump start a block; each such jump, and the
/// instruction before its target, end one; after a jump (taken or not) the
/// next instruction starts a block.
pub open spec fn marks(irs: Seq<IrView>, lo: u64, hi: u64) -> Marks
    decreases irs.len(),
{
    if irs.len() == 0 {
        Marks { starts: Set::empty(), ends: Set::empty(), start: true }
    } else {
        let m = marks(irs.drop_last(), lo, hi);
        let ir = irs.last();
        if ir.opcode == DataFlowIrOpcode::Function {
            Marks { starts: m.starts.insert(ir.address), start: false, ..m }
        } else if is_jump(ir) {
            let t = jump_target(ir);
            if lo <= t <= hi {
                Marks {
                    starts: m.starts.insert(t).insert((ir.address + 4) as u64),
                    ends: m.ends.insert((t - 4) as u64).insert(ir.address),
                    start: true,
                }
            } else {
                Marks { start: true, ..m }
            }
        } else if m.start {
            Marks { starts: m.starts.insert(ir.address), start: false, ..m }
        } else {
            m
        }
    }
}

/// The jumps of `irs` are well formed, and those within the span `lo` to
/// `hi` are neither at the last address nor to an address below 4.
pub open spec fn jumps_ok(irs: Seq<IrView>, lo: u64, hi: u64) -> bool {
    forall|i: int| 0 <= i < irs.len() ==> {
        &&& jump_well_formed(#[trigger] irs[i])
        &&& (is_jump(irs[i]) && lo <= jump_target(irs[i]) <= hi ==> irs[i].address + 4 <= u64::MAX && jump_target(irs[i]) >= 4)
    }
}

/// `st` lists the elements of `s` in increasing order.
pub open spec fn sorted_enum(st: Seq<u64>, s: Set<u64>) -> bool {
    &&& st.to_set() == s
    &&& forall|i: int, j: int| 0 <= i < j < st.len() ==> st[i] < st[j]
}

/// The elements of a finite set of addresses in increasing order.
pub open spec fn sorted_of(s: Set<u64>) -> Seq<u64> {
    choose|st: Seq<u64>| sorted_enum(st, s)
}

proof fn lemma_sorted_enum_unique(a: Seq<u64>, b: Seq<u64>, s: Set<u64>)
    requires
        sorted_enum(a, s),
        sorted_enum(b, s),
    ensures
        a == b,
    decreases a.len(),
{
    if a.len() == 0 {
        if b.len() > 0 {
            assert(b.to_set().contains(b[0]));
            assert(!a.to_set().contains(b[0]));
        }
        assert(a =~= b);
    } else {
        assert(a.to_set().contains(a[0]));
        assert(b.to_set().contains(a[0]));
        let jb = choose|j: int| 0 <= j < b.len() && b[j] == a[0];
        assert(b.len() > 0);
        assert(a.to_set().contains(b[0]));
        let ja = choose|j: int| 0 <= j < a.len() && a[j] == b[0];
        if ja > 0 {
            assert(a[0] < a[ja]);
            if jb > 0 {
                assert(b[0] < b[jb]);
            }
        }
        assert(a[0] == b[0]);
        let s2 = s.remove(a[0]);
        assert forall|x: u64| a.drop_first().to_set().contains(x) <==> s2.contains(x) by {
            if a.drop_first().to_set().contains(x) {
                let k = choose|k: int| 0 <= k < a.drop_first().len() && a.drop_first()[k] == x;
                assert(a[k + 1] == x);
                assert(a.to_set().contains(x));
                assert(a[0] < a[k + 1]);
            }
            if s2.contains(x) {
                assert(a.to_set().contains(x));
                let k = choose|k: int| 0 <= k < a.len() && a[k] == x;
                assert(k != 0);
                assert(a.drop_first()[k - 1] == x);
            }
        }
        assert forall|x: u64| b.drop_first().to_set().contains(x) <==> s2.contains(x) by {
            if b.drop_first().to_set().contains(x) {
                let k = choose|k: int| 0 <= k < b.drop_first().len() && b.drop_first()[k] == x;
                assert(b[k + 1] == x);
                assert(b.to_set().contains(x));
                assert(b[0] < b[k + 1]);
            }
            if s2.contains(x) {
                assert(b.to_set().contains(x));
                let k = choose|k: int| 0 <= k < b.len() && b[k] == x;
                assert(k != 0);
                assert(b.drop_first()[k - 1] == x);
            }
        }
        assert(a.drop_first().to_set() =~= s2);
        assert(b.drop_first().to_set() =~= s2);
        lemma_sorted_enum_unique(a.drop_first(), b.drop_first(), s2);
        assert(a =~= b) by {
            assert forall|k: int| 0 <= k < a.len() implies a[k] == b[k] by {
                if k > 0 {
                    assert(a[k] == a.drop_first()[k - 1]);
                    assert(b[k] == b.drop_first()[k - 1]);
                }
            }
        }
    }
}

/// Adds `x` to the increasing list `v` unless it is there.
fn insert_sorted(v: &mut Vec<u64>, x: u64)
    requires
        forall|i: int, j: int| 0 <= i < j < old(v)@.len() ==> old(v)@[i] < old(v)@[j],
    ensures
        sorted_enum(final(v)@, old(v)@.to_set().insert(x)),
{
    let mut i: usize = 0;
    while i < v.len()
        invariant
            i <= v@.len(),
            forall|a: int, b: int| 0 <= a < b < v@.len() ==> v@[a] < v@[b],
            forall|a: int| 0 <= a < i ==> v@[a] < x,
        ensures
            i <= v@.len(),
            forall|a: int| 0 <= a < i ==> v@[a] < x,
            i == v@.len() || v@[i as int] > x,
        decreases v@.len() - i,
    {
        if v[i] == x {
            proof {
                assert(v@.to_set().insert(x) =~= v@.to_set());
            }
            return;
        }
        if v[i] > x {
            break;
        }
        i = i + 1;
    }
    let ghost old_v = v@;
    v.insert(i, x);
    proof {
        assert forall|a: int, b: int| 0 <= a < b < v@.len() implies v@[a] < v@[b] by {
            if b < i {
            } else if b == i {
            } else if a < i {
                assert(v@[b] == old_v[b - 1]);
                if i < old_v.len() {
                    assert(old_v[a] < x);
                }
            } else if a == i {
                assert(v@[b] == old_v[b - 1]);
                assert(old_v[i as int] > x || i == old_v.len());
                if b - 1 > i {
                    assert(old_v[i as int] < old_v[b - 1]);
                }
            } else {
                assert(v@[a] == old_v[a - 1]);
                assert(v@[b] == old_v[b - 1]);
            }
        }
        assert forall|y: u64| v@.to_set().contains(y) <==> old_v.to_set().insert(x).contains(y) by {
            if v@.to_set().contains(y) {
                let k = choose|k: int| 0 <= k < v@.len() && v@[k] == y;
                if k < i {
                    assert(old_v[k] == y);
                } else if k > i {
                    assert(old_v[k - 1] == y);
                }
            }
            if old_v.to_set().contains(y) {
                let k = choose|k: int| 0 <= k < old_v.len() && old_v[k] == y;
                if k < i {
                    assert(v@[k] == y);
                } else {
                    assert(v@[k + 1] == y);
                }
            }
            if y == x {
                assert(v@[i as int] == x);
            }
        }
        assert(v@.to_set() =~= old_v.to_set().insert(x));
    }
}


/// The state of the second walk over the IR: the next start and end
/// addresses to meet, the block being filled and the blocks made so far.
pub struct Split {
    pub si: int,
    pub ei: int,
    pub block: BlockView,
    pub blocks: Seq<BlockView>,
}

/// `b` with `ir` appended.
pub open spec fn with_ir(b: BlockView, ir: IrView) -> BlockView {
    BlockView { irs: b.irs.push(ir), ..b }
}

/// The condition a conditional jump tests.
pub open spec fn jump_condiction(ir: IrView) -> CondView {
    CondView { relation: ir.opcode->Jcc_0, operand1: ir.operand1.unwrap(), operand2: ir.operand2.unwrap() }
}

/// One step of the second walk, at `ir`, with the start addresses `st` and
/// the end addresses `en` in increasing order: at a start address a new
/// block begins (holding `ir` unless it is a jump); at an end address the
/// block is closed, leading to the jump target (a conditional jump also to
/// the next start address, under its condition) or falling through to the
/// next start address; any `ir` not taken into a block so far goes into the
/// block being filled.
pub open spec fn split_step(s: Split, ir: IrView, st: Seq<u64>, en: Seq<u64>) -> Split {
    let starts_here = s.si < st.len() && ir.address == st[s.si];
    let si1 = if starts_here { s.si + 1 } else { s.si };
    let b0 = if starts_here { BlockView { address: ir.address, irs: Seq::empty(), ..s.block } } else { s.block };
    let flag1 = starts_here && !is_jump(ir);
    let b1 = if flag1 { with_ir(b0, ir) } else { b0 };
    if s.ei < en.len() && ir.address == en[s.ei] {
        let next_start = if si1 < st.len() { Some(st[si1]) } else { None };
        let b2 = if ir.opcode is Jmp {
            BlockView { next: Some(jump_target(ir)), ..b1 }
        } else if ir.opcode is Jcc {
            BlockView {
                true_next: Some(jump_target(ir)),
                false_next: if si1 < st.len() { Some(st[si1]) } else { b1.false_next },
                condiction: Some(jump_condiction(ir)),
                ..b1
            }
        } else {
            let b = if !flag1 { with_ir(b1, ir) } else { b1 };
            BlockView { next: if si1 < st.len() { Some(st[si1]) } else { b.next }, ..b }
        };
        let flag2 = flag1 || ir.opcode is Jmp;
        Split {
            si: si1,
            ei: s.ei + 1,
            block: if !flag2 { with_ir(empty_block(), ir) } else { empty_block() },
            blocks: s.blocks.push(b2),
        }
    } else {
        Split { si: si1, ei: s.ei, block: if !flag1 { with_ir(b1, ir) } else { b1 }, blocks: s.blocks }
    }
}

/// The second walk over `irs` (see `split_step`).
pub open spec fn split(irs: Seq<IrView>, st: Seq<u64>, en: Seq<u64>) -> Split
    decreases irs.len(),
{
    if irs.len() == 0 {
        Split { si: 0, ei: 0, block: empty_block(), blocks: Seq::empty() }
    } else {
        split_step(split(irs.drop_last(), st, en), irs.last(), st, en)
    }
}

/// The numbers of the blocks by start address: the function's entry
/// `entry` is 0, the other start addresses 1, 2, ... in increasing order.
pub open spec fn renumber(st: Seq<u64>, entry: u64) -> Map<u64, usize>
    decreases st.len(),
{
    if st.len() == 0 {
        Map::empty()
    } else {
        let m = renumber(st.drop_last(), entry);
        if st.last() == entry {
            m.insert(st.last(), 0)
        } else {
            m.insert(st.last(), (others(st.drop_last(), entry) + 1) as usize)
        }
    }
}

/// The number of elements of `st` other than `entry`.
pub open spec fn others(st: Seq<u64>, entry: u64) -> nat
    decreases st.len(),
{
    if st.len() == 0 {
        0
    } else {
        others(st.drop_last(), entry) + if st.last() == entry { 0nat } else { 1nat }
    }
}

/// An address renumbered by `m`.
pub open spec fn relabel_opt(a: Option<u64>, m: Map<u64, usize>) -> Option<u64> {
    match a {
        Some(x) => Some(m[x] as u64),
        None => None,
    }
}

/// A block with its address and successors renumbered by `m`.
pub open spec fn relabel(b: BlockView, m: Map<u64, usize>) -> BlockView {
    BlockView {
        address: m[b.address] as u64,
        next: relabel_opt(b.next, m),
        true_next: relabel_opt(b.true_next, m),
        false_next: relabel_opt(b.false_next, m),
        ..b
    }
}

/// The blocks `bs` by number, a later block replacing an earlier one.
pub open spec fn block_map(bs: Seq<BlockView>, m: Map<u64, usize>) -> Map<usize, BlockView>
    decreases bs.len(),
{
    if bs.len() == 0 {
        Map::empty()
    } else {
        block_map(bs.drop_last(), m).insert(m[bs.last().address], relabel(bs.last(), m))
    }
}

/// An address is renumbered.
pub open spec fn known_opt(a: Option<u64>, m: Map<u64, usize>) -> bool {
    a matches Some(x) ==> m.contains_key(x)
}

/// Every block's address and successors are start addresses.
pub open spec fn refs_known(bs: Seq<BlockView>, m: Map<u64, usize>) -> bool {
    forall|i: int| 0 <= i < bs.len() ==> {
        &&& m.contains_key((#[trigger] bs[i]).address)
        &&& known_opt(bs[i].next, m)
        &&& known_opt(bs[i].true_next, m)
        &&& known_opt(bs[i].false_next, m)
    }
}

/// The start and end addresses of the blocks of `irs`, in increasing order.
pub open spec fn block_starts(irs: Seq<IrView>) -> Seq<u64> {
    sorted_of(marks(irs, irs[0].address, irs.last().address).starts)
}

/// The end addresses of the blocks of `irs` (the last address among them), in increasing order.
pub open spec fn block_ends(irs: Seq<IrView>) -> Seq<u64> {
    sorted_of(marks(irs, irs[0].address, irs.last().address).ends.insert(irs.last().address))
}

/// The blocks of `irs` by number (see `split`, `renumber`, `block_map`).
pub open spec fn blocks_of(irs: Seq<IrView>) -> Map<usize, BlockView> {
    let st = block_starts(irs);
    block_map(split(irs, st, block_ends(irs)).blocks, renumber(st, irs[0].address))
}

/// `get_blocks` can split `irs`: it is not empty, its jumps are well formed
/// and in range, and every block it forms starts and leads to a start address.
pub open spec fn blocks_ok(irs: Seq<IrView>) -> bool {
    &&& irs.len() > 0
    &&& jumps_ok(irs, irs[0].address, irs.last().address)
    &&& refs_known(split(irs, block_starts(irs), block_ends(irs)).blocks, renumber(block_starts(irs), irs[0].address))
}


/// The values of a sequence of blocks.
pub open spec fn blocks_view(bs: Seq<Block>) -> Seq<BlockView> {
    bs.map_values(|b: Block| b@)
}

/// The address a jump names (see `jump_target`).
fn target_of(ir: &DataFlowIr) -> (t: u64)
    ensures
        t == jump_target(ir@),
{
    match ir.opcode {
        DataFlowIrOpcode::Jmp => match &ir.operand1 {
            Some(DFIOperand::Number(n)) => n.value as u64,
            _ => 0,
        },
        DataFlowIrOpcode::Jcc(_) => match &ir.operand3 {
            Some(DFIOperand::Number(n)) => n.value as u64,
            _ => 0,
        },
        _ => 0,
    }
}

/// The start and end addresses of the blocks of `irs` (see `marks`), the
/// end addresses with the last address added.
fn find_marks(irs: &Vec<DataFlowIr>) -> (r: (Vec<u64>, Vec<u64>))
    requires
        irs@.len() > 0,
        jumps_ok(irs_view(irs@), irs@[0].address, irs@.last().address),
    ensures
        r.0@ == block_starts(irs_view(irs@)),
        r.1@ == block_ends(irs_view(irs@)),
        sorted_enum(r.0@, marks(irs_view(irs@), irs@[0].address, irs@.last().address).starts),
{
    let ghost iv = irs_view(irs@);
    let n = irs.len();
    let lo = irs[0].address;
    let hi = irs[n - 1].address;
    let mut starts: Vec<u64> = Vec::new();
    let mut ends: Vec<u64> = Vec::new();
    let mut start = true;
    let mut i: usize = 0;
    proof {
        assert(iv.take(0) =~= Seq::<IrView>::empty());
        assert(starts@.to_set() =~= Set::<u64>::empty());
        assert(ends@.to_set() =~= Set::<u64>::empty());
    }
    while i < n
        invariant
            i <= n,
            n == irs@.len(),
            iv == irs_view(irs@),
            lo == iv[0].address,
            hi == iv.last().address,
            jumps_ok(iv, lo, hi),
            sorted_enum(starts@, marks(iv.take(i as int), lo, hi).starts),
            sorted_enum(ends@, marks(iv.take(i as int), lo, hi).ends),
            start == marks(iv.take(i as int), lo, hi).start,
        decreases n - i,
    {
        let ir = &irs[i];
        proof {
            assert(iv.take(i + 1).drop_last() =~= iv.take(i as int));
            assert(iv.take(i + 1).last() == iv[i as int]);
            assert(iv[i as int] == ir@);
            assert(jump_well_formed(iv[i as int]));
        }
        let is_jmp = match ir.opcode {
            DataFlowIrOpcode::Jmp => true,
            DataFlowIrOpcode::Jcc(_) => true,
            _ => false,
        };
        if ir.opcode == DataFlowIrOpcode::Function {
            insert_sorted(&mut starts, ir.address);
            start = false;
        } else if is_jmp {
            let t = target_of(ir);
            if lo <= t && t <= hi {
                insert_sorted(&mut starts, t);
                insert_sorted(&mut starts, ir.address + 4);
                insert_sorted(&mut ends, t - 4);
                insert_sorted(&mut ends, ir.address);
            }
            start = true;
        } else if start {
            insert_sorted(&mut starts, ir.address);
            start = false;
        }
        i = i + 1;
    }
    insert_sorted(&mut ends, hi);
    proof {
        assert(iv.take(n as int) =~= iv);
        let m = marks(iv, lo, hi);
        assert(sorted_enum(sorted_of(m.starts), m.starts));
        lemma_sorted_enum_unique(starts@, sorted_of(m.starts), m.starts);
        assert(sorted_enum(sorted_of(m.ends.insert(hi)), m.ends.insert(hi)));
        lemma_sorted_enum_unique(ends@, sorted_of(m.ends.insert(hi)), m.ends.insert(hi));
    }
    (starts, ends)
}


/// The blocks of `irs` (see `split`), given the start and end addresses.
fn split_blocks(irs: &Vec<DataFlowIr>, starts: &Vec<u64>, ends: &Vec<u64>) -> (bs: Vec<Block>)
    requires
        forall|i: int| 0 <= i < irs@.len() ==> jump_well_formed(#[trigger] irs_view(irs@)[i]),
    ensures
        blocks_view(bs@) == split(irs_view(irs@), starts@, ends@).blocks,
{
    let ghost iv = irs_view(irs@);
    let ghost st = starts@;
    let ghost en = ends@;
    let n = irs.len();
    let mut si: usize = 0;
    let mut ei: usize = 0;
    let mut block = Block::new();
    let mut blocks: Vec<Block> = Vec::new();
    let mut i: usize = 0;
    proof {
        assert(iv.take(0) =~= Seq::<IrView>::empty());
        assert(block@.irs =~= Seq::<IrView>::empty());
        assert(blocks_view(blocks@) =~= Seq::<BlockView>::empty());
    }
    while i < n
        invariant
            i <= n,
            n == irs@.len(),
            iv == irs_view(irs@),
            st == starts@,
            en == ends@,
            forall|j: int| 0 <= j < irs@.len() ==> jump_well_formed(#[trigger] iv[j]),
            si <= st.len(),
            ei <= en.len(),
            split(iv.take(i as int), st, en) == (Split { si: si as int, ei: ei as int, block: block@, blocks: blocks_view(blocks@) }),
        decreases n - i,
    {
        let ir = &irs[i];
        let ghost s0 = split(iv.take(i as int), st, en);
        proof {
            assert(iv.take(i + 1).drop_last() =~= iv.take(i as int));
            assert(iv.take(i + 1).last() == iv[i as int]);
            assert(iv[i as int] == ir@);
            assert(jump_well_formed(ir@));
        }
        let is_jmp = match ir.opcode {
            DataFlowIrOpcode::Jmp => true,
            DataFlowIrOpcode::Jcc(_) => true,
            _ => false,
        };
        let mut flag = false;
        let starts_here = si < starts.len() && ir.address == starts[si];
        if starts_here {
            block.irs.clear();
            block.address = ir.address;
            if !is_jmp {
                let ghost before = block.irs@;
                block.irs.push(ir.duplicate());
                proof {
                    assert(irs_view(block.irs@) =~= irs_view(before).push(ir@));
                }
                flag = true;
            }
            si = si + 1;
        }
        proof {
            assert(irs_view(Seq::<DataFlowIr>::empty()) =~= Seq::<IrView>::empty());
        }
        if ei < ends.len() && ir.address == ends[ei] {
            match ir.opcode {
                DataFlowIrOpcode::Jmp => {
                    block.next = Some(target_of(ir));
                    flag = true;
                },
                DataFlowIrOpcode::Jcc(relation) => {
                    block.true_next = Some(target_of(ir));
                    if si < starts.len() {
                        block.false_next = Some(starts[si]);
                    }
                    match (&ir.operand1, &ir.operand2) {
                        (Some(operand1), Some(operand2)) => {
                            block.condiction = Some(Condiction {
                                relation,
                                operand1: operand1.duplicate(),
                                operand2: operand2.duplicate(),
                            });
                        },
                        _ => {},
                    }
                },
                _ => {
                    if !flag {
                        let ghost before = block.irs@;
                        block.irs.push(ir.duplicate());
                        proof {
                            assert(irs_view(block.irs@) =~= irs_view(before).push(ir@));
                        }
                    }
                    if si < starts.len() {
                        block.next = Some(starts[si]);
                    }
                },
            }
            let ghost bv = blocks@;
            let mut done = Block::new();
            std::mem::swap(&mut done, &mut block);
            blocks.push(done);
            proof {
                assert(blocks_view(blocks@) =~= blocks_view(bv).push(done@));
            }
            ei = ei + 1;
        }
        if !flag {
            let ghost before = block.irs@;
            block.irs.push(ir.duplicate());
            proof {
                assert(irs_view(block.irs@) =~= irs_view(before).push(ir@));
            }
        }
        proof {
            assert(split(iv.take(i + 1), st, en) == split_step(s0, ir@, st, en));
        }
        i = i + 1;
    }
    proof {
        assert(iv.take(n as int) =~= iv);
    }
    blocks
}


proof fn lemma_others_bound(st: Seq<u64>, entry: u64)
    ensures
        others(st, entry) <= st.len(),
    decreases st.len(),
{
    if st.len() > 0 {
        lemma_others_bound(st.drop_last(), entry);
    }
}

proof fn lemma_marks_len(irs: Seq<IrView>, lo: u64, hi: u64)
    ensures
        marks(irs, lo, hi).starts.finite(),
        marks(irs, lo, hi).starts.len() <= 2 * irs.len(),
    decreases irs.len(),
{
    if irs.len() > 0 {
        lemma_marks_len(irs.drop_last(), lo, hi);
        let m = marks(irs.drop_last(), lo, hi);
        vstd::set::axiom_set_insert_len(m.starts, irs.last().address);
        let t = jump_target(irs.last());
        vstd::set::axiom_set_insert_len(m.starts, t);
        vstd::set::axiom_set_insert_len(m.starts.insert(t), (irs.last().address + 4) as u64);
    }
}

proof fn lemma_sorted_len(st: Seq<u64>, s: Set<u64>)
    requires
        sorted_enum(st, s),
    ensures
        st.len() == s.len(),
{
    assert(st.no_duplicates()) by {
        assert forall|i: int, j: int| 0 <= i < st.len() && 0 <= j < st.len() && i != j implies st[i] != st[j] by {
            if i < j {
                assert(st[i] < st[j]);
            } else {
                assert(st[j] < st[i]);
            }
        }
    }
    st.unique_seq_to_set();
}

/// The numbers of the blocks by start address (see `renumber`).
fn number_starts(starts: &Vec<u64>, entry: u64) -> (m: HashMap<u64, usize>)
    requires
        starts@.len() < usize::MAX,
    ensures
        m@ == renumber(starts@, entry),
{
    let mut m: HashMap<u64, usize> = HashMap::new();
    let mut c: usize = 1;
    let mut j: usize = 0;
    proof {
        assert(starts@.take(0) =~= Seq::<u64>::empty());
        assert(m@ =~= renumber(starts@.take(0), entry));
    }
    while j < starts.len()
        invariant
            j <= starts@.len(),
            m@ == renumber(starts@.take(j as int), entry),
            c == others(starts@.take(j as int), entry) + 1,
            starts@.len() < usize::MAX,
        decreases starts@.len() - j,
    {
        let s = starts[j];
        proof {
            assert(starts@.take(j + 1).drop_last() =~= starts@.take(j as int));
            assert(starts@.take(j + 1).last() == s);
            lemma_others_bound(starts@.take(j as int), entry);
        }
        if s == entry {
            m.insert(s, 0);
        } else {
            m.insert(s, c);
            c = c + 1;
        }
        j = j + 1;
    }
    proof {
        assert(starts@.take(j as int) =~= starts@);
    }
    m
}

/// An address renumbered by `m` (see `relabel_opt`).
fn relabel_address(a: Option<u64>, m: &HashMap<u64, usize>) -> (r: Option<u64>)
    requires
        known_opt(a, m@),
    ensures
        r == relabel_opt(a, m@),
{
    match a {
        Some(x) => match m.get(&x) {
            Some(v) => Some(*v as u64),
            None => None,
        },
        None => None,
    }
}

/// Splits the IR of a function into basic blocks, numbered from 0 (the
/// entry block) in the order of their start addresses (see `blocks_of`).
pub fn get_blocks(irs: &Vec<DataFlowIr>) -> (r: HashMap<usize, Block>)
    requires
        blocks_ok(irs_view(irs@)),
        2 * irs@.len() < usize::MAX,
    ensures
        forall|k: usize| #[trigger] r@.contains_key(k) <==> blocks_of(irs_view(irs@)).contains_key(k),
        forall|k: usize| #[trigger] r@.contains_key(k) ==> r@[k]@ == blocks_of(irs_view(irs@))[k],
{
    let ghost iv = irs_view(irs@);
    proof {
        assert(iv[0].address == irs@[0].address);
        assert(iv.last().address == irs@.last().address);
        assert forall|i: int| 0 <= i < irs@.len() implies jump_well_formed(#[trigger] irs_view(irs@)[i]) by {
            assert(jumps_ok(iv, iv[0].address, iv.last().address));
            assert(jump_well_formed(iv[i]));
        }
    }
    let entry = irs[0].address;
    let (starts, ends) = find_marks(irs);
    let blocks = split_blocks(irs, &starts, &ends);
    proof {
        let mk = marks(iv, iv[0].address, iv.last().address);
        lemma_marks_len(iv, iv[0].address, iv.last().address);
        assert(iv[0].address == irs@[0].address);
        lemma_sorted_len(starts@, mk.starts);
        assert(iv.len() == irs@.len());
    }
    let m = number_starts(&starts, entry);
    let ghost bs = blocks_view(blocks@);
    let ghost mm = m@;
    let mut res: HashMap<usize, Block> = HashMap::new();
    let ghost mut k: int = 0;
    proof {
        assert(bs.take(0) =~= Seq::<BlockView>::empty());
    }
    for b in it: blocks.into_iter()
        invariant
            it.seq().map_values(|x: Block| x@) == bs,
            k == it.index(),
            mm == m@,
            refs_known(bs, mm),
            forall|x: usize| #[trigger] res@.contains_key(x) <==> block_map(bs.take(k), mm).contains_key(x),
            forall|x: usize| #[trigger] res@.contains_key(x) ==> res@[x]@ == block_map(bs.take(k), mm)[x],
    {
        proof {
            assert(k < bs.len());
            assert(b@ == bs[k]);
            assert(bs.take(k + 1).drop_last() =~= bs.take(k));
            assert(bs.take(k + 1).last() == bs[k]);
            assert(mm.contains_key(bs[k].address));
        }
        let mut b = b;
        let key: usize = match m.get(&b.address) {
            Some(v) => *v,
            None => 0,
        };
        b.address = key as u64;
        b.next = relabel_address(b.next, &m);
        b.true_next = relabel_address(b.true_next, &m);
        b.false_next = relabel_address(b.false_next, &m);
        res.insert(key, b);
        proof {
            k = k + 1;
        }
    }
    proof {
        assert(bs.take(k) =~= bs);
    }
    res
}

} // verus!
