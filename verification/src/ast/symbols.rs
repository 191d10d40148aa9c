use vstd::prelude::*;
use std::collections::HashMap;
use crate::counter::{Counter, after};
use crate::data_flow::{Address, DFIOperand, DFISymbolRecord, Number, Relation, Size};
use crate::block::Condiction;
use crate::ast::{
    AbstractSyntaxTree, ASTSymbol, ASTSymbolValueType, ASTType, AstTypeView, AstView, Operator, Scope, children_av,
    type_of_size, get_ast_type_from_size, lemma_children_av_push,
};

verus! {

broadcast use {vstd::std_specs::hash::group_hash_axioms, vstd::std_specs::vec::group_vec_axioms};

/// The variable numbers given to data-flow symbols, keyed by the symbol's
/// address and id; a key is given a number once.
#[derive(Debug)]
pub struct AddressSymbolMap {
    entries: Vec<((Address, usize), usize)>,
}

impl View for AddressSymbolMap {
    type V = Seq<((Address, usize), usize)>;

    closed spec fn view(&self) -> Seq<((Address, usize), usize)> {
        self.entries@
    }
}

/// The number given to `key` in `ids`, if any (the first entry for it).
pub open spec fn lookup_key(ids: Seq<((Address, usize), usize)>, key: (Address, usize)) -> Option<usize>
    decreases ids.len(),
{
    if ids.len() == 0 {
        None
    } else {
        match lookup_key(ids.drop_last(), key) {
            Some(v) => Some(v),
            None => if ids.last().0 == key { Some(ids.last().1) } else { None },
        }
    }
}

impl AddressSymbolMap {
    /// A map without numbers.
    pub fn new() -> (m: Self)
        ensures
            m@ == Seq::<((Address, usize), usize)>::empty(),
    {
        AddressSymbolMap { entries: Vec::new() }
    }

    /// How many keys have a number.
    pub fn len(&self) -> (n: usize)
        ensures
            n == self@.len(),
    {
        self.entries.len()
    }

    /// The number given to `key`, if any.
    pub fn get(&self, key: &(Address, usize)) -> (r: Option<usize>)
        ensures
            r == lookup_key(self@, *key),
    {
        let mut i: usize = 0;
        proof {
            assert(self.entries@.take(0) =~= Seq::<((Address, usize), usize)>::empty());
        }
        while i < self.entries.len()
            invariant
                i <= self.entries@.len(),
                lookup_key(self.entries@.take(i as int), *key) is None,
            decreases self.entries@.len() - i,
        {
            let e = self.entries[i];
            proof {
                assert(self.entries@.take(i as int + 1).drop_last() =~= self.entries@.take(i as int));
                assert(self.entries@.take(i as int + 1).last() == e);
            }
            if e.0.0 == key.0 && e.0.1 == key.1 {
                proof {
                    lemma_lookup_key_prefix(self.entries@, *key, i as int + 1);
                }
                return Some(e.1);
            }
            i = i + 1;
        }
        proof {
            assert(self.entries@.take(i as int) =~= self.entries@);
        }
        None
    }

    /// Gives `key` the number `v`.
    fn insert(&mut self, key: (Address, usize), v: usize)
        ensures
            final(self)@ == old(self)@.push((key, v)),
    {
        self.entries.push((key, v));
    }
}

proof fn lemma_lookup_key_prefix(ids: Seq<((Address, usize), usize)>, key: (Address, usize), k: int)
    requires
        0 <= k <= ids.len(),
        lookup_key(ids.take(k), key) is Some,
    ensures
        lookup_key(ids, key) == lookup_key(ids.take(k), key),
    decreases ids.len() - k,
{
    if k < ids.len() {
        assert(ids.take(k + 1).drop_last() =~= ids.take(k));
        lemma_lookup_key_prefix(ids, key, k + 1);
    } else {
        assert(ids.take(k) =~= ids);
    }
}

/// What the naming of variables knows: the numbers given to symbols, the
/// variables by number, and the next number.
pub struct SymState {
    pub ids: Seq<((Address, usize), usize)>,
    pub syms: Map<usize, ASTSymbol>,
    pub next: int,
}

/// Every number given to a symbol names a variable.
pub open spec fn ids_known(st: SymState) -> bool {
    forall|i: int| 0 <= i < st.ids.len() ==> st.syms.contains_key(#[trigger] st.ids[i].1)
}

/// The scope of a variable at an address: the stack is local, memory is
/// global, registers are temporary.
pub open spec fn scope_of(a: Address) -> Scope {
    match a {
        Address::Stack(_) => Scope::Local,
        Address::Memory(_) => Scope::Global,
        _ => Scope::Temp,
    }
}

/// The variable numbered for the symbol `sym` and the naming after the
/// numbering: the variable already numbered for the symbol's address and
/// id, or a new one with the next number and the type of the symbol's width
/// (temporary, in register 0), the key then given that number.
pub open spec fn base_step(sym: DFISymbolRecord, st: SymState) -> (ASTSymbol, SymState) {
    let key = (sym.address, sym.id);
    match lookup_key(st.ids, key) {
        Some(sid) => (st.syms[sid], st),
        None => (
            ASTSymbol { id: st.next as usize, select_type: type_of_size(sym.size), scope: Scope::Temp, address: Address::GR(0) },
            SymState { ids: st.ids.push((key, st.next as usize)), next: after(st.next), ..st },
        ),
    }
}

/// The variable `s` recorded by its number.
pub open spec fn record(st: SymState, s: ASTSymbol) -> SymState {
    SymState { syms: st.syms.insert(s.id, s), ..st }
}

/// The variable of the symbol `sym` and the naming after it: the variable
/// of `base_step`, with the scope of the symbol's address, recorded.
pub open spec fn create_step(sym: DFISymbolRecord, st: SymState) -> (ASTSymbol, SymState) {
    let (b, st1) = base_step(sym, st);
    let s = ASTSymbol { scope: scope_of(sym.address), ..b };
    (s, record(st1, s))
}

/// The naming state of the maps and the counter.
pub open spec fn sym_state(ids: &AddressSymbolMap, syms: &HashMap<usize, ASTSymbol>, counter: &Counter) -> SymState {
    SymState { ids: ids@, syms: syms@, next: counter.next_value() }
}

/// The variable numbered for `symbol` (see `base_step`).
pub(crate) fn base_symbol(
    symbol: &DFISymbolRecord,
    address_symbol_map: &mut AddressSymbolMap,
    ast_symbol_map: &HashMap<usize, ASTSymbol>,
    counter: &mut Counter,
) -> (r: ASTSymbol)
    requires
        ids_known(sym_state(old(address_symbol_map), ast_symbol_map, old(counter))),
    ensures
        (r, sym_state(final(address_symbol_map), ast_symbol_map, final(counter)))
            == base_step(*symbol, sym_state(old(address_symbol_map), ast_symbol_map, old(counter))),
        forall|i: int| 0 <= i < final(address_symbol_map)@.len() ==> ast_symbol_map@.contains_key(
            #[trigger] final(address_symbol_map)@[i].1) || final(address_symbol_map)@[i].1 == r.id,
{
    let ghost st = sym_state(address_symbol_map, ast_symbol_map, counter);
    let key = (symbol.address, symbol.id);
    match address_symbol_map.get(&key) {
        Some(sid) => {
            proof {
                lemma_lookup_key_in(st.ids, key);
            }
            let r = *ast_symbol_map.get(&sid).unwrap();
            proof {
                assert forall|i: int| 0 <= i < address_symbol_map@.len() implies ast_symbol_map@.contains_key(
                    #[trigger] address_symbol_map@[i].1) || address_symbol_map@[i].1 == r.id by {
                    assert(st.syms.contains_key(st.ids[i].1));
                }
            }
            r
        },
        None => {
            let sid = counter.get();
            address_symbol_map.insert(key, sid);
            let mut s = ASTSymbol::new(sid);
            s.select_type = get_ast_type_from_size(&symbol.size);
            proof {
                assert forall|i: int| 0 <= i < address_symbol_map@.len() implies ast_symbol_map@.contains_key(
                    #[trigger] address_symbol_map@[i].1) || address_symbol_map@[i].1 == s.id by {
                    if i < st.ids.len() {
                        assert(address_symbol_map@[i] == st.ids[i]);
                    }
                }
            }
            s
        },
    }
}

/// The scope of a variable at `address` (see `scope_of`).
pub(crate) fn scope_at(address: &Address) -> (s: Scope)
    ensures
        s == scope_of(*address),
{
    match address {
        Address::Stack(_) => Scope::Local,
        Address::Memory(_) => Scope::Global,
        Address::GR(_) => Scope::Temp,
        Address::FR(_) => Scope::Temp,
    }
}

/// The variable of the symbol `symbol` (see `create_step`).
pub fn create_symbol(
    symbol: &DFISymbolRecord,
    address_symbol_map: &mut AddressSymbolMap,
    ast_symbol_map: &mut HashMap<usize, ASTSymbol>,
    counter: &mut Counter,
) -> (r: ASTSymbol)
    requires
        ids_known(sym_state(old(address_symbol_map), old(ast_symbol_map), old(counter))),
    ensures
        (r, sym_state(final(address_symbol_map), final(ast_symbol_map), final(counter)))
            == create_step(*symbol, sym_state(old(address_symbol_map), old(ast_symbol_map), old(counter))),
        ids_known(sym_state(final(address_symbol_map), final(ast_symbol_map), final(counter))),
{
    let ghost st = sym_state(address_symbol_map, ast_symbol_map, counter);
    let mut ast_symbol = base_symbol(symbol, address_symbol_map, ast_symbol_map, counter);
    ast_symbol.scope = scope_at(&symbol.address);
    ast_symbol_map.insert(ast_symbol.id, ast_symbol);
    proof {
        let st2 = sym_state(address_symbol_map, ast_symbol_map, counter);
        assert forall|i: int| 0 <= i < st2.ids.len() implies st2.syms.contains_key(#[trigger] st2.ids[i].1) by {
            assert(ast_symbol_map@.contains_key(st2.ids[i].1) || st2.ids[i].1 == ast_symbol.id);
        }
        assert((ast_symbol, st2) == create_step(*symbol, st));
    }
    ast_symbol
}

proof fn lemma_lookup_key_in(ids: Seq<((Address, usize), usize)>, key: (Address, usize))
    requires
        lookup_key(ids, key) is Some,
    ensures
        exists|i: int| 0 <= i < ids.len() && ids[i].1 == lookup_key(ids, key)->Some_0,
    decreases ids.len(),
{
    match lookup_key(ids.drop_last(), key) {
        Some(v) => {
            lemma_lookup_key_in(ids.drop_last(), key);
            let i = choose|i: int| 0 <= i < ids.drop_last().len() && ids.drop_last()[i].1 == v;
            assert(ids[i].1 == v);
        },
        None => {
            assert(ids[ids.len() - 1].1 == lookup_key(ids, key)->Some_0);
        },
    }
}

proof fn lemma_lookup_key_push(ids: Seq<((Address, usize), usize)>, key: (Address, usize), e: ((Address, usize), usize))
    ensures
        lookup_key(ids.push(e), key) == match lookup_key(ids, key) {
            Some(v) => Some(v),
            None => if e.0 == key { Some(e.1) } else { None },
        },
{
    assert(ids.push(e).drop_last() =~= ids);
}

/// A symbol keeps its variable: naming a symbol with the same address and
/// id again gives the variable the same number, and numbers nothing new.
pub proof fn lemma_create_step_stable(a: DFISymbolRecord, b: DFISymbolRecord, st: SymState)
    requires
        a.address == b.address,
        a.id == b.id,
    ensures
        create_step(b, create_step(a, st).1).0.id == create_step(a, st).0.id,
        create_step(b, create_step(a, st).1).1.ids == create_step(a, st).1.ids,
        create_step(b, create_step(a, st).1).1.next == create_step(a, st).1.next,
{
    let key = (a.address, a.id);
    let (v, st1) = create_step(a, st);
    match lookup_key(st.ids, key) {
        Some(sid) => {
            assert(lookup_key(st1.ids, key) == Some(sid));
        },
        None => {
            lemma_lookup_key_push(st.ids, key, (key, st.next as usize));
            assert(lookup_key(st1.ids, key) == Some(st.next as usize));
            assert(st1.syms[st.next as usize] == v);
        },
    }
}

/// A number whose signedness agrees with its width.
pub open spec fn number_typed(n: Number) -> bool {
    if n.signed {
        n.size == Size::Signed8 || n.size == Size::Signed16 || n.size == Size::Signed32 || n.size == Size::Signed64
    } else {
        n.size == Size::Unsigned8 || n.size == Size::Unsigned16 || n.size == Size::Unsigned32 || n.size == Size::Unsigned64
    }
}

/// An operand of a condition is a symbol or a number whose signedness
/// agrees with its width.
pub open spec fn operand_parsable(o: DFIOperand) -> bool {
    match o {
        DFIOperand::Number(n) => number_typed(n),
        DFIOperand::Symbol(_) => true,
        DFIOperand::Parameter(_) => false,
    }
}

/// The leaf of an operand and the naming after it: a number becomes an
/// integer of its type, a symbol the variable `create_step` gives it.
pub open spec fn operand_step(o: DFIOperand, st: SymState) -> (AstView, SymState) {
    match o {
        DFIOperand::Number(n) => (
            AstView { ast_type: AstTypeView::Integer(n.signed, type_of_size(n.size)), value: n.value as u64, next: Seq::empty() },
            st,
        ),
        DFIOperand::Symbol(s) => {
            let (v, st2) = create_step(s, st);
            (AstView { ast_type: AstTypeView::Variable(s.value), value: v.id as u64, next: Seq::empty() }, st2)
        },
        DFIOperand::Parameter(_) => (AstView { ast_type: AstTypeView::Begin("None"@), value: 0, next: Seq::empty() }, st),
    }
}

/// The tree of a condition: a `Condiction` node with the leaves of its two
/// operands, named in order.
pub open spec fn condiction_step(c: Condiction, st: SymState) -> (AstView, SymState) {
    let (a1, st1) = operand_step(c.operand1, st);
    let (a2, st2) = operand_step(c.operand2, st1);
    (AstView { ast_type: AstTypeView::Condiction(c.relation), value: 0, next: seq![a1, a2] }, st2)
}

/// The number type of `number`.
fn get_number_type(number: &Number) -> (t: ASTSymbolValueType)
    requires
        number_typed(*number),
    ensures
        t == type_of_size(number.size),
{
    get_ast_type_from_size(&number.size)
}

/// The leaf of an operand (see `operand_step`).
fn parse_operand(
    o: &DFIOperand,
    address_symbol_map: &mut AddressSymbolMap,
    ast_symbol_map: &mut HashMap<usize, ASTSymbol>,
    counter: &mut Counter,
) -> (r: AbstractSyntaxTree)
    requires
        operand_parsable(*o),
        ids_known(sym_state(old(address_symbol_map), old(ast_symbol_map), old(counter))),
    ensures
        (r.av(), sym_state(final(address_symbol_map), final(ast_symbol_map), final(counter)))
            == operand_step(*o, sym_state(old(address_symbol_map), old(ast_symbol_map), old(counter))),
        ids_known(sym_state(final(address_symbol_map), final(ast_symbol_map), final(counter))),
{
    match o {
        DFIOperand::Number(n) => {
            let t = get_number_type(n);
            AbstractSyntaxTree::leaf(ASTType::Integer(n.signed, t), n.value as u64)
        },
        DFIOperand::Symbol(s) => {
            let v = create_symbol(s, address_symbol_map, ast_symbol_map, counter);
            AbstractSyntaxTree::leaf(ASTType::Variable(s.value), v.id as u64)
        },
        DFIOperand::Parameter(_) => AbstractSyntaxTree::new(),
    }
}

impl AbstractSyntaxTree {
    /// The tree of the condition `condiction` (see `condiction_step`).
    pub fn parse_condiction(
        condiction: Condiction,
        address_symbol_map: &mut AddressSymbolMap,
        ast_symbol_map: &mut HashMap<usize, ASTSymbol>,
        counter: &mut Counter,
    ) -> (r: AbstractSyntaxTree)
        requires
            operand_parsable(condiction.operand1),
            operand_parsable(condiction.operand2),
            ids_known(sym_state(old(address_symbol_map), old(ast_symbol_map), old(counter))),
        ensures
            (r.av(), sym_state(final(address_symbol_map), final(ast_symbol_map), final(counter)))
                == condiction_step(condiction, sym_state(old(address_symbol_map), old(ast_symbol_map), old(counter))),
            ids_known(sym_state(final(address_symbol_map), final(ast_symbol_map), final(counter))),
    {
        let a1 = parse_operand(&condiction.operand1, address_symbol_map, ast_symbol_map, counter);
        let a2 = parse_operand(&condiction.operand2, address_symbol_map, ast_symbol_map, counter);
        let mut ast = AbstractSyntaxTree::leaf(ASTType::Condiction(condiction.relation), 0);
        let ghost n0 = ast.next@;
        ast.next.push(Box::new(a1));
        proof {
            lemma_children_av_push(n0, Box::new(a1));
        }
        let ghost n1 = ast.next@;
        ast.next.push(Box::new(a2));
        proof {
            lemma_children_av_push(n1, Box::new(a2));
            assert(children_av(n0) =~= Seq::<AstView>::empty());
            assert(children_av(ast.next@) =~= seq![a1.av(), a2.av()]);
        }
        ast
    }
}

/// The trees of the conditions `cs`, named in order.
pub open spec fn and_step(cs: Seq<Condiction>, st: SymState) -> (Seq<AstView>, SymState)
    decreases cs.len(),
{
    if cs.len() == 0 {
        (Seq::empty(), st)
    } else {
        let (p, st1) = and_step(cs.drop_last(), st);
        let (a, st2) = condiction_step(cs.last(), st1);
        (p.push(a), st2)
    }
}

/// The `And` nodes of the groups of conditions `css`, named in order.
pub open spec fn or_step(css: Seq<Seq<Condiction>>, st: SymState) -> (Seq<AstView>, SymState)
    decreases css.len(),
{
    if css.len() == 0 {
        (Seq::empty(), st)
    } else {
        let (p, st1) = or_step(css.drop_last(), st);
        let (ands, st2) = and_step(css.last(), st1);
        (p.push(AstView { ast_type: AstTypeView::Operator(Operator::And), value: 0, next: ands }), st2)
    }
}

/// The tree of the access conditions `css` (any group holds, all of a
/// group's conditions hold): a `Condictions` node over an `Or` node over
/// an `And` node for each group.
pub open spec fn access_step(css: Seq<Seq<Condiction>>, st: SymState) -> (AstView, SymState) {
    let (ors, st2) = or_step(css, st);
    (
        AstView {
            ast_type: AstTypeView::Condictions,
            value: 0,
            next: seq![AstView { ast_type: AstTypeView::Operator(Operator::Or), value: 0, next: ors }],
        },
        st2,
    )
}

/// The groups of conditions held in `v`.
pub open spec fn groups(v: Seq<Vec<Condiction>>) -> Seq<Seq<Condiction>> {
    v.map_values(|g: Vec<Condiction>| g@)
}

/// Every condition of every group can be parsed.
pub open spec fn groups_parsable(css: Seq<Seq<Condiction>>) -> bool {
    forall|i: int, j: int| 0 <= i < css.len() && 0 <= j < css[i].len()
        ==> operand_parsable((#[trigger] css[i][j]).operand1) && operand_parsable(css[i][j].operand2)
}

impl AbstractSyntaxTree {
    /// The tree of the access conditions `condiction` (see `access_step`).
    pub fn parse_access_condiction(
        condiction: Vec<Vec<Condiction>>,
        address_symbol_map: &mut AddressSymbolMap,
        ast_symbol_map: &mut HashMap<usize, ASTSymbol>,
        counter: &mut Counter,
    ) -> (r: AbstractSyntaxTree)
        requires
            groups_parsable(groups(condiction@)),
            ids_known(sym_state(old(address_symbol_map), old(ast_symbol_map), old(counter))),
        ensures
            (r.av(), sym_state(final(address_symbol_map), final(ast_symbol_map), final(counter)))
                == access_step(groups(condiction@), sym_state(old(address_symbol_map), old(ast_symbol_map), old(counter))),
            ids_known(sym_state(final(address_symbol_map), final(ast_symbol_map), final(counter))),
    {
        let ghost css = groups(condiction@);
        let ghost st0 = sym_state(address_symbol_map, ast_symbol_map, counter);
        let mut or_ast = AbstractSyntaxTree::leaf(ASTType::Operator(Operator::Or), 0);
        let ghost all = condiction@;
        let ghost mut k: int = 0;
        proof {
            assert(css.take(0) =~= Seq::<Seq<Condiction>>::empty());
            assert(children_av(or_ast.next@) =~= Seq::<AstView>::empty());
        }
        for andcv in it: condiction.into_iter()
            invariant
                it.seq() == all,
                k == it.index(),
                css == groups(all),
                groups_parsable(css),
                ids_known(sym_state(address_symbol_map, ast_symbol_map, counter)),
                or_ast.ast_type@ == AstTypeView::Operator(Operator::Or),
                or_ast.value == 0,
                (children_av(or_ast.next@), sym_state(address_symbol_map, ast_symbol_map, counter))
                    == or_step(css.take(k), st0),
        {
            proof {
                assert(k < all.len());
                assert(andcv == all[k]);
                assert(css.take(k + 1).drop_last() =~= css.take(k));
                assert(css.take(k + 1).last() == andcv@);
            }
            let ghost cs = andcv@;
            let ghost st1 = sym_state(address_symbol_map, ast_symbol_map, counter);
            let mut and_ast = AbstractSyntaxTree::leaf(ASTType::Operator(Operator::And), 0);
            let ghost mut j: int = 0;
            proof {
                assert(cs.take(0) =~= Seq::<Condiction>::empty());
                assert(children_av(and_ast.next@) =~= Seq::<AstView>::empty());
            }
            for c in jt: andcv.into_iter()
                invariant
                    jt.seq() == cs,
                    j == jt.index(),
                    forall|q: int| 0 <= q < cs.len() ==> operand_parsable((#[trigger] cs[q]).operand1) && operand_parsable(cs[q].operand2),
                    ids_known(sym_state(address_symbol_map, ast_symbol_map, counter)),
                    and_ast.ast_type@ == AstTypeView::Operator(Operator::And),
                    and_ast.value == 0,
                    (children_av(and_ast.next@), sym_state(address_symbol_map, ast_symbol_map, counter))
                        == and_step(cs.take(j), st1),
            {
                proof {
                    assert(j < cs.len());
                    assert(c == cs[j]);
                    assert(cs.take(j + 1).drop_last() =~= cs.take(j));
                    assert(cs.take(j + 1).last() == c);
                }
                let cond_ast = AbstractSyntaxTree::parse_condiction(c, address_symbol_map, ast_symbol_map, counter);
                let ghost prev = and_ast.next@;
                and_ast.next.push(Box::new(cond_ast));
                proof {
                    lemma_children_av_push(prev, Box::new(cond_ast));
                    j = j + 1;
                }
            }
            proof {
                assert(cs.take(j) =~= cs);
            }
            let ghost prev = or_ast.next@;
            or_ast.next.push(Box::new(and_ast));
            proof {
                lemma_children_av_push(prev, Box::new(and_ast));
                k = k + 1;
            }
        }
        proof {
            assert(css.take(k) =~= css);
        }
        let mut ast = AbstractSyntaxTree::leaf(ASTType::Condictions, 0);
        let ghost n0 = ast.next@;
        ast.next.push(Box::new(or_ast));
        proof {
            lemma_children_av_push(n0, Box::new(or_ast));
            assert(children_av(n0) =~= Seq::<AstView>::empty());
            assert(children_av(ast.next@) =~= seq![or_ast.av()]);
        }
        ast
    }
}

} // verus!
