use vstd::prelude::*;
use crate::data_flow::{Address, Relation, Size};




pub mod symbols;
pub mod parse;
pub mod assign_refined;
pub mod text;
pub mod render;
pub mod from_tree;
pub mod type_fix;

verus! {

broadcast use vstd::std_specs::vec::group_vec_axioms;

/// The C type given to a variable or a number.
#[derive(Debug, Clone, Copy, PartialEq, Eq, Structural)]
pub enum ASTSymbolValueType {
    UnsignedChar,
    Char,
    UnsignedShort,
    Short,
    UnsignedInt,
    Int,
    UnsignedLong,
    Long,
    PtrUnsignedChar,
    PtrChar,
    PtrUnsignedShort,
    PtrShort,
    PtrUnsignedInt,
    PtrInt,
    PtrUnsignedLong,
    PtrLong,
    Unknown,
    Ptr,
}

/// Where a variable lives.
#[derive(Debug, Clone, Copy, PartialEq, Eq, Structural)]
pub enum Scope {
    Local,
    Global,
    Temp,
}

/// A variable of the syntax tree: its number, type, scope and address.
#[derive(Debug, Clone, Copy)]
pub struct ASTSymbol {
    pub id: usize,
    pub select_type: ASTSymbolValueType,
    pub scope: Scope,
    pub address: Address,
}

/// An operator of an expression or of a combination of conditions.
#[derive(Debug, Clone, Copy, PartialEq, Eq, Structural)]
pub enum Operator {
    Add,
    Sub,
    Mul,
    Div,
    And,
    Or,
    Xor,
    Not,
}

/// What a node of the syntax tree stands for.
#[derive(Debug, Clone)]
pub enum ASTType {
    Begin(String),
    FunctionReturn(ASTSymbolValueType, bool),
    EndReturn,
    Function(String),
    Parameter,
    Return,
    Loop,
    Break,
    Continue,
    Assign(bool),
    If,
    Condiction(Relation),
    Condictions,
    True,
    False,
    Operator(Operator),
    Variable(bool),
    Integer(bool, ASTSymbolValueType),
    Float(bool, ASTSymbolValueType),
    While,
}

/// A node of the syntax tree of a function: what it stands for, a value (a
/// variable number, a number, or an address) and its children.
#[derive(Debug)]
pub struct AbstractSyntaxTree {
    pub ast_type: ASTType,
    pub value: u64,
    pub next: Vec<Box<AbstractSyntaxTree>>,
}

/// The value of a node kind: names are sequences of characters.
pub enum AstTypeView {
    Begin(Seq<char>),
    FunctionReturn(ASTSymbolValueType, bool),
    EndReturn,
    Function(Seq<char>),
    Parameter,
    Return,
    Loop,
    Break,
    Continue,
    Assign(bool),
    If,
    Condiction(Relation),
    Condictions,
    True,
    False,
    Operator(Operator),
    Variable(bool),
    Integer(bool, ASTSymbolValueType),
    Float(bool, ASTSymbolValueType),
    While,
}

impl View for ASTType {
    type V = AstTypeView;

    open spec fn view(&self) -> AstTypeView {
        match self {
            ASTType::Begin(s) => AstTypeView::Begin(s@),
            ASTType::FunctionReturn(t, p) => AstTypeView::FunctionReturn(*t, *p),
            ASTType::EndReturn => AstTypeView::EndReturn,
            ASTType::Function(s) => AstTypeView::Function(s@),
            ASTType::Parameter => AstTypeView::Parameter,
            ASTType::Return => AstTypeView::Return,
            ASTType::Loop => AstTypeView::Loop,
            ASTType::Break => AstTypeView::Break,
            ASTType::Continue => AstTypeView::Continue,
            ASTType::Assign(b) => AstTypeView::Assign(*b),
            ASTType::If => AstTypeView::If,
            ASTType::Condiction(r) => AstTypeView::Condiction(*r),
            ASTType::Condictions => AstTypeView::Condictions,
            ASTType::True => AstTypeView::True,
            ASTType::False => AstTypeView::False,
            ASTType::Operator(o) => AstTypeView::Operator(*o),
            ASTType::Variable(b) => AstTypeView::Variable(*b),
            ASTType::Integer(b, t) => AstTypeView::Integer(*b, *t),
            ASTType::Float(b, t) => AstTypeView::Float(*b, *t),
            ASTType::While => AstTypeView::While,
        }
    }
}

/// The value of a syntax tree.
pub struct AstView {
    pub ast_type: AstTypeView,
    pub value: u64,
    pub next: Seq<AstView>,
}

impl AbstractSyntaxTree {
    /// The value of the tree.
    pub open spec fn av(&self) -> AstView
        decreases self,
    {
        AstView { ast_type: self.ast_type@, value: self.value, next: children_av(self.next@) }
    }
}

/// The values of a sequence of trees.
pub open spec fn children_av(s: Seq<Box<AbstractSyntaxTree>>) -> Seq<AstView>
    decreases s,
{
    if s.len() == 0 {
        Seq::empty()
    } else {
        children_av(s.drop_last()).push(s.last().av())
    }
}

pub proof fn lemma_children_av_push(s: Seq<Box<AbstractSyntaxTree>>, x: Box<AbstractSyntaxTree>)
    ensures
        children_av(s.push(x)) == children_av(s).push(x.av()),
{
    assert(s.push(x).drop_last() =~= s);
}

pub proof fn lemma_children_av_take(s: Seq<Box<AbstractSyntaxTree>>, k: int)
    requires
        0 <= k < s.len(),
    ensures
        children_av(s.take(k + 1)) == children_av(s.take(k)).push(s[k].av()),
{
    assert(s.take(k + 1).drop_last() =~= s.take(k));
}

pub proof fn lemma_children_av_index(s: Seq<Box<AbstractSyntaxTree>>, i: int)
    requires
        0 <= i < s.len(),
    ensures
        children_av(s).len() == s.len(),
        children_av(s)[i] == s[i].av(),
    decreases s.len(),
{
    if i < s.len() - 1 {
        lemma_children_av_index(s.drop_last(), i);
    } else {
        lemma_children_av_len(s.drop_last());
    }
}

pub proof fn lemma_children_av_insert(s: Seq<Box<AbstractSyntaxTree>>, i: int, x: Box<AbstractSyntaxTree>)
    requires
        0 <= i <= s.len(),
    ensures
        children_av(s.insert(i, x)) == children_av(s).insert(i, x.av()),
{
    let t = s.insert(i, x);
    s.insert_ensures(i, x);
    lemma_children_av_len(s);
    lemma_children_av_len(t);
    children_av(s).insert_ensures(i, x.av());
    assert forall|k: int| 0 <= k < t.len() implies children_av(t)[k] == children_av(s).insert(i, x.av())[k] by {
        lemma_children_av_index(t, k);
        if k < i {
            lemma_children_av_index(s, k);
        } else if k > i {
            lemma_children_av_index(s, k - 1);
            assert(t[k] == s[k - 1]);
        }
    }
    assert(children_av(t) =~= children_av(s).insert(i, x.av()));
}

pub proof fn lemma_children_av_len(s: Seq<Box<AbstractSyntaxTree>>)
    ensures
        children_av(s).len() == s.len(),
    decreases s.len(),
{
    if s.len() > 0 {
        lemma_children_av_len(s.drop_last());
    }
}

impl ASTSymbol {
    /// A temporary variable numbered `id`, of unknown type, in register 0.
    pub fn new(id: usize) -> (s: Self)
        ensures
            s.id == id,
            s.select_type == ASTSymbolValueType::Unknown,
            s.scope == Scope::Temp,
            s.address == Address::GR(0),
    {
        ASTSymbol { id, select_type: ASTSymbolValueType::Unknown, scope: Scope::Temp, address: Address::GR(0) }
    }
}

impl AbstractSyntaxTree {
    /// A leaf `Begin("None")` with value 0.
    pub fn new() -> (t: Self)
        ensures
            t.ast_type@ == AstTypeView::Begin("None"@),
            t.value == 0,
            t.next@.len() == 0,
            t.av() == (AstView { ast_type: AstTypeView::Begin("None"@), value: 0, next: Seq::empty() }),
    {
        let t = AbstractSyntaxTree { ast_type: ASTType::Begin("None".to_owned()), value: 0, next: Vec::new() };
        proof {
            assert(children_av(t.next@) =~= Seq::<AstView>::empty());
        }
        t
    }

    /// A leaf of kind `ast_type` with value `value`.
    pub fn leaf(ast_type: ASTType, value: u64) -> (t: Self)
        ensures
            t.ast_type == ast_type,
            t.value == value,
            t.next@.len() == 0,
            t.av() == (AstView { ast_type: ast_type@, value, next: Seq::empty() }),
    {
        let t = AbstractSyntaxTree { ast_type, value, next: Vec::new() };
        proof {
            assert(children_av(t.next@) =~= Seq::<AstView>::empty());
        }
        t
    }

    /// A copy of the tree.
    pub fn duplicate(&self) -> (r: Self)
        ensures
            r.av() == self.av(),
        decreases self,
    {
        let mut next: Vec<Box<AbstractSyntaxTree>> = Vec::new();
        let mut i: usize = 0;
        proof {
            assert(self.next@.take(0) =~= Seq::<Box<AbstractSyntaxTree>>::empty());
        }
        while i < self.next.len()
            invariant
                i <= self.next@.len(),
                children_av(next@) == children_av(self.next@.take(i as int)),
            decreases self.next@.len() - i,
        {
            proof {
                assert(decreases_to!(self => self.next));
                assert(decreases_to!(self.next => self.next@));
                assert(decreases_to!(self.next@ => self.next@[i as int]));
                lemma_children_av_take(self.next@, i as int);
            }
            let c = self.next[i].duplicate();
            let ghost prev = next@;
            next.push(Box::new(c));
            proof {
                lemma_children_av_push(prev, Box::new(c));
            }
            i = i + 1;
        }
        proof {
            assert(self.next@.take(i as int) =~= self.next@);
        }
        AbstractSyntaxTree { ast_type: copy_ast_type(&self.ast_type), value: self.value, next }
    }

    /// The last node of kind `ast_type` met walking the tree from the root,
    /// children in order, without going below a node of that kind (see
    /// `m_search_type`); `target` stays as it was where there is none.
    pub fn search_type(&self, ast_type: &ASTType, target: &mut AbstractSyntaxTree)
        ensures
            final(target).av() == match m_search_type(self.av(), ast_type@) {
                Some(t) => t,
                None => old(target).av(),
            },
        decreases self,
    {
        if same_ast_type(&self.ast_type, ast_type) {
            *target = self.duplicate();
            return;
        }
        let mut i: usize = 0;
        let ghost t0 = old(target).av();
        proof {
            lemma_children_av_len(self.next@);
            assert(self.next@.take(0) =~= Seq::<Box<AbstractSyntaxTree>>::empty());
        }
        while i < self.next.len()
            invariant
                i <= self.next@.len(),
                !(self.ast_type@ == ast_type@),
                target.av() == match m_search_types(children_av(self.next@.take(i as int)), ast_type@) {
                    Some(t) => t,
                    None => t0,
                },
            decreases self.next@.len() - i,
        {
            proof {
                assert(decreases_to!(self => self.next));
                assert(decreases_to!(self.next => self.next@));
                assert(decreases_to!(self.next@ => self.next@[i as int]));
                lemma_children_av_take(self.next@, i as int);
            }
            self.next[i].search_type(ast_type, target);
            proof {
                let s = children_av(self.next@.take(i as int));
                let x = self.next@[i as int].av();
                assert(s.push(x).drop_last() =~= s);
                assert(s.push(x).last() == x);
            }
            i = i + 1;
        }
        proof {
            assert(self.next@.take(i as int) =~= self.next@);
        }
    }
}

/// A copy of a node kind.
pub fn copy_ast_type(t: &ASTType) -> (r: ASTType)
    ensures
        r@ == t@,
{
    match t {
        ASTType::Begin(s) => ASTType::Begin(s.clone()),
        ASTType::FunctionReturn(a, b) => ASTType::FunctionReturn(*a, *b),
        ASTType::EndReturn => ASTType::EndReturn,
        ASTType::Function(s) => ASTType::Function(s.clone()),
        ASTType::Parameter => ASTType::Parameter,
        ASTType::Return => ASTType::Return,
        ASTType::Loop => ASTType::Loop,
        ASTType::Break => ASTType::Break,
        ASTType::Continue => ASTType::Continue,
        ASTType::Assign(b) => ASTType::Assign(*b),
        ASTType::If => ASTType::If,
        ASTType::Condiction(r) => ASTType::Condiction(*r),
        ASTType::Condictions => ASTType::Condictions,
        ASTType::True => ASTType::True,
        ASTType::False => ASTType::False,
        ASTType::Operator(o) => ASTType::Operator(*o),
        ASTType::Variable(b) => ASTType::Variable(*b),
        ASTType::Integer(b, x) => ASTType::Integer(*b, *x),
        ASTType::Float(b, x) => ASTType::Float(*b, *x),
        ASTType::While => ASTType::While,
    }
}

/// Whether two node kinds are equal (names compared by their characters).
pub fn same_ast_type(a: &ASTType, b: &ASTType) -> (r: bool)
    ensures
        r == (a@ == b@),
{
    match (a, b) {
        (ASTType::Begin(x), ASTType::Begin(y)) => x.eq(y),
        (ASTType::FunctionReturn(x1, x2), ASTType::FunctionReturn(y1, y2)) => *x1 == *y1 && *x2 == *y2,
        (ASTType::EndReturn, ASTType::EndReturn) => true,
        (ASTType::Function(x), ASTType::Function(y)) => x.eq(y),
        (ASTType::Parameter, ASTType::Parameter) => true,
        (ASTType::Return, ASTType::Return) => true,
        (ASTType::Loop, ASTType::Loop) => true,
        (ASTType::Break, ASTType::Break) => true,
        (ASTType::Continue, ASTType::Continue) => true,
        (ASTType::Assign(x), ASTType::Assign(y)) => *x == *y,
        (ASTType::If, ASTType::If) => true,
        (ASTType::Condiction(x), ASTType::Condiction(y)) => *x == *y,
        (ASTType::Condictions, ASTType::Condictions) => true,
        (ASTType::True, ASTType::True) => true,
        (ASTType::False, ASTType::False) => true,
        (ASTType::Operator(x), ASTType::Operator(y)) => *x == *y,
        (ASTType::Variable(x), ASTType::Variable(y)) => *x == *y,
        (ASTType::Integer(x1, x2), ASTType::Integer(y1, y2)) => *x1 == *y1 && *x2 == *y2,
        (ASTType::Float(x1, x2), ASTType::Float(y1, y2)) => *x1 == *y1 && *x2 == *y2,
        (ASTType::While, ASTType::While) => true,
        _ => false,
    }
}

/// The last node of kind `k` met walking `t` from the root (see
/// `search_type`).
pub open spec fn m_search_type(t: AstView, k: AstTypeView) -> Option<AstView>
    decreases t,
{
    if t.ast_type == k {
        Some(t)
    } else {
        m_search_types(t.next, k)
    }
}

/// The last node of kind `k` met walking the trees `s` in order.
pub open spec fn m_search_types(s: Seq<AstView>, k: AstTypeView) -> Option<AstView>
    decreases s,
{
    if s.len() == 0 {
        None
    } else {
        match m_search_type(s.last(), k) {
            Some(t) => Some(t),
            None => m_search_types(s.drop_last(), k),
        }
    }
}

/// The type is a pointer type (`Unknown` and `Ptr` are neither).
pub open spec fn spec_is_ptr(t: ASTSymbolValueType) -> bool {
    match t {
        ASTSymbolValueType::PtrUnsignedChar | ASTSymbolValueType::PtrChar | ASTSymbolValueType::PtrUnsignedShort
        | ASTSymbolValueType::PtrShort | ASTSymbolValueType::PtrUnsignedInt | ASTSymbolValueType::PtrInt
        | ASTSymbolValueType::PtrUnsignedLong | ASTSymbolValueType::PtrLong => true,
        _ => false,
    }
}

/// The type is known: neither `Unknown` nor the bare `Ptr`.
pub open spec fn is_known_type(t: ASTSymbolValueType) -> bool {
    t != ASTSymbolValueType::Unknown && t != ASTSymbolValueType::Ptr
}

/// Whether a known type is a pointer type.
pub fn is_ptr(ast_type: &ASTSymbolValueType) -> (r: bool)
    requires
        is_known_type(*ast_type),
    ensures
        r == spec_is_ptr(*ast_type),
{
    match ast_type {
        ASTSymbolValueType::PtrUnsignedChar | ASTSymbolValueType::PtrChar | ASTSymbolValueType::PtrUnsignedShort
        | ASTSymbolValueType::PtrShort | ASTSymbolValueType::PtrUnsignedInt | ASTSymbolValueType::PtrInt
        | ASTSymbolValueType::PtrUnsignedLong | ASTSymbolValueType::PtrLong => true,
        _ => false,
    }
}

/// Whether a known type is a pointer type (the same test as `is_ptr`).
pub fn is_type_ptr(ast_type: &ASTSymbolValueType) -> (r: bool)
    requires
        is_known_type(*ast_type),
    ensures
        r == spec_is_ptr(*ast_type),
{
    is_ptr(ast_type)
}

/// The C spelling of a type as a parameter. Note that `UnsignedInt` is
/// spelled `unsigned short`, `Unknown` as `unkown` and `Ptr` as `ptr`.
pub open spec fn parameter_name(t: ASTSymbolValueType) -> Seq<char> {
    match t {
        ASTSymbolValueType::UnsignedChar => "unsigned char"@,
        ASTSymbolValueType::Char => "char"@,
        ASTSymbolValueType::UnsignedShort => "unsigned short"@,
        ASTSymbolValueType::Short => "short"@,
        ASTSymbolValueType::UnsignedInt => "unsigned short"@,
        ASTSymbolValueType::Int => "int"@,
        ASTSymbolValueType::UnsignedLong => "unsigned long"@,
        ASTSymbolValueType::Long => "long"@,
        ASTSymbolValueType::PtrUnsignedChar => "unsigned char*"@,
        ASTSymbolValueType::PtrChar => "char*"@,
        ASTSymbolValueType::PtrUnsignedShort => "unsigned short*"@,
        ASTSymbolValueType::PtrShort => "short*"@,
        ASTSymbolValueType::PtrUnsignedInt => "unsigned int*"@,
        ASTSymbolValueType::PtrInt => "int*"@,
        ASTSymbolValueType::PtrUnsignedLong => "unsigned long*"@,
        ASTSymbolValueType::PtrLong => "long*"@,
        ASTSymbolValueType::Unknown => "unkown"@,
        ASTSymbolValueType::Ptr => "ptr"@,
    }
}

/// The C spelling of a type as a parameter (see `parameter_name`).
pub fn parameter_to_string(_type: &ASTSymbolValueType) -> (s: String)
    ensures
        s@ == parameter_name(*_type),
{
    match _type {
        ASTSymbolValueType::UnsignedChar => "unsigned char".to_owned(),
        ASTSymbolValueType::Char => "char".to_owned(),
        ASTSymbolValueType::UnsignedShort => "unsigned short".to_owned(),
        ASTSymbolValueType::Short => "short".to_owned(),
        ASTSymbolValueType::UnsignedInt => "unsigned short".to_owned(),
        ASTSymbolValueType::Int => "int".to_owned(),
        ASTSymbolValueType::UnsignedLong => "unsigned long".to_owned(),
        ASTSymbolValueType::Long => "long".to_owned(),
        ASTSymbolValueType::PtrUnsignedChar => "unsigned char*".to_owned(),
        ASTSymbolValueType::PtrChar => "char*".to_owned(),
        ASTSymbolValueType::PtrUnsignedShort => "unsigned short*".to_owned(),
        ASTSymbolValueType::PtrShort => "short*".to_owned(),
        ASTSymbolValueType::PtrUnsignedInt => "unsigned int*".to_owned(),
        ASTSymbolValueType::PtrInt => "int*".to_owned(),
        ASTSymbolValueType::PtrUnsignedLong => "unsigned long*".to_owned(),
        ASTSymbolValueType::PtrLong => "long*".to_owned(),
        ASTSymbolValueType::Unknown => "unkown".to_owned(),
        ASTSymbolValueType::Ptr => "ptr".to_owned(),
    }
}

/// The type of a variable of the given width and signedness.
pub open spec fn type_of_size(size: Size) -> ASTSymbolValueType {
    match size {
        Size::Signed8 => ASTSymbolValueType::Char,
        Size::Unsigned8 => ASTSymbolValueType::UnsignedChar,
        Size::Signed16 => ASTSymbolValueType::Short,
        Size::Unsigned16 => ASTSymbolValueType::UnsignedShort,
        Size::Signed32 => ASTSymbolValueType::Int,
        Size::Unsigned32 => ASTSymbolValueType::UnsignedInt,
        Size::Signed64 => ASTSymbolValueType::Long,
        Size::Unsigned64 => ASTSymbolValueType::UnsignedLong,
    }
}

/// The type of a variable of the given width and signedness (see `type_of_size`).
pub fn get_ast_type_from_size(size: &Size) -> (t: ASTSymbolValueType)
    ensures
        t == type_of_size(*size),
{
    match size {
        Size::Signed8 => ASTSymbolValueType::Char,
        Size::Unsigned8 => ASTSymbolValueType::UnsignedChar,
        Size::Signed16 => ASTSymbolValueType::Short,
        Size::Unsigned16 => ASTSymbolValueType::UnsignedShort,
        Size::Signed32 => ASTSymbolValueType::Int,
        Size::Unsigned32 => ASTSymbolValueType::UnsignedInt,
        Size::Signed64 => ASTSymbolValueType::Long,
        Size::Unsigned64 => ASTSymbolValueType::UnsignedLong,
    }
}

} // verus!
