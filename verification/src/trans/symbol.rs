use vstd::prelude::*;
use crate::ast::{SType, TType};

verus! {

/// A handle of a value of the generated code: the index of the instruction that made it.
pub type ValueRef = usize;

#[derive(Clone, Copy, Debug)]
pub enum SymbolKind {
    Variable,
    Function,
    Parameter,
    Type,
}

/// A named entity of the generated code.
pub trait Symbol {
    fn kind() -> SymbolKind where Self: Sized;

    spec fn spec_id(&self) -> Seq<char>;

    fn id(&self) -> (r: String)
        ensures
            r@ == self.spec_id(),
    ;
}

/// A variable: its type and the stack slot that holds it.
trait VarSymbol: Symbol {
    fn var_type(&self) -> &TType;

    fn alloca_ref(&self) -> ValueRef;
}

/// A function, by the value that stands for it.
pub trait FunctionSymbol: Symbol {
    spec fn spec_value_ref(&self) -> ValueRef;

    fn value_ref(&self) -> (r: ValueRef)
        ensures
            r == self.spec_value_ref(),
    ;
}

pub struct Var {
    pub id: String,
    pub var_type: TType,
    pub alloca_ref: ValueRef,
}

impl Var {
    pub fn new(id: String, ty: TType, alloca_ref: ValueRef) -> (v: Self)
        ensures
            v.id == id,
            v.var_type == ty,
            v.alloca_ref == alloca_ref,
    {
        Var { id: id, var_type: ty, alloca_ref: alloca_ref }
    }
}

impl Symbol for Var {
    fn kind() -> (k: SymbolKind)
        ensures
            k is Variable,
    {
        SymbolKind::Variable
    }

    open spec fn spec_id(&self) -> Seq<char> {
        self.id@
    }

    fn id(&self) -> (r: String) {
        self.id.clone()
    }
}

impl VarSymbol for Var {
    fn var_type(&self) -> (t: &TType)
        ensures
            *t == self.var_type,
    {
        &self.var_type
    }

    fn alloca_ref(&self) -> (r: ValueRef)
        ensures
            r == self.alloca_ref,
    {
        self.alloca_ref
    }
}

pub struct Function {
    pub id: String,
    pub value_ref: ValueRef,
}

impl Function {
    pub fn new(id: String, value_ref: ValueRef) -> (f: Self)
        ensures
            f.id == id,
            f.value_ref == value_ref,
    {
        Function { id: id, value_ref: value_ref }
    }
}

impl Symbol for Function {
    fn kind() -> (k: SymbolKind)
        ensures
            k is Function,
    {
        SymbolKind::Function
    }

    open spec fn spec_id(&self) -> Seq<char> {
        self.id@
    }

    fn id(&self) -> (r: String) {
        self.id.clone()
    }
}

impl FunctionSymbol for Function {
    open spec fn spec_value_ref(&self) -> ValueRef {
        self.value_ref
    }

    fn value_ref(&self) -> (r: ValueRef) {
        self.value_ref
    }
}

/// What a name of the generated code is bound to.
pub enum SymbolInfo {
    Var(Var),
    Function(Function),
}

/// The model of a binding: a variable's type and slot, or a function's value.
pub enum SSym {
    Var(Seq<char>, SType, nat),
    Func(Seq<char>, nat),
}

pub open spec fn sym_v(s: SymbolInfo) -> SSym {
    match s {
        SymbolInfo::Var(v) => SSym::Var(v.id@, v.var_type@, v.alloca_ref as nat),
        SymbolInfo::Function(f) => SSym::Func(f.id@, f.value_ref as nat),
    }
}

impl View for SymbolInfo {
    type V = SSym;

    open spec fn view(&self) -> SSym {
        sym_v(*self)
    }
}

} // verus!
