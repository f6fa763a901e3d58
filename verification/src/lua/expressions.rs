use vstd::prelude::*;
use crate::lexer::string_push;
use crate::lua::block::Block;
use crate::lua::trait_expression::Expression;
use crate::lua::traits::strs_v;
use crate::lua::visitor_expression::SymbolVisitor;

verus! {

/// The upper-case hexadecimal digit of `d`, for `d < 16`.
pub open spec fn hex_digit(d: nat) -> char {
    seq!['0', '1', '2', '3', '4', '5', '6', '7', '8', '9', 'A', 'B', 'C', 'D', 'E', 'F'][d as int]
}

/// `n` in upper-case hexadecimal, without leading zeros.
pub open spec fn hex_str(n: nat) -> Seq<char>
    decreases n,
{
    if n < 16 {
        seq![hex_digit(n)]
    } else {
        hex_str(n / 16).push(hex_digit(n % 16))
    }
}

/// The instruction that stores a number, its bits written in hexadecimal.
pub open spec fn store_num_line(value: i32) -> Seq<char> {
    "mov dword ptr[rsp+1], "@ + hex_str((value as u32) as nat)
}

fn hex_char(d: u32) -> (c: char)
    requires
        d < 16,
    ensures
        c == hex_digit(d as nat),
{
    if d < 10 {
        if d == 0 { '0' } else if d == 1 { '1' } else if d == 2 { '2' } else if d == 3 { '3' }
        else if d == 4 { '4' } else if d == 5 { '5' } else if d == 6 { '6' } else if d == 7 { '7' }
        else if d == 8 { '8' } else { '9' }
    } else {
        if d == 10 { 'A' } else if d == 11 { 'B' } else if d == 12 { 'C' } else if d == 13 { 'D' }
        else if d == 14 { 'E' } else { 'F' }
    }
}

/// Appends `n` in upper-case hexadecimal.
fn push_hex(s: &mut String, n: u32)
    ensures
        final(s)@ == old(s)@ + hex_str(n as nat),
    decreases n,
{
    if n >= 16 {
        push_hex(s, n / 16);
    }
    string_push(s, hex_char(n % 16));
}

/// No instruction.
fn no_lines() -> (lines: Vec<String>)
    ensures
        strs_v(lines@) == Seq::<Seq<char>>::empty(),
{
    let lines: Vec<String> = Vec::new();
    assert(strs_v(lines@) =~= Seq::<Seq<char>>::empty());
    lines
}

/// A number literal.
pub struct NumExpression {
    pub value: i32,
}

impl NumExpression {
    pub fn new(value: i32) -> (e: Self)
        ensures
            e.value == value,
    {
        NumExpression { value: value }
    }
}

impl Expression for NumExpression {
    open spec fn semantic_spec(&self) -> Seq<Seq<char>> {
        seq![store_num_line(self.value)]
    }

    /// Stores the number at an offset of the stack pointer.
    fn semantic(&self, block: &Block) -> (lines: Vec<String>) {
        let mut line = "mov dword ptr[rsp+1], ".to_owned();
        push_hex(&mut line, self.value as u32);
        let mut lines: Vec<String> = Vec::new();
        lines.push(line);
        assert(strs_v(lines@) =~= seq![store_num_line(self.value)]);
        lines
    }

    fn accept<V: SymbolVisitor>(&self, visitor: &V) {
        visitor.visit_num(self);
    }
}

/// A name.
pub struct IdentExpression {
    pub value: String,
}

impl IdentExpression {
    pub fn new(value: String) -> (e: Self)
        ensures
            e.value == value,
    {
        IdentExpression { value: value }
    }
}

impl Expression for IdentExpression {
    open spec fn semantic_spec(&self) -> Seq<Seq<char>> {
        seq![]
    }

    fn semantic(&self, block: &Block) -> (lines: Vec<String>) {
        no_lines()
    }

    fn accept<V: SymbolVisitor>(&self, visitor: &V) {
        visitor.visit_ident(self);
    }
}

/// The expressions of the language.
pub enum LuaExpr {
    Num(NumExpression),
    Ident(IdentExpression),
    Add(AddExpression),
    Sub(SubExpression),
    Mul(MulExpression),
    Div(DivExpression),
    Mod(ModExpression),
    DotDotDot(DotDotDotExpression),
}

/// `e1 + e2`.
pub struct AddExpression {
    pub e1: Box<LuaExpr>,
    pub e2: Box<LuaExpr>,
}

impl AddExpression {
    pub fn new(e1: Box<LuaExpr>, e2: Box<LuaExpr>) -> (e: Self)
        ensures
            e.e1 == e1,
            e.e2 == e2,
    {
        AddExpression { e1: e1, e2: e2 }
    }
}

impl Expression for AddExpression {
    open spec fn semantic_spec(&self) -> Seq<Seq<char>> {
        seq![]
    }

    /// The operands are laid out by their own instructions; the operation emits none yet.
    fn semantic(&self, block: &Block) -> (lines: Vec<String>) {
        no_lines()
    }

    fn accept<V: SymbolVisitor>(&self, visitor: &V) {
    }
}

/// `e1 - e2`.
pub struct SubExpression {
    pub e1: Box<LuaExpr>,
    pub e2: Box<LuaExpr>,
}

impl SubExpression {
    pub fn new(e1: Box<LuaExpr>, e2: Box<LuaExpr>) -> (e: Self)
        ensures
            e.e1 == e1,
            e.e2 == e2,
    {
        SubExpression { e1: e1, e2: e2 }
    }
}

impl Expression for SubExpression {
    open spec fn semantic_spec(&self) -> Seq<Seq<char>> {
        seq![]
    }

    /// The operands are laid out by their own instructions; the operation emits none yet.
    fn semantic(&self, block: &Block) -> (lines: Vec<String>) {
        no_lines()
    }

    fn accept<V: SymbolVisitor>(&self, visitor: &V) {
    }
}

/// `e1 * e2`.
pub struct MulExpression {
    pub e1: Box<LuaExpr>,
    pub e2: Box<LuaExpr>,
}

impl MulExpression {
    pub fn new(e1: Box<LuaExpr>, e2: Box<LuaExpr>) -> (e: Self)
        ensures
            e.e1 == e1,
            e.e2 == e2,
    {
        MulExpression { e1: e1, e2: e2 }
    }
}

impl Expression for MulExpression {
    open spec fn semantic_spec(&self) -> Seq<Seq<char>> {
        seq![]
    }

    /// The operands are laid out by their own instructions; the operation emits none yet.
    fn semantic(&self, block: &Block) -> (lines: Vec<String>) {
        no_lines()
    }

    fn accept<V: SymbolVisitor>(&self, visitor: &V) {
    }
}

/// `e1 / e2`.
pub struct DivExpression {
    pub e1: Box<LuaExpr>,
    pub e2: Box<LuaExpr>,
}

impl DivExpression {
    pub fn new(e1: Box<LuaExpr>, e2: Box<LuaExpr>) -> (e: Self)
        ensures
            e.e1 == e1,
            e.e2 == e2,
    {
        DivExpression { e1: e1, e2: e2 }
    }
}

impl Expression for DivExpression {
    open spec fn semantic_spec(&self) -> Seq<Seq<char>> {
        seq![]
    }

    /// The operands are laid out by their own instructions; the operation emits none yet.
    fn semantic(&self, block: &Block) -> (lines: Vec<String>) {
        no_lines()
    }

    fn accept<V: SymbolVisitor>(&self, visitor: &V) {
    }
}

/// `e1 % e2`.
pub struct ModExpression {
    pub e1: Box<LuaExpr>,
    pub e2: Box<LuaExpr>,
}

impl ModExpression {
    pub fn new(e1: Box<LuaExpr>, e2: Box<LuaExpr>) -> (e: Self)
        ensures
            e.e1 == e1,
            e.e2 == e2,
    {
        ModExpression { e1: e1, e2: e2 }
    }
}

impl Expression for ModExpression {
    open spec fn semantic_spec(&self) -> Seq<Seq<char>> {
        seq![]
    }

    /// The operands are laid out by their own instructions; the operation emits none yet.
    fn semantic(&self, block: &Block) -> (lines: Vec<String>) {
        no_lines()
    }

    fn accept<V: SymbolVisitor>(&self, visitor: &V) {
    }
}

/// `...`, the extra arguments of a function.
pub struct DotDotDotExpression;

} // verus!
