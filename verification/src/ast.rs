//! The abstract syntax tree. Every node carries a unique integer id,
//! assigned by the parser in one sequence; ids index the span table that
//! the parser returns beside the tree.

use vstd::prelude::*;

use crate::type_inference::EnvironmentIdentifier;

verus! {

/// A sequence of phrases executed one after another.
#[derive(Debug)]
pub struct Block(pub usize, pub Vec<Phrase>);

/// One phrase of a block.
#[derive(Debug)]
pub enum Phrase {
    Expr(Expr),
}

/// An expression.
#[derive(Debug)]
pub enum Expr {
    StrLit(StrLit),
    Symbol(Symbol),
    IntLit(IntLit),
    Let(Let),
    Call(Call),
    FnFragment(FnFragment),
    Block(Block),
}

/// A string literal, built from pure parts, interpolated symbols and
/// interpolated subexpressions.
#[derive(Debug)]
pub struct StrLit(pub usize, pub Vec<StrLitElem>);

/// One part of a string literal.
#[derive(Debug)]
pub enum StrLitElem {
    PureStrLit(usize, String),
    Symbol(usize, String),
    Expr(usize, Box<Expr>),
}

/// A name standing for a bound value.
#[derive(Debug)]
pub struct Symbol(pub usize, pub String);

/// An integer literal.
#[derive(Debug)]
pub struct IntLit(pub usize, pub i64);

/// A binding of a name to the value of an expression.
#[derive(Debug)]
pub struct Let {
    pub id: usize,
    pub symbol_name: String,
    pub value_expr: Box<Expr>,
}

/// A call of a callable with arguments.
#[derive(Debug)]
pub struct Call {
    pub id: usize,
    pub callee: Box<Expr>,
    pub args: Vec<Expr>,
}

/// A callable body whose parameter types are inferred from the call
/// sites inside the body.
#[derive(Debug)]
pub struct FnFragment {
    pub id: usize,
    pub args: Vec<ArgDef>,
    pub body: Box<Expr>,
}

/// One parameter of a fragment.
#[derive(Debug)]
pub struct ArgDef {
    pub id: usize,
    pub name: String,
}

/// What every AST node offers: its id, as an environment identifier.
pub trait AstNode {
    /// The node's id.
    spec fn spec_id(&self) -> EnvironmentIdentifier;

    /// The node's id.
    fn get_id(&self) -> (r: EnvironmentIdentifier)
        ensures
            r == self.spec_id(),
    ;
}

impl AstNode for Block {
    open spec fn spec_id(&self) -> EnvironmentIdentifier {
        EnvironmentIdentifier::AstId(self.0)
    }

    fn get_id(&self) -> (r: EnvironmentIdentifier) {
        EnvironmentIdentifier::AstId(self.0)
    }
}

impl AstNode for Phrase {
    open spec fn spec_id(&self) -> EnvironmentIdentifier {
        match self {
            Phrase::Expr(e) => e.spec_id(),
        }
    }

    fn get_id(&self) -> (r: EnvironmentIdentifier) {
        match self {
            Phrase::Expr(e) => e.get_id(),
        }
    }
}

impl AstNode for Expr {
    open spec fn spec_id(&self) -> EnvironmentIdentifier {
        match self {
            Expr::StrLit(n) => EnvironmentIdentifier::AstId(n.0),
            Expr::Symbol(n) => EnvironmentIdentifier::AstId(n.0),
            Expr::IntLit(n) => EnvironmentIdentifier::AstId(n.0),
            Expr::Let(n) => EnvironmentIdentifier::AstId(n.id),
            Expr::Call(n) => EnvironmentIdentifier::AstId(n.id),
            Expr::FnFragment(n) => EnvironmentIdentifier::AstId(n.id),
            Expr::Block(n) => EnvironmentIdentifier::AstId(n.0),
        }
    }

    fn get_id(&self) -> (r: EnvironmentIdentifier) {
        match self {
            Expr::StrLit(n) => EnvironmentIdentifier::AstId(n.0),
            Expr::Symbol(n) => EnvironmentIdentifier::AstId(n.0),
            Expr::IntLit(n) => EnvironmentIdentifier::AstId(n.0),
            Expr::Let(n) => EnvironmentIdentifier::AstId(n.id),
            Expr::Call(n) => EnvironmentIdentifier::AstId(n.id),
            Expr::FnFragment(n) => EnvironmentIdentifier::AstId(n.id),
            Expr::Block(n) => EnvironmentIdentifier::AstId(n.0),
        }
    }
}

impl AstNode for ArgDef {
    open spec fn spec_id(&self) -> EnvironmentIdentifier {
        EnvironmentIdentifier::AstId(self.id)
    }

    fn get_id(&self) -> (r: EnvironmentIdentifier) {
        EnvironmentIdentifier::AstId(self.id)
    }
}

/// A node an error can point at: a symbol use with its id and name, a
/// call with its id, any call at all, a fragment parameter with its
/// id and name, or any node at all carrying a given id.
pub enum NodeKey {
    SymbolUse(usize, Seq<char>),
    CallNode(usize),
    SomeCall,
    SomeFragment,
    Param(usize, Seq<char>),
    AnyId(usize),
}

/// Whether the tree below `e` holds the named node.
pub open spec fn expr_contains(e: Expr, k: NodeKey) -> bool
    decreases e,
{
    match e {
        Expr::Symbol(s) => (k matches NodeKey::SymbolUse(id, n) && s.0 == id && s.1@ == n) || (
        k matches NodeKey::AnyId(x) && s.0 == x),
        Expr::IntLit(n) => k matches NodeKey::AnyId(x) && n.0 == x,
        Expr::StrLit(sl) => (k matches NodeKey::AnyId(x) && sl.0 == x) || elems_contain(
            sl.1@,
            k,
        ),
        Expr::Let(l) => (k matches NodeKey::AnyId(x) && l.id == x) || expr_contains(
            *l.value_expr,
            k,
        ),
        Expr::Call(c) => ({
            ||| k matches NodeKey::CallNode(id) && c.id == id
            ||| k matches NodeKey::AnyId(x) && c.id == x
            ||| k is SomeCall
            ||| expr_contains(*c.callee, k)
            ||| exprs_contain(c.args@, k)
        }),
        Expr::FnFragment(f) => k is SomeFragment || (k matches NodeKey::AnyId(x) && f.id == x)
            || argdefs_contain(f.args@, k) || expr_contains(*f.body, k),
        Expr::Block(b) => block_contains(b, k),
    }
}

/// Whether the block holds the named node.
pub open spec fn block_contains(b: Block, k: NodeKey) -> bool
    decreases b,
{
    (k matches NodeKey::AnyId(x) && b.0 == x) || phrases_contain(b.1@, k)
}

/// Whether one phrase holds the named node.
pub open spec fn phrase_contains(p: Phrase, k: NodeKey) -> bool
    decreases p,
{
    match p {
        Phrase::Expr(e) => expr_contains(e, k),
    }
}

/// Whether any phrase of the sequence holds the named node.
pub open spec fn phrases_contain(s: Seq<Phrase>, k: NodeKey) -> bool
    decreases s,
{
    if s.len() == 0 {
        false
    } else {
        phrases_contain(s.subrange(0, s.len() - 1), k) || phrase_contains(s[s.len() - 1], k)
    }
}

/// Whether any expression of the sequence holds the named node.
pub open spec fn exprs_contain(s: Seq<Expr>, k: NodeKey) -> bool
    decreases s,
{
    if s.len() == 0 {
        false
    } else {
        exprs_contain(s.subrange(0, s.len() - 1), k) || expr_contains(s[s.len() - 1], k)
    }
}

/// Whether one string-literal part holds the named node.
pub open spec fn elem_contains(el: StrLitElem, k: NodeKey) -> bool
    decreases el,
{
    match el {
        StrLitElem::PureStrLit(pid, _) => k matches NodeKey::AnyId(x) && pid == x,
        StrLitElem::Symbol(pid, n) => (k matches NodeKey::SymbolUse(id, nm) && pid == id && n@
            == nm) || (k matches NodeKey::AnyId(x) && pid == x),
        StrLitElem::Expr(pid, sub) => (k matches NodeKey::AnyId(x) && pid == x)
            || expr_contains(*sub, k),
    }
}

/// Whether any string-literal part of the sequence holds the named node.
pub open spec fn elems_contain(s: Seq<StrLitElem>, k: NodeKey) -> bool
    decreases s,
{
    if s.len() == 0 {
        false
    } else {
        elems_contain(s.subrange(0, s.len() - 1), k) || elem_contains(s[s.len() - 1], k)
    }
}

/// Whether any parameter of the sequence is the named node.
pub open spec fn argdefs_contain(s: Seq<ArgDef>, k: NodeKey) -> bool
    decreases s,
{
    if s.len() == 0 {
        false
    } else {
        argdefs_contain(s.subrange(0, s.len() - 1), k) || (k matches NodeKey::Param(id, nm)
            && s[s.len() - 1].id == id && s[s.len() - 1].name@ == nm) || (k matches
        NodeKey::AnyId(x) && s[s.len() - 1].id == x)
    }
}

/// One phrase holding a node makes the sequence hold it.
pub proof fn lemma_phrases_contain_elem(s: Seq<Phrase>, i: int, k: NodeKey)
    requires
        0 <= i < s.len(),
        phrase_contains(s[i], k),
    ensures
        phrases_contain(s, k),
    decreases s,
{
    if i < s.len() - 1 {
        lemma_phrases_contain_elem(s.subrange(0, s.len() - 1), i, k);
    }
}

/// One expression holding a node makes the sequence hold it.
pub proof fn lemma_exprs_contain_elem(s: Seq<Expr>, i: int, k: NodeKey)
    requires
        0 <= i < s.len(),
        expr_contains(s[i], k),
    ensures
        exprs_contain(s, k),
    decreases s,
{
    if i < s.len() - 1 {
        lemma_exprs_contain_elem(s.subrange(0, s.len() - 1), i, k);
    }
}

/// One part holding a node makes the sequence hold it.
pub proof fn lemma_elems_contain_elem(s: Seq<StrLitElem>, i: int, k: NodeKey)
    requires
        0 <= i < s.len(),
        elem_contains(s[i], k),
    ensures
        elems_contain(s, k),
    decreases s,
{
    if i < s.len() - 1 {
        lemma_elems_contain_elem(s.subrange(0, s.len() - 1), i, k);
    }
}

/// One parameter being the node makes the sequence hold it.
pub proof fn lemma_argdefs_contain_elem(s: Seq<ArgDef>, i: int, k: NodeKey)
    requires
        0 <= i < s.len(),
        k matches NodeKey::Param(id, nm) && s[i].id == id && s[i].name@ == nm,
    ensures
        argdefs_contain(s, k),
    decreases s,
{
    if i < s.len() - 1 {
        lemma_argdefs_contain_elem(s.subrange(0, s.len() - 1), i, k);
    }
}

} // verus!
