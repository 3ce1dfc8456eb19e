//! The syntax tree that the parser builds and code generation reads.
use vstd::prelude::*;
use crate::utils::VarInt;

verus! {

/// A literal.
#[derive(Debug, Clone, Copy, PartialEq, Eq, Structural)]
pub enum LiteralExpression {
    Int(VarInt),
}

/// An expression.
#[derive(Debug, Clone, Copy, PartialEq, Eq, Structural)]
pub enum Expr {
    Lit(LiteralExpression),
}

/// A statement. A return may carry a value.
#[derive(Debug, Clone, Copy, PartialEq, Eq, Structural)]
pub enum Stmt {
    Return(Option<Expr>),
}

/// An ordered sequence of statements.
#[derive(Debug, Clone, PartialEq)]
pub struct Block(pub Vec<Stmt>);

/// A function: its name, borrowed from the source, and its body.
#[derive(Debug, Clone, PartialEq)]
pub struct Function<'s> {
    pub name: &'s [u8],
    pub body: Block,
}

/// A declaration.
#[derive(Debug, Clone, PartialEq)]
pub enum Decl<'s> {
    Fun(Function<'s>),
}

/// An ordered sequence of declarations.
#[derive(Debug, Clone, PartialEq)]
pub struct Program<'s> {
    pub declarations: Vec<Decl<'s>>,
}

/// A function as a plain value.
pub struct FunctionView {
    pub name: Seq<u8>,
    pub body: Seq<Stmt>,
}

/// A declaration as a plain value.
pub enum DeclView {
    Fun(FunctionView),
}

impl View for Block {
    type V = Seq<Stmt>;

    open spec fn view(&self) -> Seq<Stmt> {
        self.0@
    }
}

impl<'s> View for Function<'s> {
    type V = FunctionView;

    open spec fn view(&self) -> FunctionView {
        FunctionView { name: self.name@, body: self.body@ }
    }
}

impl<'s> View for Decl<'s> {
    type V = DeclView;

    open spec fn view(&self) -> DeclView {
        match *self {
            Decl::Fun(function) => DeclView::Fun(function@),
        }
    }
}

impl<'s> View for Program<'s> {
    type V = Seq<DeclView>;

    open spec fn view(&self) -> Seq<DeclView> {
        self.declarations@.map_values(|d: Decl<'s>| d@)
    }
}

} // verus!
