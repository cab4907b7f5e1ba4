//! The node types of the language: expressions, statements, commands, memory
//! regions and section commands, together with the error types of parsing and
//! evaluation.

use vstd::prelude::*;

verus! {

/// The arithmetic operators the expression language supports.
#[derive(Debug, PartialEq, Eq, Clone, Copy)]
pub enum BinaryOperator {
    Plus,
    Minus,
    Multiply,
    Divide,
}

/// The operator of an assignment statement.
#[derive(Debug, PartialEq, Eq, Clone, Copy)]
pub enum AssignOperator {
    Equals,
}

/// An expression tree. Child nodes are exclusively owned by their parent, so
/// the tree is finite and acyclic by construction.
#[derive(Debug, PartialEq)]
pub enum Expression {
    /// A numeric literal; unit suffixes (`4k` = 4096) and hexadecimal forms
    /// are already folded into the value by the literal recognizer.
    Number(u64),
    /// A reference to a variable bound by an assignment statement.
    Ident(String),
    /// A builtin function applied to an ordered argument list.
    Call { function: String, arguments: Vec<Expression> },
    /// An application of a binary arithmetic operator.
    BinaryOp { left: Box<Expression>, operator: BinaryOperator, right: Box<Expression> },
}

/// The mathematical shadow of an expression tree: the same shape over
/// character sequences, so that contracts can pin a parsed tree
/// independently of `String` and `Vec` identity.
pub enum ExprView {
    Number(u64),
    Ident(Seq<char>),
    Call(Seq<char>, Seq<ExprView>),
    BinaryOp(BinaryOperator, Box<ExprView>, Box<ExprView>),
}

/// The shadow of an expression tree.
pub open spec fn expr_view(e: Expression) -> ExprView
    decreases e,
{
    match e {
        Expression::Number(n) => ExprView::Number(n),
        Expression::Ident(s) => ExprView::Ident(s@),
        Expression::Call { function, arguments } => ExprView::Call(
            function@,
            exprs_view(arguments@),
        ),
        Expression::BinaryOp { left, operator, right } => ExprView::BinaryOp(
            operator,
            Box::new(expr_view(*left)),
            Box::new(expr_view(*right)),
        ),
    }
}

/// The shadows of a list of expression trees, in order.
pub open spec fn exprs_view(es: Seq<Expression>) -> Seq<ExprView>
    decreases es,
{
    if es.len() == 0 {
        Seq::<ExprView>::empty()
    } else {
        exprs_view(es.drop_last()).push(expr_view(es.last()))
    }
}

/// A top-level statement.
#[derive(Debug, PartialEq)]
pub enum Statement {
    /// `name = expression ;`
    Assign { name: String, operator: AssignOperator, expression: Box<Expression> },
}

/// A named address range declared inside a `MEMORY` block.
#[derive(Debug, PartialEq)]
pub struct Region {
    pub name: String,
    pub origin: u64,
    pub length: u64,
}

/// A miscellaneous top-level command, `name(arg ...)`.
#[derive(Debug, PartialEq)]
pub struct Command {
    pub name: String,
    pub arguments: Vec<String>,
}

/// An entry of a `SECTIONS` block, `name : { body }`; the body is opaque to
/// the core and kept verbatim.
#[derive(Debug, PartialEq)]
pub struct SectionCommand {
    pub name: String,
    pub body: String,
}

/// An error of a single evaluation call. Each variant carries the offending
/// name.
#[derive(Debug, PartialEq)]
pub enum EvalError {
    /// No assignment binds the identifier, or no region declares the name.
    VariableNotFound(String),
    /// The called function is neither `ORIGIN` nor `LENGTH`.
    UnknownFunction(String),
    /// A builtin function was applied to other than exactly one argument.
    WrongArgumentCount(String),
    /// A builtin function's argument is not a bare identifier.
    BadArgument(String),
    /// Resolving identifiers ran deeper than the accumulator can justify,
    /// which happens exactly when assignments refer to each other in a cycle.
    CycleDetected(String),
}

/// The mathematical shadow of [`EvalError`]: the same variants over character
/// sequences, so that contracts can speak of error values independently of
/// `String` identity.
pub enum EvalErrorView {
    VariableNotFound(Seq<char>),
    UnknownFunction(Seq<char>),
    WrongArgumentCount(Seq<char>),
    BadArgument(Seq<char>),
    CycleDetected(Seq<char>),
}

impl View for EvalError {
    type V = EvalErrorView;

    open spec fn view(&self) -> EvalErrorView {
        match self {
            EvalError::VariableNotFound(s) => EvalErrorView::VariableNotFound(s@),
            EvalError::UnknownFunction(s) => EvalErrorView::UnknownFunction(s@),
            EvalError::WrongArgumentCount(s) => EvalErrorView::WrongArgumentCount(s@),
            EvalError::BadArgument(s) => EvalErrorView::BadArgument(s@),
            EvalError::CycleDetected(s) => EvalErrorView::CycleDetected(s@),
        }
    }
}

/// A hard, parse-aborting failure.
#[derive(Debug, PartialEq)]
pub enum ParseError {
    /// A `MEMORY` or `SECTIONS` block was opened but its closing delimiter is
    /// missing; the payload is the position at which `}` was expected.
    UnclosedBlock(usize),
}

} // verus!
