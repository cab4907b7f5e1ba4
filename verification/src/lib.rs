//! A linker-script-style configuration language: a recursive-descent parser
//! for top-level statements, commands and `MEMORY`/`SECTIONS` blocks, and an
//! evaluator for the embedded arithmetic expression language.

pub mod ast;
pub mod eval;
pub mod expressions;
pub mod script;
pub mod text;

pub use ast::AssignOperator;
pub use ast::BinaryOperator;
pub use ast::Command;
pub use ast::EvalError;
pub use ast::Expression;
pub use ast::ParseError;
pub use ast::Region;
pub use ast::SectionCommand;
pub use ast::Statement;
pub use eval::_evaluate_expression;
pub use eval::evaluate_expression;
pub use expressions::expression;
pub use script::clear_state;
pub use script::parse;
pub use script::ParseState;
pub use script::RootItem;
