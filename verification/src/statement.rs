//! Statement nodes: the shapes a program is a sequence of.

use vstd::prelude::*;
use crate::expr::{Expr, ExprV, expr_v, expr_inv};
use crate::scanner::{Token, TokenV};

verus! {

/// Mathematical view of a statement.
pub enum StmtV {
    ExpressionV { expression: ExprV },
    PrintV { expression: ExprV },
    VarV { name: TokenV, initializer: ExprV },
}

/// A statement: an expression evaluated for effect, a print statement, or a
/// variable declaration.  A declaration without an initializer carries the
/// nil literal as its initializer.
#[derive(Debug)]
pub enum Statement {
    Expression { expression: Expr },
    Print { expression: Expr },
    Var { name: Token, initializer: Expr },
}

/// The view of a statement.
pub open spec fn stmt_v(s: Statement) -> StmtV {
    match s {
        Statement::Expression { expression } => StmtV::ExpressionV { expression: expr_v(expression) },
        Statement::Print { expression } => StmtV::PrintV { expression: expr_v(expression) },
        Statement::Var { name, initializer } => StmtV::VarV {
            name: name@,
            initializer: expr_v(initializer),
        },
    }
}

/// Every expression in the statement is well formed.
pub open spec fn stmt_inv(s: Statement) -> bool {
    match s {
        Statement::Expression { expression } => expr_inv(expression),
        Statement::Print { expression } => expr_inv(expression),
        Statement::Var { name, initializer } => expr_inv(initializer),
    }
}

/// The views of a sequence of statements.
pub open spec fn stmts_view(ss: Seq<Statement>) -> Seq<StmtV> {
    ss.map_values(|s: Statement| stmt_v(s))
}

} // verus!
