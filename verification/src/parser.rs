//! Recursive-descent parser: turns a token sequence into a sequence of
//! statements.
//!
//! The grammar, loosest to tightest: equality, comparison, additive terms,
//! multiplicative factors, unary operators, primaries.  Each binary layer
//! folds its operators left to left-associate.  A `var` declaration is
//! terminated by the statement separator; print and expression statements
//! are terminated by the logical-not token, exactly as the language
//! defines.  On a parse error the parser synchronizes: it discards tokens
//! up to a likely statement boundary, so each malformed statement reports
//! one error, and all errors are collected over the whole input.

use vstd::prelude::*;
use crate::scanner::{Token, TokenV, TokenType, tokens_view};
use crate::expr::{Expr, ExprV, ValueV, expr_v, expr_inv, token_value_ok, token_value_v, StractValue};
use crate::statement::{Statement, StmtV, stmt_v, stmt_inv, stmts_view};

verus! {

/// The kinds of parse error, each naming what was expected.
#[derive(Debug, Copy, Clone, PartialEq, Eq, Structural)]
pub enum ParseErrorKind {
    ExpectedVariableName,
    ExpectedDeclarationEnd,
    ExpectedStatementEnd,
    ExpectedRightParen,
    ExpectedExpression,
}

/// Mathematical view of a parse error.
pub struct ParseErrV {
    pub kind: ParseErrorKind,
    pub line: nat,
}

/// A parse error with the 1-based line of the offending token.
#[derive(Debug, Copy, Clone, PartialEq, Eq, Structural)]
pub struct ParseError {
    pub kind: ParseErrorKind,
    pub line: usize,
}

impl View for ParseError {
    type V = ParseErrV;

    open spec fn view(&self) -> ParseErrV {
        ParseErrV { kind: self.kind, line: self.line as nat }
    }
}

/// The views of a sequence of parse errors.
pub open spec fn perrs_view(es: Seq<ParseError>) -> Seq<ParseErrV> {
    es.map_values(|e: ParseError| e@)
}

/// The diagnostic text of a parse error.
pub open spec fn parse_msg_v(e: ParseErrV) -> Seq<char> {
    (match e.kind {
        ParseErrorKind::ExpectedVariableName => "expected a variable name at line "@,
        ParseErrorKind::ExpectedDeclarationEnd => "expected ';' to end the declaration at line "@,
        ParseErrorKind::ExpectedStatementEnd => "expected '!' to end the statement at line "@,
        ParseErrorKind::ExpectedRightParen => "expected ')' at line "@,
        ParseErrorKind::ExpectedExpression => "expected an expression at line "@,
    }) + crate::num::dec_digits(e.line)
}

impl ParseError {
    /// The error's diagnostic text.
    pub fn message(&self) -> (r: String)
        ensures
            r@ == parse_msg_v(self@),
    {
        let mut out: Vec<char> = Vec::new();
        match self.kind {
            ParseErrorKind::ExpectedVariableName => {
                crate::text::push_str_chars(&mut out, "expected a variable name at line ");
            },
            ParseErrorKind::ExpectedDeclarationEnd => {
                crate::text::push_str_chars(&mut out, "expected ';' to end the declaration at line ");
            },
            ParseErrorKind::ExpectedStatementEnd => {
                crate::text::push_str_chars(&mut out, "expected '!' to end the statement at line ");
            },
            ParseErrorKind::ExpectedRightParen => {
                crate::text::push_str_chars(&mut out, "expected ')' at line ");
            },
            ParseErrorKind::ExpectedExpression => {
                crate::text::push_str_chars(&mut out, "expected an expression at line ");
            },
        }
        crate::num::push_digits(self.line as u64, &mut out);
        proof {
            assert(out@ =~= parse_msg_v(self@));
        }
        crate::text::chars_to_string(&out)
    }
}

/// An expression parse outcome: the tree or the error, and the position the
/// parse stopped at.
pub struct PExpr {
    pub out: Result<ExprV, ParseErrV>,
    pub next: int,
}

/// A statement parse outcome.
pub struct PStmt {
    pub out: Result<StmtV, ParseErrV>,
    pub next: int,
}

/// A whole-program parse outcome: the statements and the errors collected.
pub struct PProg {
    pub stmts: Seq<StmtV>,
    pub errs: Seq<ParseErrV>,
}

/// The position clamped into `[lo, hi]`: used where a parse must have
/// advanced and cannot have passed the end.
pub open spec fn cl(lo: int, hi: int, n: int) -> int {
    if n < lo {
        lo
    } else if n > hi {
        hi
    } else {
        n
    }
}

/// The parse measure: how many tokens remain before the end.
pub open spec fn pmeas(ts: Seq<TokenV>, i: int) -> int {
    ts.len() - cl(0, ts.len() as int, i)
}

/// The parse error of the given kind at the token at `i`.
pub open spec fn perr_at(k: ParseErrorKind, ts: Seq<TokenV>, i: int) -> ParseErrV {
    ParseErrV {
        kind: k,
        line: if 0 <= i < ts.len() {
            ts[i].line_number
        } else {
            0
        },
    }
}

/// A primary expression: a literal, a parenthesized expression, or a
/// variable reference; any other leading token is an error.
pub open spec fn p_primary(ts: Seq<TokenV>, i: int) -> PExpr
    recommends
        0 <= i < ts.len(),
    decreases pmeas(ts, i), 2int,
{
    let t = ts[i];
    match t.token_type {
        TokenType::LeftParen => {
            if 0 <= i && i + 1 < ts.len() {
                let inner = p_expression(ts, i + 1);
                match inner.out {
                    Ok(e) => if 0 <= inner.next < ts.len() && ts[inner.next].token_type
                        == TokenType::RightParen {
                        PExpr {
                            out: Ok(ExprV::GroupingV { inner: Box::new(e) }),
                            next: inner.next + 1,
                        }
                    } else {
                        PExpr {
                            out: Err(perr_at(ParseErrorKind::ExpectedRightParen, ts, inner.next)),
                            next: inner.next,
                        }
                    },
                    Err(pe) => PExpr { out: Err(pe), next: inner.next },
                }
            } else {
                PExpr { out: Err(perr_at(ParseErrorKind::ExpectedExpression, ts, i)), next: i }
            }
        },
        TokenType::False | TokenType::True | TokenType::Nil | TokenType::Null | TokenType::Number
            | TokenType::StringLat => {
            if token_value_ok(t) {
                PExpr { out: Ok(ExprV::LateralV { value: token_value_v(t) }), next: i + 1 }
            } else {
                PExpr { out: Err(perr_at(ParseErrorKind::ExpectedExpression, ts, i)), next: i }
            }
        },
        TokenType::Identifier => PExpr { out: Ok(ExprV::VariableV { name: t }), next: i + 1 },
        _ => PExpr { out: Err(perr_at(ParseErrorKind::ExpectedExpression, ts, i)), next: i },
    }
}

/// A unary expression: `!` or `-` applied to a unary expression, or a
/// primary.
pub open spec fn p_unary(ts: Seq<TokenV>, i: int) -> PExpr
    recommends
        0 <= i < ts.len(),
    decreases pmeas(ts, i), 3int,
{
    let t = ts[i];
    if t.token_type == TokenType::Bang || t.token_type == TokenType::Minus {
        if 0 <= i && i + 1 < ts.len() {
            let r = p_unary(ts, i + 1);
            match r.out {
                Ok(e) => PExpr {
                    out: Ok(ExprV::UnaryV { op: t, right: Box::new(e) }),
                    next: r.next,
                },
                Err(pe) => PExpr { out: Err(pe), next: r.next },
            }
        } else {
            PExpr { out: Err(perr_at(ParseErrorKind::ExpectedExpression, ts, i)), next: i }
        }
    } else {
        p_primary(ts, i)
    }
}

/// Fold further `*` and `/` operands onto `acc`, left-associating.
pub open spec fn p_factor_tail(ts: Seq<TokenV>, j: int, acc: ExprV) -> PExpr
    recommends
        0 <= j < ts.len(),
    decreases pmeas(ts, j), 4int,
{
    if 0 <= j < ts.len() && (ts[j].token_type == TokenType::Slash || ts[j].token_type
        == TokenType::Star) {
        let op = ts[j];
        if j + 1 < ts.len() {
            let r = p_unary(ts, j + 1);
            match r.out {
                Ok(rhs) => p_factor_tail(
                    ts,
                    cl(j + 1, ts.len() as int, r.next),
                    ExprV::BinaryV { left: Box::new(acc), op, right: Box::new(rhs) },
                ),
                Err(pe) => PExpr { out: Err(pe), next: r.next },
            }
        } else {
            PExpr { out: Err(perr_at(ParseErrorKind::ExpectedExpression, ts, j)), next: j }
        }
    } else {
        PExpr { out: Ok(acc), next: j }
    }
}

/// A factor: unary expressions joined by `*` and `/`.
pub open spec fn p_factor(ts: Seq<TokenV>, i: int) -> PExpr
    recommends
        0 <= i < ts.len(),
    decreases pmeas(ts, i), 5int,
{
    let r = p_unary(ts, i);
    match r.out {
        Ok(e) => p_factor_tail(ts, cl(i, ts.len() as int, r.next), e),
        Err(pe) => PExpr { out: Err(pe), next: r.next },
    }
}

/// Fold further `+` and `-` operands onto `acc`, left-associating.
pub open spec fn p_term_tail(ts: Seq<TokenV>, j: int, acc: ExprV) -> PExpr
    recommends
        0 <= j < ts.len(),
    decreases pmeas(ts, j), 6int,
{
    if 0 <= j < ts.len() && (ts[j].token_type == TokenType::Minus || ts[j].token_type
        == TokenType::Plus) {
        let op = ts[j];
        if j + 1 < ts.len() {
            let r = p_factor(ts, j + 1);
            match r.out {
                Ok(rhs) => p_term_tail(
                    ts,
                    cl(j + 1, ts.len() as int, r.next),
                    ExprV::BinaryV { left: Box::new(acc), op, right: Box::new(rhs) },
                ),
                Err(pe) => PExpr { out: Err(pe), next: r.next },
            }
        } else {
            PExpr { out: Err(perr_at(ParseErrorKind::ExpectedExpression, ts, j)), next: j }
        }
    } else {
        PExpr { out: Ok(acc), next: j }
    }
}

/// A term: factors joined by `+` and `-`.
pub open spec fn p_term(ts: Seq<TokenV>, i: int) -> PExpr
    recommends
        0 <= i < ts.len(),
    decreases pmeas(ts, i), 7int,
{
    let r = p_factor(ts, i);
    match r.out {
        Ok(e) => p_term_tail(ts, cl(i, ts.len() as int, r.next), e),
        Err(pe) => PExpr { out: Err(pe), next: r.next },
    }
}

/// Whether the token is a relational operator.
pub open spec fn is_comparison_op(t: TokenType) -> bool {
    t == TokenType::Greater || t == TokenType::GreaterEqual || t == TokenType::Less || t
        == TokenType::LessEqual
}

/// Fold further relational operands onto `acc`, left-associating.
pub open spec fn p_comparison_tail(ts: Seq<TokenV>, j: int, acc: ExprV) -> PExpr
    recommends
        0 <= j < ts.len(),
    decreases pmeas(ts, j), 8int,
{
    if 0 <= j < ts.len() && is_comparison_op(ts[j].token_type) {
        let op = ts[j];
        if j + 1 < ts.len() {
            let r = p_term(ts, j + 1);
            match r.out {
                Ok(rhs) => p_comparison_tail(
                    ts,
                    cl(j + 1, ts.len() as int, r.next),
                    ExprV::BinaryV { left: Box::new(acc), op, right: Box::new(rhs) },
                ),
                Err(pe) => PExpr { out: Err(pe), next: r.next },
            }
        } else {
            PExpr { out: Err(perr_at(ParseErrorKind::ExpectedExpression, ts, j)), next: j }
        }
    } else {
        PExpr { out: Ok(acc), next: j }
    }
}

/// A comparison: terms joined by the relational operators.
pub open spec fn p_comparison(ts: Seq<TokenV>, i: int) -> PExpr
    recommends
        0 <= i < ts.len(),
    decreases pmeas(ts, i), 9int,
{
    let r = p_term(ts, i);
    match r.out {
        Ok(e) => p_comparison_tail(ts, cl(i, ts.len() as int, r.next), e),
        Err(pe) => PExpr { out: Err(pe), next: r.next },
    }
}

/// Fold further equality operands onto `acc`, left-associating.
pub open spec fn p_equality_tail(ts: Seq<TokenV>, j: int, acc: ExprV) -> PExpr
    recommends
        0 <= j < ts.len(),
    decreases pmeas(ts, j), 10int,
{
    if 0 <= j < ts.len() && (ts[j].token_type == TokenType::BangEqual || ts[j].token_type
        == TokenType::EqualEqual) {
        let op = ts[j];
        if j + 1 < ts.len() {
            let r = p_comparison(ts, j + 1);
            match r.out {
                Ok(rhs) => p_equality_tail(
                    ts,
                    cl(j + 1, ts.len() as int, r.next),
                    ExprV::BinaryV { left: Box::new(acc), op, right: Box::new(rhs) },
                ),
                Err(pe) => PExpr { out: Err(pe), next: r.next },
            }
        } else {
            PExpr { out: Err(perr_at(ParseErrorKind::ExpectedExpression, ts, j)), next: j }
        }
    } else {
        PExpr { out: Ok(acc), next: j }
    }
}

/// An equality: comparisons joined by the equality-test and not-equal
/// operators.
pub open spec fn p_equality(ts: Seq<TokenV>, i: int) -> PExpr
    recommends
        0 <= i < ts.len(),
    decreases pmeas(ts, i), 11int,
{
    let r = p_comparison(ts, i);
    match r.out {
        Ok(e) => p_equality_tail(ts, cl(i, ts.len() as int, r.next), e),
        Err(pe) => PExpr { out: Err(pe), next: r.next },
    }
}

/// An expression: the loosest grammar layer.
pub open spec fn p_expression(ts: Seq<TokenV>, i: int) -> PExpr
    recommends
        0 <= i < ts.len(),
    decreases pmeas(ts, i), 12int,
{
    p_equality(ts, i)
}

/// A print statement after its `print` keyword: an expression terminated
/// by the logical-not token.
pub open spec fn p_print_statement(ts: Seq<TokenV>, i: int) -> PStmt
    recommends
        0 <= i < ts.len(),
    decreases pmeas(ts, i), 13int,
{
    let r = p_expression(ts, i);
    match r.out {
        Ok(e) => if 0 <= r.next < ts.len() && ts[r.next].token_type == TokenType::Bang {
            PStmt { out: Ok(StmtV::PrintV { expression: e }), next: r.next + 1 }
        } else {
            PStmt {
                out: Err(perr_at(ParseErrorKind::ExpectedStatementEnd, ts, r.next)),
                next: r.next,
            }
        },
        Err(pe) => PStmt { out: Err(pe), next: r.next },
    }
}

/// An expression statement: an expression terminated by the logical-not
/// token, its value discarded.
pub open spec fn p_expression_statement(ts: Seq<TokenV>, i: int) -> PStmt
    recommends
        0 <= i < ts.len(),
    decreases pmeas(ts, i), 13int,
{
    let r = p_expression(ts, i);
    match r.out {
        Ok(e) => if 0 <= r.next < ts.len() && ts[r.next].token_type == TokenType::Bang {
            PStmt { out: Ok(StmtV::ExpressionV { expression: e }), next: r.next + 1 }
        } else {
            PStmt {
                out: Err(perr_at(ParseErrorKind::ExpectedStatementEnd, ts, r.next)),
                next: r.next,
            }
        },
        Err(pe) => PStmt { out: Err(pe), next: r.next },
    }
}

/// A print or expression statement.
pub open spec fn p_statement(ts: Seq<TokenV>, i: int) -> PStmt
    recommends
        0 <= i < ts.len(),
    decreases pmeas(ts, i), 14int,
{
    if ts[i].token_type == TokenType::Print {
        if 0 <= i && i + 1 < ts.len() {
            p_print_statement(ts, i + 1)
        } else {
            PStmt { out: Err(perr_at(ParseErrorKind::ExpectedExpression, ts, i)), next: i }
        }
    } else {
        p_expression_statement(ts, i)
    }
}

/// A variable declaration after its `var` keyword: a name, an optional
/// initializer introduced by the assignment operator, and the statement
/// separator.  Without an initializer the variable is bound to nil.
pub open spec fn p_var_declaration(ts: Seq<TokenV>, i: int) -> PStmt
    recommends
        0 <= i < ts.len(),
    decreases pmeas(ts, i), 13int,
{
    if ts[i].token_type == TokenType::Identifier {
        let name = ts[i];
        if 0 <= i && i + 1 < ts.len() && ts[i + 1].token_type == TokenType::Equal {
            if i + 2 < ts.len() {
                let r = p_expression(ts, i + 2);
                match r.out {
                    Ok(e) => if 0 <= r.next < ts.len() && ts[r.next].token_type
                        == TokenType::Semicolon {
                        PStmt {
                            out: Ok(StmtV::VarV { name, initializer: e }),
                            next: r.next + 1,
                        }
                    } else {
                        PStmt {
                            out: Err(perr_at(ParseErrorKind::ExpectedDeclarationEnd, ts, r.next)),
                            next: r.next,
                        }
                    },
                    Err(pe) => PStmt { out: Err(pe), next: r.next },
                }
            } else {
                PStmt { out: Err(perr_at(ParseErrorKind::ExpectedExpression, ts, i + 1)), next: i + 1 }
            }
        } else {
            if 0 <= i + 1 < ts.len() && ts[i + 1].token_type == TokenType::Semicolon {
                PStmt {
                    out: Ok(StmtV::VarV {
                        name,
                        initializer: ExprV::LateralV { value: ValueV::NilV },
                    }),
                    next: i + 2,
                }
            } else {
                PStmt {
                    out: Err(perr_at(ParseErrorKind::ExpectedDeclarationEnd, ts, i + 1)),
                    next: i + 1,
                }
            }
        }
    } else {
        PStmt { out: Err(perr_at(ParseErrorKind::ExpectedVariableName, ts, i)), next: i }
    }
}

/// A declaration: a `var` declaration or a statement.
pub open spec fn p_declaration(ts: Seq<TokenV>, i: int) -> PStmt
    recommends
        0 <= i < ts.len(),
    decreases pmeas(ts, i), 15int,
{
    if ts[i].token_type == TokenType::Var {
        if 0 <= i && i + 1 < ts.len() {
            p_var_declaration(ts, i + 1)
        } else {
            PStmt { out: Err(perr_at(ParseErrorKind::ExpectedVariableName, ts, i)), next: i }
        }
    } else {
        p_statement(ts, i)
    }
}

/// Whether the token kind likely begins a new declaration or statement:
/// the synchronization points of error recovery.
pub open spec fn is_sync_start(t: TokenType) -> bool {
    t == TokenType::Class || t == TokenType::Func || t == TokenType::Var || t == TokenType::For
        || t == TokenType::If || t == TokenType::While || t == TokenType::Print || t
        == TokenType::Return
}

/// Scan forward to a likely statement boundary: just after a statement
/// separator, at a token that begins a statement, or at the end.
pub open spec fn p_sync_scan(ts: Seq<TokenV>, j: int) -> int
    recommends
        1 <= j < ts.len(),
    decreases ts.len() - j,
{
    if !(1 <= j < ts.len()) {
        j
    } else if ts[j].token_type == TokenType::Eof {
        j
    } else if ts[j - 1].token_type == TokenType::Semicolon {
        j
    } else if is_sync_start(ts[j].token_type) {
        j
    } else {
        p_sync_scan(ts, j + 1)
    }
}

/// Synchronize after a parse error at position `i`: step over the
/// offending token, then scan to a likely statement boundary.
pub open spec fn p_sync(ts: Seq<TokenV>, i: int) -> int
    recommends
        0 <= i < ts.len(),
{
    if 0 <= i < ts.len() && ts[i].token_type == TokenType::Eof {
        i
    } else {
        p_sync_scan(ts, i + 1)
    }
}

/// `p_sync_scan` never moves backward.
proof fn lemma_sync_scan_ge(ts: Seq<TokenV>, j: int)
    ensures
        p_sync_scan(ts, j) >= j,
    decreases ts.len() - j,
{
    if 1 <= j < ts.len() && ts[j].token_type != TokenType::Eof && ts[j - 1].token_type
        != TokenType::Semicolon && !is_sync_start(ts[j].token_type) {
        lemma_sync_scan_ge(ts, j + 1);
    }
}

/// Whether the token kind likely begins a new declaration or statement.
fn sync_start_token(t: TokenType) -> (r: bool)
    ensures
        r == is_sync_start(t),
{
    t == TokenType::Class || t == TokenType::Func || t == TokenType::Var || t == TokenType::For
        || t == TokenType::If || t == TokenType::While || t == TokenType::Print || t
        == TokenType::Return
}

/// Whether the token can be turned into a literal value.
fn token_value_check(t: &Token) -> (r: bool)
    ensures
        r == token_value_ok(t@),
{
    match t.token_type {
        TokenType::Number => match &t.stract {
            Some(crate::scanner::StractValue::IntValue(x)) => *x != i64::MIN,
            Some(crate::scanner::StractValue::NumberValue(n)) => n.is_normal(),
            _ => false,
        },
        TokenType::StringLat => match &t.stract {
            Some(crate::scanner::StractValue::StringValue(_)) => true,
            Some(crate::scanner::StractValue::IdentifierValue(_)) => true,
            _ => false,
        },
        TokenType::False => true,
        TokenType::True => true,
        TokenType::Nil => true,
        TokenType::Null => true,
        _ => false,
    }
}

/// The whole program: declarations until the end-of-stream token, with one
/// error collected per malformed statement, recovery by synchronization.
pub open spec fn p_program(ts: Seq<TokenV>, i: int) -> PProg
    recommends
        0 <= i < ts.len(),
    decreases ts.len() - i,
{
    if !(0 <= i < ts.len()) {
        PProg { stmts: Seq::empty(), errs: Seq::empty() }
    } else if ts[i].token_type == TokenType::Eof {
        PProg { stmts: Seq::empty(), errs: Seq::empty() }
    } else {
        let d = p_declaration(ts, i);
        match d.out {
            Ok(st) => {
                let rest = p_program(ts, cl(i + 1, ts.len() as int, d.next));
                PProg { stmts: seq![st] + rest.stmts, errs: rest.errs }
            },
            Err(pe) => {
                let ns = p_sync(ts, cl(i, ts.len() as int, d.next));
                let rest = p_program(ts, cl(i + 1, ts.len() as int, ns));
                PProg { stmts: rest.stmts, errs: seq![pe] + rest.errs }
            },
        }
    }
}

/// Multiplication binds tighter than addition: for any number tokens `a`,
/// `b`, `c`, the token sequence `a + b * c` parses as one expression whose
/// tree is `(+ a (* b c))`, with the whole sequence consumed up to the
/// end-of-stream token; rendering that tree reproduces the fully
/// parenthesized prefix text `(+ a (* b c))`.
pub proof fn lemma_multiplication_binds_tighter(
    a: TokenV,
    plus: TokenV,
    b: TokenV,
    star: TokenV,
    c: TokenV,
    eof: TokenV,
)
    requires
        a.token_type == TokenType::Number && token_value_ok(a),
        b.token_type == TokenType::Number && token_value_ok(b),
        c.token_type == TokenType::Number && token_value_ok(c),
        plus.token_type == TokenType::Plus,
        star.token_type == TokenType::Star,
        eof.token_type == TokenType::Eof,
    ensures
        ({
            let ts = seq![a, plus, b, star, c, eof];
            let tree = ExprV::BinaryV {
                left: Box::new(ExprV::LateralV { value: token_value_v(a) }),
                op: plus,
                right: Box::new(ExprV::BinaryV {
                    left: Box::new(ExprV::LateralV { value: token_value_v(b) }),
                    op: star,
                    right: Box::new(ExprV::LateralV { value: token_value_v(c) }),
                }),
            };
            &&& p_expression(ts, 0) == (PExpr { out: Ok::<ExprV, ParseErrV>(tree), next: 5 })
            &&& crate::expr::expr_chars_v(tree) == seq!['('] + plus.panoll + seq![' ']
                + crate::expr::value_chars_v(token_value_v(a)) + seq![' '] + (seq!['(']
                + star.panoll + seq![' '] + crate::expr::value_chars_v(token_value_v(b))
                + seq![' '] + crate::expr::value_chars_v(token_value_v(c)) + seq![')'])
                + seq![')']
        }),
{
    let ts = seq![a, plus, b, star, c, eof];
    let la = ExprV::LateralV { value: token_value_v(a) };
    let lb = ExprV::LateralV { value: token_value_v(b) };
    let lc = ExprV::LateralV { value: token_value_v(c) };
    let bc = ExprV::BinaryV { left: Box::new(lb), op: star, right: Box::new(lc) };
    let abc = ExprV::BinaryV { left: Box::new(la), op: plus, right: Box::new(bc) };
    assert(ts.len() == 6);
    assert(ts[0] == a && ts[1] == plus && ts[2] == b && ts[3] == star && ts[4] == c && ts[5]
        == eof);
    assert(p_primary(ts, 0) == (PExpr { out: Ok::<ExprV, ParseErrV>(la), next: 1 }));
    assert(p_unary(ts, 0) == (PExpr { out: Ok::<ExprV, ParseErrV>(la), next: 1 }));
    assert(p_factor_tail(ts, 1, la) == (PExpr { out: Ok::<ExprV, ParseErrV>(la), next: 1 }));
    assert(p_factor(ts, 0) == (PExpr { out: Ok::<ExprV, ParseErrV>(la), next: 1 }));
    assert(p_primary(ts, 2) == (PExpr { out: Ok::<ExprV, ParseErrV>(lb), next: 3 }));
    assert(p_unary(ts, 2) == (PExpr { out: Ok::<ExprV, ParseErrV>(lb), next: 3 }));
    assert(p_primary(ts, 4) == (PExpr { out: Ok::<ExprV, ParseErrV>(lc), next: 5 }));
    assert(p_unary(ts, 4) == (PExpr { out: Ok::<ExprV, ParseErrV>(lc), next: 5 }));
    assert(p_factor_tail(ts, 5, bc) == (PExpr { out: Ok::<ExprV, ParseErrV>(bc), next: 5 }));
    assert(cl(4, 6, 5) == 5);
    assert(p_factor_tail(ts, 3, lb) == (PExpr { out: Ok::<ExprV, ParseErrV>(bc), next: 5 }));
    assert(cl(2, 6, 3) == 3);
    assert(p_factor(ts, 2) == (PExpr { out: Ok::<ExprV, ParseErrV>(bc), next: 5 }));
    assert(p_term_tail(ts, 5, abc) == (PExpr { out: Ok::<ExprV, ParseErrV>(abc), next: 5 }));
    assert(cl(2, 6, 5) == 5);
    assert(p_term_tail(ts, 1, la) == (PExpr { out: Ok::<ExprV, ParseErrV>(abc), next: 5 }));
    assert(cl(0, 6, 1) == 1);
    assert(p_term(ts, 0) == (PExpr { out: Ok::<ExprV, ParseErrV>(abc), next: 5 }));
    assert(p_comparison_tail(ts, 5, abc) == (PExpr { out: Ok::<ExprV, ParseErrV>(abc), next: 5 }));
    assert(cl(0, 6, 5) == 5);
    assert(p_comparison(ts, 0) == (PExpr { out: Ok::<ExprV, ParseErrV>(abc), next: 5 }));
    assert(p_equality_tail(ts, 5, abc) == (PExpr { out: Ok::<ExprV, ParseErrV>(abc), next: 5 }));
    assert(p_equality(ts, 0) == (PExpr { out: Ok::<ExprV, ParseErrV>(abc), next: 5 }));
    assert(p_expression(ts, 0) == (PExpr { out: Ok::<ExprV, ParseErrV>(abc), next: 5 }));
    assert(crate::expr::expr_chars_v(la) == crate::expr::value_chars_v(token_value_v(a)));
    assert(crate::expr::expr_chars_v(lb) == crate::expr::value_chars_v(token_value_v(b)));
    assert(crate::expr::expr_chars_v(lc) == crate::expr::value_chars_v(token_value_v(c)));
    assert(crate::expr::expr_chars_v(bc) == seq!['('] + star.panoll + seq![' ']
        + crate::expr::expr_chars_v(lb) + seq![' '] + crate::expr::expr_chars_v(lc) + seq![')']);
    assert(crate::expr::expr_chars_v(abc) == seq!['('] + plus.panoll + seq![' ']
        + crate::expr::expr_chars_v(la) + seq![' '] + crate::expr::expr_chars_v(bc) + seq![')']);
    assert(crate::expr::expr_chars_v(bc) =~= seq!['('] + star.panoll + seq![' ']
        + crate::expr::value_chars_v(token_value_v(b)) + seq![' ']
        + crate::expr::value_chars_v(token_value_v(c)) + seq![')']);
    assert(crate::expr::expr_chars_v(abc) =~= seq!['('] + plus.panoll + seq![' ']
        + crate::expr::value_chars_v(token_value_v(a)) + seq![' '] + (seq!['('] + star.panoll
        + seq![' '] + crate::expr::value_chars_v(token_value_v(b)) + seq![' ']
        + crate::expr::value_chars_v(token_value_v(c)) + seq![')']) + seq![')']);
}

/// The view of an expression parse result.
pub open spec fn pexpr_view(r: Result<Expr, ParseError>) -> Result<ExprV, ParseErrV> {
    match r {
        Ok(e) => Ok(expr_v(e)),
        Err(pe) => Err(pe@),
    }
}

/// The view of a statement parse result.
pub open spec fn pstmt_view(r: Result<Statement, ParseError>) -> Result<StmtV, ParseErrV> {
    match r {
        Ok(st) => Ok(stmt_v(st)),
        Err(pe) => Err(pe@),
    }
}

/// The parser: the tokens and the position of the next one to consume.
pub struct Parser {
    pub tokens: Vec<Token>,
    pub current: usize,
}

impl Parser {
    /// The views of the tokens being parsed.
    pub open spec fn toks(&self) -> Seq<TokenV> {
        tokens_view(self.tokens@)
    }

    /// Well-formedness: the token sequence ends with the end-of-stream
    /// token and the position is in bounds.
    pub open spec fn wf(&self) -> bool {
        &&& self.tokens@.len() >= 1
        &&& self.toks().last().token_type == TokenType::Eof
        &&& self.current < self.tokens@.len()
    }

    /// A parser at the start of the given tokens.
    pub fn new(tokens: Vec<Token>) -> (r: Self)
        ensures
            r.tokens == tokens,
            r.current == 0,
    {
        Self { tokens, current: 0 }
    }

    fn is_at_end(&self) -> (r: bool)
        requires
            self.wf(),
        ensures
            r == (self.toks()[self.current as int].token_type == TokenType::Eof),
    {
        self.tokens[self.current].token_type == TokenType::Eof
    }

    fn peek(&self) -> (t: &Token)
        requires
            self.wf(),
        ensures
            t@ == self.toks()[self.current as int],
    {
        &self.tokens[self.current]
    }

    fn previous(&self) -> (t: &Token)
        requires
            self.wf(),
            self.current >= 1,
        ensures
            t@ == self.toks()[self.current - 1],
    {
        &self.tokens[self.current - 1]
    }

    fn advance(&mut self)
        requires
            old(self).wf(),
        ensures
            final(self).wf(),
            final(self).tokens == old(self).tokens,
            final(self).current == if old(self).toks()[old(self).current as int].token_type
                == TokenType::Eof {
                old(self).current as int
            } else {
                old(self).current + 1
            },
    {
        let n = self.tokens.len();
        if !self.is_at_end() {
            proof {
                assert(self.toks()[n - 1].token_type == TokenType::Eof);
                assert(self.current != n - 1);
            }
            self.current = self.current + 1;
        }
    }

    fn match_token(&mut self, typ: TokenType) -> (r: bool)
        requires
            old(self).wf(),
            typ != TokenType::Eof,
        ensures
            final(self).wf(),
            final(self).tokens == old(self).tokens,
            r == (old(self).toks()[old(self).current as int].token_type == typ),
            final(self).current == if r {
                old(self).current + 1
            } else {
                old(self).current as int
            },
    {
        if self.is_at_end() {
            false
        } else if self.peek().token_type == typ {
            self.advance();
            true
        } else {
            false
        }
    }

    fn consume(&mut self, token_type: TokenType, kind: ParseErrorKind) -> (r: Result<
        Token,
        ParseError,
    >)
        requires
            old(self).wf(),
            token_type != TokenType::Eof,
        ensures
            final(self).wf(),
            final(self).tokens == old(self).tokens,
            ({
                let ts = old(self).toks();
                let i = old(self).current as int;
                if ts[i].token_type == token_type {
                    &&& r matches Ok(t) && t@ == ts[i]
                    &&& final(self).current == i + 1
                } else {
                    &&& r == Err::<Token, ParseError>(ParseError {
                        kind,
                        line: old(self).tokens@[i].line_number,
                    })
                    &&& final(self).current == i
                }
            }),
    {
        if self.peek().token_type == token_type {
            let t = self.peek().duplicate();
            self.advance();
            Ok(t)
        } else {
            Err(ParseError { kind, line: self.peek().line_number })
        }
    }

    fn peek_is_factor_op(&self) -> (r: bool)
        requires
            self.wf(),
        ensures
            r == (self.toks()[self.current as int].token_type == TokenType::Slash
                || self.toks()[self.current as int].token_type == TokenType::Star),
    {
        self.peek().token_type == TokenType::Slash || self.peek().token_type == TokenType::Star
    }

    fn peek_is_term_op(&self) -> (r: bool)
        requires
            self.wf(),
        ensures
            r == (self.toks()[self.current as int].token_type == TokenType::Minus
                || self.toks()[self.current as int].token_type == TokenType::Plus),
    {
        self.peek().token_type == TokenType::Minus || self.peek().token_type == TokenType::Plus
    }

    fn peek_is_comparison_op(&self) -> (r: bool)
        requires
            self.wf(),
        ensures
            r == is_comparison_op(self.toks()[self.current as int].token_type),
    {
        let t = self.peek().token_type;
        t == TokenType::Greater || t == TokenType::GreaterEqual || t == TokenType::Less || t
            == TokenType::LessEqual
    }

    fn peek_is_equality_op(&self) -> (r: bool)
        requires
            self.wf(),
        ensures
            r == (self.toks()[self.current as int].token_type == TokenType::BangEqual
                || self.toks()[self.current as int].token_type == TokenType::EqualEqual),
    {
        self.peek().token_type == TokenType::BangEqual || self.peek().token_type
            == TokenType::EqualEqual
    }

    fn primary(&mut self) -> (r: Result<Expr, ParseError>)
        requires
            old(self).wf(),
        ensures
            final(self).wf(),
            final(self).tokens == old(self).tokens,
            final(self).current >= old(self).current,
            r matches Ok(e) ==> expr_inv(e) && final(self).current > old(self).current,
            final(self).current as int == p_primary(old(self).toks(), old(self).current as int).next,
            pexpr_view(r) == p_primary(old(self).toks(), old(self).current as int).out,
        decreases old(self).tokens@.len() - old(self).current, 2int,
    {
        let t_type = self.peek().token_type;
        match t_type {
            TokenType::LeftParen => {
                self.advance();
                match self.expression() {
                    Ok(e) => match self.consume(
                        TokenType::RightParen,
                        ParseErrorKind::ExpectedRightParen,
                    ) {
                        Ok(u) => Ok(Expr::Grouping { expression: Box::new(e) }),
                        Err(pe) => Err(pe),
                    },
                    Err(pe) => Err(pe),
                }
            },
            TokenType::False | TokenType::True | TokenType::Nil | TokenType::Null
                | TokenType::Number | TokenType::StringLat => {
                if token_value_check(self.peek()) {
                    let tok = self.peek().duplicate();
                    self.advance();
                    Ok(Expr::Lateral { value: StractValue::from_token(tok) })
                } else {
                    Err(ParseError {
                        kind: ParseErrorKind::ExpectedExpression,
                        line: self.peek().line_number,
                    })
                }
            },
            TokenType::Identifier => {
                let tok = self.peek().duplicate();
                self.advance();
                Ok(Expr::Variable { name: tok })
            },
            _ => Err(ParseError {
                kind: ParseErrorKind::ExpectedExpression,
                line: self.peek().line_number,
            }),
        }
    }

    fn unary(&mut self) -> (r: Result<Expr, ParseError>)
        requires
            old(self).wf(),
        ensures
            final(self).wf(),
            final(self).tokens == old(self).tokens,
            final(self).current >= old(self).current,
            r matches Ok(e) ==> expr_inv(e) && final(self).current > old(self).current,
            final(self).current as int == p_unary(old(self).toks(), old(self).current as int).next,
            pexpr_view(r) == p_unary(old(self).toks(), old(self).current as int).out,
        decreases old(self).tokens@.len() - old(self).current, 3int,
    {
        let t_type = self.peek().token_type;
        if t_type == TokenType::Bang || t_type == TokenType::Minus {
            let op = self.peek().duplicate();
            self.advance();
            match self.unary() {
                Ok(e) => Ok(Expr::Unary { operator: op, right: Box::new(e) }),
                Err(pe) => Err(pe),
            }
        } else {
            self.primary()
        }
    }

    #[verifier::loop_isolation(false)]
    fn factor(&mut self) -> (r: Result<Expr, ParseError>)
        requires
            old(self).wf(),
        ensures
            final(self).wf(),
            final(self).tokens == old(self).tokens,
            final(self).current >= old(self).current,
            r matches Ok(e) ==> expr_inv(e) && final(self).current > old(self).current,
            final(self).current as int == p_factor(old(self).toks(), old(self).current as int).next,
            pexpr_view(r) == p_factor(old(self).toks(), old(self).current as int).out,
        decreases old(self).tokens@.len() - old(self).current, 5int,
    {
        let ghost ts = self.toks();
        let ghost i0 = self.current as int;
        let mut expr: Expr;
        match self.unary() {
            Ok(e) => {
                expr = e;
            },
            Err(pe) => {
                return Err(pe);
            },
        }
        while self.peek_is_factor_op()
            invariant
                self.wf(),
                self.tokens == old(self).tokens,
                i0 < self.current,
                expr_inv(expr),
                p_factor(ts, i0) == p_factor_tail(ts, self.current as int, expr_v(expr)),
            decreases self.tokens@.len() - self.current,
        {
            let op = self.peek().duplicate();
            self.advance();
            match self.unary() {
                Ok(rhs) => {
                    expr = Expr::Binary {
                        left: Box::new(expr),
                        operator: op,
                        right: Box::new(rhs),
                    };
                },
                Err(pe) => {
                    return Err(pe);
                },
            }
        }
        Ok(expr)
    }

    #[verifier::loop_isolation(false)]
    fn term(&mut self) -> (r: Result<Expr, ParseError>)
        requires
            old(self).wf(),
        ensures
            final(self).wf(),
            final(self).tokens == old(self).tokens,
            final(self).current >= old(self).current,
            r matches Ok(e) ==> expr_inv(e) && final(self).current > old(self).current,
            final(self).current as int == p_term(old(self).toks(), old(self).current as int).next,
            pexpr_view(r) == p_term(old(self).toks(), old(self).current as int).out,
        decreases old(self).tokens@.len() - old(self).current, 7int,
    {
        let ghost ts = self.toks();
        let ghost i0 = self.current as int;
        let mut expr: Expr;
        match self.factor() {
            Ok(e) => {
                expr = e;
            },
            Err(pe) => {
                return Err(pe);
            },
        }
        while self.peek_is_term_op()
            invariant
                self.wf(),
                self.tokens == old(self).tokens,
                i0 < self.current,
                expr_inv(expr),
                p_term(ts, i0) == p_term_tail(ts, self.current as int, expr_v(expr)),
            decreases self.tokens@.len() - self.current,
        {
            let op = self.peek().duplicate();
            self.advance();
            match self.factor() {
                Ok(rhs) => {
                    expr = Expr::Binary {
                        left: Box::new(expr),
                        operator: op,
                        right: Box::new(rhs),
                    };
                },
                Err(pe) => {
                    return Err(pe);
                },
            }
        }
        Ok(expr)
    }

    #[verifier::loop_isolation(false)]
    fn comparison(&mut self) -> (r: Result<Expr, ParseError>)
        requires
            old(self).wf(),
        ensures
            final(self).wf(),
            final(self).tokens == old(self).tokens,
            final(self).current >= old(self).current,
            r matches Ok(e) ==> expr_inv(e) && final(self).current > old(self).current,
            final(self).current as int == p_comparison(old(self).toks(), old(self).current as int).next,
            pexpr_view(r) == p_comparison(old(self).toks(), old(self).current as int).out,
        decreases old(self).tokens@.len() - old(self).current, 9int,
    {
        let ghost ts = self.toks();
        let ghost i0 = self.current as int;
        let mut expr: Expr;
        match self.term() {
            Ok(e) => {
                expr = e;
            },
            Err(pe) => {
                return Err(pe);
            },
        }
        while self.peek_is_comparison_op()
            invariant
                self.wf(),
                self.tokens == old(self).tokens,
                i0 < self.current,
                expr_inv(expr),
                p_comparison(ts, i0) == p_comparison_tail(ts, self.current as int, expr_v(expr)),
            decreases self.tokens@.len() - self.current,
        {
            let op = self.peek().duplicate();
            self.advance();
            match self.term() {
                Ok(rhs) => {
                    expr = Expr::Binary {
                        left: Box::new(expr),
                        operator: op,
                        right: Box::new(rhs),
                    };
                },
                Err(pe) => {
                    return Err(pe);
                },
            }
        }
        Ok(expr)
    }

    #[verifier::loop_isolation(false)]
    fn equality(&mut self) -> (r: Result<Expr, ParseError>)
        requires
            old(self).wf(),
        ensures
            final(self).wf(),
            final(self).tokens == old(self).tokens,
            final(self).current >= old(self).current,
            r matches Ok(e) ==> expr_inv(e) && final(self).current > old(self).current,
            final(self).current as int == p_equality(old(self).toks(), old(self).current as int).next,
            pexpr_view(r) == p_equality(old(self).toks(), old(self).current as int).out,
        decreases old(self).tokens@.len() - old(self).current, 11int,
    {
        let ghost ts = self.toks();
        let ghost i0 = self.current as int;
        let mut expr: Expr;
        match self.comparison() {
            Ok(e) => {
                expr = e;
            },
            Err(pe) => {
                return Err(pe);
            },
        }
        while self.peek_is_equality_op()
            invariant
                self.wf(),
                self.tokens == old(self).tokens,
                i0 < self.current,
                expr_inv(expr),
                p_equality(ts, i0) == p_equality_tail(ts, self.current as int, expr_v(expr)),
            decreases self.tokens@.len() - self.current,
        {
            let op = self.peek().duplicate();
            self.advance();
            match self.comparison() {
                Ok(rhs) => {
                    expr = Expr::Binary {
                        left: Box::new(expr),
                        operator: op,
                        right: Box::new(rhs),
                    };
                },
                Err(pe) => {
                    return Err(pe);
                },
            }
        }
        Ok(expr)
    }

    /// Parse one expression at the current position.
    pub fn expression(&mut self) -> (r: Result<Expr, ParseError>)
        requires
            old(self).wf(),
        ensures
            final(self).wf(),
            final(self).tokens == old(self).tokens,
            final(self).current >= old(self).current,
            r matches Ok(e) ==> expr_inv(e) && final(self).current > old(self).current,
            final(self).current as int == p_expression(old(self).toks(), old(self).current as int).next,
            pexpr_view(r) == p_expression(old(self).toks(), old(self).current as int).out,
        decreases old(self).tokens@.len() - old(self).current, 12int,
    {
        self.equality()
    }

    fn print_statement(&mut self) -> (r: Result<Statement, ParseError>)
        requires
            old(self).wf(),
        ensures
            final(self).wf(),
            final(self).tokens == old(self).tokens,
            final(self).current >= old(self).current,
            r matches Ok(st) ==> stmt_inv(st) && final(self).current > old(self).current,
            final(self).current as int == p_print_statement(old(self).toks(), old(self).current as int).next,
            pstmt_view(r) == p_print_statement(old(self).toks(), old(self).current as int).out,
    {
        match self.expression() {
            Ok(e) => match self.consume(TokenType::Bang, ParseErrorKind::ExpectedStatementEnd) {
                Ok(u) => Ok(Statement::Print { expression: e }),
                Err(pe) => Err(pe),
            },
            Err(pe) => Err(pe),
        }
    }

    fn expression_statement(&mut self) -> (r: Result<Statement, ParseError>)
        requires
            old(self).wf(),
        ensures
            final(self).wf(),
            final(self).tokens == old(self).tokens,
            final(self).current >= old(self).current,
            r matches Ok(st) ==> stmt_inv(st) && final(self).current > old(self).current,
            final(self).current as int == p_expression_statement(old(self).toks(), old(self).current as int).next,
            pstmt_view(r) == p_expression_statement(old(self).toks(), old(self).current as int).out,
    {
        match self.expression() {
            Ok(e) => match self.consume(TokenType::Bang, ParseErrorKind::ExpectedStatementEnd) {
                Ok(u) => Ok(Statement::Expression { expression: e }),
                Err(pe) => Err(pe),
            },
            Err(pe) => Err(pe),
        }
    }

    fn statement(&mut self) -> (r: Result<Statement, ParseError>)
        requires
            old(self).wf(),
        ensures
            final(self).wf(),
            final(self).tokens == old(self).tokens,
            final(self).current >= old(self).current,
            r matches Ok(st) ==> stmt_inv(st) && final(self).current > old(self).current,
            final(self).current as int == p_statement(old(self).toks(), old(self).current as int).next,
            pstmt_view(r) == p_statement(old(self).toks(), old(self).current as int).out,
    {
        if self.match_token(TokenType::Print) {
            self.print_statement()
        } else {
            self.expression_statement()
        }
    }

    fn var_declaration(&mut self) -> (r: Result<Statement, ParseError>)
        requires
            old(self).wf(),
        ensures
            final(self).wf(),
            final(self).tokens == old(self).tokens,
            final(self).current >= old(self).current,
            r matches Ok(st) ==> stmt_inv(st) && final(self).current > old(self).current,
            final(self).current as int == p_var_declaration(old(self).toks(), old(self).current as int).next,
            pstmt_view(r) == p_var_declaration(old(self).toks(), old(self).current as int).out,
    {
        let token = match self.consume(TokenType::Identifier, ParseErrorKind::ExpectedVariableName) {
            Ok(t) => t,
            Err(pe) => {
                return Err(pe);
            },
        };
        let initializer: Expr;
        if self.match_token(TokenType::Equal) {
            match self.expression() {
                Ok(e) => {
                    initializer = e;
                },
                Err(pe) => {
                    return Err(pe);
                },
            }
        } else {
            initializer = Expr::Lateral { value: StractValue::Nil };
        }
        match self.consume(TokenType::Semicolon, ParseErrorKind::ExpectedDeclarationEnd) {
            Ok(u) => Ok(Statement::Var { name: token, initializer }),
            Err(pe) => Err(pe),
        }
    }

    #[verifier::loop_isolation(false)]
    fn synchronize(&mut self)
        requires
            old(self).wf(),
        ensures
            final(self).wf(),
            final(self).tokens == old(self).tokens,
            final(self).current >= old(self).current,
            final(self).current as int == p_sync(old(self).toks(), old(self).current as int),
    {
        let ghost ts = self.toks();
        let ghost i0 = self.current as int;
        if self.is_at_end() {
            return;
        }
        self.advance();
        while !self.is_at_end()
            invariant
                self.wf(),
                self.tokens == old(self).tokens,
                i0 + 1 <= self.current,
                p_sync_scan(ts, i0 + 1) == p_sync_scan(ts, self.current as int),
            decreases self.tokens@.len() - self.current,
        {
            if self.previous().token_type == TokenType::Semicolon {
                return;
            }
            if sync_start_token(self.peek().token_type) {
                return;
            }
            self.advance();
        }
    }

    fn declaration(&mut self) -> (r: Result<Statement, ParseError>)
        requires
            old(self).wf(),
        ensures
            final(self).wf(),
            final(self).tokens == old(self).tokens,
            final(self).current >= old(self).current,
            r matches Ok(st) ==> stmt_inv(st) && final(self).current > old(self).current,
            ({
                let d = p_declaration(old(self).toks(), old(self).current as int);
                &&& pstmt_view(r) == d.out
                &&& old(self).current <= d.next < old(self).tokens@.len()
                &&& (match r {
                    Ok(st) => final(self).current as int == d.next,
                    Err(pe) => final(self).current as int == p_sync(old(self).toks(), d.next),
                })
            }),
    {
        if self.match_token(TokenType::Var) {
            match self.var_declaration() {
                Ok(st) => Ok(st),
                Err(pe) => {
                    self.synchronize();
                    Err(pe)
                },
            }
        } else {
            match self.statement() {
                Ok(st) => Ok(st),
                Err(pe) => {
                    self.synchronize();
                    Err(pe)
                },
            }
        }
    }

    /// Parse the whole token sequence into statements, collecting one error
    /// per malformed statement across the entire input.
    #[verifier::loop_isolation(false)]
    #[verifier::rlimit(100)]
    #[verifier::spinoff_prover]
    pub fn parse(&mut self) -> (r: Result<Vec<Statement>, Vec<ParseError>>)
        requires
            old(self).wf(),
        ensures
            ({
                let pr = p_program(old(self).toks(), old(self).current as int);
                match r {
                    Ok(stmts) => pr.errs.len() == 0 && stmts_view(stmts@) == pr.stmts
                        && (forall|k: int| 0 <= k < stmts@.len() ==> stmt_inv(#[trigger] stmts@[k])),
                    Err(errs) => errs@.len() > 0 && perrs_view(errs@) == pr.errs,
                }
            }),
    {
        let ghost ts = self.toks();
        let ghost c0 = self.current as int;
        let mut statements: Vec<Statement> = Vec::new();
        let mut errs: Vec<ParseError> = Vec::new();
        proof {
            assert(stmts_view(statements@) =~= Seq::empty());
            assert(perrs_view(errs@) =~= Seq::empty());
            assert(p_program(ts, c0).stmts =~= stmts_view(statements@) + p_program(
                ts,
                self.current as int,
            ).stmts);
            assert(p_program(ts, c0).errs =~= perrs_view(errs@) + p_program(
                ts,
                self.current as int,
            ).errs);
        }
        while !self.is_at_end()
            invariant
                self.wf(),
                self.tokens == old(self).tokens,
                forall|k: int| 0 <= k < statements@.len() ==> stmt_inv(#[trigger] statements@[k]),
                p_program(ts, c0).stmts == stmts_view(statements@) + p_program(
                    ts,
                    self.current as int,
                ).stmts,
                p_program(ts, c0).errs == perrs_view(errs@) + p_program(
                    ts,
                    self.current as int,
                ).errs,
            decreases self.tokens@.len() - self.current,
        {
            let ghost i = self.current as int;
            let ghost st0 = statements@;
            let ghost er0 = errs@;
            let res = self.declaration();
            proof {
                let d = p_declaration(ts, i);
                assert(cl(i, ts.len() as int, d.next) == d.next);
                if d.out is Err {
                    lemma_sync_scan_ge(ts, d.next + 1);
                    assert(p_sync(ts, d.next) > i);
                    assert(p_sync(ts, d.next) == self.current as int);
                    assert(cl(i + 1, ts.len() as int, p_sync(ts, d.next)) == self.current as int);
                } else {
                    assert(d.next == self.current as int);
                    assert(cl(i + 1, ts.len() as int, d.next) == self.current as int);
                }
            }
            match res {
                Ok(st) => {
                    statements.push(st);
                    proof {
                        assert(stmts_view(statements@) =~= stmts_view(st0) + seq![stmt_v(st)]);
                        assert(stmts_view(st0) + (seq![stmt_v(st)] + p_program(
                            ts,
                            self.current as int,
                        ).stmts) =~= (stmts_view(st0) + seq![stmt_v(st)]) + p_program(
                            ts,
                            self.current as int,
                        ).stmts);
                    }
                },
                Err(pe) => {
                    errs.push(pe);
                    proof {
                        assert(perrs_view(errs@) =~= perrs_view(er0) + seq![pe@]);
                        assert(perrs_view(er0) + (seq![pe@] + p_program(
                            ts,
                            self.current as int,
                        ).errs) =~= (perrs_view(er0) + seq![pe@]) + p_program(
                            ts,
                            self.current as int,
                        ).errs);
                    }
                },
            }
        }
        proof {
            assert(p_program(ts, self.current as int).stmts =~= Seq::<StmtV>::empty());
            assert(p_program(ts, self.current as int).errs =~= Seq::<ParseErrV>::empty());
            assert(stmts_view(statements@) + Seq::<StmtV>::empty() =~= stmts_view(statements@));
            assert(perrs_view(errs@) + Seq::<ParseErrV>::empty() =~= perrs_view(errs@));
        }
        if errs.len() == 0 {
            Ok(statements)
        } else {
            Err(errs)
        }
    }
}

} // verus!
