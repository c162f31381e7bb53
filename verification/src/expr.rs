//! The runtime value domain and the expression trees of the language,
//! together with the tree-walking expression evaluator.

use vstd::prelude::*;
use crate::num::{Num, NumV, normal, num_eq_v, num_lt_v, num_le_v, add_v, sub_v, mul_v, div_v, neg_v, num_chars_v};
use crate::scanner::{Token, TokenV, TokenType, StractValue as LexValue, StractV as LexV};
use crate::environment::Environment;
use crate::text::{chars_to_string, push_str_chars};

verus! {

/// Mathematical view of a runtime value.
pub enum ValueV {
    NumberV(NumV),
    StringV(Seq<char>),
    TrueV,
    FalseV,
    NilV,
    NullV,
}

/// A runtime value: a number, a string, one of the two booleans, or one of
/// the two absent-value markers.
#[derive(Debug, Clone)]
pub enum StractValue {
    Number(Num),
    StringValue(String),
    True,
    False,
    Nil,
    Null,
}

impl View for StractValue {
    type V = ValueV;

    open spec fn view(&self) -> ValueV {
        match self {
            StractValue::Number(n) => ValueV::NumberV(n@),
            StractValue::StringValue(s) => ValueV::StringV(s@),
            StractValue::True => ValueV::TrueV,
            StractValue::False => ValueV::FalseV,
            StractValue::Nil => ValueV::NilV,
            StractValue::Null => ValueV::NullV,
        }
    }
}

/// A runtime value is well formed when any number it carries is canonical.
pub open spec fn value_inv(v: StractValue) -> bool {
    match v {
        StractValue::Number(n) => normal(n@),
        _ => true,
    }
}

/// Structural equality of value views: same variant, same payload, with
/// numbers compared as values (canonical forms make the two agree).
pub open spec fn value_eq_v(a: ValueV, b: ValueV) -> bool {
    match (a, b) {
        (ValueV::NumberV(x), ValueV::NumberV(y)) => num_eq_v(x, y),
        (ValueV::StringV(x), ValueV::StringV(y)) => x == y,
        (ValueV::TrueV, ValueV::TrueV) => true,
        (ValueV::FalseV, ValueV::FalseV) => true,
        (ValueV::NilV, ValueV::NilV) => true,
        (ValueV::NullV, ValueV::NullV) => true,
        _ => false,
    }
}

/// Lexicographic order on character sequences.
pub open spec fn str_lt_v(a: Seq<char>, b: Seq<char>) -> bool
    decreases a.len(),
{
    if b.len() == 0 {
        false
    } else if a.len() == 0 {
        true
    } else if (a[0] as int) < (b[0] as int) {
        true
    } else if a[0] == b[0] {
        str_lt_v(a.drop_first(), b.drop_first())
    } else {
        false
    }
}

/// The boolean value for `b`.
pub open spec fn from_bool_v(b: bool) -> ValueV {
    if b {
        ValueV::TrueV
    } else {
        ValueV::FalseV
    }
}

/// The falsiness of a value, as the boolean value of `not`: zero, the empty
/// string, false, nil and null are falsy; everything else is truthy.
pub open spec fn is_falsy_v(v: ValueV) -> ValueV {
    match v {
        ValueV::NumberV(x) => from_bool_v(x.m == 0),
        ValueV::StringV(s) => from_bool_v(s.len() == 0),
        ValueV::TrueV => ValueV::FalseV,
        ValueV::FalseV => ValueV::TrueV,
        ValueV::NilV => ValueV::TrueV,
        ValueV::NullV => ValueV::TrueV,
    }
}

/// The textual rendering of a value: a number as its decimal text, a string
/// as its raw text, and each remaining variant as its literal spelling.
pub open spec fn value_chars_v(v: ValueV) -> Seq<char> {
    match v {
        ValueV::NumberV(x) => num_chars_v(x),
        ValueV::StringV(s) => s,
        ValueV::TrueV => "true"@,
        ValueV::FalseV => "false"@,
        ValueV::NilV => "nil"@,
        ValueV::NullV => "null"@,
    }
}

/// The name of a value's type, as reported in diagnostics.
pub open spec fn type_name_v(v: ValueV) -> Seq<char> {
    match v {
        ValueV::NumberV(x) => "Number"@,
        ValueV::StringV(s) => "String"@,
        ValueV::TrueV => "Boolean"@,
        ValueV::FalseV => "Boolean"@,
        ValueV::NilV => "nil"@,
        ValueV::NullV => "null"@,
    }
}

impl PartialEq for StractValue {
    /// Structural equality: variant and payload must match; numbers in
    /// canonical form compare by representation.
    fn eq(&self, other: &StractValue) -> (r: bool) {
        match (self, other) {
            (StractValue::Number(x), StractValue::Number(y)) => x.same_repr(y),
            (StractValue::StringValue(x), StractValue::StringValue(y)) => *x == *y,
            (StractValue::True, StractValue::True) => true,
            (StractValue::False, StractValue::False) => true,
            (StractValue::Nil, StractValue::Nil) => true,
            (StractValue::Null, StractValue::Null) => true,
            _ => false,
        }
    }
}

impl vstd::std_specs::cmp::PartialEqSpecImpl for StractValue {
    open spec fn obeys_eq_spec() -> bool {
        true
    }

    open spec fn eq_spec(&self, other: &StractValue) -> bool {
        match (self, other) {
            (StractValue::Number(x), StractValue::Number(y)) => x@ == y@,
            (StractValue::StringValue(x), StractValue::StringValue(y)) => x@ == y@,
            (StractValue::True, StractValue::True) => true,
            (StractValue::False, StractValue::False) => true,
            (StractValue::Nil, StractValue::Nil) => true,
            (StractValue::Null, StractValue::Null) => true,
            _ => false,
        }
    }
}

/// The string payload of a string-bearing lexical literal.
pub open spec fn unwrap_string_v(o: Option<LexV>) -> Seq<char> {
    match o {
        Some(LexV::StringV(s)) => s,
        Some(LexV::IdentifierV(s)) => s,
        _ => Seq::empty(),
    }
}

/// The string payload of a lexical literal.  The payload must be
/// string-bearing: other payloads have no string to give.
pub fn unwrap_as_string(stract: Option<LexValue>) -> (r: String)
    requires
        stract matches Some(v) && (v@ is StringV || v@ is IdentifierV),
    ensures
        r@ == unwrap_string_v(match stract {
            Some(v) => Some(v@),
            None => None,
        }),
{
    match stract {
        Some(LexValue::StringValue(s)) => s,
        Some(LexValue::IdentifierValue(s)) => s,
        _ => String::new(),
    }
}

/// Whether a token can be turned into a literal value.
pub open spec fn token_value_ok(t: TokenV) -> bool {
    match t.token_type {
        TokenType::Number => match t.stract {
            Some(LexV::IntV(x)) => -(i64::MAX as int) <= x <= i64::MAX as int,
            Some(LexV::NumberV(n)) => normal(n),
            _ => false,
        },
        TokenType::StringLat => t.stract matches Some(v) && (v is StringV || v is IdentifierV),
        TokenType::False => true,
        TokenType::True => true,
        TokenType::Nil => true,
        TokenType::Null => true,
        _ => false,
    }
}

/// The literal value of a token.
pub open spec fn token_value_v(t: TokenV) -> ValueV
    recommends
        token_value_ok(t),
{
    match t.token_type {
        TokenType::Number => match t.stract {
            Some(LexV::IntV(x)) => ValueV::NumberV(NumV { m: x, s: 0 }),
            Some(LexV::NumberV(n)) => ValueV::NumberV(n),
            _ => ValueV::NilV,
        },
        TokenType::StringLat => ValueV::StringV(unwrap_string_v(t.stract)),
        TokenType::False => ValueV::FalseV,
        TokenType::True => ValueV::TrueV,
        TokenType::Nil => ValueV::NilV,
        _ => ValueV::NullV,
    }
}

impl StractValue {
    /// The value's textual rendering.
    pub fn to_string(&self) -> (r: String)
        requires
            value_inv(*self),
        ensures
            r@ == value_chars_v(self@),
    {
        match self {
            StractValue::Number(x) => {
                let cs = x.to_chars();
                chars_to_string(&cs)
            },
            StractValue::StringValue(x) => x.clone(),
            StractValue::True => String::from_str("true"),
            StractValue::False => String::from_str("false"),
            StractValue::Nil => String::from_str("nil"),
            StractValue::Null => String::from_str("null"),
        }
    }

    /// The name of the value's type.
    pub fn to_type(&self) -> (r: &'static str)
        ensures
            r@ == type_name_v(self@),
    {
        match self {
            StractValue::Number(_) => "Number",
            StractValue::StringValue(_) => "String",
            StractValue::True => "Boolean",
            StractValue::False => "Boolean",
            StractValue::Nil => "nil",
            StractValue::Null => "null",
        }
    }

    /// The literal value carried by a literal-bearing token.
    pub fn from_token(token: Token) -> (r: Self)
        requires
            token_value_ok(token@),
        ensures
            r@ == token_value_v(token@),
            value_inv(r),
    {
        match token.token_type {
            TokenType::Number => match token.stract {
                Some(LexValue::IntValue(x)) => Self::Number(Num::from_int(x)),
                Some(LexValue::NumberValue(n)) => Self::Number(n),
                _ => Self::Nil,
            },
            TokenType::StringLat => Self::StringValue(unwrap_as_string(token.stract)),
            TokenType::False => Self::False,
            TokenType::True => Self::True,
            TokenType::Nil => Self::Nil,
            _ => Self::Null,
        }
    }

    /// The boolean value for `b`.
    pub fn from_bool(b: bool) -> (r: Self)
        ensures
            r@ == from_bool_v(b),
            value_inv(r),
    {
        if b {
            StractValue::True
        } else {
            StractValue::False
        }
    }

    /// The value's falsiness as a boolean value: the meaning of `not`.
    pub fn is_falsy(&self) -> (r: StractValue)
        ensures
            r@ == is_falsy_v(self@),
            value_inv(r),
    {
        match self {
            StractValue::Number(x) => Self::from_bool(x.is_zero()),
            StractValue::StringValue(s) => Self::from_bool(s.as_str().unicode_len() == 0),
            StractValue::True => StractValue::False,
            StractValue::False => StractValue::True,
            StractValue::Nil => StractValue::True,
            StractValue::Null => StractValue::True,
        }
    }

    /// A copy of the value.
    pub fn duplicate(&self) -> (r: StractValue)
        ensures
            r@ == self@,
            value_inv(r) == value_inv(*self),
    {
        match self {
            StractValue::Number(n) => StractValue::Number(*n),
            StractValue::StringValue(s) => StractValue::StringValue(s.clone()),
            StractValue::True => StractValue::True,
            StractValue::False => StractValue::False,
            StractValue::Nil => StractValue::Nil,
            StractValue::Null => StractValue::Null,
        }
    }
}

/// Mathematical view of an evaluation error.
pub enum EvalErrV {
    UndefinedVariableV { name: Seq<char> },
    MinusOnTypeV { operand_type: Seq<char> },
    InvalidUnaryOperatorV { op: TokenType },
    StringOpWithNumberV { op: TokenType },
    NumberOpWithStringV { op: TokenType },
    InvalidBinaryOperandsV { op: TokenType },
    DivisionByZeroV,
    NumberOverflowV,
}

/// A runtime evaluation error: a type mismatch for an operator, an
/// undefined variable, an operator not defined for a type pair, a division
/// by zero, or a number outside the representable range.
#[derive(Debug, Clone)]
pub enum EvalError {
    UndefinedVariable { name: String },
    MinusOnType { operand_type: String },
    InvalidUnaryOperator { op: TokenType },
    StringOpWithNumber { op: TokenType },
    NumberOpWithString { op: TokenType },
    InvalidBinaryOperands { op: TokenType },
    DivisionByZero,
    NumberOverflow,
}

impl View for EvalError {
    type V = EvalErrV;

    open spec fn view(&self) -> EvalErrV {
        match self {
            EvalError::UndefinedVariable { name } => EvalErrV::UndefinedVariableV { name: name@ },
            EvalError::MinusOnType { operand_type } => EvalErrV::MinusOnTypeV { operand_type: operand_type@ },
            EvalError::InvalidUnaryOperator { op } => EvalErrV::InvalidUnaryOperatorV { op: *op },
            EvalError::StringOpWithNumber { op } => EvalErrV::StringOpWithNumberV { op: *op },
            EvalError::NumberOpWithString { op } => EvalErrV::NumberOpWithStringV { op: *op },
            EvalError::InvalidBinaryOperands { op } => EvalErrV::InvalidBinaryOperandsV { op: *op },
            EvalError::DivisionByZero => EvalErrV::DivisionByZeroV,
            EvalError::NumberOverflow => EvalErrV::NumberOverflowV,
        }
    }
}

/// The diagnostic text of an evaluation error.
pub open spec fn eval_msg_v(e: EvalErrV) -> Seq<char> {
    match e {
        EvalErrV::UndefinedVariableV { name } => "undefined variable '"@ + name + "'"@,
        EvalErrV::MinusOnTypeV { operand_type } => "unary minus is not defined for "@
            + operand_type,
        EvalErrV::InvalidUnaryOperatorV { op } => "invalid unary operator "@
            + crate::scanner::token_type_name_v(op),
        EvalErrV::StringOpWithNumberV { op } => crate::scanner::token_type_name_v(op)
            + " is not defined for a string and a number"@,
        EvalErrV::NumberOpWithStringV { op } => crate::scanner::token_type_name_v(op)
            + " is not defined for a number and a string"@,
        EvalErrV::InvalidBinaryOperandsV { op } => crate::scanner::token_type_name_v(op)
            + " is not defined for these operands"@,
        EvalErrV::DivisionByZeroV => "division by zero"@,
        EvalErrV::NumberOverflowV => "number out of range"@,
    }
}

impl EvalError {
    /// The error's diagnostic text.
    pub fn message(&self) -> (r: String)
        ensures
            r@ == eval_msg_v(self@),
    {
        let mut out: Vec<char> = Vec::new();
        match self {
            EvalError::UndefinedVariable { name } => {
                push_str_chars(&mut out, "undefined variable '");
                push_str_chars(&mut out, name.as_str());
                push_str_chars(&mut out, "'");
            },
            EvalError::MinusOnType { operand_type } => {
                push_str_chars(&mut out, "unary minus is not defined for ");
                push_str_chars(&mut out, operand_type.as_str());
            },
            EvalError::InvalidUnaryOperator { op } => {
                push_str_chars(&mut out, "invalid unary operator ");
                push_str_chars(&mut out, crate::scanner::token_type_name(*op));
            },
            EvalError::StringOpWithNumber { op } => {
                push_str_chars(&mut out, crate::scanner::token_type_name(*op));
                push_str_chars(&mut out, " is not defined for a string and a number");
            },
            EvalError::NumberOpWithString { op } => {
                push_str_chars(&mut out, crate::scanner::token_type_name(*op));
                push_str_chars(&mut out, " is not defined for a number and a string");
            },
            EvalError::InvalidBinaryOperands { op } => {
                push_str_chars(&mut out, crate::scanner::token_type_name(*op));
                push_str_chars(&mut out, " is not defined for these operands");
            },
            EvalError::DivisionByZero => {
                push_str_chars(&mut out, "division by zero");
            },
            EvalError::NumberOverflow => {
                push_str_chars(&mut out, "number out of range");
            },
        }
        proof {
            assert(out@ =~= eval_msg_v(self@));
        }
        chars_to_string(&out)
    }
}

/// Mathematical view of an expression tree.
pub enum ExprV {
    BinaryV { left: Box<ExprV>, op: TokenV, right: Box<ExprV> },
    GroupingV { inner: Box<ExprV> },
    LateralV { value: ValueV },
    UnaryV { op: TokenV, right: Box<ExprV> },
    VariableV { name: TokenV },
}

/// An expression tree node: a binary operation, a parenthesized grouping, a
/// literal, a unary operation, or a variable reference.
#[derive(Debug)]
pub enum Expr {
    Binary { left: Box<Expr>, operator: Token, right: Box<Expr> },
    Grouping { expression: Box<Expr> },
    Lateral { value: StractValue },
    Unary { operator: Token, right: Box<Expr> },
    Variable { name: Token },
}

/// The view of an expression tree.
pub open spec fn expr_v(e: Expr) -> ExprV
    decreases e,
{
    match e {
        Expr::Binary { left, operator, right } => ExprV::BinaryV {
            left: Box::new(expr_v(*left)),
            op: operator@,
            right: Box::new(expr_v(*right)),
        },
        Expr::Grouping { expression } => ExprV::GroupingV { inner: Box::new(expr_v(*expression)) },
        Expr::Lateral { value } => ExprV::LateralV { value: value@ },
        Expr::Unary { operator, right } => ExprV::UnaryV {
            op: operator@,
            right: Box::new(expr_v(*right)),
        },
        Expr::Variable { name } => ExprV::VariableV { name: name@ },
    }
}

/// Every literal value in the tree is well formed.
pub open spec fn expr_inv(e: Expr) -> bool
    decreases e,
{
    match e {
        Expr::Binary { left, operator, right } => expr_inv(*left) && expr_inv(*right),
        Expr::Grouping { expression } => expr_inv(*expression),
        Expr::Lateral { value } => value_inv(value),
        Expr::Unary { operator, right } => expr_inv(*right),
        Expr::Variable { name } => true,
    }
}

/// The result of a unary operator on an evaluated operand: `-` negates a
/// number and rejects anything else; `!` yields the operand's falsiness;
/// no other operator is unary.
pub open spec fn unary_result_v(op: TokenType, v: ValueV) -> Result<ValueV, EvalErrV> {
    match (v, op) {
        (ValueV::NumberV(x), TokenType::Minus) => Ok(ValueV::NumberV(neg_v(x))),
        (_, TokenType::Minus) => Err(EvalErrV::MinusOnTypeV { operand_type: type_name_v(v) }),
        (_, TokenType::Bang) => Ok(is_falsy_v(v)),
        _ => Err(EvalErrV::InvalidUnaryOperatorV { op }),
    }
}

/// The result of an arithmetic step, or the overflow error.
pub open spec fn arith_result_v(o: Option<NumV>) -> Result<ValueV, EvalErrV> {
    match o {
        Some(z) => Ok(ValueV::NumberV(z)),
        None => Err(EvalErrV::NumberOverflowV),
    }
}

/// The result of a binary operator on two evaluated operands.  Equality and
/// inequality are defined for every pair of values and never fail;
/// arithmetic needs two numbers, except `+` which also concatenates two
/// strings; the relational operators compare two numbers numerically or two
/// strings lexicographically; everything else is an error naming the
/// operator.
pub open spec fn binary_result_v(op: TokenType, l: ValueV, r: ValueV) -> Result<ValueV, EvalErrV> {
    if op == TokenType::EqualEqual {
        Ok(from_bool_v(value_eq_v(l, r)))
    } else if op == TokenType::BangEqual {
        Ok(from_bool_v(!value_eq_v(l, r)))
    } else {
        match (l, r) {
            (ValueV::NumberV(x), ValueV::NumberV(y)) => match op {
                TokenType::Plus => arith_result_v(add_v(x, y)),
                TokenType::Minus => arith_result_v(sub_v(x, y)),
                TokenType::Star => arith_result_v(mul_v(x, y)),
                TokenType::Slash => if y.m == 0 {
                    Err(EvalErrV::DivisionByZeroV)
                } else {
                    arith_result_v(div_v(x, y))
                },
                TokenType::Greater => Ok(from_bool_v(num_lt_v(y, x))),
                TokenType::GreaterEqual => Ok(from_bool_v(num_le_v(y, x))),
                TokenType::Less => Ok(from_bool_v(num_lt_v(x, y))),
                TokenType::LessEqual => Ok(from_bool_v(num_le_v(x, y))),
                _ => Err(EvalErrV::InvalidBinaryOperandsV { op }),
            },
            (ValueV::StringV(a), ValueV::NumberV(_)) => Err(EvalErrV::StringOpWithNumberV { op }),
            (ValueV::NumberV(_), ValueV::StringV(_)) => Err(EvalErrV::NumberOpWithStringV { op }),
            (ValueV::StringV(a), ValueV::StringV(b)) => match op {
                TokenType::Plus => Ok(ValueV::StringV(a + b)),
                TokenType::Greater => Ok(from_bool_v(str_lt_v(b, a))),
                TokenType::GreaterEqual => Ok(from_bool_v(!str_lt_v(a, b))),
                TokenType::Less => Ok(from_bool_v(str_lt_v(a, b))),
                TokenType::LessEqual => Ok(from_bool_v(!str_lt_v(b, a))),
                _ => Err(EvalErrV::InvalidBinaryOperandsV { op }),
            },
            _ => Err(EvalErrV::InvalidBinaryOperandsV { op }),
        }
    }
}

/// The value of an expression under an environment, or the first
/// evaluation error met walking the tree, operands left to right.
pub open spec fn eval_v(e: ExprV, env: Map<Seq<char>, ValueV>) -> Result<ValueV, EvalErrV>
    decreases e,
{
    match e {
        ExprV::LateralV { value } => Ok(value),
        ExprV::GroupingV { inner } => eval_v(*inner, env),
        ExprV::VariableV { name } => if env.contains_key(name.panoll) {
            Ok(env[name.panoll])
        } else {
            Err(EvalErrV::UndefinedVariableV { name: name.panoll })
        },
        ExprV::UnaryV { op, right } => match eval_v(*right, env) {
            Ok(v) => unary_result_v(op.token_type, v),
            Err(er) => Err(er),
        },
        ExprV::BinaryV { left, op, right } => match eval_v(*left, env) {
            Ok(lv) => match eval_v(*right, env) {
                Ok(rv) => binary_result_v(op.token_type, lv, rv),
                Err(er) => Err(er),
            },
            Err(er) => Err(er),
        },
    }
}

/// The view of an evaluation result.
pub open spec fn eval_result_view(r: Result<StractValue, EvalError>) -> Result<ValueV, EvalErrV> {
    match r {
        Ok(v) => Ok(v@),
        Err(e) => Err(e@),
    }
}

/// Whether the first string is lexicographically before the second.
#[verifier::loop_isolation(false)]
fn str_lt(a: &str, b: &str) -> (r: bool)
    ensures
        r == str_lt_v(a@, b@),
{
    let an = a.unicode_len();
    let bn = b.unicode_len();
    let mut i: usize = 0;
    while i < an && i < bn
        invariant
            0 <= i <= an,
            i <= bn,
            forall|j: int| 0 <= j < i ==> a@[j] == b@[j],
        decreases an - i,
    {
        let ca = a.get_char(i);
        let cb = b.get_char(i);
        proof {
            lemma_str_lt_skip(a@, b@, i as int);
        }
        if (ca as u32) < (cb as u32) {
            return true;
        }
        if (ca as u32) > (cb as u32) {
            return false;
        }
        i = i + 1;
    }
    proof {
        lemma_str_lt_skip(a@, b@, i as int);
    }
    an < bn
}

/// Skipping an equal prefix does not change the lexicographic order.
proof fn lemma_str_lt_skip(a: Seq<char>, b: Seq<char>, i: int)
    requires
        0 <= i <= a.len(),
        i <= b.len(),
        forall|j: int| 0 <= j < i ==> a[j] == b[j],
    ensures
        str_lt_v(a, b) == str_lt_v(a.skip(i), b.skip(i)),
    decreases i,
{
    if i == 0 {
        assert(a.skip(0) =~= a);
        assert(b.skip(0) =~= b);
    } else {
        assert(a.len() > 0 && b.len() > 0);
        assert(a[0] == b[0]);
        assert(str_lt_v(a, b) == str_lt_v(a.drop_first(), b.drop_first()));
        assert(forall|j: int| 0 <= j < i - 1 ==> a.drop_first()[j] == b.drop_first()[j]);
        lemma_str_lt_skip(a.drop_first(), b.drop_first(), i - 1);
        assert(a.drop_first().skip(i - 1) =~= a.skip(i));
        assert(b.drop_first().skip(i - 1) =~= b.skip(i));
    }
}

/// The fully parenthesized prefix rendering of an expression tree: an
/// operator application as `(op operands...)`, a grouping as
/// `(group: inner)`, a literal as its value's text, a variable reference as
/// `(var name)`.
pub open spec fn expr_chars_v(e: ExprV) -> Seq<char>
    decreases e,
{
    match e {
        ExprV::BinaryV { left, op, right } => seq!['('] + op.panoll + seq![' ']
            + expr_chars_v(*left) + seq![' '] + expr_chars_v(*right) + seq![')'],
        ExprV::GroupingV { inner } => "(group: "@ + expr_chars_v(*inner) + seq![')'],
        ExprV::LateralV { value } => value_chars_v(value),
        ExprV::UnaryV { op, right } => seq!['('] + op.panoll + seq![' '] + expr_chars_v(*right)
            + seq![')'],
        ExprV::VariableV { name } => "(var "@ + name.panoll + seq![')'],
    }
}

/// Append the rendering of an expression tree.
fn push_expr_chars(e: &Expr, out: &mut Vec<char>)
    requires
        expr_inv(*e),
    ensures
        final(out)@ == old(out)@ + expr_chars_v(expr_v(*e)),
    decreases *e,
{
    match e {
        Expr::Binary { left, operator, right } => {
            out.push('(');
            push_str_chars(out, operator.panoll.as_str());
            out.push(' ');
            push_expr_chars(left, out);
            out.push(' ');
            push_expr_chars(right, out);
            out.push(')');
            proof {
                assert(out@ =~= old(out)@ + expr_chars_v(expr_v(*e)));
            }
        },
        Expr::Grouping { expression } => {
            push_str_chars(out, "(group: ");
            push_expr_chars(expression, out);
            out.push(')');
            proof {
                assert(out@ =~= old(out)@ + expr_chars_v(expr_v(*e)));
            }
        },
        Expr::Lateral { value } => {
            let s = value.to_string();
            push_str_chars(out, s.as_str());
            proof {
                assert(out@ =~= old(out)@ + expr_chars_v(expr_v(*e)));
            }
        },
        Expr::Unary { operator, right } => {
            out.push('(');
            push_str_chars(out, operator.panoll.as_str());
            out.push(' ');
            push_expr_chars(right, out);
            out.push(')');
            proof {
                assert(out@ =~= old(out)@ + expr_chars_v(expr_v(*e)));
            }
        },
        Expr::Variable { name } => {
            push_str_chars(out, "(var ");
            push_str_chars(out, name.panoll.as_str());
            out.push(')');
            proof {
                assert(out@ =~= old(out)@ + expr_chars_v(expr_v(*e)));
            }
        },
    }
}

impl Expr {
    /// The tree's fully parenthesized prefix text.
    pub fn to_string(&self) -> (r: String)
        requires
            expr_inv(*self),
        ensures
            r@ == expr_chars_v(expr_v(*self)),
    {
        let mut out: Vec<char> = Vec::new();
        push_expr_chars(self, &mut out);
        chars_to_string(&out)
    }

    /// Evaluate the expression under the environment, yielding its value or
    /// the first evaluation error.
    pub fn evaluate(&self, env: &Environment) -> (r: Result<StractValue, EvalError>)
        requires
            expr_inv(*self),
            env.inv(),
        ensures
            eval_result_view(r) == eval_v(expr_v(*self), env.as_map()),
            r matches Ok(v) ==> value_inv(v),
        decreases *self,
    {
        match self {
            Expr::Lateral { value } => Ok(value.duplicate()),
            Expr::Grouping { expression } => expression.evaluate(env),
            Expr::Variable { name } => match env.get(name.panoll.clone()) {
                Some(v) => Ok(v),
                None => Err(EvalError::UndefinedVariable { name: name.panoll.clone() }),
            },
            Expr::Unary { operator, right } => {
                let rv = right.evaluate(env)?;
                match (&rv, operator.token_type) {
                    (StractValue::Number(x), TokenType::Minus) => Ok(StractValue::Number(x.neg())),
                    (_, TokenType::Minus) => Err(EvalError::MinusOnType {
                        operand_type: String::from_str(rv.to_type()),
                    }),
                    (any, TokenType::Bang) => Ok(any.is_falsy()),
                    (_, ttype) => Err(EvalError::InvalidUnaryOperator { op: ttype }),
                }
            },
            Expr::Binary { left, operator, right } => {
                let lv = left.evaluate(env)?;
                let rv = right.evaluate(env)?;
                let op = operator.token_type;
                if op == TokenType::EqualEqual {
                    return Ok(StractValue::from_bool(value_equals(&lv, &rv)));
                }
                if op == TokenType::BangEqual {
                    return Ok(StractValue::from_bool(!value_equals(&lv, &rv)));
                }
                match (&lv, &rv) {
                    (StractValue::Number(x), StractValue::Number(y)) => match op {
                        TokenType::Plus => arith_result(x.add(y)),
                        TokenType::Minus => arith_result(x.sub(y)),
                        TokenType::Star => arith_result(x.mul(y)),
                        TokenType::Slash => if y.is_zero() {
                            Err(EvalError::DivisionByZero)
                        } else {
                            arith_result(x.div(y))
                        },
                        TokenType::Greater => Ok(StractValue::from_bool(y.lt(x))),
                        TokenType::GreaterEqual => Ok(StractValue::from_bool(y.le(x))),
                        TokenType::Less => Ok(StractValue::from_bool(x.lt(y))),
                        TokenType::LessEqual => Ok(StractValue::from_bool(x.le(y))),
                        _ => Err(EvalError::InvalidBinaryOperands { op }),
                    },
                    (StractValue::StringValue(_), StractValue::Number(_)) => Err(
                        EvalError::StringOpWithNumber { op },
                    ),
                    (StractValue::Number(_), StractValue::StringValue(_)) => Err(
                        EvalError::NumberOpWithString { op },
                    ),
                    (StractValue::StringValue(s1), StractValue::StringValue(s2)) => match op {
                        TokenType::Plus => Ok(StractValue::StringValue(
                            s1.clone().concat(s2.as_str()),
                        )),
                        TokenType::Greater => Ok(StractValue::from_bool(
                            str_lt(s2.as_str(), s1.as_str()),
                        )),
                        TokenType::GreaterEqual => Ok(StractValue::from_bool(
                            !str_lt(s1.as_str(), s2.as_str()),
                        )),
                        TokenType::Less => Ok(StractValue::from_bool(
                            str_lt(s1.as_str(), s2.as_str()),
                        )),
                        TokenType::LessEqual => Ok(StractValue::from_bool(
                            !str_lt(s2.as_str(), s1.as_str()),
                        )),
                        _ => Err(EvalError::InvalidBinaryOperands { op }),
                    },
                    _ => Err(EvalError::InvalidBinaryOperands { op }),
                }
            },
        }
    }
}

/// Equality and inequality are defined across every pair of values and
/// never fail: the result compares by variant and payload, values of
/// different variants are unequal, and every value equals itself.
pub proof fn lemma_equality_total(l: ValueV, r: ValueV)
    ensures
        binary_result_v(TokenType::EqualEqual, l, r) == Ok::<ValueV, EvalErrV>(from_bool_v(
            value_eq_v(l, r),
        )),
        binary_result_v(TokenType::BangEqual, l, r) == Ok::<ValueV, EvalErrV>(from_bool_v(
            !value_eq_v(l, r),
        )),
        l is NumberV && !(r is NumberV) ==> !value_eq_v(l, r),
        l is StringV && !(r is StringV) ==> !value_eq_v(l, r),
        value_eq_v(l, l),
{
}

/// An arithmetic step's value, or the overflow error.
fn arith_result(o: Option<Num>) -> (r: Result<StractValue, EvalError>)
    requires
        o matches Some(n) ==> normal(n@),
    ensures
        eval_result_view(r) == arith_result_v(crate::num::opt_view(o)),
        r matches Ok(v) ==> value_inv(v),
{
    match o {
        Some(z) => Ok(StractValue::Number(z)),
        None => Err(EvalError::NumberOverflow),
    }
}

/// Whether two values are structurally equal: same variant and payload,
/// numbers compared as values.
pub fn value_equals(a: &StractValue, b: &StractValue) -> (r: bool)
    requires
        value_inv(*a),
        value_inv(*b),
    ensures
        r == value_eq_v(a@, b@),
{
    match (a, b) {
        (StractValue::Number(x), StractValue::Number(y)) => x.eq_num(y),
        (StractValue::StringValue(x), StractValue::StringValue(y)) => *x == *y,
        (StractValue::True, StractValue::True) => true,
        (StractValue::False, StractValue::False) => true,
        (StractValue::Nil, StractValue::Nil) => true,
        (StractValue::Null, StractValue::Null) => true,
        _ => false,
    }
}

} // verus!
