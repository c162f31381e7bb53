//! Lexical scanner: turns source text into a sequence of tokens.
//!
//! The scanner walks the source once, left to right, with one character of
//! lookahead.  Lexical errors (an unterminated string, a number literal out
//! of range, an unrecognized character) are collected rather than aborting
//! the scan; the result is an error exactly when any were found.  A trailing
//! end-of-stream token is always appended.

use vstd::prelude::*;
use crate::num::{Num, NumV, norm_v};
use crate::text::chars_to_string;

verus! {

/// The lexical categories of the language.
#[derive(Debug, Copy, Clone, PartialEq, Eq, Structural)]
pub enum TokenType {
    LeftParen,
    RightParen,
    LeftBrace,
    RightBrace,
    Comma,
    Dot,
    Minus,
    Plus,
    Slash,
    Start,
    Star,
    Equal,
    EqualEqual,
    Bang,
    BangEqual,
    Semicolon,
    SemicolonEqual,
    Greater,
    GreaterEqual,
    Less,
    LessEqual,
    Identifier,
    StringLat,
    Number,
    And,
    Class,
    Else,
    False,
    Func,
    For,
    If,
    Match,
    Null,
    Nil,
    Or,
    Print,
    Return,
    True,
    Unif,
    Var,
    When,
    Whenfs,
    While,
    Eof,
}

/// Mathematical view of a literal payload.
pub enum StractV {
    IntV(int),
    NumberV(NumV),
    StringV(Seq<char>),
    IdentifierV(Seq<char>),
}

/// A literal payload attached to a literal-bearing token.
#[derive(Debug, Clone)]
pub enum StractValue {
    IntValue(i64),
    NumberValue(Num),
    StringValue(String),
    IdentifierValue(String),
}

impl View for StractValue {
    type V = StractV;

    open spec fn view(&self) -> StractV {
        match self {
            StractValue::IntValue(x) => StractV::IntV(*x as int),
            StractValue::NumberValue(n) => StractV::NumberV(n@),
            StractValue::StringValue(s) => StractV::StringV(s@),
            StractValue::IdentifierValue(s) => StractV::IdentifierV(s@),
        }
    }
}

/// Mathematical view of a token.
pub struct TokenV {
    pub token_type: TokenType,
    pub panoll: Seq<char>,
    pub stract: Option<StractV>,
    pub line_number: nat,
}

/// One scanned token: kind, exact source substring, optional literal
/// payload, and the 1-based source line it ended on.
#[derive(Debug, Clone)]
pub struct Token {
    pub token_type: TokenType,
    pub panoll: String,
    pub stract: Option<StractValue>,
    pub line_number: usize,
}

impl View for Token {
    type V = TokenV;

    open spec fn view(&self) -> TokenV {
        TokenV {
            token_type: self.token_type,
            panoll: self.panoll@,
            stract: match self.stract {
                Some(v) => Some(v@),
                None => None,
            },
            line_number: self.line_number as nat,
        }
    }
}

impl StractValue {
    /// A copy of the payload.
    pub fn duplicate(&self) -> (r: StractValue)
        ensures
            r@ == self@,
    {
        match self {
            StractValue::IntValue(x) => StractValue::IntValue(*x),
            StractValue::NumberValue(n) => StractValue::NumberValue(*n),
            StractValue::StringValue(s) => StractValue::StringValue(s.clone()),
            StractValue::IdentifierValue(s) => StractValue::IdentifierValue(s.clone()),
        }
    }
}

impl Token {
    /// A copy of the token.
    pub fn duplicate(&self) -> (r: Token)
        ensures
            r@ == self@,
    {
        Token {
            token_type: self.token_type,
            panoll: self.panoll.clone(),
            stract: match &self.stract {
                Some(v) => Some(v.duplicate()),
                None => None,
            },
            line_number: self.line_number,
        }
    }

    /// The token's text: the name of its kind and its lexeme.
    pub fn to_string(&self) -> (r: String)
        ensures
            r@ == token_type_name_v(self.token_type) + seq![' '] + self.panoll@,
    {
        let mut out: Vec<char> = Vec::new();
        crate::text::push_str_chars(&mut out, token_type_name(self.token_type));
        out.push(' ');
        crate::text::push_str_chars(&mut out, self.panoll.as_str());
        proof {
            assert(out@ =~= token_type_name_v(self.token_type) + seq![' '] + self.panoll@);
        }
        chars_to_string(&out)
    }

    /// Build a token from its parts.
    pub fn new(token_type: TokenType, panoll: String, stract: Option<StractValue>, line_number: usize) -> (r: Self)
        ensures
            r@ == (TokenV {
                token_type,
                panoll: panoll@,
                stract: match stract {
                    Some(v) => Some(v@),
                    None => None,
                },
                line_number: line_number as nat,
            }),
    {
        Self { token_type, panoll, stract, line_number }
    }
}

/// The name of a token kind, as it appears in diagnostics.
pub open spec fn token_type_name_v(t: TokenType) -> Seq<char> {
    match t {
        TokenType::LeftParen => "LeftParen"@,
        TokenType::RightParen => "RightParen"@,
        TokenType::LeftBrace => "LeftBrace"@,
        TokenType::RightBrace => "RightBrace"@,
        TokenType::Comma => "Comma"@,
        TokenType::Dot => "Dot"@,
        TokenType::Minus => "Minus"@,
        TokenType::Plus => "Plus"@,
        TokenType::Slash => "Slash"@,
        TokenType::Start => "Start"@,
        TokenType::Star => "Star"@,
        TokenType::Equal => "Equal"@,
        TokenType::EqualEqual => "EqualEqual"@,
        TokenType::Bang => "Bang"@,
        TokenType::BangEqual => "BangEqual"@,
        TokenType::Semicolon => "Semicolon"@,
        TokenType::SemicolonEqual => "SemicolonEqual"@,
        TokenType::Greater => "Greater"@,
        TokenType::GreaterEqual => "GreaterEqual"@,
        TokenType::Less => "Less"@,
        TokenType::LessEqual => "LessEqual"@,
        TokenType::Identifier => "Identifier"@,
        TokenType::StringLat => "StringLat"@,
        TokenType::Number => "Number"@,
        TokenType::And => "And"@,
        TokenType::Class => "Class"@,
        TokenType::Else => "Else"@,
        TokenType::False => "False"@,
        TokenType::Func => "Func"@,
        TokenType::For => "For"@,
        TokenType::If => "If"@,
        TokenType::Match => "Match"@,
        TokenType::Null => "Null"@,
        TokenType::Nil => "Nil"@,
        TokenType::Or => "Or"@,
        TokenType::Print => "Print"@,
        TokenType::Return => "Return"@,
        TokenType::True => "True"@,
        TokenType::Unif => "Unif"@,
        TokenType::Var => "Var"@,
        TokenType::When => "When"@,
        TokenType::Whenfs => "Whenfs"@,
        TokenType::While => "While"@,
        TokenType::Eof => "Eof"@,
    }
}

/// The name of a token kind.
pub fn token_type_name(t: TokenType) -> (r: &'static str)
    ensures
        r@ == token_type_name_v(t),
{
    match t {
        TokenType::LeftParen => "LeftParen",
        TokenType::RightParen => "RightParen",
        TokenType::LeftBrace => "LeftBrace",
        TokenType::RightBrace => "RightBrace",
        TokenType::Comma => "Comma",
        TokenType::Dot => "Dot",
        TokenType::Minus => "Minus",
        TokenType::Plus => "Plus",
        TokenType::Slash => "Slash",
        TokenType::Start => "Start",
        TokenType::Star => "Star",
        TokenType::Equal => "Equal",
        TokenType::EqualEqual => "EqualEqual",
        TokenType::Bang => "Bang",
        TokenType::BangEqual => "BangEqual",
        TokenType::Semicolon => "Semicolon",
        TokenType::SemicolonEqual => "SemicolonEqual",
        TokenType::Greater => "Greater",
        TokenType::GreaterEqual => "GreaterEqual",
        TokenType::Less => "Less",
        TokenType::LessEqual => "LessEqual",
        TokenType::Identifier => "Identifier",
        TokenType::StringLat => "StringLat",
        TokenType::Number => "Number",
        TokenType::And => "And",
        TokenType::Class => "Class",
        TokenType::Else => "Else",
        TokenType::False => "False",
        TokenType::Func => "Func",
        TokenType::For => "For",
        TokenType::If => "If",
        TokenType::Match => "Match",
        TokenType::Null => "Null",
        TokenType::Nil => "Nil",
        TokenType::Or => "Or",
        TokenType::Print => "Print",
        TokenType::Return => "Return",
        TokenType::True => "True",
        TokenType::Unif => "Unif",
        TokenType::Var => "Var",
        TokenType::When => "When",
        TokenType::Whenfs => "Whenfs",
        TokenType::While => "While",
        TokenType::Eof => "Eof",
    }
}

/// The kinds of lexical error.
#[derive(Debug, Copy, Clone, PartialEq, Eq, Structural)]
pub enum LexErrorKind {
    UnterminatedString,
    UnparsableNumber,
    UnrecognizedChar(char),
}

/// Mathematical view of a lexical error.
pub struct LexErrV {
    pub kind: LexErrorKind,
    pub line: nat,
}

/// A lexical error with the 1-based line it was found on.
#[derive(Debug, Copy, Clone, PartialEq, Eq, Structural)]
pub struct LexError {
    pub kind: LexErrorKind,
    pub line: usize,
}

impl View for LexError {
    type V = LexErrV;

    open spec fn view(&self) -> LexErrV {
        LexErrV { kind: self.kind, line: self.line as nat }
    }
}

/// The diagnostic text of a lexical error.
pub open spec fn lex_msg_v(e: LexErrV) -> Seq<char> {
    match e.kind {
        LexErrorKind::UnterminatedString => "unterminated string at line "@ + crate::num::dec_digits(
            e.line,
        ),
        LexErrorKind::UnparsableNumber => "cannot parse number at line "@ + crate::num::dec_digits(
            e.line,
        ),
        LexErrorKind::UnrecognizedChar(c) => "unrecognized character '"@ + seq![c]
            + "' at line "@ + crate::num::dec_digits(e.line),
    }
}

impl LexError {
    /// The error's diagnostic text.
    pub fn message(&self) -> (r: String)
        ensures
            r@ == lex_msg_v(self@),
    {
        let mut out: Vec<char> = Vec::new();
        match self.kind {
            LexErrorKind::UnterminatedString => {
                crate::text::push_str_chars(&mut out, "unterminated string at line ");
            },
            LexErrorKind::UnparsableNumber => {
                crate::text::push_str_chars(&mut out, "cannot parse number at line ");
            },
            LexErrorKind::UnrecognizedChar(c) => {
                crate::text::push_str_chars(&mut out, "unrecognized character '");
                out.push(c);
                crate::text::push_str_chars(&mut out, "' at line ");
            },
        }
        crate::num::push_digits(self.line as u64, &mut out);
        proof {
            assert(out@ =~= lex_msg_v(self@));
        }
        chars_to_string(&out)
    }
}

/// Decimal digit.
pub open spec fn is_digit_spec(c: char) -> bool {
    48 <= c as int <= 57
}

/// Whether `c` is alphabetic in the sense of `char::is_alphabetic`.
pub uninterp spec fn is_alphabetic_char(c: char) -> bool;

/// Relies on char::is_alphabetic: whether the character is a Unicode letter,
/// a function of the character alone.
pub assume_specification[ char::is_alphabetic ](c: char) -> (r: bool)
    ensures
        r == is_alphabetic_char(c),
;

/// A letter or an underscore.
pub open spec fn is_alpha_spec(c: char) -> bool {
    is_alphabetic_char(c) || c == '_'
}

/// A letter, an underscore, or a digit.
pub open spec fn is_alpha_numeric_spec(c: char) -> bool {
    is_alpha_spec(c) || is_digit_spec(c)
}

/// Whether `ch` is a decimal digit.
pub fn is_digit(ch: char) -> (r: bool)
    ensures
        r == is_digit_spec(ch),
{
    ch as u32 >= 48 && ch as u32 <= 57
}

/// Whether `ch` can begin an identifier.
pub fn is_alpha(ch: char) -> (r: bool)
    ensures
        r == is_alpha_spec(ch),
{
    ch.is_alphabetic() || ch == '_'
}

/// Whether `ch` can continue an identifier.
pub fn is_alpha_numeric(ch: char) -> (r: bool)
    ensures
        r == is_alpha_numeric_spec(ch),
{
    is_alpha(ch) || is_digit(ch)
}

/// The keyword table: the token kind of a reserved word, if the word is one.
pub open spec fn keyword_of(w: Seq<char>) -> Option<TokenType> {
    if w == "and"@ { Some(TokenType::And) }
    else if w == "class"@ { Some(TokenType::Class) }
    else if w == "else"@ { Some(TokenType::Else) }
    else if w == "false"@ { Some(TokenType::False) }
    else if w == "for"@ { Some(TokenType::For) }
    else if w == "func"@ { Some(TokenType::Func) }
    else if w == "if"@ { Some(TokenType::If) }
    else if w == "match"@ { Some(TokenType::Match) }
    else if w == "null"@ { Some(TokenType::Null) }
    else if w == "nil"@ { Some(TokenType::Nil) }
    else if w == "or"@ { Some(TokenType::Or) }
    else if w == "print"@ { Some(TokenType::Print) }
    else if w == "return"@ { Some(TokenType::Return) }
    else if w == "true"@ { Some(TokenType::True) }
    else if w == "unif"@ { Some(TokenType::Unif) }
    else if w == "var"@ { Some(TokenType::Var) }
    else if w == "when"@ { Some(TokenType::When) }
    else if w == "whenfs"@ { Some(TokenType::Whenfs) }
    else if w == "while"@ { Some(TokenType::While) }
    else { None }
}

/// Whether the characters spell exactly the given string.
fn chars_eq_lit(v: &Vec<char>, s: &str) -> (r: bool)
    ensures
        r == (v@ == s@),
{
    let n = s.unicode_len();
    if v.len() != n {
        proof {
            assert(v@.len() != s@.len());
        }
        return false;
    }
    let mut i: usize = 0;
    while i < n
        invariant
            i <= n,
            n == s@.len(),
            n == v@.len(),
            forall|j: int| 0 <= j < i ==> v@[j] == s@[j],
        decreases n - i,
    {
        if v[i] != s.get_char(i) {
            return false;
        }
        i = i + 1;
    }
    proof {
        assert(v@ =~= s@);
    }
    true
}

/// Look the word up in the keyword table.
pub fn keyword_token(w: &Vec<char>) -> (r: Option<TokenType>)
    ensures
        r == keyword_of(w@),
{
    if chars_eq_lit(w, "and") { Some(TokenType::And) }
    else if chars_eq_lit(w, "class") { Some(TokenType::Class) }
    else if chars_eq_lit(w, "else") { Some(TokenType::Else) }
    else if chars_eq_lit(w, "false") { Some(TokenType::False) }
    else if chars_eq_lit(w, "for") { Some(TokenType::For) }
    else if chars_eq_lit(w, "func") { Some(TokenType::Func) }
    else if chars_eq_lit(w, "if") { Some(TokenType::If) }
    else if chars_eq_lit(w, "match") { Some(TokenType::Match) }
    else if chars_eq_lit(w, "null") { Some(TokenType::Null) }
    else if chars_eq_lit(w, "nil") { Some(TokenType::Nil) }
    else if chars_eq_lit(w, "or") { Some(TokenType::Or) }
    else if chars_eq_lit(w, "print") { Some(TokenType::Print) }
    else if chars_eq_lit(w, "return") { Some(TokenType::Return) }
    else if chars_eq_lit(w, "true") { Some(TokenType::True) }
    else if chars_eq_lit(w, "unif") { Some(TokenType::Unif) }
    else if chars_eq_lit(w, "var") { Some(TokenType::Var) }
    else if chars_eq_lit(w, "when") { Some(TokenType::When) }
    else if chars_eq_lit(w, "whenfs") { Some(TokenType::Whenfs) }
    else if chars_eq_lit(w, "while") { Some(TokenType::While) }
    else { None }
}

/// The characters of `v[from..to]` as a fresh vector.
fn copy_range(v: &Vec<char>, from: usize, to: usize) -> (r: Vec<char>)
    requires
        from <= to <= v@.len(),
    ensures
        r@ == v@.subrange(from as int, to as int),
{
    let mut out: Vec<char> = Vec::new();
    let mut i: usize = from;
    while i < to
        invariant
            from <= i <= to <= v@.len(),
            out@ == v@.subrange(from as int, i as int),
        decreases to - i,
    {
        let c = v[i];
        out.push(c);
        proof {
            assert(out@ =~= v@.subrange(from as int, (i + 1) as int));
        }
        i = i + 1;
    }
    out
}

/// The first position at or after `k` whose character fails `p`, or the
/// length of `s` if every later character passes.
pub open spec fn run_end(s: Seq<char>, k: int, p: spec_fn(char) -> bool) -> int
    decreases s.len() - k,
    when 0 <= k <= s.len()
{
    if k >= s.len() {
        s.len() as int
    } else if p(s[k]) {
        run_end(s, k + 1, p)
    } else {
        k
    }
}

pub proof fn lemma_run_end(s: Seq<char>, k: int, p: spec_fn(char) -> bool)
    requires
        0 <= k <= s.len(),
    ensures
        k <= run_end(s, k, p) <= s.len(),
        run_end(s, k, p) < s.len() ==> !p(s[run_end(s, k, p)]),
        forall|j: int| k <= j < run_end(s, k, p) ==> p(s[j]),
    decreases s.len() - k,
{
    if k < s.len() && p(s[k]) {
        lemma_run_end(s, k + 1, p);
    }
}

/// A run end is the only position after `k` that fails `p` with every
/// position between passing it.
pub proof fn lemma_run_end_unique(s: Seq<char>, k: int, p: spec_fn(char) -> bool, j: int)
    requires
        0 <= k <= j <= s.len(),
        forall|m: int| k <= m < j ==> p(s[m]),
        j == s.len() || !p(s[j]),
    ensures
        run_end(s, k, p) == j,
    decreases s.len() - k,
{
    if k < s.len() && p(s[k]) {
        lemma_run_end_unique(s, k + 1, p, j);
    }
}

/// The number of newline characters in `s[a..b]`.
pub open spec fn count_nl(s: Seq<char>, a: int, b: int) -> nat
    decreases b - a,
    when a <= b
{
    if a >= b {
        0
    } else {
        count_nl(s, a, b - 1) + (if s[b - 1] == '\n' { 1 as nat } else { 0 as nat })
    }
}

pub proof fn lemma_count_nl_le(s: Seq<char>, a: int, b: int)
    requires
        a <= b,
    ensures
        count_nl(s, a, b) <= b - a,
    decreases b - a,
{
    if a < b {
        lemma_count_nl_le(s, a, b - 1);
    }
}

/// The value of a run of decimal digit characters, most significant first.
pub open spec fn digits_val(ds: Seq<char>) -> int
    decreases ds.len(),
{
    if ds.len() == 0 {
        0
    } else {
        digits_val(ds.drop_last()) * 10 + (ds.last() as int - 48)
    }
}

/// Every run of digits has a non-negative value, and a prefix never exceeds
/// the whole.
pub proof fn lemma_digits_val_mono(ds: Seq<char>, i: int)
    requires
        0 <= i <= ds.len(),
        forall|j: int| 0 <= j < ds.len() ==> is_digit_spec(#[trigger] ds[j]),
    ensures
        0 <= digits_val(ds.take(i)),
        digits_val(ds.take(i)) <= digits_val(ds),
    decreases ds.len() - i,
{
    if i == ds.len() {
        assert(ds.take(i) =~= ds);
        lemma_digits_val_nonneg(ds);
    } else {
        lemma_digits_val_mono(ds, i + 1);
        lemma_digits_val_nonneg(ds.take(i));
        assert(ds.take(i + 1).drop_last() =~= ds.take(i));
        assert(ds.take(i + 1).last() == ds[i]);
        assert(digits_val(ds.take(i)) * 10 >= digits_val(ds.take(i))) by (nonlinear_arith)
            requires
                digits_val(ds.take(i)) >= 0,
        ;
    }
}

pub proof fn lemma_digits_val_nonneg(ds: Seq<char>)
    requires
        forall|j: int| 0 <= j < ds.len() ==> is_digit_spec(#[trigger] ds[j]),
    ensures
        0 <= digits_val(ds),
    decreases ds.len(),
{
    if ds.len() > 0 {
        lemma_digits_val_nonneg(ds.drop_last());
        assert(digits_val(ds.drop_last()) * 10 >= 0) by (nonlinear_arith)
            requires
                digits_val(ds.drop_last()) >= 0,
        ;
    }
}

/// One step of the scan: the next position, the line counter after the
/// step, and at most one token or one error produced.
pub struct ScanStep {
    pub next: int,
    pub line: nat,
    pub tok: Option<TokenV>,
    pub err: Option<LexErrV>,
}

/// A step producing one payload-free token spanning `s[i..j]`.
pub open spec fn tok_step(tt: TokenType, s: Seq<char>, i: int, j: int, line: nat) -> ScanStep {
    ScanStep {
        next: j,
        line,
        tok: Some(TokenV { token_type: tt, panoll: s.subrange(i, j), stract: None, line_number: line }),
        err: None,
    }
}

/// A step producing nothing.
pub open spec fn skip_step(next: int, line: nat) -> ScanStep {
    ScanStep { next, line, tok: None, err: None }
}

/// Whether the character after position `i` exists and equals `second`.
pub open spec fn has_second(s: Seq<char>, i: int, second: char) -> bool {
    i + 1 < s.len() && s[i + 1] == second
}

/// The scan step for a string literal opened by the quote at `i`.
pub open spec fn string_step(s: Seq<char>, i: int, line: nat) -> ScanStep {
    let j = run_end(s, i + 1, |c: char| c != '"');
    let nl = count_nl(s, i + 1, j);
    if j >= s.len() {
        ScanStep {
            next: s.len() as int,
            line: (line + nl) as nat,
            tok: None,
            err: Some(LexErrV { kind: LexErrorKind::UnterminatedString, line: (line + nl) as nat }),
        }
    } else {
        ScanStep {
            next: j + 1,
            line: (line + nl) as nat,
            tok: Some(TokenV {
                token_type: TokenType::StringLat,
                panoll: s.subrange(i, j + 1),
                stract: Some(StractV::StringV(s.subrange(i + 1, j))),
                line_number: (line + nl) as nat,
            }),
            err: None,
        }
    }
}

/// The scan step for a number literal whose first digit is at `i`.
pub open spec fn number_step(s: Seq<char>, i: int, line: nat) -> ScanStep {
    let d1 = run_end(s, i + 1, |c: char| is_digit_spec(c));
    let frac = d1 + 1 < s.len() && s[d1] == '.' && is_digit_spec(s[d1 + 1]);
    let end = if frac { run_end(s, d1 + 1, |c: char| is_digit_spec(c)) } else { d1 };
    let digs = if frac { s.subrange(i, d1) + s.subrange(d1 + 1, end) } else { s.subrange(i, end) };
    let scale = if frac { (end - (d1 + 1)) as nat } else { 0 as nat };
    let v = digits_val(digs);
    if v > i64::MAX || scale > u32::MAX {
        ScanStep {
            next: end,
            line,
            tok: None,
            err: Some(LexErrV { kind: LexErrorKind::UnparsableNumber, line }),
        }
    } else {
        ScanStep {
            next: end,
            line,
            tok: Some(TokenV {
                token_type: TokenType::Number,
                panoll: s.subrange(i, end),
                stract: Some(StractV::NumberV(norm_v(v, scale))),
                line_number: line,
            }),
            err: None,
        }
    }
}

/// The scan step for an identifier or keyword starting at `i`.
pub open spec fn ident_step(s: Seq<char>, i: int, line: nat) -> ScanStep {
    let j = run_end(s, i + 1, |c: char| is_alpha_numeric_spec(c));
    let w = s.subrange(i, j);
    let tt = match keyword_of(w) {
        Some(t) => t,
        None => TokenType::Identifier,
    };
    tok_step(tt, s, i, j, line)
}

/// One full scan step at position `i` of the source.
pub open spec fn scan_step(s: Seq<char>, i: int, line: nat) -> ScanStep
    recommends
        0 <= i < s.len(),
{
    let c = s[i];
    if c == '(' { tok_step(TokenType::LeftParen, s, i, i + 1, line) }
    else if c == ')' { tok_step(TokenType::RightParen, s, i, i + 1, line) }
    else if c == '{' { tok_step(TokenType::LeftBrace, s, i, i + 1, line) }
    else if c == '}' { tok_step(TokenType::RightBrace, s, i, i + 1, line) }
    else if c == ',' { tok_step(TokenType::Comma, s, i, i + 1, line) }
    else if c == '.' { tok_step(TokenType::Dot, s, i, i + 1, line) }
    else if c == '-' { tok_step(TokenType::Minus, s, i, i + 1, line) }
    else if c == '+' { tok_step(TokenType::Plus, s, i, i + 1, line) }
    else if c == '*' { tok_step(TokenType::Star, s, i, i + 1, line) }
    else if c == '!' {
        if has_second(s, i, ':') { tok_step(TokenType::BangEqual, s, i, i + 2, line) }
        else { tok_step(TokenType::Bang, s, i, i + 1, line) }
    }
    else if c == ':' {
        if has_second(s, i, ':') { tok_step(TokenType::Equal, s, i, i + 2, line) }
        else { tok_step(TokenType::EqualEqual, s, i, i + 1, line) }
    }
    else if c == '<' {
        if has_second(s, i, ':') { tok_step(TokenType::LessEqual, s, i, i + 2, line) }
        else { tok_step(TokenType::Less, s, i, i + 1, line) }
    }
    else if c == '>' {
        if has_second(s, i, ':') { tok_step(TokenType::GreaterEqual, s, i, i + 2, line) }
        else { tok_step(TokenType::Greater, s, i, i + 1, line) }
    }
    else if c == ';' {
        if has_second(s, i, ';') { tok_step(TokenType::SemicolonEqual, s, i, i + 2, line) }
        else { tok_step(TokenType::Semicolon, s, i, i + 1, line) }
    }
    else if c == '/' {
        if has_second(s, i, '/') { skip_step(run_end(s, i + 2, |ch: char| ch != '\n'), line) }
        else { tok_step(TokenType::Slash, s, i, i + 1, line) }
    }
    else if c == ' ' || c == '\r' || c == '\t' { skip_step(i + 1, line) }
    else if c == '\n' { ScanStep { next: i + 1, line: line + 1, tok: None, err: None } }
    else if c == '"' { string_step(s, i, line) }
    else if is_digit_spec(c) { number_step(s, i, line) }
    else if is_alpha_spec(c) { ident_step(s, i, line) }
    else {
        ScanStep {
            next: i + 1,
            line,
            tok: None,
            err: Some(LexErrV { kind: LexErrorKind::UnrecognizedChar(c), line }),
        }
    }
}

/// Every scan step consumes at least one character and stays in bounds.
pub proof fn lemma_scan_step_bounds(s: Seq<char>, i: int, line: nat)
    requires
        0 <= i < s.len(),
    ensures
        i < scan_step(s, i, line).next <= s.len(),
{
    let c = s[i];
    if c == '/' && has_second(s, i, '/') {
        lemma_run_end(s, i + 2, |ch: char| ch != '\n');
    } else if c == '"' {
        lemma_run_end(s, i + 1, |ch: char| ch != '"');
    } else if !(c == '(' || c == ')' || c == '{' || c == '}' || c == ',' || c == '.' || c == '-'
        || c == '+' || c == '*' || c == '!' || c == ':' || c == '<' || c == '>' || c == ';'
        || c == '/' || c == ' ' || c == '\r' || c == '\t' || c == '\n') {
        if is_digit_spec(c) {
            let d1 = run_end(s, i + 1, |ch: char| is_digit_spec(ch));
            lemma_run_end(s, i + 1, |ch: char| is_digit_spec(ch));
            if d1 + 1 < s.len() && s[d1] == '.' && is_digit_spec(s[d1 + 1]) {
                lemma_run_end(s, d1 + 1, |ch: char| is_digit_spec(ch));
            }
        } else if is_alpha_spec(c) {
            lemma_run_end(s, i + 1, |ch: char| is_alpha_numeric_spec(ch));
        }
    }
}

/// The tokens and the errors of a whole scan.
pub struct ScanOut {
    pub toks: Seq<TokenV>,
    pub errs: Seq<LexErrV>,
}

/// The end-of-stream token.
pub open spec fn eof_token(line: nat) -> TokenV {
    TokenV { token_type: TokenType::Eof, panoll: Seq::empty(), stract: None, line_number: line }
}

/// A singleton or empty sequence from an option.
pub open spec fn opt_seq<T>(o: Option<T>) -> Seq<T> {
    match o {
        Some(x) => seq![x],
        None => Seq::empty(),
    }
}

/// The tokens and errors of scanning `s` from position `i` at line `line`,
/// ending with the end-of-stream token.
pub open spec fn scan_from(s: Seq<char>, i: int, line: nat) -> ScanOut
    decreases s.len() - i,
    when 0 <= i <= s.len()
{
    if i >= s.len() {
        ScanOut { toks: seq![eof_token(line)], errs: Seq::empty() }
    } else {
        let st = scan_step(s, i, line);
        let nx = if i < st.next <= s.len() { st.next } else { i + 1 };
        let rest = scan_from(s, nx, st.line);
        ScanOut { toks: opt_seq(st.tok) + rest.toks, errs: opt_seq(st.err) + rest.errs }
    }
}


/// A scan always ends with the end-of-stream token.
pub proof fn lemma_scan_from_wf(s: Seq<char>, i: int, line: nat)
    requires
        0 <= i <= s.len(),
    ensures
        scan_from(s, i, line).toks.len() >= 1,
        scan_from(s, i, line).toks.last().token_type == TokenType::Eof,
    decreases s.len() - i,
{
    if i < s.len() {
        let st = scan_step(s, i, line);
        let nx = if i < st.next <= s.len() { st.next } else { i + 1 };
        lemma_scan_from_wf(s, nx, st.line);
        assert(scan_from(s, i, line).toks.last() == scan_from(s, nx, st.line).toks.last());
    }
}

/// The views of a sequence of tokens.
pub open spec fn tokens_view(ts: Seq<Token>) -> Seq<TokenV> {
    ts.map_values(|t: Token| t@)
}

/// The views of a sequence of lexical errors.
pub open spec fn errs_view(es: Seq<LexError>) -> Seq<LexErrV> {
    es.map_values(|e: LexError| e@)
}

/// The value of a run of digit characters as a mantissa, `None` when it
/// exceeds `i64::MAX`.
fn digits_to_i64(digs: &Vec<char>) -> (r: Option<i64>)
    requires
        forall|j: int| 0 <= j < digs@.len() ==> is_digit_spec(#[trigger] digs@[j]),
    ensures
        match r {
            Some(v) => v as int == digits_val(digs@) && digits_val(digs@) <= i64::MAX,
            None => digits_val(digs@) > i64::MAX,
        },
{
    let mut acc: i64 = 0;
    let mut i: usize = 0;
    proof {
        assert(digs@.take(0) =~= Seq::empty());
    }
    while i < digs.len()
        invariant
            0 <= i <= digs@.len(),
            forall|j: int| 0 <= j < digs@.len() ==> is_digit_spec(#[trigger] digs@[j]),
            0 <= acc,
            acc as int == digits_val(digs@.take(i as int)),
        decreases digs@.len() - i,
    {
        let d: u32 = digs[i] as u32 - 48;
        proof {
            assert(digs@.take(i + 1).drop_last() =~= digs@.take(i as int));
            assert(digs@.take(i + 1).last() == digs@[i as int]);
        }
        let stepped: Option<i64> = match acc.checked_mul(10) {
            Some(t) => t.checked_add(d as i64),
            None => None,
        };
        match stepped {
            Some(v) => {
                acc = v;
            },
            None => {
                proof {
                    assert(digits_val(digs@.take(i + 1)) > i64::MAX);
                    lemma_digits_val_mono(digs@, i + 1);
                }
                return None;
            },
        }
        i = i + 1;
    }
    proof {
        assert(digs@.take(digs@.len() as int) =~= digs@);
    }
    Some(acc)
}

/// The characters of a string slice as a vector.
fn str_chars(s: &str) -> (r: Vec<char>)
    ensures
        r@ == s@,
{
    let n = s.unicode_len();
    let mut out: Vec<char> = Vec::new();
    let mut i: usize = 0;
    while i < n
        invariant
            i <= n,
            n == s@.len(),
            out@ == s@.subrange(0, i as int),
        decreases n - i,
    {
        let c = s.get_char(i);
        out.push(c);
        proof {
            assert(out@ =~= s@.subrange(0, (i + 1) as int));
        }
        i = i + 1;
    }
    proof {
        assert(out@ =~= s@);
    }
    out
}

/// The scanner: the source as characters, the tokens found so far, the
/// bounds of the lexeme being scanned, and the current 1-based line.
pub struct Scanner {
    pub source: Vec<char>,
    pub tokens: Vec<Token>,
    pub start: usize,
    pub current: usize,
    pub line: usize,
}

impl Scanner {
    /// The scanner's well-formedness: positions in bounds and the line
    /// counter within its growth bound.
    pub open spec fn wf(&self) -> bool {
        &&& self.start <= self.current <= self.source@.len()
        &&& 1 <= self.line
        &&& self.line <= 1 + self.current
        &&& self.source@.len() < usize::MAX
    }

    /// The characters being scanned.
    pub open spec fn src(&self) -> Seq<char> {
        self.source@
    }

    /// A scanner at the start of the given source.
    pub fn new(source: &str) -> (r: Self)
        requires
            source@.len() < usize::MAX,
        ensures
            r.wf(),
            r.src() == source@,
            r.tokens@.len() == 0,
            r.current == 0,
            r.line == 1,
    {
        Self {
            source: str_chars(source),
            tokens: Vec::new(),
            start: 0,
            current: 0,
            line: 1,
        }
    }

    fn is_at_end(&self) -> (r: bool)
        ensures
            r == (self.current >= self.src().len()),
    {
        self.current >= self.source.len()
    }

    fn peek(&self) -> (c: char)
        requires
            self.current <= self.src().len(),
        ensures
            c == if self.current < self.src().len() {
                self.src()[self.current as int]
            } else {
                '\0'
            },
    {
        if self.is_at_end() {
            return '\0';
        }
        self.source[self.current]
    }

    fn peek_next(&self) -> (c: char)
        requires
            self.current <= self.src().len() < usize::MAX,
        ensures
            c == if self.current + 1 < self.src().len() {
                self.src()[self.current + 1]
            } else {
                '\0'
            },
    {
        if self.current + 1 >= self.source.len() {
            return '\0';
        }
        self.source[self.current + 1]
    }

    fn advance(&mut self) -> (c: char)
        requires
            old(self).wf(),
            old(self).current < old(self).src().len(),
        ensures
            final(self).wf(),
            c == old(self).src()[old(self).current as int],
            final(self).current == old(self).current + 1,
            final(self).source == old(self).source,
            final(self).tokens == old(self).tokens,
            final(self).start == old(self).start,
            final(self).line == old(self).line,
    {
        let c = self.source[self.current];
        self.current = self.current + 1;
        c
    }

    fn do_match(&mut self, ch: char) -> (r: bool)
        requires
            old(self).wf(),
        ensures
            final(self).wf(),
            final(self).source == old(self).source,
            final(self).tokens == old(self).tokens,
            final(self).start == old(self).start,
            final(self).line == old(self).line,
            r == (old(self).current < old(self).src().len()
                && old(self).src()[old(self).current as int] == ch),
            final(self).current == if r {
                old(self).current + 1
            } else {
                old(self).current as int
            },
    {
        if self.is_at_end() {
            return false;
        }
        if self.source[self.current] != ch {
            false
        } else {
            self.current = self.current + 1;
            true
        }
    }

    fn add_token(&mut self, token_type: TokenType)
        requires
            old(self).wf(),
        ensures
            final(self).wf(),
            final(self).source == old(self).source,
            final(self).start == old(self).start,
            final(self).current == old(self).current,
            final(self).line == old(self).line,
            tokens_view(final(self).tokens@) == tokens_view(old(self).tokens@) + seq![TokenV {
                token_type,
                panoll: old(self).src().subrange(old(self).start as int, old(self).current as int),
                stract: None,
                line_number: old(self).line as nat,
            }],
    {
        self.add_token_lateral(token_type, None);
    }

    fn add_token_lateral(&mut self, token_type: TokenType, stract: Option<StractValue>)
        requires
            old(self).wf(),
        ensures
            final(self).wf(),
            final(self).source == old(self).source,
            final(self).start == old(self).start,
            final(self).current == old(self).current,
            final(self).line == old(self).line,
            tokens_view(final(self).tokens@) == tokens_view(old(self).tokens@) + seq![TokenV {
                token_type,
                panoll: old(self).src().subrange(old(self).start as int, old(self).current as int),
                stract: match stract {
                    Some(v) => Some(v@),
                    None => None,
                },
                line_number: old(self).line as nat,
            }],
    {
        let text_vec = copy_range(&self.source, self.start, self.current);
        let text = chars_to_string(&text_vec);
        let t = Token {
            token_type,
            panoll: text,
            stract,
            line_number: self.line,
        };
        let ghost before = self.tokens@;
        self.tokens.push(t);
        proof {
            assert(tokens_view(self.tokens@) =~= tokens_view(before) + seq![t@]);
        }
    }

    #[verifier::loop_isolation(false)]
    fn string(&mut self) -> (r: Result<(), LexError>)
        requires
            old(self).wf(),
            old(self).start < old(self).src().len(),
            old(self).current == old(self).start + 1,
            old(self).src()[old(self).start as int] == '"',
        ensures
            final(self).wf(),
            final(self).source == old(self).source,
            final(self).start == old(self).start,
            ({
                let st = string_step(old(self).src(), old(self).start as int, old(self).line as nat);
                &&& final(self).current as int == st.next
                &&& final(self).line as nat == st.line
                &&& tokens_view(final(self).tokens@) == tokens_view(old(self).tokens@) + opt_seq(st.tok)
                &&& (match r {
                    Ok(u) => st.err is None,
                    Err(e) => st.err == Some(e@) && st.tok is None,
                })
            }),
    {
        let ghost s = self.src();
        let ghost i = self.start as int;
        let ghost line0 = self.line as nat;
        let ghost p = (|c: char| c != '"');
        while self.peek() != '"' && !self.is_at_end()
            invariant
                self.wf(),
                self.source == old(self).source,
                self.start == old(self).start,
                self.tokens == old(self).tokens,
                i + 1 <= self.current as int <= s.len(),
                forall|m: int| i + 1 <= m < self.current as int ==> s[m] != '"',
                self.line as nat == line0 + count_nl(s, i + 1, self.current as int),
            decreases s.len() - self.current,
        {
            proof {
                lemma_count_nl_le(s, i + 1, self.current as int);
            }
            let c = self.advance();
            if c == '\n' {
                self.line = self.line + 1;
            }
        }
        proof {
            lemma_run_end_unique(s, i + 1, p, self.current as int);
            lemma_count_nl_le(s, i + 1, self.current as int);
        }
        if self.is_at_end() {
            proof {
                assert(tokens_view(self.tokens@) =~= tokens_view(old(self).tokens@) + opt_seq(
                    string_step(s, i, line0).tok));
            }
            return Err(LexError { kind: LexErrorKind::UnterminatedString, line: self.line });
        }
        self.advance();
        let inner = copy_range(&self.source, self.start + 1, self.current - 1);
        let lit = chars_to_string(&inner);
        self.add_token_lateral(TokenType::StringLat, Some(StractValue::StringValue(lit)));
        Ok(())
    }

    #[verifier::loop_isolation(false)]
    fn number(&mut self) -> (r: Result<(), LexError>)
        requires
            old(self).wf(),
            old(self).start < old(self).src().len(),
            old(self).current == old(self).start + 1,
            is_digit_spec(old(self).src()[old(self).start as int]),
        ensures
            final(self).wf(),
            final(self).source == old(self).source,
            final(self).start == old(self).start,
            final(self).line == old(self).line,
            ({
                let st = number_step(old(self).src(), old(self).start as int, old(self).line as nat);
                &&& final(self).current as int == st.next
                &&& tokens_view(final(self).tokens@) == tokens_view(old(self).tokens@) + opt_seq(st.tok)
                &&& (match r {
                    Ok(u) => st.err is None,
                    Err(e) => st.err == Some(e@) && st.tok is None,
                })
            }),
    {
        let ghost s = self.src();
        let ghost i = self.start as int;
        let ghost pd = (|c: char| is_digit_spec(c));
        while is_digit(self.peek())
            invariant
                self.wf(),
                self.source == old(self).source,
                self.start == old(self).start,
                self.tokens == old(self).tokens,
                self.line == old(self).line,
                i + 1 <= self.current as int <= s.len(),
                forall|m: int| i + 1 <= m < self.current as int ==> is_digit_spec(s[m]),
            decreases s.len() - self.current,
        {
            self.advance();
        }
        proof {
            lemma_run_end_unique(s, i + 1, pd, self.current as int);
        }
        let d1: usize = self.current;
        let frac: bool = self.peek() == '.' && is_digit(self.peek_next());
        if frac {
            self.advance();
            while is_digit(self.peek())
                invariant
                    self.wf(),
                    self.source == old(self).source,
                    self.start == old(self).start,
                    self.tokens == old(self).tokens,
                    self.line == old(self).line,
                    d1 + 1 <= self.current as int <= s.len(),
                    forall|m: int| d1 + 1 <= m < self.current as int ==> is_digit_spec(s[m]),
                decreases s.len() - self.current,
            {
                self.advance();
            }
            proof {
                lemma_run_end_unique(s, d1 + 1, pd, self.current as int);
            }
        }
        let end: usize = self.current;
        let mut digs = copy_range(&self.source, self.start, d1);
        if frac {
            let mut f2 = copy_range(&self.source, d1 + 1, end);
            digs.append(&mut f2);
        }
        let ghost spec_digs = if frac {
            s.subrange(i, d1 as int) + s.subrange(d1 + 1, end as int)
        } else {
            s.subrange(i, end as int)
        };
        proof {
            assert(digs@ =~= spec_digs);
            assert(forall|j: int| 0 <= j < digs@.len() ==> is_digit_spec(#[trigger] digs@[j]));
        }
        let sc_usize: usize = if frac { end - (d1 + 1) } else { 0 };
        proof {
            lemma_digits_val_nonneg(digs@);
        }
        match digits_to_i64(&digs) {
            None => Err(LexError { kind: LexErrorKind::UnparsableNumber, line: self.line }),
            Some(v) => {
                if sc_usize > 0xffffffff {
                    Err(LexError { kind: LexErrorKind::UnparsableNumber, line: self.line })
                } else {
                    let n = Num::new(v, sc_usize as u32);
                    self.add_token_lateral(TokenType::Number, Some(StractValue::NumberValue(n)));
                    Ok(())
                }
            },
        }
    }

    #[verifier::loop_isolation(false)]
    fn identifier(&mut self)
        requires
            old(self).wf(),
            old(self).start < old(self).src().len(),
            old(self).current == old(self).start + 1,
            is_alpha_spec(old(self).src()[old(self).start as int]),
        ensures
            final(self).wf(),
            final(self).source == old(self).source,
            final(self).start == old(self).start,
            final(self).line == old(self).line,
            ({
                let st = ident_step(old(self).src(), old(self).start as int, old(self).line as nat);
                &&& final(self).current as int == st.next
                &&& tokens_view(final(self).tokens@) == tokens_view(old(self).tokens@) + opt_seq(st.tok)
                &&& st.err is None
            }),
    {
        let ghost s = self.src();
        let ghost i = self.start as int;
        let ghost pa = (|c: char| is_alpha_numeric_spec(c));
        while !self.is_at_end() && is_alpha_numeric(self.peek())
            invariant
                self.wf(),
                self.source == old(self).source,
                self.start == old(self).start,
                self.tokens == old(self).tokens,
                self.line == old(self).line,
                i + 1 <= self.current as int <= s.len(),
                forall|m: int| i + 1 <= m < self.current as int ==> is_alpha_numeric_spec(s[m]),
            decreases s.len() - self.current,
        {
            self.advance();
        }
        proof {
            lemma_run_end_unique(s, i + 1, pa, self.current as int);
        }
        let w = copy_range(&self.source, self.start, self.current);
        match keyword_token(&w) {
            Some(t) => self.add_token(t),
            None => self.add_token(TokenType::Identifier),
        }
    }

    #[verifier::loop_isolation(false)]
    fn scan_token(&mut self) -> (r: Result<(), LexError>)
        requires
            old(self).wf(),
            old(self).start == old(self).current,
            old(self).current < old(self).src().len(),
        ensures
            final(self).wf(),
            final(self).source == old(self).source,
            ({
                let st = scan_step(old(self).src(), old(self).current as int, old(self).line as nat);
                &&& final(self).current as int == st.next
                &&& final(self).line as nat == st.line
                &&& tokens_view(final(self).tokens@) == tokens_view(old(self).tokens@) + opt_seq(st.tok)
                &&& (match r {
                    Ok(u) => st.err is None,
                    Err(e) => st.err == Some(e@) && st.tok is None,
                })
            }),
    {
        let c = self.advance();
        match c {
            '(' => { self.add_token(TokenType::LeftParen); Ok(()) },
            ')' => { self.add_token(TokenType::RightParen); Ok(()) },
            '{' => { self.add_token(TokenType::LeftBrace); Ok(()) },
            '}' => { self.add_token(TokenType::RightBrace); Ok(()) },
            ',' => { self.add_token(TokenType::Comma); Ok(()) },
            '.' => { self.add_token(TokenType::Dot); Ok(()) },
            '-' => { self.add_token(TokenType::Minus); Ok(()) },
            '+' => { self.add_token(TokenType::Plus); Ok(()) },
            '*' => { self.add_token(TokenType::Star); Ok(()) },
            '!' => {
                let token = if self.do_match(':') { TokenType::BangEqual } else { TokenType::Bang };
                self.add_token(token);
                Ok(())
            },
            ':' => {
                let token = if self.do_match(':') { TokenType::Equal } else { TokenType::EqualEqual };
                self.add_token(token);
                Ok(())
            },
            '<' => {
                let token = if self.do_match(':') { TokenType::LessEqual } else { TokenType::Less };
                self.add_token(token);
                Ok(())
            },
            '>' => {
                let token = if self.do_match(':') { TokenType::GreaterEqual } else { TokenType::Greater };
                self.add_token(token);
                Ok(())
            },
            ';' => {
                let token = if self.do_match(';') { TokenType::SemicolonEqual } else { TokenType::Semicolon };
                self.add_token(token);
                Ok(())
            },
            '/' => {
                if self.do_match('/') {
                    let ghost s = self.src();
                    let ghost k = self.current as int;
                    let ghost pn = (|ch: char| ch != '\n');
                    while !(self.peek() == '\n' || self.is_at_end())
                        invariant
                            self.wf(),
                            self.source == old(self).source,
                            self.start == old(self).start,
                            self.tokens == old(self).tokens,
                            self.line == old(self).line,
                            k <= self.current as int <= s.len(),
                            forall|m: int| k <= m < self.current as int ==> s[m] != '\n',
                        decreases s.len() - self.current,
                    {
                        self.advance();
                    }
                    proof {
                        lemma_run_end_unique(s, k, pn, self.current as int);
                        assert(tokens_view(self.tokens@) =~= tokens_view(old(self).tokens@)
                            + opt_seq(scan_step(s, old(self).current as int, old(self).line as nat).tok));
                    }
                    Ok(())
                } else {
                    self.add_token(TokenType::Slash);
                    Ok(())
                }
            },
            ' ' | '\r' | '\t' => {
                proof {
                    assert(tokens_view(self.tokens@) =~= tokens_view(old(self).tokens@));
                }
                Ok(())
            },
            '\n' => {
                self.line = self.line + 1;
                proof {
                    assert(tokens_view(self.tokens@) =~= tokens_view(old(self).tokens@));
                }
                Ok(())
            },
            '"' => self.string(),
            other => {
                if is_digit(other) {
                    self.number()
                } else if is_alpha(other) {
                    self.identifier();
                    Ok(())
                } else {
                    proof {
                        assert(tokens_view(self.tokens@) =~= tokens_view(old(self).tokens@));
                    }
                    Err(LexError { kind: LexErrorKind::UnrecognizedChar(other), line: self.line })
                }
            },
        }
    }

    /// Scan the whole source: all the tokens, ending with the end-of-stream
    /// token, or every lexical error found along the way.
    #[verifier::loop_isolation(false)]
    pub fn scan_tokens(&mut self) -> (r: Result<Vec<Token>, Vec<LexError>>)
        requires
            old(self).wf(),
            old(self).tokens@.len() == 0,
            old(self).current == 0,
            old(self).line == 1,
        ensures
            ({
                let out = scan_from(old(self).src(), 0, 1);
                match r {
                    Ok(toks) => out.errs.len() == 0 && tokens_view(toks@) == out.toks,
                    Err(errs) => errs@.len() > 0 && errs_view(errs@) == out.errs,
                }
            }),
    {
        let ghost s = self.src();
        let mut errors: Vec<LexError> = Vec::new();
        proof {
            assert(tokens_view(self.tokens@) =~= Seq::empty());
            assert(errs_view(errors@) =~= Seq::empty());
            assert(scan_from(s, 0, 1).toks =~= tokens_view(self.tokens@)
                + scan_from(s, self.current as int, self.line as nat).toks);
            assert(scan_from(s, 0, 1).errs =~= errs_view(errors@)
                + scan_from(s, self.current as int, self.line as nat).errs);
        }
        while !self.is_at_end()
            invariant
                self.wf(),
                self.source@ == s,
                scan_from(s, 0, 1).toks == tokens_view(self.tokens@)
                    + scan_from(s, self.current as int, self.line as nat).toks,
                scan_from(s, 0, 1).errs == errs_view(errors@)
                    + scan_from(s, self.current as int, self.line as nat).errs,
            decreases s.len() - self.current,
        {
            let ghost c0 = self.current as int;
            let ghost l0 = self.line as nat;
            let ghost toks0 = self.tokens@;
            let ghost errs0 = errors@;
            self.start = self.current;
            let res = self.scan_token();
            proof {
                lemma_scan_step_bounds(s, c0, l0);
            }
            match res {
                Ok(u) => (),
                Err(e) => {
                    errors.push(e);
                    proof {
                        assert(errs_view(errors@) =~= errs_view(errs0) + seq![e@]);
                    }
                },
            }
            proof {
                let st = scan_step(s, c0, l0);
                assert(scan_from(s, c0, l0).toks =~= opt_seq(st.tok)
                    + scan_from(s, st.next, st.line).toks);
                assert(scan_from(s, c0, l0).errs =~= opt_seq(st.err)
                    + scan_from(s, st.next, st.line).errs);
                assert(scan_from(s, 0, 1).toks =~= tokens_view(self.tokens@)
                    + scan_from(s, self.current as int, self.line as nat).toks);
                assert(scan_from(s, 0, 1).errs =~= errs_view(errors@)
                    + scan_from(s, self.current as int, self.line as nat).errs);
            }
        }
        let eof_t = Token {
            token_type: TokenType::Eof,
            panoll: String::new(),
            stract: None,
            line_number: self.line,
        };
        let ghost toks_before = self.tokens@;
        self.tokens.push(eof_t);
        proof {
            assert(tokens_view(self.tokens@) =~= tokens_view(toks_before) + seq![eof_t@]);
            assert(scan_from(s, 0, 1).toks =~= tokens_view(self.tokens@));
            assert(scan_from(s, 0, 1).errs =~= errs_view(errors@));
        }
        if errors.len() > 0 {
            Err(errors)
        } else {
            let mut out: Vec<Token> = Vec::new();
            core::mem::swap(&mut out, &mut self.tokens);
            Ok(out)
        }
    }
}

} // verus!
