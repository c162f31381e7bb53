//! The tree-walking interpreter: executes statements in order against one
//! session-wide environment, collecting printed output as text lines.

use vstd::prelude::*;
use crate::environment::Environment;
use crate::expr::{Expr, StractValue, EvalError, EvalErrV, ValueV, eval_v, expr_v, expr_inv, value_inv, value_chars_v, eval_result_view};
use crate::statement::{Statement, StmtV, stmt_v, stmt_inv, stmts_view};

verus! {

/// The evaluation state a statement sequence carries along: the variable
/// bindings and the lines printed so far.
pub struct RunState {
    pub env: Map<Seq<char>, ValueV>,
    pub outs: Seq<Seq<char>>,
}

/// The effect of one statement: an expression statement discards its value,
/// a print statement appends the value's text, a declaration binds the
/// initializer's value to the name.  An evaluation error leaves the state
/// as it was.
pub open spec fn exec_stmt_v(st: StmtV, env: Map<Seq<char>, ValueV>, outs: Seq<Seq<char>>) -> (
    RunState,
    Option<EvalErrV>,
) {
    match st {
        StmtV::ExpressionV { expression } => match eval_v(expression, env) {
            Ok(v) => (RunState { env, outs }, None),
            Err(er) => (RunState { env, outs }, Some(er)),
        },
        StmtV::PrintV { expression } => match eval_v(expression, env) {
            Ok(v) => (RunState { env, outs: outs.push(value_chars_v(v)) }, None),
            Err(er) => (RunState { env, outs }, Some(er)),
        },
        StmtV::VarV { name, initializer } => match eval_v(initializer, env) {
            Ok(v) => (RunState { env: env.insert(name.panoll, v), outs }, None),
            Err(er) => (RunState { env, outs }, Some(er)),
        },
    }
}

/// The effect of a statement sequence, stopping at the first evaluation
/// error; what earlier statements changed stays changed.
pub open spec fn exec_stmts_v(sts: Seq<StmtV>, env: Map<Seq<char>, ValueV>, outs: Seq<Seq<char>>) -> (
    RunState,
    Option<EvalErrV>,
)
    decreases sts.len(),
{
    if sts.len() == 0 {
        (RunState { env, outs }, None)
    } else {
        let (rs, e) = exec_stmt_v(sts[0], env, outs);
        match e {
            Some(er) => (rs, Some(er)),
            None => exec_stmts_v(sts.drop_first(), rs.env, rs.outs),
        }
    }
}

/// The views of the collected output lines.
pub open spec fn outs_view(os: Seq<String>) -> Seq<Seq<char>> {
    os.map_values(|s: String| s@)
}

/// The interpreter: one environment for the session and the lines its print
/// statements have produced.
pub struct Interpreter {
    pub environment: Environment,
    pub outputs: Vec<String>,
}

impl Interpreter {
    /// A fresh interpreter with an empty environment and no output.
    pub fn new() -> (r: Self)
        ensures
            r.environment.inv(),
            r.environment.as_map() == Map::<Seq<char>, ValueV>::empty(),
            r.outputs@.len() == 0,
    {
        Self { environment: Environment::new(), outputs: Vec::new() }
    }

    /// Evaluate one expression against the session environment.
    pub fn interpret_expr(&mut self, expr: Expr) -> (r: Result<StractValue, EvalError>)
        requires
            expr_inv(expr),
            old(self).environment.inv(),
        ensures
            *final(self) == *old(self),
            eval_result_view(r) == eval_v(expr_v(expr), old(self).environment.as_map()),
            r matches Ok(v) ==> value_inv(v),
    {
        expr.evaluate(&self.environment)
    }

    /// Execute the statements in order, stopping at the first evaluation
    /// error; variables defined before the error stay defined and output
    /// printed before it stays collected.
    #[verifier::loop_isolation(false)]
    pub fn interpret(&mut self, statements: Vec<Statement>) -> (r: Result<(), EvalError>)
        requires
            old(self).environment.inv(),
            forall|i: int| 0 <= i < statements@.len() ==> stmt_inv(#[trigger] statements@[i]),
        ensures
            final(self).environment.inv(),
            ({
                let (rs, e) = exec_stmts_v(
                    stmts_view(statements@),
                    old(self).environment.as_map(),
                    outs_view(old(self).outputs@),
                );
                &&& final(self).environment.as_map() == rs.env
                &&& outs_view(final(self).outputs@) == rs.outs
                &&& (match r {
                    Ok(u) => e is None,
                    Err(err) => e == Some(err@),
                })
            }),
    {
        let ghost views = stmts_view(statements@);
        let ghost env0 = self.environment.as_map();
        let ghost outs0 = outs_view(self.outputs@);
        let n = statements.len();
        let mut i: usize = 0;
        proof {
            assert(views.skip(0) =~= views);
        }
        while i < n
            invariant
                0 <= i <= n,
                self.environment.inv(),
                exec_stmts_v(views, env0, outs0) == exec_stmts_v(
                    views.skip(i as int),
                    self.environment.as_map(),
                    outs_view(self.outputs@),
                ),
            decreases n - i,
        {
            let ghost pre_env = self.environment.as_map();
            let ghost pre_outs = outs_view(self.outputs@);
            proof {
                assert(views.skip(i as int)[0] == views[i as int]);
                assert(views.skip(i as int).drop_first() =~= views.skip(i + 1));
            }
            let res: Result<(), EvalError> = match &statements[i] {
                Statement::Expression { expression } => {
                    match expression.evaluate(&self.environment) {
                        Ok(v) => Ok(()),
                        Err(e) => Err(e),
                    }
                },
                Statement::Print { expression } => {
                    match expression.evaluate(&self.environment) {
                        Ok(v) => {
                            let line = v.to_string();
                            self.outputs.push(line);
                            proof {
                                assert(outs_view(self.outputs@) =~= pre_outs.push(line@));
                            }
                            Ok(())
                        },
                        Err(e) => Err(e),
                    }
                },
                Statement::Var { name, initializer } => {
                    match initializer.evaluate(&self.environment) {
                        Ok(v) => {
                            self.environment.define(name.panoll.clone(), v);
                            Ok(())
                        },
                        Err(e) => Err(e),
                    }
                },
            };
            match res {
                Ok(u) => (),
                Err(e) => {
                    return Err(e);
                },
            }
            i = i + 1;
        }
        proof {
            assert(views.skip(n as int) =~= Seq::<StmtV>::empty());
        }
        Ok(())
    }
}

/// A variable declared without an initializer is bound to nil, and a later
/// reference to it evaluates to nil.
pub proof fn lemma_uninitialized_var_is_nil(
    name: crate::scanner::TokenV,
    env: Map<Seq<char>, ValueV>,
    outs: Seq<Seq<char>>,
)
    ensures
        ({
            let (rs, e) = exec_stmt_v(
                StmtV::VarV {
                    name,
                    initializer: crate::expr::ExprV::LateralV { value: ValueV::NilV },
                },
                env,
                outs,
            );
            &&& e is None
            &&& eval_v(crate::expr::ExprV::VariableV { name }, rs.env) == Ok::<
                ValueV,
                EvalErrV,
            >(ValueV::NilV)
        }),
{
}

/// Referencing a name that was never defined is an evaluation error naming
/// the variable.
pub proof fn lemma_undefined_variable_errors(
    name: crate::scanner::TokenV,
    env: Map<Seq<char>, ValueV>,
)
    requires
        !env.contains_key(name.panoll),
    ensures
        eval_v(crate::expr::ExprV::VariableV { name }, env) == Err::<ValueV, EvalErrV>(
            EvalErrV::UndefinedVariableV { name: name.panoll },
        ),
{
}

/// Lines joined by line breaks, no trailing break.
pub open spec fn join_nl(msgs: Seq<Seq<char>>) -> Seq<char>
    decreases msgs.len(),
{
    if msgs.len() == 0 {
        Seq::empty()
    } else if msgs.len() == 1 {
        msgs[0]
    } else {
        join_nl(msgs.drop_last()) + seq!['\n'] + msgs.last()
    }
}

/// The joined diagnostic text of the scan's errors.
pub open spec fn lex_report_v(errs: Seq<crate::scanner::LexErrV>) -> Seq<char> {
    join_nl(errs.map_values(|e: crate::scanner::LexErrV| crate::scanner::lex_msg_v(e)))
}

/// The joined diagnostic text of the parse's errors.
pub open spec fn parse_report_v(errs: Seq<crate::parser::ParseErrV>) -> Seq<char> {
    join_nl(errs.map_values(|e: crate::parser::ParseErrV| crate::parser::parse_msg_v(e)))
}

/// The scan's errors as one diagnostic text, one line each.
#[verifier::loop_isolation(false)]
fn lex_report(errs: &Vec<crate::scanner::LexError>) -> (r: String)
    ensures
        r@ == lex_report_v(crate::scanner::errs_view(errs@)),
{
    let ghost msgs = crate::scanner::errs_view(errs@).map_values(
        |e: crate::scanner::LexErrV| crate::scanner::lex_msg_v(e),
    );
    let mut out: Vec<char> = Vec::new();
    let mut i: usize = 0;
    proof {
        assert(join_nl(msgs.take(0)) =~= Seq::empty());
    }
    while i < errs.len()
        invariant
            0 <= i <= errs@.len(),
            out@ == join_nl(msgs.take(i as int)),
        decreases errs@.len() - i,
    {
        if i > 0 {
            out.push('\n');
        }
        let m = errs[i].message();
        crate::text::push_str_chars(&mut out, m.as_str());
        proof {
            assert(msgs.take(i + 1).drop_last() =~= msgs.take(i as int));
            assert(msgs.take(i + 1).last() == msgs[i as int]);
            assert(out@ =~= join_nl(msgs.take(i + 1)));
        }
        i = i + 1;
    }
    proof {
        assert(msgs.take(msgs.len() as int) =~= msgs);
    }
    crate::text::chars_to_string(&out)
}

/// The parse's errors as one diagnostic text, one line each.
#[verifier::loop_isolation(false)]
fn parse_report(errs: &Vec<crate::parser::ParseError>) -> (r: String)
    ensures
        r@ == parse_report_v(crate::parser::perrs_view(errs@)),
{
    let ghost msgs = crate::parser::perrs_view(errs@).map_values(
        |e: crate::parser::ParseErrV| crate::parser::parse_msg_v(e),
    );
    let mut out: Vec<char> = Vec::new();
    let mut i: usize = 0;
    proof {
        assert(join_nl(msgs.take(0)) =~= Seq::empty());
    }
    while i < errs.len()
        invariant
            0 <= i <= errs@.len(),
            out@ == join_nl(msgs.take(i as int)),
        decreases errs@.len() - i,
    {
        if i > 0 {
            out.push('\n');
        }
        let m = errs[i].message();
        crate::text::push_str_chars(&mut out, m.as_str());
        proof {
            assert(msgs.take(i + 1).drop_last() =~= msgs.take(i as int));
            assert(msgs.take(i + 1).last() == msgs[i as int]);
            assert(out@ =~= join_nl(msgs.take(i + 1)));
        }
        i = i + 1;
    }
    proof {
        assert(msgs.take(msgs.len() as int) =~= msgs);
    }
    crate::text::chars_to_string(&out)
}

/// Run one unit of source text through the whole pipeline: scan, parse,
/// interpret against the interpreter's session environment.  The error
/// carries the stage's diagnostics joined by line breaks; lexical errors
/// stop the parse, parse errors stop the evaluation, and the first
/// evaluation error stops the run with earlier definitions kept.
pub fn run(interpreter: &mut Interpreter, contents: &str) -> (r: Result<(), String>)
    requires
        contents@.len() < usize::MAX,
        old(interpreter).environment.inv(),
    ensures
        final(interpreter).environment.inv(),
        ({
            let sc = crate::scanner::scan_from(contents@, 0, 1);
            if sc.errs.len() > 0 {
                &&& (r matches Err(m) && m@ == lex_report_v(sc.errs))
                &&& *final(interpreter) == *old(interpreter)
            } else {
                let pr = crate::parser::p_program(sc.toks, 0);
                if pr.errs.len() > 0 {
                    &&& (r matches Err(m) && m@ == parse_report_v(pr.errs))
                    &&& *final(interpreter) == *old(interpreter)
                } else {
                    let (rs, e) = exec_stmts_v(
                        pr.stmts,
                        old(interpreter).environment.as_map(),
                        outs_view(old(interpreter).outputs@),
                    );
                    &&& final(interpreter).environment.as_map() == rs.env
                    &&& outs_view(final(interpreter).outputs@) == rs.outs
                    &&& (match (r, e) {
                        (Ok(u), None) => true,
                        (Err(m), Some(ev)) => m@ == crate::expr::eval_msg_v(ev),
                        _ => false,
                    })
                }
            }
        }),
{
    let mut scanner = crate::scanner::Scanner::new(contents);
    let tokens = match scanner.scan_tokens() {
        Ok(ts) => ts,
        Err(errs) => {
            return Err(lex_report(&errs));
        },
    };
    proof {
        crate::scanner::lemma_scan_from_wf(contents@, 0, 1);
    }
    let mut parser = crate::parser::Parser::new(tokens);
    let statements = match parser.parse() {
        Ok(sts) => sts,
        Err(errs) => {
            return Err(parse_report(&errs));
        },
    };
    match interpreter.interpret(statements) {
        Ok(u) => Ok(()),
        Err(e) => Err(e.message()),
    }
}

} // verus!
