//! The interpreter: tree-walking evaluation against chained environments.
//!
//! `spec_eval` is the mathematical meaning of an expression and
//! `spec_exec_stmt` of a statement; both thread the environment, and the
//! statement semantics also threads the printed lines and a step budget. The
//! budget pays one step per statement and per loop iteration, so a `while`
//! whose condition stays true stops only when the budget runs out; a host
//! passes the largest budget it is willing to wait for.

use vstd::prelude::*;

use crate::environment::env_define;
use crate::environment::env_lookup;
use crate::environment::env_assign;
use crate::environment::lemma_env_assign_len;
use crate::environment::EnvV;
use crate::environment::Environment;
use crate::expression::is_binary_op;
use crate::expression::wf_expr;
use crate::expression::ExprV;
use crate::expression::Expression;
use crate::literal::spec_add;
use crate::literal::spec_div;
use crate::literal::spec_eq_value;
use crate::literal::spec_fac_value;
use crate::literal::spec_ge;
use crate::literal::spec_gt;
use crate::literal::spec_le;
use crate::literal::spec_lit_text;
use crate::literal::spec_lt;
use crate::literal::spec_mul;
use crate::literal::spec_neg;
use crate::literal::spec_not;
use crate::literal::spec_pow_value;
use crate::literal::spec_sub;
use crate::literal::Fac;
use crate::literal::LitV;
use crate::literal::Literal;
use crate::literal::Pow;
use crate::parser::sp_stmt_seq;
use crate::parser::ParseError;
use crate::parser::Parser;
use crate::scanner::lemma_spec_scan_ends;
use crate::scanner::punct;
use crate::scanner::spec_scan;
use crate::scanner::tokens_view;
use crate::scanner::ScanError;
use crate::scanner::Scanner;
use crate::statement::lemma_stmts_view_index;
use crate::statement::lemma_stmts_view_len;
use crate::statement::lemma_wf_stmts_index;
use crate::statement::stmts_view;
use crate::statement::wf_stmt;
use crate::statement::wf_stmts;
use crate::statement::Statement;
use crate::statement::StmtV;
use crate::token_type::TokenType;

verus! {

broadcast use vstd::std_specs::vec::group_vec_axioms, crate::environment::lemma_env_nonempty;

/// A condition fatal to one run: an assignment to a name no scope binds, or
/// an exhausted step budget.
#[derive(Debug, PartialEq, Eq)]
pub enum RunError {
    /// Assignment never creates a binding, so assigning to an undeclared
    /// name stops the run; the name is carried for diagnostics.
    UndefinedVariable(String),
    /// The step budget ran out before the program finished.
    OutOfSteps,
}

/// Every error a run of source text can stop with, by pipeline stage.
#[derive(Debug, PartialEq, Eq)]
pub enum PipelineError {
    Scan(ScanError),
    Parse(ParseError),
    Runtime(RunError),
}

/// The interpreter's full state: its scope chain and the lines printed so
/// far.
pub struct StateV {
    pub env: EnvV,
    pub out: Seq<Seq<char>>,
}

/// What evaluating an expression yields: a value, or the undeclared name an
/// assignment stopped on; either way, the environment it left behind.
pub enum EvalOutcome {
    Value { v: LitV, env: EnvV },
    Undef { name: Seq<char>, env: EnvV },
}

/// What running a statement yields: completion, a fatal undeclared name, or
/// an exhausted budget; in every case the state it left behind.
pub enum RunOutcome {
    Done(StateV),
    Fault { name: Seq<char>, state: StateV },
    Stopped(StateV),
}

/// The state a run left behind, whatever its outcome.
pub open spec fn outcome_state(o: RunOutcome) -> StateV {
    match o {
        RunOutcome::Done(st) => st,
        RunOutcome::Fault { name: _, state } => state,
        RunOutcome::Stopped(st) => st,
    }
}

/// The meaning of one binary operator on two values.
pub open spec fn spec_apply_binary(op: TokenType, a: LitV, b: LitV) -> LitV {
    if op == TokenType::StarStar {
        spec_pow_value(a, b)
    } else if op == TokenType::Star {
        spec_mul(a, b)
    } else if op == TokenType::Slash {
        spec_div(a, b)
    } else if op == TokenType::Plus {
        spec_add(a, b)
    } else if op == TokenType::Minus {
        spec_sub(a, b)
    } else if op == TokenType::Less {
        spec_lt(a, b)
    } else if op == TokenType::LessEqual {
        spec_le(a, b)
    } else if op == TokenType::Greater {
        spec_gt(a, b)
    } else if op == TokenType::GreaterEqual {
        spec_ge(a, b)
    } else if op == TokenType::EqualEqual {
        spec_eq_value(a, b)
    } else {
        LitV::Nil
    }
}

/// The meaning of one unary operator on a value.
pub open spec fn spec_apply_unary(op: TokenType, is_prefix: bool, a: LitV) -> LitV {
    if is_prefix && op == TokenType::Bang {
        spec_not(a)
    } else if is_prefix && op == TokenType::Minus {
        spec_neg(a)
    } else if !is_prefix && op == TokenType::Bang {
        spec_fac_value(a)
    } else {
        LitV::Nil
    }
}

/// The meaning of an expression: operands evaluate eagerly, left before
/// right, threading the environment; a variable no scope binds reads as
/// `Nil`, while an assignment to one is fatal.
pub open spec fn spec_eval(e: ExprV, env: EnvV) -> EvalOutcome
    decreases e,
{
    match e {
        ExprV::Lit(v) => EvalOutcome::Value { v, env },
        ExprV::Var(name) => EvalOutcome::Value {
            v: match env_lookup(env, name) {
                Some(v) => v,
                None => LitV::Nil,
            },
            env,
        },
        ExprV::Group(inner) => spec_eval(*inner, env),
        ExprV::Assign { name, value } => match spec_eval(*value, env) {
            EvalOutcome::Value { v, env: e1 } => match env_assign(e1, name, v) {
                Some(e2) => EvalOutcome::Value { v, env: e2 },
                None => EvalOutcome::Undef { name, env: e1 },
            },
            u => u,
        },
        ExprV::Unary { op, right, is_prefix } => match spec_eval(*right, env) {
            EvalOutcome::Value { v, env: e1 } => EvalOutcome::Value {
                v: spec_apply_unary(op, is_prefix, v),
                env: e1,
            },
            u => u,
        },
        ExprV::Binary { left, op, right } => match spec_eval(*left, env) {
            EvalOutcome::Value { v: l, env: e1 } => match spec_eval(*right, e1) {
                EvalOutcome::Value { v: r, env: e2 } => EvalOutcome::Value {
                    v: spec_apply_binary(op, l, r),
                    env: e2,
                },
                u => u,
            },
            u => u,
        },
    }
}

/// The state after leaving a block: its innermost scope is discarded.
pub open spec fn pop_state(st: StateV) -> StateV {
    StateV { env: st.env.drop_last(), out: st.out }
}

/// Leaving a block discards its scope on every outcome, also when an error
/// propagates out of it.
pub open spec fn pop_outcome(o: RunOutcome) -> RunOutcome {
    match o {
        RunOutcome::Done(st) => RunOutcome::Done(pop_state(st)),
        RunOutcome::Fault { name, state } => RunOutcome::Fault { name, state: pop_state(state) },
        RunOutcome::Stopped(st) => RunOutcome::Stopped(pop_state(st)),
    }
}

/// The meaning of one statement under a step budget. Every statement costs
/// one step; a `while` re-runs its body while the condition evaluates to
/// exactly `Boolean(true)`, any other value ending the loop without running
/// the body.
pub open spec fn spec_exec_stmt(s: StmtV, st: StateV, fuel: nat) -> RunOutcome
    decreases fuel,
{
    if fuel == 0 {
        RunOutcome::Stopped(st)
    } else {
        let f = (fuel - 1) as nat;
        match s {
            StmtV::Expr(e) => match spec_eval(e, st.env) {
                EvalOutcome::Value { v: _, env } => RunOutcome::Done(
                    StateV { env, out: st.out },
                ),
                EvalOutcome::Undef { name, env } => RunOutcome::Fault {
                    name,
                    state: StateV { env, out: st.out },
                },
            },
            StmtV::Print(e) => match spec_eval(e, st.env) {
                EvalOutcome::Value { v, env } => RunOutcome::Done(
                    StateV { env, out: st.out.push(spec_lit_text(v)) },
                ),
                EvalOutcome::Undef { name, env } => RunOutcome::Fault {
                    name,
                    state: StateV { env, out: st.out },
                },
            },
            StmtV::VarDecl { name, value } => match spec_eval(value, st.env) {
                EvalOutcome::Value { v, env } => RunOutcome::Done(
                    StateV { env: env_define(env, name, v), out: st.out },
                ),
                EvalOutcome::Undef { name: n, env } => RunOutcome::Fault {
                    name: n,
                    state: StateV { env, out: st.out },
                },
            },
            StmtV::Program(ss) => spec_exec_seq(ss, st, f),
            StmtV::Block(ss) => pop_outcome(
                spec_exec_seq(ss, StateV { env: st.env.push(Map::empty()), out: st.out }, f),
            ),
            StmtV::While { condition, block } => match spec_eval(condition, st.env) {
                EvalOutcome::Value { v, env } => if v == LitV::Bool(true) {
                    match spec_exec_stmt(*block, StateV { env, out: st.out }, f) {
                        RunOutcome::Done(st2) => spec_exec_stmt(s, st2, f),
                        other => other,
                    }
                } else {
                    RunOutcome::Done(StateV { env, out: st.out })
                },
                EvalOutcome::Undef { name, env } => RunOutcome::Fault {
                    name,
                    state: StateV { env, out: st.out },
                },
            },
        }
    }
}

/// The meaning of a statement sequence: statements run in order, each under
/// the budget left after the one before it; an error stops the rest.
pub open spec fn spec_exec_seq(ss: Seq<StmtV>, st: StateV, fuel: nat) -> RunOutcome
    decreases fuel,
{
    if ss.len() == 0 {
        RunOutcome::Done(st)
    } else if fuel == 0 {
        RunOutcome::Stopped(st)
    } else {
        match spec_exec_stmt(ss[0], st, (fuel - 1) as nat) {
            RunOutcome::Done(st1) => spec_exec_seq(ss.drop_first(), st1, (fuel - 1) as nat),
            other => other,
        }
    }
}

/// How an executable evaluation result realizes an evaluation outcome.
pub open spec fn eval_matches(
    outcome: EvalOutcome,
    r: Result<Literal, RunError>,
    env_after: EnvV,
) -> bool {
    match outcome {
        EvalOutcome::Value { v, env } => (r matches Ok(l) && l@ == v) && env_after == env,
        EvalOutcome::Undef { name, env } => (r matches Err(RunError::UndefinedVariable(s))
            && s@ == name) && env_after == env,
    }
}

/// How an executable run result realizes a run outcome.
pub open spec fn run_matches(
    outcome: RunOutcome,
    r: Result<(), RunError>,
    st_after: StateV,
) -> bool {
    match outcome {
        RunOutcome::Done(st) => r is Ok && st_after == st,
        RunOutcome::Fault { name, state } => (r matches Err(RunError::UndefinedVariable(s))
            && s@ == name) && st_after == state,
        RunOutcome::Stopped(st) => (r matches Err(e) && e == RunError::OutOfSteps) && st_after
            == st,
    }
}

/// Evaluation keeps the number of scopes in the chain.
pub proof fn lemma_eval_env_len(e: ExprV, env: EnvV)
    ensures
        match spec_eval(e, env) {
            EvalOutcome::Value { v: _, env: e2 } => e2.len() == env.len(),
            EvalOutcome::Undef { name: _, env: e2 } => e2.len() == env.len(),
        },
    decreases e,
{
    match e {
        ExprV::Lit(_) => {},
        ExprV::Var(_) => {},
        ExprV::Group(inner) => {
            lemma_eval_env_len(*inner, env);
        },
        ExprV::Assign { name, value } => {
            lemma_eval_env_len(*value, env);
            match spec_eval(*value, env) {
                EvalOutcome::Value { v, env: e1 } => {
                    lemma_env_assign_len(e1, name, v);
                },
                _ => {},
            }
        },
        ExprV::Unary { op: _, right, is_prefix: _ } => {
            lemma_eval_env_len(*right, env);
        },
        ExprV::Binary { left, op: _, right } => {
            lemma_eval_env_len(*left, env);
            match spec_eval(*left, env) {
                EvalOutcome::Value { v: _, env: e1 } => {
                    lemma_eval_env_len(*right, e1);
                },
                _ => {},
            }
        },
    }
}

/// Running a statement keeps the number of scopes in the chain.
pub proof fn lemma_exec_env_len(s: StmtV, st: StateV, fuel: nat)
    requires
        st.env.len() >= 1,
    ensures
        outcome_state(spec_exec_stmt(s, st, fuel)).env.len() == st.env.len(),
    decreases fuel, 1int,
{
    if fuel > 0 {
        let f = (fuel - 1) as nat;
        match s {
            StmtV::Expr(e) => {
                lemma_eval_env_len(e, st.env);
            },
            StmtV::Print(e) => {
                lemma_eval_env_len(e, st.env);
            },
            StmtV::VarDecl { name: _, value } => {
                lemma_eval_env_len(value, st.env);
            },
            StmtV::Program(ss) => {
                lemma_exec_seq_env_len(ss, st, f);
            },
            StmtV::Block(ss) => {
                let pushed = StateV { env: st.env.push(Map::empty()), out: st.out };
                lemma_exec_seq_env_len(ss, pushed, f);
                let o = spec_exec_seq(ss, pushed, f);
                assert(outcome_state(pop_outcome(o)) == pop_state(outcome_state(o)));
            },
            StmtV::While { condition, block } => {
                lemma_eval_env_len(condition, st.env);
                match spec_eval(condition, st.env) {
                    EvalOutcome::Value { v, env } => {
                        if v == LitV::Bool(true) {
                            lemma_exec_env_len(*block, StateV { env, out: st.out }, f);
                            match spec_exec_stmt(*block, StateV { env, out: st.out }, f) {
                                RunOutcome::Done(st2) => {
                                    lemma_exec_env_len(s, st2, f);
                                },
                                _ => {},
                            }
                        }
                    },
                    _ => {},
                }
            },
        }
    }
}

/// Running a statement sequence keeps the number of scopes in the chain.
pub proof fn lemma_exec_seq_env_len(ss: Seq<StmtV>, st: StateV, fuel: nat)
    requires
        st.env.len() >= 1,
    ensures
        outcome_state(spec_exec_seq(ss, st, fuel)).env.len() == st.env.len(),
    decreases fuel, 0int,
{
    if ss.len() > 0 && fuel > 0 {
        let f = (fuel - 1) as nat;
        lemma_exec_env_len(ss[0], st, f);
        match spec_exec_stmt(ss[0], st, f) {
            RunOutcome::Done(st1) => {
                lemma_exec_seq_env_len(ss.drop_first(), st1, f);
            },
            _ => {},
        }
    }
}

/// The views of the printed lines.
pub open spec fn out_view(lines: Seq<String>) -> Seq<Seq<char>> {
    lines.map_values(|s: String| s@)
}

/// Applies one binary operator to two values.
fn apply_binary(op: TokenType, a: Literal, b: Literal) -> (r: Literal)
    requires
        is_binary_op(op),
    ensures
        r@ == spec_apply_binary(op, a@, b@),
{
    match op {
        TokenType::StarStar => {
            let ghost av = a;
            let ghost bv = b;
            let r = a.pow(b);
            proof {
                assert(r == av.pow_result(bv));
                assert(r@ == spec_pow_value(av@, bv@));
            }
            r
        },
        TokenType::Star => a.mul(b),
        TokenType::Slash => a.div(b),
        TokenType::Plus => a.add(b),
        TokenType::Minus => a.sub(b),
        TokenType::Less => a.lt(b),
        TokenType::LessEqual => a.le(b),
        TokenType::Greater => a.gt(b),
        TokenType::GreaterEqual => a.ge(b),
        _ => a.eq_value(b),
    }
}

/// The interpreter: a scope chain and the lines printed so far, which the
/// host drains with `take_output`.
pub struct Interpreter {
    environment: Environment,
    output: Vec<String>,
}

impl View for Interpreter {
    type V = StateV;

    closed spec fn view(&self) -> StateV {
        StateV { env: self.environment@, out: out_view(self.output@) }
    }
}

impl Interpreter {
    /// A fresh interpreter: one empty root scope and no output.
    pub fn new() -> (r: Self)
        ensures
            r@.env =~= seq![Map::<Seq<char>, LitV>::empty()],
            r@.out =~= Seq::<Seq<char>>::empty(),
    {
        Interpreter { environment: Environment::new(), output: Vec::new() }
    }

    /// Removes and returns the lines printed so far.
    pub fn take_output(&mut self) -> (r: Vec<String>)
        ensures
            out_view(r@) == old(self)@.out,
            final(self)@.out =~= Seq::<Seq<char>>::empty(),
            final(self)@.env == old(self)@.env,
    {
        let mut taken: Vec<String> = Vec::new();
        core::mem::swap(&mut self.output, &mut taken);
        proof {
            assert(out_view(Seq::<String>::empty()) =~= Seq::<Seq<char>>::empty());
        }
        taken
    }

    /// Evaluates one expression, mutating the scope chain through any
    /// assignments; the printed lines do not change.
    pub fn evaluate(&mut self, expression: &Expression) -> (r: Result<Literal, RunError>)
        requires
            wf_expr(expression@),
        ensures
            final(self)@.out == old(self)@.out,
            eval_matches(spec_eval(expression@, old(self)@.env), r, final(self)@.env),
        decreases expression,
    {
        match expression {
            Expression::Literal(l) => Ok(l.clone()),
            Expression::Variable(name) => match self.environment.access(name) {
                Some(v) => Ok(v),
                None => Ok(Literal::Nil),
            },
            Expression::Grouping { expression: inner } => self.evaluate(inner),
            Expression::Assignment { name, value } => {
                let v = self.evaluate(value)?;
                match self.environment.assign(name, v) {
                    Some(result) => Ok(result),
                    None => Err(RunError::UndefinedVariable(name.clone())),
                }
            },
            Expression::Unary { operator, right, is_prefix } => {
                let rv = self.evaluate(right)?;
                if *is_prefix {
                    if operator.kind == TokenType::Bang {
                        Ok(rv.not())
                    } else {
                        Ok(rv.neg())
                    }
                } else {
                    let ghost rvv = rv;
                    let result = rv.fac();
                    proof {
                        assert(result == rvv.fac_result());
                        assert(result@ == spec_fac_value(rvv@));
                    }
                    Ok(result)
                }
            },
            Expression::Binary { left, operator, right } => {
                let lv = self.evaluate(left)?;
                let rv = self.evaluate(right)?;
                Ok(apply_binary(operator.kind, lv, rv))
            },
        }
    }

    /// Runs one statement under a step budget.
    pub fn execute(&mut self, statement: &Statement, fuel: u64) -> (r: Result<(), RunError>)
        requires
            wf_stmt(statement@),
        ensures
            run_matches(spec_exec_stmt(statement@, old(self)@, fuel as nat), r, final(self)@),
        decreases fuel, 1int,
    {
        if fuel == 0 {
            return Err(RunError::OutOfSteps);
        }
        let f = fuel - 1;
        match statement {
            Statement::Expression { expression } => {
                let _ = self.evaluate(expression)?;
                Ok(())
            },
            Statement::Print { expression } => {
                let v = self.evaluate(expression)?;
                let line = v.to_text();
                let ghost mid = self@;
                self.output.push(line);
                proof {
                    assert(self@.out =~= mid.out.push(line@));
                }
                Ok(())
            },
            Statement::VariableDeclaration { name, value } => {
                let v = self.evaluate(value)?;
                self.environment.define(name.clone(), v);
                Ok(())
            },
            Statement::Program { statements } => self.execute_sequence(statements, f),
            Statement::Block { statements } => {
                self.environment.push_scope();
                let ghost pushed = self@;
                let r = self.execute_sequence(statements, f);
                proof {
                    lemma_exec_seq_env_len(stmts_view(statements@), pushed, f as nat);
                    let o = spec_exec_seq(stmts_view(statements@), pushed, f as nat);
                    assert(self@ == outcome_state(o));
                    assert(self@.env.len() == pushed.env.len());
                }
                self.environment.pop_scope();
                proof {
                    let o = spec_exec_seq(stmts_view(statements@), pushed, f as nat);
                    assert(self@ == pop_state(outcome_state(o)));
                    assert(outcome_state(pop_outcome(o)) == pop_state(outcome_state(o)));
                }
                r
            },
            Statement::While { condition, block } => {
                let ghost sv = stmt_view_of(statement);
                let ghost st0 = old(self)@;
                let mut budget: u64 = fuel;
                loop
                    invariant
                        wf_expr(expr_view_of(condition)),
                        wf_stmt(block_view_of(block)),
                        sv == (StmtV::While {
                            condition: expr_view_of(condition),
                            block: Box::new(block_view_of(block)),
                        }),
                        old(self)@ == st0,
                        stmt_view_of(statement) == sv,
                        budget <= fuel,
                        spec_exec_stmt(sv, st0, fuel as nat) == spec_exec_stmt(
                            sv,
                            self@,
                            budget as nat,
                        ),
                    decreases budget,
                {
                    if budget == 0 {
                        return Err(RunError::OutOfSteps);
                    }
                    let cond_val = match self.evaluate(condition) {
                        Ok(v) => v,
                        Err(e) => {
                            return Err(e);
                        },
                    };
                    let is_true = match &cond_val {
                        Literal::Boolean(b) => *b,
                        _ => false,
                    };
                    if !is_true {
                        return Ok(());
                    }
                    budget = budget - 1;
                    self.execute(block, budget)?;
                }
            },
        }
    }

    /// Runs a sequence of statements in order under a step budget.
    fn execute_sequence(&mut self, statements: &Vec<Statement>, fuel: u64) -> (r: Result<
        (),
        RunError,
    >)
        requires
            wf_stmts(stmts_view(statements@)),
        ensures
            run_matches(
                spec_exec_seq(stmts_view(statements@), old(self)@, fuel as nat),
                r,
                final(self)@,
            ),
        decreases fuel, 0int,
    {
        let ghost ss = stmts_view(statements@);
        let ghost st0 = old(self)@;
        let mut i: usize = 0;
        let mut budget: u64 = fuel;
        proof {
            lemma_stmts_view_len(statements@);
            assert(ss.skip(0) =~= ss);
        }
        while i < statements.len()
            invariant
                i <= statements.len(),
                ss == stmts_view(statements@),
                ss.len() == statements@.len(),
                wf_stmts(ss),
                old(self)@ == st0,
                budget <= fuel,
                spec_exec_seq(ss, st0, fuel as nat) == spec_exec_seq(
                    ss.skip(i as int),
                    self@,
                    budget as nat,
                ),
            decreases statements.len() - i,
        {
            if budget == 0 {
                return Err(RunError::OutOfSteps);
            }
            budget = budget - 1;
            proof {
                lemma_stmts_view_index(statements@, i as int);
                lemma_wf_stmts_index(ss, i as int);
                assert(ss.skip(i as int)[0] == ss[i as int]);
            }
            let r = self.execute(&statements[i], budget);
            match r {
                Ok(()) => {},
                Err(e) => {
                    return Err(e);
                },
            }
            proof {
                assert(ss.skip(i as int).drop_first() =~= ss.skip(i + 1));
            }
            i = i + 1;
        }
        proof {
            assert(ss.skip(statements@.len() as int) =~= Seq::<StmtV>::empty());
        }
        Ok(())
    }

    /// Runs one statement tree: the entry point for a parsed program.
    pub fn interpret(&mut self, statement: Statement, fuel: u64) -> (r: Result<(), RunError>)
        requires
            wf_stmt(statement@),
        ensures
            run_matches(spec_exec_stmt(statement@, old(self)@, fuel as nat), r, final(self)@),
    {
        self.execute(&statement, fuel)
    }

    /// Scans, parses and runs one source text under a step budget: the whole
    /// pipeline, each stage's error reported as its own kind.
    pub fn run(&mut self, source: String, fuel: u64) -> (r: Result<(), PipelineError>)
        ensures
            match spec_scan(source@, 0) {
                Err(se) => r == Err::<(), _>(PipelineError::Scan(se)) && final(self)@ == old(
                    self,
                )@,
                Ok(toks) => match sp_stmt_seq(toks, 0, TokenType::End) {
                    Err(pe) => r == Err::<(), _>(PipelineError::Parse(pe)) && final(self)@
                        == old(self)@,
                    Ok((ss, _)) => match spec_exec_stmt(
                        StmtV::Program(ss),
                        old(self)@,
                        fuel as nat,
                    ) {
                        RunOutcome::Done(st) => r is Ok && final(self)@ == st,
                        RunOutcome::Fault { name, state } => (r matches Err(
                            PipelineError::Runtime(RunError::UndefinedVariable(s)),
                        ) && s@ == name) && final(self)@ == state,
                        RunOutcome::Stopped(st) => (r matches Err(e) && e
                            == PipelineError::Runtime(RunError::OutOfSteps)) && final(self)@
                            == st,
                    },
                },
            },
    {
        let ghost src = source@;
        let mut scanner = Scanner::new(source);
        let tokens = match scanner.scan() {
            Ok(t) => t,
            Err(e) => {
                return Err(PipelineError::Scan(e));
            },
        };
        proof {
            lemma_spec_scan_ends(src, 0);
        }
        let mut parser = Parser::new(tokens);
        let program = match parser.parse() {
            Ok(p) => p,
            Err(e) => {
                return Err(PipelineError::Parse(e));
            },
        };
        match self.interpret(program, fuel) {
            Ok(()) => Ok(()),
            Err(e) => Err(PipelineError::Runtime(e)),
        }
    }

    /// Scans and parses one expression from the source text and evaluates
    /// it, returning the value for the caller to render; input after the
    /// first expression is ignored. Nothing is printed, so the output lines
    /// do not change.
    pub fn run_expression(&mut self, source: String) -> (r: Result<Literal, PipelineError>)
        ensures
            final(self)@.out == old(self)@.out,
            match spec_scan(source@, 0) {
                Err(se) => r == Err::<Literal, _>(PipelineError::Scan(se)) && final(self)@
                    == old(self)@,
                Ok(toks) => match crate::parser::sp_expression(toks, 0) {
                    Err(pe) => r == Err::<Literal, _>(PipelineError::Parse(pe))
                        && final(self)@ == old(self)@,
                    Ok((e, _)) => match spec_eval(e, old(self)@.env) {
                        EvalOutcome::Value { v, env } => (r matches Ok(l) && l@ == v)
                            && final(self)@.env == env,
                        EvalOutcome::Undef { name, env } => (r matches Err(
                            PipelineError::Runtime(RunError::UndefinedVariable(s)),
                        ) && s@ == name) && final(self)@.env == env,
                    },
                },
            },
    {
        let ghost src = source@;
        let mut scanner = Scanner::new(source);
        let tokens = match scanner.scan() {
            Ok(t) => t,
            Err(e) => {
                return Err(PipelineError::Scan(e));
            },
        };
        proof {
            lemma_spec_scan_ends(src, 0);
        }
        let mut parser = Parser::new(tokens);
        let expression = match parser.expression() {
            Ok(e) => e,
            Err(e) => {
                return Err(PipelineError::Parse(e));
            },
        };
        match self.evaluate(&expression) {
            Ok(v) => Ok(v),
            Err(RunError::UndefinedVariable(name)) => {
                Err(PipelineError::Runtime(RunError::UndefinedVariable(name)))
            },
            Err(RunError::OutOfSteps) => {
                proof {
                    assert(false);
                }
                Err(PipelineError::Runtime(RunError::OutOfSteps))
            },
        }
    }
}

/// The view of a statement reference, named so the `while` loop's invariant
/// can speak of its match bindings.
spec fn stmt_view_of(s: &Statement) -> StmtV {
    s@
}

/// The view of an expression reference.
spec fn expr_view_of(e: &Expression) -> ExprV {
    e@
}

/// The view of a boxed statement.
spec fn block_view_of(s: &Box<Statement>) -> StmtV {
    (**s)@
}

} // verus!
