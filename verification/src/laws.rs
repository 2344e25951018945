//! Laws of the language, stated against the specification-level scanner,
//! grammar and semantics and proved once and for all.

use vstd::prelude::*;

use crate::environment::env_assign;
use crate::environment::env_lookup;
use crate::environment::EnvV;
use crate::expression::ExprV;
use crate::interpreter::spec_exec_seq;
use crate::interpreter::spec_exec_stmt;
use crate::interpreter::spec_eval;
use crate::interpreter::EvalOutcome;
use crate::interpreter::RunOutcome;
use crate::interpreter::StateV;
use crate::literal::in_i64;
use crate::literal::spec_add;
use crate::literal::spec_div;
use crate::literal::spec_fac_value;
use crate::literal::spec_lit_text;
use crate::literal::spec_pow_value;
use crate::literal::spec_sub;
use crate::literal::LitV;
use crate::parser::sp_expression;
use crate::parser::sp_exponent;
use crate::parser::sp_factor;
use crate::parser::sp_primary;
use crate::parser::sp_term;
use crate::parser::sp_unary;
use crate::parser::ParseError;
use crate::scanner::digits_end;
use crate::scanner::punct;
use crate::scanner::spec_scan;
use crate::scanner::spec_scan_token;
use crate::scanner::ScanError;
use crate::statement::StmtV;
use crate::text::digits_value;
use crate::text::is_digit;
use crate::text::lemma_digits_roundtrip;
use crate::text::spec_digits;
use crate::text::spec_num_text;
use crate::token::TokenV;
use crate::token_type::TokenType;

verus! {

/// The token sequence of a binary chain `a OP b OP c` over number literals.
pub open spec fn chain_tokens(a: int, b: int, c: int, op: TokenType) -> Seq<TokenV> {
    seq![
        TokenV { kind: TokenType::Number, literal: LitV::Num(a) },
        punct(op),
        TokenV { kind: TokenType::Number, literal: LitV::Num(b) },
        punct(op),
        TokenV { kind: TokenType::Number, literal: LitV::Num(c) },
        punct(TokenType::End),
    ]
}

/// The parser groups `a - b - c` as `a - (b - c)`: the term chain is
/// right-associative, and the chain evaluates accordingly, so on numbers
/// whose differences stay in range it means `a - (b - c)`, never
/// `(a - b) - c`.
pub proof fn lemma_term_right_associative(a: int, b: int, c: int, env: EnvV)
    ensures
        sp_expression(chain_tokens(a, b, c, TokenType::Minus), 0) == Ok::<
            (ExprV, int),
            crate::parser::ParseError,
        >(
            (
                ExprV::Binary {
                    left: Box::new(ExprV::Lit(LitV::Num(a))),
                    op: TokenType::Minus,
                    right: Box::new(
                        ExprV::Binary {
                            left: Box::new(ExprV::Lit(LitV::Num(b))),
                            op: TokenType::Minus,
                            right: Box::new(ExprV::Lit(LitV::Num(c))),
                        },
                    ),
                },
                5,
            ),
        ),
        in_i64(b - c) && in_i64(a - (b - c)) ==> spec_eval(
            sp_expression(chain_tokens(a, b, c, TokenType::Minus), 0)->Ok_0.0,
            env,
        ) == (EvalOutcome::Value { v: LitV::Num(a - (b - c)), env }),
{
    let toks = chain_tokens(a, b, c, TokenType::Minus);
    let la = ExprV::Lit(LitV::Num(a));
    let lb = ExprV::Lit(LitV::Num(b));
    let lc = ExprV::Lit(LitV::Num(c));
    let inner = ExprV::Binary {
        left: Box::new(lb),
        op: TokenType::Minus,
        right: Box::new(lc),
    };
    let e = ExprV::Binary { left: Box::new(la), op: TokenType::Minus, right: Box::new(inner) };
    assert(toks.len() == 6);
    assert(toks[0] == TokenV { kind: TokenType::Number, literal: LitV::Num(a) });
    assert(toks[1] == punct(TokenType::Minus));
    assert(toks[2] == TokenV { kind: TokenType::Number, literal: LitV::Num(b) });
    assert(toks[3] == punct(TokenType::Minus));
    assert(toks[4] == TokenV { kind: TokenType::Number, literal: LitV::Num(c) });
    assert(toks[5] == punct(TokenType::End));
    assert(sp_primary(toks, 4) == Ok::<(ExprV, int), ParseError>((lc, 5)));
    assert(sp_unary(toks, 4) == Ok::<(ExprV, int), ParseError>((lc, 5)));
    assert(sp_exponent(toks, 4) == Ok::<(ExprV, int), ParseError>((lc, 5)));
    assert(sp_factor(toks, 4) == Ok::<(ExprV, int), ParseError>((lc, 5)));
    assert(sp_term(toks, 4) == Ok::<(ExprV, int), ParseError>((lc, 5)));
    assert(sp_primary(toks, 2) == Ok::<(ExprV, int), ParseError>((lb, 3)));
    assert(sp_unary(toks, 2) == Ok::<(ExprV, int), ParseError>((lb, 3)));
    assert(sp_exponent(toks, 2) == Ok::<(ExprV, int), ParseError>((lb, 3)));
    assert(sp_factor(toks, 2) == Ok::<(ExprV, int), ParseError>((lb, 3)));
    assert(sp_term(toks, 2) == Ok::<(ExprV, int), ParseError>((inner, 5)));
    assert(sp_primary(toks, 0) == Ok::<(ExprV, int), ParseError>((la, 1)));
    assert(sp_unary(toks, 0) == Ok::<(ExprV, int), ParseError>((la, 1)));
    assert(sp_exponent(toks, 0) == Ok::<(ExprV, int), ParseError>((la, 1)));
    assert(sp_factor(toks, 0) == Ok::<(ExprV, int), ParseError>((la, 1)));
    assert(sp_term(toks, 0) == Ok::<(ExprV, int), ParseError>((e, 5)));
    assert(sp_expression(toks, 0) == Ok::<(ExprV, int), ParseError>((e, 5)));
    assert(spec_eval(la, env) == (EvalOutcome::Value { v: LitV::Num(a), env }));
    assert(spec_eval(lb, env) == (EvalOutcome::Value { v: LitV::Num(b), env }));
    assert(spec_eval(lc, env) == (EvalOutcome::Value { v: LitV::Num(c), env }));
    assert(spec_eval(inner, env) == (EvalOutcome::Value {
        v: spec_sub(LitV::Num(b), LitV::Num(c)),
        env,
    }));
    assert(spec_eval(e, env) == (EvalOutcome::Value {
        v: spec_sub(LitV::Num(a), spec_sub(LitV::Num(b), LitV::Num(c))),
        env,
    }));
    if in_i64(b - c) && in_i64(a - (b - c)) {
        assert(spec_sub(LitV::Num(b), LitV::Num(c)) == LitV::Num(b - c));
        assert(spec_eval(e, env) == (EvalOutcome::Value { v: LitV::Num(a - (b - c)), env }));
    }
}

/// The parser groups `a ** b ** c` as `a ** (b ** c)`: exponentiation is
/// right-associative, and the chain evaluates accordingly.
pub proof fn lemma_exponent_right_associative(a: int, b: int, c: int, env: EnvV)
    ensures
        sp_expression(chain_tokens(a, b, c, TokenType::StarStar), 0) == Ok::<
            (ExprV, int),
            crate::parser::ParseError,
        >(
            (
                ExprV::Binary {
                    left: Box::new(ExprV::Lit(LitV::Num(a))),
                    op: TokenType::StarStar,
                    right: Box::new(
                        ExprV::Binary {
                            left: Box::new(ExprV::Lit(LitV::Num(b))),
                            op: TokenType::StarStar,
                            right: Box::new(ExprV::Lit(LitV::Num(c))),
                        },
                    ),
                },
                5,
            ),
        ),
        spec_eval(sp_expression(chain_tokens(a, b, c, TokenType::StarStar), 0)->Ok_0.0, env)
            == (EvalOutcome::Value {
            v: spec_pow_value(LitV::Num(a), spec_pow_value(LitV::Num(b), LitV::Num(c))),
            env,
        }),
{
    let toks = chain_tokens(a, b, c, TokenType::StarStar);
    let la = ExprV::Lit(LitV::Num(a));
    let lb = ExprV::Lit(LitV::Num(b));
    let lc = ExprV::Lit(LitV::Num(c));
    let inner = ExprV::Binary {
        left: Box::new(lb),
        op: TokenType::StarStar,
        right: Box::new(lc),
    };
    let e = ExprV::Binary {
        left: Box::new(la),
        op: TokenType::StarStar,
        right: Box::new(inner),
    };
    assert(toks.len() == 6);
    assert(toks[0] == TokenV { kind: TokenType::Number, literal: LitV::Num(a) });
    assert(toks[1] == punct(TokenType::StarStar));
    assert(toks[2] == TokenV { kind: TokenType::Number, literal: LitV::Num(b) });
    assert(toks[3] == punct(TokenType::StarStar));
    assert(toks[4] == TokenV { kind: TokenType::Number, literal: LitV::Num(c) });
    assert(toks[5] == punct(TokenType::End));
    assert(sp_primary(toks, 4) == Ok::<(ExprV, int), ParseError>((lc, 5)));
    assert(sp_unary(toks, 4) == Ok::<(ExprV, int), ParseError>((lc, 5)));
    assert(sp_exponent(toks, 4) == Ok::<(ExprV, int), ParseError>((lc, 5)));
    assert(sp_primary(toks, 2) == Ok::<(ExprV, int), ParseError>((lb, 3)));
    assert(sp_unary(toks, 2) == Ok::<(ExprV, int), ParseError>((lb, 3)));
    assert(sp_exponent(toks, 2) == Ok::<(ExprV, int), ParseError>((inner, 5)));
    assert(sp_primary(toks, 0) == Ok::<(ExprV, int), ParseError>((la, 1)));
    assert(sp_unary(toks, 0) == Ok::<(ExprV, int), ParseError>((la, 1)));
    assert(sp_exponent(toks, 0) == Ok::<(ExprV, int), ParseError>((e, 5)));
    assert(sp_factor(toks, 0) == Ok::<(ExprV, int), ParseError>((e, 5)));
    assert(sp_term(toks, 0) == Ok::<(ExprV, int), ParseError>((e, 5)));
    assert(sp_expression(toks, 0) == Ok::<(ExprV, int), ParseError>((e, 5)));
    assert(spec_eval(la, env) == (EvalOutcome::Value { v: LitV::Num(a), env }));
    assert(spec_eval(lb, env) == (EvalOutcome::Value { v: LitV::Num(b), env }));
    assert(spec_eval(lc, env) == (EvalOutcome::Value { v: LitV::Num(c), env }));
    assert(spec_eval(inner, env) == (EvalOutcome::Value {
        v: spec_pow_value(LitV::Num(b), LitV::Num(c)),
        env,
    }));
    assert(spec_eval(e, env) == (EvalOutcome::Value {
        v: spec_pow_value(LitV::Num(a), spec_pow_value(LitV::Num(b), LitV::Num(c))),
        env,
    }));
}

/// The token sequence of `a + b * c` over number literals.
pub open spec fn mixed_tokens(a: int, b: int, c: int) -> Seq<TokenV> {
    seq![
        TokenV { kind: TokenType::Number, literal: LitV::Num(a) },
        punct(TokenType::Plus),
        TokenV { kind: TokenType::Number, literal: LitV::Num(b) },
        punct(TokenType::Star),
        TokenV { kind: TokenType::Number, literal: LitV::Num(c) },
        punct(TokenType::End),
    ]
}

/// The parser respects the precedence chain: in `a + b * c` the factor binds
/// tighter than the term, so the chain parses as `a + (b * c)` and evaluates
/// accordingly.
pub proof fn lemma_factor_binds_tighter_than_term(a: int, b: int, c: int, env: EnvV)
    ensures
        sp_expression(mixed_tokens(a, b, c), 0) == Ok::<(ExprV, int), ParseError>(
            (
                ExprV::Binary {
                    left: Box::new(ExprV::Lit(LitV::Num(a))),
                    op: TokenType::Plus,
                    right: Box::new(
                        ExprV::Binary {
                            left: Box::new(ExprV::Lit(LitV::Num(b))),
                            op: TokenType::Star,
                            right: Box::new(ExprV::Lit(LitV::Num(c))),
                        },
                    ),
                },
                5,
            ),
        ),
        spec_eval(sp_expression(mixed_tokens(a, b, c), 0)->Ok_0.0, env) == (EvalOutcome::Value {
            v: crate::literal::spec_add(
                LitV::Num(a),
                crate::literal::spec_mul(LitV::Num(b), LitV::Num(c)),
            ),
            env,
        }),
{
    let toks = mixed_tokens(a, b, c);
    let la = ExprV::Lit(LitV::Num(a));
    let lb = ExprV::Lit(LitV::Num(b));
    let lc = ExprV::Lit(LitV::Num(c));
    let inner = ExprV::Binary { left: Box::new(lb), op: TokenType::Star, right: Box::new(lc) };
    let e = ExprV::Binary { left: Box::new(la), op: TokenType::Plus, right: Box::new(inner) };
    assert(toks.len() == 6);
    assert(toks[0] == TokenV { kind: TokenType::Number, literal: LitV::Num(a) });
    assert(toks[1] == punct(TokenType::Plus));
    assert(toks[2] == TokenV { kind: TokenType::Number, literal: LitV::Num(b) });
    assert(toks[3] == punct(TokenType::Star));
    assert(toks[4] == TokenV { kind: TokenType::Number, literal: LitV::Num(c) });
    assert(toks[5] == punct(TokenType::End));
    assert(sp_primary(toks, 4) == Ok::<(ExprV, int), ParseError>((lc, 5)));
    assert(sp_unary(toks, 4) == Ok::<(ExprV, int), ParseError>((lc, 5)));
    assert(sp_exponent(toks, 4) == Ok::<(ExprV, int), ParseError>((lc, 5)));
    assert(sp_factor(toks, 4) == Ok::<(ExprV, int), ParseError>((lc, 5)));
    assert(sp_primary(toks, 2) == Ok::<(ExprV, int), ParseError>((lb, 3)));
    assert(sp_unary(toks, 2) == Ok::<(ExprV, int), ParseError>((lb, 3)));
    assert(sp_exponent(toks, 2) == Ok::<(ExprV, int), ParseError>((lb, 3)));
    assert(sp_factor(toks, 2) == Ok::<(ExprV, int), ParseError>((inner, 5)));
    assert(sp_term(toks, 2) == Ok::<(ExprV, int), ParseError>((inner, 5)));
    assert(sp_primary(toks, 0) == Ok::<(ExprV, int), ParseError>((la, 1)));
    assert(sp_unary(toks, 0) == Ok::<(ExprV, int), ParseError>((la, 1)));
    assert(sp_exponent(toks, 0) == Ok::<(ExprV, int), ParseError>((la, 1)));
    assert(sp_factor(toks, 0) == Ok::<(ExprV, int), ParseError>((la, 1)));
    assert(sp_term(toks, 0) == Ok::<(ExprV, int), ParseError>((e, 5)));
    assert(sp_expression(toks, 0) == Ok::<(ExprV, int), ParseError>((e, 5)));
    assert(spec_eval(la, env) == (EvalOutcome::Value { v: LitV::Num(a), env }));
    assert(spec_eval(lb, env) == (EvalOutcome::Value { v: LitV::Num(b), env }));
    assert(spec_eval(lc, env) == (EvalOutcome::Value { v: LitV::Num(c), env }));
    assert(spec_eval(inner, env) == (EvalOutcome::Value {
        v: crate::literal::spec_mul(LitV::Num(b), LitV::Num(c)),
        env,
    }));
}

/// The factorial of any number below one is zero.
pub proof fn lemma_factorial_below_one(n: int)
    requires
        n < 1,
    ensures
        spec_fac_value(LitV::Num(n)) == LitV::Num(0),
{
}

/// `+` between a string and a number concatenates, promoting the number to
/// its decimal text, on either side.
pub proof fn lemma_concat_promotes_numbers(s: Seq<char>, n: int)
    ensures
        spec_add(LitV::Str(s), LitV::Num(n)) == LitV::Str(s + spec_num_text(n)),
        spec_add(LitV::Num(n), LitV::Str(s)) == LitV::Str(spec_num_text(n) + s),
{
}

/// Division of any number by zero yields `Nil`, never a failure.
pub proof fn lemma_division_by_zero(a: int)
    ensures
        spec_div(LitV::Num(a), LitV::Num(0)) == LitV::Nil,
{
}

/// A block that only declares a variable leaves the surrounding state
/// exactly as it was: the inner binding shadows and does not leak out.
pub proof fn lemma_block_scope_restored(name: Seq<char>, v: LitV, st: StateV, fuel: nat)
    requires
        fuel >= 3,
    ensures
        spec_exec_stmt(
            StmtV::Block(seq![StmtV::VarDecl { name, value: ExprV::Lit(v) }]),
            st,
            fuel,
        ) == RunOutcome::Done(st),
{
    let ss = seq![StmtV::VarDecl { name, value: ExprV::Lit(v) }];
    let pushed = StateV { env: st.env.push(Map::empty()), out: st.out };
    let defined = StateV {
        env: crate::environment::env_define(pushed.env, name, v),
        out: st.out,
    };
    assert(ss[0] == StmtV::VarDecl { name, value: ExprV::Lit(v) });
    assert(spec_eval(ExprV::Lit(v), pushed.env) == (EvalOutcome::Value { v, env: pushed.env }));
    assert(spec_exec_stmt(ss[0], pushed, (fuel - 2) as nat) == RunOutcome::Done(defined));
    assert(ss.drop_first() =~= Seq::<StmtV>::empty());
    assert(spec_exec_seq(ss.drop_first(), defined, (fuel - 2) as nat) == RunOutcome::Done(
        defined,
    ));
    assert(spec_exec_seq(ss, pushed, (fuel - 1) as nat) == RunOutcome::Done(defined));
    assert(spec_exec_stmt(
        StmtV::Block(ss),
        st,
        fuel,
    ) == crate::interpreter::pop_outcome(RunOutcome::Done(defined)));
    assert(defined.env.drop_last() =~= st.env);
    assert((StateV { env: defined.env.drop_last(), out: st.out }) == st);
}

/// A name that no scope in the chain binds reads as `None` rather than
/// failing.
pub proof fn lemma_read_undeclared(name: Seq<char>, env: EnvV)
    requires
        env_lookup(env, name) is None,
    ensures
        spec_eval(ExprV::Var(name), env) == (EvalOutcome::Value { v: LitV::Nil, env }),
{
}

/// No scope binds a name whose lookup fails, so assigning to it is fatal:
/// the very same names are readable and assignable.
pub proof fn lemma_assign_iff_declared(name: Seq<char>, v: LitV, env: EnvV)
    ensures
        (env_lookup(env, name) is Some) == (env_assign(env, name, v) is Some),
    decreases env.len(),
{
    if env.len() > 0 && !env.last().contains_key(name) {
        lemma_assign_iff_declared(name, v, env.drop_last());
    }
}

/// Assigning to an undeclared name is fatal: it stops evaluation with the
/// name, leaving the environment as it was.
pub proof fn lemma_assign_undeclared(name: Seq<char>, v: LitV, env: EnvV)
    requires
        env_lookup(env, name) is None,
    ensures
        spec_eval(ExprV::Assign { name, value: Box::new(ExprV::Lit(v)) }, env)
            == (EvalOutcome::Undef { name, env }),
{
    lemma_assign_iff_declared(name, v, env);
    assert(env_assign(env, name, v) is None);
    assert(spec_eval(ExprV::Lit(v), env) == (EvalOutcome::Value { v, env }));
}

/// A `while` whose condition evaluates to anything but `Boolean(true)` —
/// `Boolean(false)` or a non-boolean value alike — ends without running the
/// body.
pub proof fn lemma_while_ends_without_body(
    condition: ExprV,
    block: StmtV,
    st: StateV,
    fuel: nat,
    v: LitV,
    env1: EnvV,
)
    requires
        fuel >= 1,
        spec_eval(condition, st.env) == (EvalOutcome::Value { v, env: env1 }),
        v != LitV::Bool(true),
    ensures
        spec_exec_stmt(StmtV::While { condition, block: Box::new(block) }, st, fuel)
            == RunOutcome::Done(StateV { env: env1, out: st.out }),
{
}

/// Every position in a number's digit text holds a digit up to its end.
proof fn lemma_digits_end_all(s: Seq<char>, pos: int)
    requires
        0 <= pos <= s.len(),
        forall|j: int| 0 <= j < s.len() ==> is_digit(#[trigger] s[j]),
    ensures
        digits_end(s, pos) == s.len(),
    decreases s.len() - pos,
{
    if pos < s.len() {
        lemma_digits_end_all(s, pos + 1);
    }
}

/// Round trip for numbers: scanning the canonical text of a number in range
/// yields exactly one number token carrying that number, and printing the
/// number reproduces the same text.
pub proof fn lemma_number_text_roundtrip(n: int)
    requires
        0 <= n <= i64::MAX,
    ensures
        spec_scan(spec_num_text(n), 0) == Ok::<_, ScanError>(
            seq![
                TokenV { kind: TokenType::Number, literal: LitV::Num(n) },
                punct(TokenType::End),
            ],
        ),
        spec_lit_text(LitV::Num(n)) == spec_num_text(n),
{
    let s = spec_num_text(n);
    lemma_digits_roundtrip(n as nat);
    assert(s == spec_digits(n as nat));
    lemma_digits_end_all(s, 0);
    assert(is_digit(s[0]));
    assert(!crate::text::is_space(s[0]));
    let end = digits_end(s, 0);
    assert(end == s.len());
    assert(s.subrange(0, end) =~= s);
    assert(digits_value(s) == n);
    assert(spec_scan_token(s, 0) == Ok::<_, ScanError>(
        (
            Some(TokenV { kind: TokenType::Number, literal: LitV::Num(n) }),
            s.len() as int,
        ),
    ));
    assert(spec_scan(s, s.len() as int) == Ok::<_, ScanError>(seq![punct(TokenType::End)]));
    assert(seq![TokenV { kind: TokenType::Number, literal: LitV::Num(n) }] + seq![
        punct(TokenType::End),
    ] =~= seq![
        TokenV { kind: TokenType::Number, literal: LitV::Num(n) },
        punct(TokenType::End),
    ]);
}

} // verus!

