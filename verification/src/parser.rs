//! The parser: recursive descent from tokens to an abstract syntax tree.
//!
//! The grammar, lowest precedence first: assignment, then `+ -`, `* /`,
//! `**`, unary operators, and primaries. The binary levels are all
//! right-associative by construction: each recurses into itself on its right
//! operand. `sp_statement` and the functions it reaches are the mathematical
//! grammar; each executable rule is proved to return exactly its result.

use vstd::prelude::*;

use crate::expression::is_binary_op;
use crate::expression::wf_expr;
use crate::expression::ExprV;
use crate::expression::Expression;
use crate::literal::LitV;
use crate::literal::Literal;
use crate::scanner::punct;
use crate::scanner::tokens_view;
use crate::statement::wf_stmt;
use crate::statement::wf_stmts;
use crate::statement::stmts_view;
use crate::statement::StmtV;
use crate::statement::Statement;
use crate::token::Token;
use crate::token::TokenV;
use crate::token_type::TokenType;

verus! {

broadcast use vstd::std_specs::vec::group_vec_axioms;

/// A condition fatal to the whole parse, each tied to the token that was
/// required.
#[derive(Clone, Copy, Debug, PartialEq, Eq)]
pub enum ParseError {
    /// A simple statement misses its closing `;`.
    ExpectedSemicolon,
    /// `var` is not followed by an identifier.
    ExpectedIdentifier,
    /// A variable declaration misses its `=`.
    ExpectedEqual,
    /// `while` is not followed by a parenthesized condition.
    ExpectedLeftParen,
    /// A parenthesized expression or condition misses its `)`.
    ExpectedRightParen,
    /// A `while` body is not a braced block.
    ExpectedBlock,
    /// A block is still open at the end of the input.
    ExpectedRightBrace,
    /// An identifier token whose payload is not a name.
    BadVariableName,
    /// A token no expression can start with.
    UnexpectedToken,
}

/// The token at a position, or the `End` token beyond the input.
pub open spec fn spec_peek(toks: Seq<TokenV>, pos: int) -> TokenV {
    if 0 <= pos < toks.len() {
        toks[pos]
    } else {
        punct(TokenType::End)
    }
}

/// How many tokens remain at `pos`; the parse rules' termination measure.
pub open spec fn rem(toks: Seq<TokenV>, pos: int) -> int {
    if pos <= toks.len() {
        toks.len() - pos
    } else {
        0
    }
}

/// A primary: a literal, an identifier, or a parenthesized expression.
pub open spec fn sp_primary(toks: Seq<TokenV>, pos: int) -> Result<(ExprV, int), ParseError>
    decreases rem(toks, pos), 1int,
{
    let t = spec_peek(toks, pos);
    if t.kind == TokenType::True {
        Ok((ExprV::Lit(LitV::Bool(true)), pos + 1))
    } else if t.kind == TokenType::False {
        Ok((ExprV::Lit(LitV::Bool(false)), pos + 1))
    } else if t.kind == TokenType::Number || t.kind == TokenType::Str {
        Ok((ExprV::Lit(t.literal), pos + 1))
    } else if t.kind == TokenType::Identifier {
        match t.literal {
            LitV::Str(name) => Ok((ExprV::Var(name), pos + 1)),
            _ => Err(ParseError::BadVariableName),
        }
    } else if t.kind == TokenType::LeftParen {
        match sp_expression(toks, pos + 1) {
            Ok((e, p2)) => if spec_peek(toks, p2).kind == TokenType::RightParen {
                Ok((ExprV::Group(Box::new(e)), p2 + 1))
            } else {
                Err(ParseError::ExpectedRightParen)
            },
            Err(e) => Err(e),
        }
    } else {
        Err(ParseError::UnexpectedToken)
    }
}

/// A unary expression: prefix `!` or `-`, or a primary with an optional
/// postfix factorial `!`.
pub open spec fn sp_unary(toks: Seq<TokenV>, pos: int) -> Result<(ExprV, int), ParseError>
    decreases rem(toks, pos), 2int,
{
    let t = spec_peek(toks, pos);
    if t.kind == TokenType::Bang || t.kind == TokenType::Minus {
        match sp_unary(toks, pos + 1) {
            Ok((r, p2)) => Ok(
                (ExprV::Unary { op: t.kind, right: Box::new(r), is_prefix: true }, p2),
            ),
            Err(e) => Err(e),
        }
    } else {
        match sp_primary(toks, pos) {
            Ok((e, p2)) => if spec_peek(toks, p2).kind == TokenType::Bang {
                Ok(
                    (
                        ExprV::Unary {
                            op: TokenType::Bang,
                            right: Box::new(e),
                            is_prefix: false,
                        },
                        p2 + 1,
                    ),
                )
            } else {
                Ok((e, p2))
            },
            Err(e) => Err(e),
        }
    }
}

/// An exponentiation chain, right-associative. The position guard only
/// serves termination: a parsed operand always advances.
pub open spec fn sp_exponent(toks: Seq<TokenV>, pos: int) -> Result<(ExprV, int), ParseError>
    decreases rem(toks, pos), 3int,
{
    match sp_unary(toks, pos) {
        Ok((e, p2)) => if spec_peek(toks, p2).kind == TokenType::StarStar && pos <= p2 {
            match sp_exponent(toks, p2 + 1) {
                Ok((r, p3)) => Ok(
                    (
                        ExprV::Binary {
                            left: Box::new(e),
                            op: TokenType::StarStar,
                            right: Box::new(r),
                        },
                        p3,
                    ),
                ),
                Err(e2) => Err(e2),
            }
        } else {
            Ok((e, p2))
        },
        Err(e) => Err(e),
    }
}

/// A factor chain (`*`, `/`), right-associative; the position guard only
/// serves termination.
pub open spec fn sp_factor(toks: Seq<TokenV>, pos: int) -> Result<(ExprV, int), ParseError>
    decreases rem(toks, pos), 4int,
{
    match sp_exponent(toks, pos) {
        Ok((e, p2)) => {
            let k = spec_peek(toks, p2).kind;
            if (k == TokenType::Star || k == TokenType::Slash) && pos <= p2 {
                match sp_factor(toks, p2 + 1) {
                    Ok((r, p3)) => Ok(
                        (ExprV::Binary { left: Box::new(e), op: k, right: Box::new(r) }, p3),
                    ),
                    Err(e2) => Err(e2),
                }
            } else {
                Ok((e, p2))
            }
        },
        Err(e) => Err(e),
    }
}

/// A term chain (`+`, `-`), right-associative; the position guard only
/// serves termination.
pub open spec fn sp_term(toks: Seq<TokenV>, pos: int) -> Result<(ExprV, int), ParseError>
    decreases rem(toks, pos), 5int,
{
    match sp_factor(toks, pos) {
        Ok((e, p2)) => {
            let k = spec_peek(toks, p2).kind;
            if (k == TokenType::Plus || k == TokenType::Minus) && pos <= p2 {
                match sp_term(toks, p2 + 1) {
                    Ok((r, p3)) => Ok(
                        (ExprV::Binary { left: Box::new(e), op: k, right: Box::new(r) }, p3),
                    ),
                    Err(e2) => Err(e2),
                }
            } else {
                Ok((e, p2))
            }
        },
        Err(e) => Err(e),
    }
}

/// An expression: an assignment to a name, or a term chain.
pub open spec fn sp_expression(toks: Seq<TokenV>, pos: int) -> Result<(ExprV, int), ParseError>
    decreases rem(toks, pos), 6int,
{
    if spec_peek(toks, pos).kind == TokenType::Identifier && spec_peek(toks, pos + 1).kind
        == TokenType::Equal {
        match spec_peek(toks, pos).literal {
            LitV::Str(name) => match sp_expression(toks, pos + 2) {
                Ok((v, p2)) => Ok((ExprV::Assign { name, value: Box::new(v) }, p2)),
                Err(e) => Err(e),
            },
            _ => Err(ParseError::BadVariableName),
        }
    } else {
        sp_term(toks, pos)
    }
}

/// An expression standing as a statement (without its semicolon).
pub open spec fn sp_expression_statement(toks: Seq<TokenV>, pos: int) -> Result<
    (StmtV, int),
    ParseError,
>
    decreases rem(toks, pos), 7int,
{
    match sp_expression(toks, pos) {
        Ok((e, p)) => Ok((StmtV::Expr(e), p)),
        Err(e) => Err(e),
    }
}

/// A `var NAME = EXPR` declaration (without its semicolon), or the next
/// simpler statement form.
pub open spec fn sp_variable_declaration(toks: Seq<TokenV>, pos: int) -> Result<
    (StmtV, int),
    ParseError,
>
    decreases rem(toks, pos), 8int,
{
    if spec_peek(toks, pos).kind == TokenType::Var {
        if spec_peek(toks, pos + 1).kind != TokenType::Identifier {
            Err(ParseError::ExpectedIdentifier)
        } else {
            match spec_peek(toks, pos + 1).literal {
                LitV::Str(name) => if spec_peek(toks, pos + 2).kind != TokenType::Equal {
                    Err(ParseError::ExpectedEqual)
                } else {
                    match sp_expression(toks, pos + 3) {
                        Ok((v, p)) => Ok((StmtV::VarDecl { name, value: v }, p)),
                        Err(e) => Err(e),
                    }
                },
                _ => Err(ParseError::BadVariableName),
            }
        }
    } else {
        sp_expression_statement(toks, pos)
    }
}

/// A `print EXPR` statement (without its semicolon), or the next simpler
/// statement form.
pub open spec fn sp_print(toks: Seq<TokenV>, pos: int) -> Result<(StmtV, int), ParseError>
    decreases rem(toks, pos), 9int,
{
    if spec_peek(toks, pos).kind == TokenType::Print {
        match sp_expression(toks, pos + 1) {
            Ok((e, p)) => Ok((StmtV::Print(e), p)),
            Err(e) => Err(e),
        }
    } else {
        sp_variable_declaration(toks, pos)
    }
}

/// A braced block of statements.
pub open spec fn sp_block(toks: Seq<TokenV>, pos: int) -> Result<(StmtV, int), ParseError>
    decreases rem(toks, pos), 10int,
{
    if spec_peek(toks, pos).kind != TokenType::LeftBrace {
        Err(ParseError::ExpectedBlock)
    } else {
        match sp_stmt_seq(toks, pos + 1, TokenType::RightBrace) {
            Ok((ss, p)) => Ok((StmtV::Block(ss), p + 1)),
            Err(e) => Err(e),
        }
    }
}

/// One statement: `while (EXPR) BLOCK`, a bare block, or a simple statement
/// closed by `;`. The position guards only serve termination: a parsed
/// condition or statement always advances.
pub open spec fn sp_statement(toks: Seq<TokenV>, pos: int) -> Result<(StmtV, int), ParseError>
    decreases rem(toks, pos), 11int,
{
    let t = spec_peek(toks, pos);
    if t.kind == TokenType::While {
        if spec_peek(toks, pos + 1).kind != TokenType::LeftParen {
            Err(ParseError::ExpectedLeftParen)
        } else {
            match sp_expression(toks, pos + 2) {
                Ok((c, p)) => if spec_peek(toks, p).kind != TokenType::RightParen {
                    Err(ParseError::ExpectedRightParen)
                } else if !(pos <= p) {
                    Err(ParseError::UnexpectedToken)
                } else {
                    match sp_block(toks, p + 1) {
                        Ok((b, p2)) => Ok(
                            (StmtV::While { condition: c, block: Box::new(b) }, p2),
                        ),
                        Err(e) => Err(e),
                    }
                },
                Err(e) => Err(e),
            }
        }
    } else if t.kind == TokenType::LeftBrace {
        sp_block(toks, pos)
    } else {
        match sp_print(toks, pos) {
            Ok((s, p)) => if spec_peek(toks, p).kind == TokenType::Semicolon {
                Ok((s, p + 1))
            } else {
                Err(ParseError::ExpectedSemicolon)
            },
            Err(e) => Err(e),
        }
    }
}

/// Statements up to (not including) the terminator: `End` for a program,
/// `}` for a block. The position guard only serves termination.
pub open spec fn sp_stmt_seq(toks: Seq<TokenV>, pos: int, terminator: TokenType) -> Result<
    (Seq<StmtV>, int),
    ParseError,
>
    decreases rem(toks, pos), 12int,
{
    let t = spec_peek(toks, pos);
    if t.kind == terminator {
        Ok((Seq::empty(), pos))
    } else if t.kind == TokenType::End {
        Err(ParseError::ExpectedRightBrace)
    } else {
        match sp_statement(toks, pos) {
            Ok((s, p)) => if pos < p {
                match sp_stmt_seq(toks, p, terminator) {
                    Ok((ss, p2)) => Ok((seq![s] + ss, p2)),
                    Err(e) => Err(e),
                }
            } else {
                Err(ParseError::UnexpectedToken)
            },
            Err(e) => Err(e),
        }
    }
}

/// A whole program: statements up to the `End` token.
pub open spec fn spec_parse(toks: Seq<TokenV>) -> Result<StmtV, ParseError> {
    match sp_stmt_seq(toks, 0, TokenType::End) {
        Ok((ss, _)) => Ok(StmtV::Program(ss)),
        Err(e) => Err(e),
    }
}

/// The sequence parse's outcome, given statements already parsed and the
/// position the parse has reached.
pub open spec fn seq_with_prefix(
    done: Seq<StmtV>,
    toks: Seq<TokenV>,
    pos: int,
    terminator: TokenType,
) -> Result<(Seq<StmtV>, int), ParseError> {
    match sp_stmt_seq(toks, pos, terminator) {
        Ok((ss, p)) => Ok((done + ss, p)),
        Err(e) => Err(e),
    }
}

/// The parser: a token sequence consumed left to right exactly once.
pub struct Parser {
    tokens: Vec<Token>,
    position: usize,
}

impl Parser {
    /// The views of the tokens being parsed.
    pub closed spec fn toks(&self) -> Seq<TokenV> {
        tokens_view(self.tokens@)
    }

    /// The current position, as a mathematical integer.
    pub closed spec fn at(&self) -> int {
        self.position as int
    }

    /// The token sequence is nonempty, closed by the `End` token, and the
    /// position has not run past it.
    pub open spec fn wf(&self) -> bool {
        &&& self.at() <= self.toks().len()
        &&& self.toks().len() >= 1
        &&& self.toks().last() == punct(TokenType::End)
    }

    /// A parser over the given tokens, positioned at their start.
    pub fn new(tokens: Vec<Token>) -> (r: Self)
        ensures
            r.toks() == tokens_view(tokens@),
            r.at() == 0,
    {
        Parser { tokens, position: 0 }
    }

    /// The token at `offset` places ahead, or the final `End` token when the
    /// offset runs past the input.
    fn peek(&self, offset: usize) -> (r: Token)
        requires
            self.wf(),
        ensures
            r@ == spec_peek(self.toks(), self.at() + offset),
    {
        proof {
            assert(self.toks().len() == self.tokens@.len());
        }
        if offset >= self.tokens.len() - self.position {
            let r = self.tokens[self.tokens.len() - 1].clone();
            proof {
                assert(r@ == self.toks().last());
            }
            r
        } else {
            let r = self.tokens[self.position + offset].clone();
            proof {
                assert(r@ == self.toks()[self.at() + offset]);
            }
            r
        }
    }

    /// Whether the next token has the given kind.
    fn check(&self, kind: &TokenType) -> (b: bool)
        requires
            self.wf(),
        ensures
            b == (spec_peek(self.toks(), self.at()).kind == kind),
    {
        self.peek(0).kind == *kind
    }

    /// Whether the whole input has been parsed.
    fn is_at_end(&self) -> (b: bool)
        requires
            self.wf(),
        ensures
            b == (spec_peek(self.toks(), self.at()).kind == TokenType::End),
    {
        self.check(&TokenType::End)
    }

    /// Consumes and returns the next token; at the `End` token the position
    /// does not move.
    fn advance(&mut self) -> (r: Token)
        requires
            old(self).wf(),
        ensures
            final(self).wf(),
            final(self).toks() == old(self).toks(),
            r@ == spec_peek(old(self).toks(), old(self).at()),
            r@.kind == TokenType::End ==> final(self).at() == old(self).at(),
            r@.kind != TokenType::End ==> final(self).at() == old(self).at() + 1,
    {
        if self.is_at_end() {
            return self.peek(0);
        }
        proof {
            assert(self.toks().len() == self.tokens@.len());
            assert(self.at() < self.toks().len());
            assert(self.position < self.tokens.len());
        }
        let token = self.tokens[self.position].clone();
        self.position = self.position + 1;
        token
    }

    /// The most recently consumed token.
    fn previous(&self) -> (r: Token)
        requires
            self.wf(),
            self.at() >= 1,
        ensures
            r@ == self.toks()[self.at() - 1],
    {
        proof {
            assert(self.toks().len() == self.tokens@.len());
        }
        self.tokens[self.position - 1].clone()
    }

    /// Consumes the next token if its kind is among the given ones, none of
    /// which may be `End`.
    fn expect(&mut self, kinds: &[TokenType]) -> (b: bool)
        requires
            old(self).wf(),
            forall|i: int| 0 <= i < kinds@.len() ==> #[trigger] kinds@[i] != TokenType::End,
        ensures
            final(self).wf(),
            final(self).toks() == old(self).toks(),
            b == (exists|i: int|
                0 <= i < kinds@.len() && spec_peek(old(self).toks(), old(self).at()).kind
                    == #[trigger] kinds@[i]),
            b ==> final(self).at() == old(self).at() + 1,
            !b ==> final(self).at() == old(self).at(),
    {
        let mut i: usize = 0;
        while i < kinds.len()
            invariant
                self == old(self),
                old(self).wf(),
                i <= kinds@.len(),
                forall|j: int| 0 <= j < kinds@.len() ==> #[trigger] kinds@[j] != TokenType::End,
                forall|j: int|
                    0 <= j < i ==> spec_peek(old(self).toks(), old(self).at()).kind
                        != #[trigger] kinds@[j],
            decreases kinds@.len() - i,
        {
            if self.check(&kinds[i]) {
                self.advance();
                return true;
            }
            i = i + 1;
        }
        false
    }

    /// Parses one expression: an assignment to a name, or a term chain.
    pub fn expression(&mut self) -> (r: Result<Expression, ParseError>)
        requires
            old(self).wf(),
        ensures
            final(self).wf(),
            final(self).toks() == old(self).toks(),
            match r {
                Ok(e) => sp_expression(old(self).toks(), old(self).at()) == Ok::<
                    (ExprV, int),
                    ParseError,
                >((e@, final(self).at())) && old(self).at() < final(self).at() && wf_expr(e@),
                Err(pe) => sp_expression(old(self).toks(), old(self).at()) == Err::<
                    (ExprV, int),
                    ParseError,
                >(pe),
            },
        decreases rem(old(self).toks(), old(self).at()), 6int,
    {
        if self.check(&TokenType::Identifier) && self.peek(1).kind == TokenType::Equal {
            let name_token = self.advance();
            match name_token.literal {
                Literal::Str(name) => {
                    self.advance();
                    let value = self.expression()?;
                    Ok(Expression::Assignment { name, value: Box::new(value) })
                },
                _ => Err(ParseError::BadVariableName),
            }
        } else {
            self.term()
        }
    }

    /// Parses a term chain (`+`, `-`), right-associative.
    fn term(&mut self) -> (r: Result<Expression, ParseError>)
        requires
            old(self).wf(),
        ensures
            final(self).wf(),
            final(self).toks() == old(self).toks(),
            match r {
                Ok(e) => sp_term(old(self).toks(), old(self).at()) == Ok::<
                    (ExprV, int),
                    ParseError,
                >((e@, final(self).at())) && old(self).at() < final(self).at() && wf_expr(e@),
                Err(pe) => sp_term(old(self).toks(), old(self).at()) == Err::<
                    (ExprV, int),
                    ParseError,
                >(pe),
            },
        decreases rem(old(self).toks(), old(self).at()), 5int,
    {
        let first = self.factor()?;
        let mut expression = first;
        if self.expect(&[TokenType::Plus, TokenType::Minus]) {
            let operator = self.previous();
            let right = self.term()?;
            expression = Expression::Binary {
                left: Box::new(expression),
                operator,
                right: Box::new(right),
            };
        }
        Ok(expression)
    }

    /// Parses a factor chain (`*`, `/`), right-associative.
    fn factor(&mut self) -> (r: Result<Expression, ParseError>)
        requires
            old(self).wf(),
        ensures
            final(self).wf(),
            final(self).toks() == old(self).toks(),
            match r {
                Ok(e) => sp_factor(old(self).toks(), old(self).at()) == Ok::<
                    (ExprV, int),
                    ParseError,
                >((e@, final(self).at())) && old(self).at() < final(self).at() && wf_expr(e@),
                Err(pe) => sp_factor(old(self).toks(), old(self).at()) == Err::<
                    (ExprV, int),
                    ParseError,
                >(pe),
            },
        decreases rem(old(self).toks(), old(self).at()), 4int,
    {
        let first = self.exponent()?;
        let mut expression = first;
        if self.expect(&[TokenType::Star, TokenType::Slash]) {
            let operator = self.previous();
            let right = self.factor()?;
            expression = Expression::Binary {
                left: Box::new(expression),
                operator,
                right: Box::new(right),
            };
        }
        Ok(expression)
    }

    /// Parses an exponentiation chain (`**`), right-associative.
    fn exponent(&mut self) -> (r: Result<Expression, ParseError>)
        requires
            old(self).wf(),
        ensures
            final(self).wf(),
            final(self).toks() == old(self).toks(),
            match r {
                Ok(e) => sp_exponent(old(self).toks(), old(self).at()) == Ok::<
                    (ExprV, int),
                    ParseError,
                >((e@, final(self).at())) && old(self).at() < final(self).at() && wf_expr(e@),
                Err(pe) => sp_exponent(old(self).toks(), old(self).at()) == Err::<
                    (ExprV, int),
                    ParseError,
                >(pe),
            },
        decreases rem(old(self).toks(), old(self).at()), 3int,
    {
        let first = self.unary()?;
        let mut expression = first;
        if self.expect(&[TokenType::StarStar]) {
            let operator = self.previous();
            let right = self.exponent()?;
            expression = Expression::Binary {
                left: Box::new(expression),
                operator,
                right: Box::new(right),
            };
        }
        Ok(expression)
    }

    /// Parses a unary expression: prefix `!` or `-`, or a primary with an
    /// optional postfix factorial `!`.
    fn unary(&mut self) -> (r: Result<Expression, ParseError>)
        requires
            old(self).wf(),
        ensures
            final(self).wf(),
            final(self).toks() == old(self).toks(),
            match r {
                Ok(e) => sp_unary(old(self).toks(), old(self).at()) == Ok::<
                    (ExprV, int),
                    ParseError,
                >((e@, final(self).at())) && old(self).at() < final(self).at() && wf_expr(e@),
                Err(pe) => sp_unary(old(self).toks(), old(self).at()) == Err::<
                    (ExprV, int),
                    ParseError,
                >(pe),
            },
        decreases rem(old(self).toks(), old(self).at()), 2int,
    {
        if self.expect(&[TokenType::Bang, TokenType::Minus]) {
            let operator = self.previous();
            let right = self.unary()?;
            return Ok(Expression::Unary { operator, right: Box::new(right), is_prefix: true });
        }
        let first = self.primary()?;
        let mut expression = first;
        if self.expect(&[TokenType::Bang]) {
            let operator = self.previous();
            expression = Expression::Unary {
                operator,
                right: Box::new(expression),
                is_prefix: false,
            };
        }
        Ok(expression)
    }

    /// Parses a primary: a literal, an identifier, or a parenthesized
    /// expression.
    #[verifier::rlimit(40)]
    fn primary(&mut self) -> (r: Result<Expression, ParseError>)
        requires
            old(self).wf(),
        ensures
            final(self).wf(),
            final(self).toks() == old(self).toks(),
            match r {
                Ok(e) => sp_primary(old(self).toks(), old(self).at()) == Ok::<
                    (ExprV, int),
                    ParseError,
                >((e@, final(self).at())) && old(self).at() < final(self).at() && wf_expr(e@),
                Err(pe) => sp_primary(old(self).toks(), old(self).at()) == Err::<
                    (ExprV, int),
                    ParseError,
                >(pe),
            },
        decreases rem(old(self).toks(), old(self).at()), 1int,
    {
        if self.expect(&[TokenType::True]) {
            return Ok(Expression::Literal(Literal::Boolean(true)));
        }
        if self.expect(&[TokenType::False]) {
            return Ok(Expression::Literal(Literal::Boolean(false)));
        }
        if self.expect(&[TokenType::Number]) {
            return Ok(Expression::Literal(self.previous().literal));
        }
        if self.expect(&[TokenType::Str]) {
            return Ok(Expression::Literal(self.previous().literal));
        }
        if self.expect(&[TokenType::Identifier]) {
            match self.previous().literal {
                Literal::Str(name) => {
                    return Ok(Expression::Variable(name));
                },
                _ => {
                    return Err(ParseError::BadVariableName);
                },
            }
        }
        if self.expect(&[TokenType::LeftParen]) {
            let inner = self.expression()?;
            let _ = self.consume(TokenType::RightParen, ParseError::ExpectedRightParen)?;
            return Ok(Expression::Grouping { expression: Box::new(inner) });
        }
        Err(ParseError::UnexpectedToken)
    }

    /// Parses the whole input into the `Program` root statement.
    pub fn parse(&mut self) -> (r: Result<Statement, ParseError>)
        requires
            old(self).wf(),
        ensures
            final(self).wf(),
            final(self).toks() == old(self).toks(),
            match r {
                Ok(s) => (s@ matches StmtV::Program(ss) && sp_stmt_seq(
                    old(self).toks(),
                    old(self).at(),
                    TokenType::End,
                ) == Ok::<(Seq<StmtV>, int), ParseError>((ss, final(self).at()))) && wf_stmt(
                    s@,
                ),
                Err(pe) => sp_stmt_seq(old(self).toks(), old(self).at(), TokenType::End)
                    == Err::<(Seq<StmtV>, int), ParseError>(pe),
            },
    {
        let statements = self.statement_sequence(TokenType::End)?;
        Ok(Statement::Program { statements })
    }

    /// Parses statements up to (not including) the terminator.
    fn statement_sequence(&mut self, terminator: TokenType) -> (r: Result<
        Vec<Statement>,
        ParseError,
    >)
        requires
            old(self).wf(),
        ensures
            final(self).wf(),
            final(self).toks() == old(self).toks(),
            match r {
                Ok(ss) => sp_stmt_seq(old(self).toks(), old(self).at(), terminator) == Ok::<
                    (Seq<StmtV>, int),
                    ParseError,
                >((stmts_view(ss@), final(self).at())) && wf_stmts(stmts_view(ss@)) && spec_peek(
                    final(self).toks(),
                    final(self).at(),
                ).kind == terminator && old(self).at() <= final(self).at(),
                Err(pe) => sp_stmt_seq(old(self).toks(), old(self).at(), terminator) == Err::<
                    (Seq<StmtV>, int),
                    ParseError,
                >(pe),
            },
        decreases rem(old(self).toks(), old(self).at()), 12int,
    {
        let ghost toks = self.toks();
        let ghost pos0 = self.at();
        let mut statements: Vec<Statement> = Vec::new();
        loop
            invariant
                self.wf(),
                self.toks() == toks,
                old(self).toks() == toks,
                old(self).at() == pos0,
                pos0 <= self.at(),
                wf_stmts(stmts_view(statements@)),
                seq_with_prefix(stmts_view(statements@), toks, self.at(), terminator)
                    == sp_stmt_seq(toks, pos0, terminator),
            decreases rem(toks, self.at()),
        {
            if self.check(&terminator) {
                proof {
                    assert(sp_stmt_seq(toks, self.at(), terminator) == Ok::<
                        (Seq<StmtV>, int),
                        ParseError,
                    >((Seq::empty(), self.at())));
                    assert(stmts_view(statements@) + Seq::<StmtV>::empty() =~= stmts_view(
                        statements@,
                    ));
                }
                return Ok(statements);
            }
            if self.is_at_end() {
                return Err(ParseError::ExpectedRightBrace);
            }
            let ghost before = self.at();
            let ghost done = stmts_view(statements@);
            let s = self.statement()?;
            proof {
                crate::statement::lemma_wf_stmts_push(done, s@);
                assert(statements@.push(s).drop_last() =~= statements@);
                assert(statements@.push(s).last() == s);
                assert(stmts_view(statements@.push(s)) =~= done.push(s@));
                if sp_stmt_seq(toks, self.at(), terminator) is Ok {
                    let taken = sp_stmt_seq(toks, self.at(), terminator)->Ok_0.0;
                    assert(done + (seq![s@] + taken) =~= done.push(s@) + taken);
                }
            }
            statements.push(s);
        }
    }

    /// Parses one statement: a `while` loop, a block, or a simple statement
    /// closed by `;`.
    fn statement(&mut self) -> (r: Result<Statement, ParseError>)
        requires
            old(self).wf(),
        ensures
            final(self).wf(),
            final(self).toks() == old(self).toks(),
            match r {
                Ok(s) => sp_statement(old(self).toks(), old(self).at()) == Ok::<
                    (StmtV, int),
                    ParseError,
                >((s@, final(self).at())) && old(self).at() < final(self).at() && wf_stmt(s@),
                Err(pe) => sp_statement(old(self).toks(), old(self).at()) == Err::<
                    (StmtV, int),
                    ParseError,
                >(pe),
            },
        decreases rem(old(self).toks(), old(self).at()), 11int,
    {
        if self.check(&TokenType::While) {
            self.advance();
            if !self.expect(&[TokenType::LeftParen]) {
                return Err(ParseError::ExpectedLeftParen);
            }
            let condition = self.expression()?;
            if !self.expect(&[TokenType::RightParen]) {
                return Err(ParseError::ExpectedRightParen);
            }
            let body = self.block()?;
            return Ok(Statement::While { condition, block: Box::new(body) });
        }
        if self.check(&TokenType::LeftBrace) {
            return self.block();
        }
        let s = self.print()?;
        let _ = self.consume(TokenType::Semicolon, ParseError::ExpectedSemicolon)?;
        Ok(s)
    }

    /// Parses a braced block of statements.
    fn block(&mut self) -> (r: Result<Statement, ParseError>)
        requires
            old(self).wf(),
        ensures
            final(self).wf(),
            final(self).toks() == old(self).toks(),
            match r {
                Ok(s) => sp_block(old(self).toks(), old(self).at()) == Ok::<
                    (StmtV, int),
                    ParseError,
                >((s@, final(self).at())) && old(self).at() < final(self).at() && wf_stmt(s@),
                Err(pe) => sp_block(old(self).toks(), old(self).at()) == Err::<
                    (StmtV, int),
                    ParseError,
                >(pe),
            },
        decreases rem(old(self).toks(), old(self).at()), 10int,
    {
        if !self.check(&TokenType::LeftBrace) {
            return Err(ParseError::ExpectedBlock);
        }
        self.advance();
        let statements = self.statement_sequence(TokenType::RightBrace)?;
        self.advance();
        Ok(Statement::Block { statements })
    }

    /// Parses a `print EXPR` statement (without its semicolon), or the next
    /// simpler statement form.
    fn print(&mut self) -> (r: Result<Statement, ParseError>)
        requires
            old(self).wf(),
        ensures
            final(self).wf(),
            final(self).toks() == old(self).toks(),
            match r {
                Ok(s) => sp_print(old(self).toks(), old(self).at()) == Ok::<
                    (StmtV, int),
                    ParseError,
                >((s@, final(self).at())) && old(self).at() < final(self).at() && wf_stmt(s@),
                Err(pe) => sp_print(old(self).toks(), old(self).at()) == Err::<
                    (StmtV, int),
                    ParseError,
                >(pe),
            },
        decreases rem(old(self).toks(), old(self).at()), 9int,
    {
        if self.expect(&[TokenType::Print]) {
            let expression = self.expression()?;
            return Ok(Statement::Print { expression });
        }
        self.variable_declaration()
    }

    /// Parses a `var NAME = EXPR` declaration (without its semicolon), or
    /// the next simpler statement form.
    fn variable_declaration(&mut self) -> (r: Result<Statement, ParseError>)
        requires
            old(self).wf(),
        ensures
            final(self).wf(),
            final(self).toks() == old(self).toks(),
            match r {
                Ok(s) => sp_variable_declaration(old(self).toks(), old(self).at()) == Ok::<
                    (StmtV, int),
                    ParseError,
                >((s@, final(self).at())) && old(self).at() < final(self).at() && wf_stmt(s@),
                Err(pe) => sp_variable_declaration(old(self).toks(), old(self).at()) == Err::<
                    (StmtV, int),
                    ParseError,
                >(pe),
            },
        decreases rem(old(self).toks(), old(self).at()), 8int,
    {
        if self.expect(&[TokenType::Var]) {
            let identifier = self.consume(TokenType::Identifier, ParseError::ExpectedIdentifier)?;
            match identifier.literal {
                Literal::Str(name) => {
                    let _ = self.consume(TokenType::Equal, ParseError::ExpectedEqual)?;
                    let value = self.expression()?;
                    Ok(Statement::VariableDeclaration { name, value })
                },
                _ => Err(ParseError::BadVariableName),
            }
        } else {
            self.expression_statement()
        }
    }

    /// Parses an expression standing as a statement (without its semicolon).
    fn expression_statement(&mut self) -> (r: Result<Statement, ParseError>)
        requires
            old(self).wf(),
        ensures
            final(self).wf(),
            final(self).toks() == old(self).toks(),
            match r {
                Ok(s) => sp_expression_statement(old(self).toks(), old(self).at()) == Ok::<
                    (StmtV, int),
                    ParseError,
                >((s@, final(self).at())) && old(self).at() < final(self).at() && wf_stmt(s@),
                Err(pe) => sp_expression_statement(old(self).toks(), old(self).at()) == Err::<
                    (StmtV, int),
                    ParseError,
                >(pe),
            },
        decreases rem(old(self).toks(), old(self).at()), 7int,
    {
        let expression = self.expression()?;
        Ok(Statement::Expression { expression })
    }

    /// Consumes the next token if it has the given kind (never `End`), or
    /// reports the given error.
    fn consume(&mut self, kind: TokenType, error: ParseError) -> (r: Result<Token, ParseError>)
        requires
            old(self).wf(),
            kind != TokenType::End,
        ensures
            final(self).wf(),
            final(self).toks() == old(self).toks(),
            match r {
                Ok(t) => t@ == spec_peek(old(self).toks(), old(self).at()) && t@.kind == kind
                    && final(self).at() == old(self).at() + 1,
                Err(e) => e == error && spec_peek(old(self).toks(), old(self).at()).kind != kind
                    && final(self).at() == old(self).at(),
            },
    {
        if self.check(&kind) {
            Ok(self.advance())
        } else {
            Err(error)
        }
    }
}

} // verus!
