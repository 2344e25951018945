//! Expression nodes of the abstract syntax tree.

use vstd::prelude::*;

use crate::literal::LitV;
use crate::literal::Literal;
use crate::token::Token;
use crate::token_type::TokenType;

verus! {

/// An expression node. Each node owns its children outright.
#[derive(Debug)]
pub enum Expression {
    Binary { left: Box<Expression>, operator: Token, right: Box<Expression> },
    Unary { operator: Token, right: Box<Expression>, is_prefix: bool },
    Literal(Literal),
    Variable(String),
    Assignment { name: String, value: Box<Expression> },
    Grouping { expression: Box<Expression> },
}

/// The mathematical shape of an expression; operators are reduced to their
/// token kind.
pub enum ExprV {
    Binary { left: Box<ExprV>, op: TokenType, right: Box<ExprV> },
    Unary { op: TokenType, right: Box<ExprV>, is_prefix: bool },
    Lit(LitV),
    Var(Seq<char>),
    Assign { name: Seq<char>, value: Box<ExprV> },
    Group(Box<ExprV>),
}

/// The view of an expression node.
pub open spec fn expr_view(e: &Expression) -> ExprV
    decreases e,
{
    match e {
        Expression::Binary { left, operator, right } => ExprV::Binary {
            left: Box::new(expr_view(left)),
            op: operator.kind,
            right: Box::new(expr_view(right)),
        },
        Expression::Unary { operator, right, is_prefix } => ExprV::Unary {
            op: operator.kind,
            right: Box::new(expr_view(right)),
            is_prefix: *is_prefix,
        },
        Expression::Literal(l) => ExprV::Lit(l@),
        Expression::Variable(name) => ExprV::Var(name@),
        Expression::Assignment { name, value } => ExprV::Assign {
            name: name@,
            value: Box::new(expr_view(value)),
        },
        Expression::Grouping { expression } => ExprV::Group(Box::new(expr_view(expression))),
    }
}

impl View for Expression {
    type V = ExprV;

    open spec fn view(&self) -> ExprV {
        expr_view(self)
    }
}

/// The operators the interpreter accepts in a `Binary` node.
pub open spec fn is_binary_op(op: TokenType) -> bool {
    ||| op == TokenType::StarStar
    ||| op == TokenType::Star
    ||| op == TokenType::Slash
    ||| op == TokenType::Plus
    ||| op == TokenType::Minus
    ||| op == TokenType::Less
    ||| op == TokenType::LessEqual
    ||| op == TokenType::Greater
    ||| op == TokenType::GreaterEqual
    ||| op == TokenType::EqualEqual
}

/// An expression the interpreter can evaluate: every binary operator is one
/// it knows, prefix operators are `!` or `-`, and the only postfix operator
/// is the factorial `!`.
pub open spec fn wf_expr(e: ExprV) -> bool
    decreases e,
{
    match e {
        ExprV::Binary { left, op, right } => is_binary_op(op) && wf_expr(*left) && wf_expr(
            *right,
        ),
        ExprV::Unary { op, right, is_prefix } => {
            &&& (if is_prefix {
                op == TokenType::Bang || op == TokenType::Minus
            } else {
                op == TokenType::Bang
            })
            &&& wf_expr(*right)
        },
        ExprV::Lit(_) => true,
        ExprV::Var(_) => true,
        ExprV::Assign { name: _, value } => wf_expr(*value),
        ExprV::Group(inner) => wf_expr(*inner),
    }
}

impl Expression {
    /// Decides `wf_expr` on this node.
    pub fn is_well_formed(&self) -> (b: bool)
        ensures
            b == wf_expr(self@),
        decreases self,
    {
        match self {
            Expression::Binary { left, operator, right } => {
                let op_ok = operator.kind == TokenType::StarStar || operator.kind
                    == TokenType::Star || operator.kind == TokenType::Slash || operator.kind
                    == TokenType::Plus || operator.kind == TokenType::Minus || operator.kind
                    == TokenType::Less || operator.kind == TokenType::LessEqual || operator.kind
                    == TokenType::Greater || operator.kind == TokenType::GreaterEqual
                    || operator.kind == TokenType::EqualEqual;
                op_ok && left.is_well_formed() && right.is_well_formed()
            },
            Expression::Unary { operator, right, is_prefix } => {
                let op_ok = if *is_prefix {
                    operator.kind == TokenType::Bang || operator.kind == TokenType::Minus
                } else {
                    operator.kind == TokenType::Bang
                };
                op_ok && right.is_well_formed()
            },
            Expression::Literal(_) => true,
            Expression::Variable(_) => true,
            Expression::Assignment { name: _, value } => value.is_well_formed(),
            Expression::Grouping { expression } => expression.is_well_formed(),
        }
    }
}

} // verus!
