//! Statement nodes of the abstract syntax tree.

use vstd::prelude::*;

use crate::expression::expr_view;
use crate::expression::wf_expr;
use crate::expression::ExprV;
use crate::expression::Expression;

verus! {

broadcast use vstd::std_specs::vec::group_vec_axioms;

/// A statement node. `Program` is the root of one parse; `Block` introduces
/// a new lexical scope.
#[derive(Debug)]
pub enum Statement {
    Program { statements: Vec<Statement> },
    Block { statements: Vec<Statement> },
    Expression { expression: Expression },
    VariableDeclaration { name: String, value: Expression },
    While { condition: Expression, block: Box<Statement> },
    Print { expression: Expression },
}

/// The mathematical shape of a statement.
pub enum StmtV {
    Program(Seq<StmtV>),
    Block(Seq<StmtV>),
    Expr(ExprV),
    VarDecl { name: Seq<char>, value: ExprV },
    While { condition: ExprV, block: Box<StmtV> },
    Print(ExprV),
}

/// The view of a statement node.
pub open spec fn stmt_view(s: &Statement) -> StmtV
    decreases s,
{
    match s {
        Statement::Program { statements } => StmtV::Program(stmts_view(statements@)),
        Statement::Block { statements } => StmtV::Block(stmts_view(statements@)),
        Statement::Expression { expression } => StmtV::Expr(expr_view(expression)),
        Statement::VariableDeclaration { name, value } => StmtV::VarDecl {
            name: name@,
            value: expr_view(value),
        },
        Statement::While { condition, block } => StmtV::While {
            condition: expr_view(condition),
            block: Box::new(stmt_view(block)),
        },
        Statement::Print { expression } => StmtV::Print(expr_view(expression)),
    }
}

/// The views of a sequence of statement nodes, in order.
pub open spec fn stmts_view(ss: Seq<Statement>) -> Seq<StmtV>
    decreases ss,
{
    if ss.len() == 0 {
        Seq::empty()
    } else {
        stmts_view(ss.drop_last()).push(stmt_view(&ss.last()))
    }
}

impl View for Statement {
    type V = StmtV;

    open spec fn view(&self) -> StmtV {
        stmt_view(self)
    }
}

/// `stmts_view` maps each node to its view, index by index.
pub proof fn lemma_stmts_view_index(ss: Seq<Statement>, i: int)
    requires
        0 <= i < ss.len(),
    ensures
        stmts_view(ss).len() == ss.len(),
        stmts_view(ss)[i] == stmt_view(&ss[i]),
    decreases ss.len(),
{
    if ss.len() > 0 {
        if i < ss.len() - 1 {
            lemma_stmts_view_index(ss.drop_last(), i);
        } else {
            lemma_stmts_view_len(ss.drop_last());
        }
    }
}

/// `stmts_view` keeps the length of the sequence.
pub proof fn lemma_stmts_view_len(ss: Seq<Statement>)
    ensures
        stmts_view(ss).len() == ss.len(),
    decreases ss.len(),
{
    if ss.len() > 0 {
        lemma_stmts_view_len(ss.drop_last());
    }
}

/// A statement the interpreter can run: every expression in it is well
/// formed.
pub open spec fn wf_stmt(s: StmtV) -> bool
    decreases s,
{
    match s {
        StmtV::Program(ss) => wf_stmts(ss),
        StmtV::Block(ss) => wf_stmts(ss),
        StmtV::Expr(e) => wf_expr(e),
        StmtV::VarDecl { name: _, value } => wf_expr(value),
        StmtV::While { condition, block } => wf_expr(condition) && wf_stmt(*block),
        StmtV::Print(e) => wf_expr(e),
    }
}

/// Whether every statement in the sequence is well formed.
pub open spec fn wf_stmts(ss: Seq<StmtV>) -> bool
    decreases ss,
{
    if ss.len() == 0 {
        true
    } else {
        wf_stmt(ss[0]) && wf_stmts(ss.drop_first())
    }
}

/// Appending one well-formed statement keeps a sequence well formed.
pub proof fn lemma_wf_stmts_push(ss: Seq<StmtV>, v: StmtV)
    ensures
        wf_stmts(ss.push(v)) == (wf_stmts(ss) && wf_stmt(v)),
    decreases ss.len(),
{
    if ss.len() == 0 {
        assert(ss.push(v).drop_first() =~= Seq::<StmtV>::empty());
        assert(ss.push(v)[0] == v);
        assert(wf_stmts(Seq::<StmtV>::empty()));
        assert(wf_stmts(ss));
    } else {
        assert(ss.push(v).drop_first() =~= ss.drop_first().push(v));
        assert(ss.push(v)[0] == ss[0]);
        lemma_wf_stmts_push(ss.drop_first(), v);
    }
}

/// A well-formed sequence is well formed at every index.
pub proof fn lemma_wf_stmts_index(ss: Seq<StmtV>, i: int)
    requires
        wf_stmts(ss),
        0 <= i < ss.len(),
    ensures
        wf_stmt(ss[i]),
    decreases i,
{
    if i > 0 {
        lemma_wf_stmts_index(ss.drop_first(), i - 1);
    }
}

impl Statement {
    /// Decides `wf_stmt` on this node.
    pub fn is_well_formed(&self) -> (b: bool)
        ensures
            b == wf_stmt(self@),
        decreases self,
    {
        match self {
            Statement::Program { statements } => check_statements(self, statements),
            Statement::Block { statements } => check_statements(self, statements),
            Statement::Expression { expression } => expression.is_well_formed(),
            Statement::VariableDeclaration { name: _, value } => value.is_well_formed(),
            Statement::While { condition, block } => condition.is_well_formed()
                && block.is_well_formed(),
            Statement::Print { expression } => expression.is_well_formed(),
        }
    }
}

/// Decides `wf_stmts` on the member statements of `owner`, which must be a
/// `Program` or `Block` holding exactly those statements.
fn check_statements(owner: &Statement, statements: &Vec<Statement>) -> (b: bool)
    requires
        (owner matches Statement::Program { statements: ss } && ss == statements) || (
        owner matches Statement::Block { statements: ss } && ss == statements),
    ensures
        b == wf_stmts(stmts_view(statements@)),
    decreases owner, 0nat,
{
    let mut i: usize = 0;
    let n = statements.len();
    let mut ok = true;
    proof {
        lemma_stmts_view_len(statements@);
    }
    while i < n
        invariant
            i <= n,
            n == statements.len(),
            stmts_view(statements@).len() == n,
            (owner matches Statement::Program { statements: ss } && ss == statements) || (
            owner matches Statement::Block { statements: ss } && ss == statements),
            ok == wf_stmts_upto(stmts_view(statements@), i as int),
        decreases n - i,
    {
        proof {
            assert(decreases_to!(*owner => *statements));
            assert(decreases_to!(*statements => statements@[i as int]));
        }
        let one = statements[i].is_well_formed();
        proof {
            lemma_stmts_view_index(statements@, i as int);
            lemma_wf_upto_step(stmts_view(statements@), i as int);
        }
        ok = ok && one;
        i = i + 1;
    }
    proof {
        lemma_wf_upto_all(stmts_view(statements@));
    }
    ok
}

/// Whether the first `k` statements of the sequence are well formed.
pub open spec fn wf_stmts_upto(ss: Seq<StmtV>, k: int) -> bool
    decreases k,
{
    if k <= 0 {
        true
    } else {
        wf_stmts_upto(ss, k - 1) && wf_stmt(ss[k - 1])
    }
}

/// Extending a checked prefix by one statement.
proof fn lemma_wf_upto_step(ss: Seq<StmtV>, k: int)
    requires
        0 <= k < ss.len(),
    ensures
        wf_stmts_upto(ss, k + 1) == (wf_stmts_upto(ss, k) && wf_stmt(ss[k])),
{
}

/// A fully checked prefix decides well-formedness of the whole sequence.
proof fn lemma_wf_upto_all(ss: Seq<StmtV>)
    ensures
        wf_stmts_upto(ss, ss.len() as int) == wf_stmts(ss),
    decreases ss.len(),
{
    if ss.len() > 0 {
        lemma_wf_upto_all(ss.drop_first());
        lemma_wf_upto_shift(ss, ss.len() as int);
    }
}

/// The prefix check on a sequence matches the prefix check on its tail.
proof fn lemma_wf_upto_shift(ss: Seq<StmtV>, k: int)
    requires
        1 <= k <= ss.len(),
    ensures
        wf_stmts_upto(ss, k) == (wf_stmt(ss[0]) && wf_stmts_upto(ss.drop_first(), k - 1)),
    decreases k,
{
    if k > 1 {
        lemma_wf_upto_shift(ss, k - 1);
        assert(ss.drop_first()[k - 2] == ss[k - 1]);
    } else {
        assert(wf_stmts_upto(ss, 0));
        assert(wf_stmts_upto(ss.drop_first(), 0));
    }
}

} // verus!
