//! The abstract syntax tree the compiler consumes.
//!
//! The tree is produced by an external parser; the compiler only walks it.
//! Real literals carry their raw IEEE-754 bit pattern. The size functions
//! below are the structural measure used to show that compilation
//! terminates.

use vstd::prelude::*;

verus! {

/// Binary operators; each maps 1:1 to an instruction.
#[derive(Clone, Copy, PartialEq, Eq, Structural, Debug)]
pub enum BinOp {
    Plus,
    Minus,
    Times,
    Divides,
    Modulo,
    Power,
    LEq,
    GEq,
    Less,
    Greater,
    Equal,
    NEq,
    And,
    Or,
}

/// Unary operators.
#[derive(Clone, Copy, PartialEq, Eq, Structural, Debug)]
pub enum UnaOp {
    Not,
    Minus,
}

/// An expression form.
#[derive(Debug)]
pub enum Expr {
    Nil,
    Bool(bool),
    Int(i32),
    /// A real literal, as its raw IEEE-754 bit pattern.
    Real(u64),
    Str(String),
    Id(String),
    BinOp(BinOp, Box<Expr>, Box<Expr>),
    UnaOp(UnaOp, Box<Expr>),
    Call(Box<Expr>, Vec<Expr>),
    Function(Vec<String>, Block),
}

/// The guard of one conditional branch.
#[derive(Debug)]
pub enum Cond {
    If(Expr),
    Else,
}

/// A statement form.
#[derive(Debug)]
pub enum Stat {
    ExprStat(Expr),
    Let(String, Expr),
    Assign(String, Expr),
    Cond(Vec<(Cond, Block)>),
    While(Expr, Block),
    Log(Expr),
    Return(Expr),
}

/// A statement together with its source line.
#[derive(Debug)]
pub struct Positioned {
    pub stat: Stat,
    pub line: u32,
}

/// A lexical block: an ordered list of statements.
pub type Block = Vec<Positioned>;

/// Structural size of an expression (at least 1).
pub open spec fn expr_size(e: Expr) -> nat
    decreases e,
{
    match e {
        Expr::Nil => 1,
        Expr::Bool(_) => 1,
        Expr::Int(_) => 1,
        Expr::Real(_) => 1,
        Expr::Str(_) => 1,
        Expr::Id(_) => 1,
        Expr::BinOp(_, e1, e2) => 1 + expr_size(*e1) + expr_size(*e2),
        Expr::UnaOp(_, e1) => 1 + expr_size(*e1),
        Expr::Call(f, args) => 1 + expr_size(*f) + exprs_size(args@),
        Expr::Function(_, bl) => 1 + block_size(bl@),
    }
}

/// Structural size of an expression sequence (at least 1).
pub open spec fn exprs_size(s: Seq<Expr>) -> nat
    decreases s,
{
    if s.len() == 0 {
        1
    } else {
        1 + expr_size(s[0]) + exprs_size(s.subrange(1, s.len() as int))
    }
}

/// Structural size of a statement (at least 1).
pub open spec fn stat_size(st: Stat) -> nat
    decreases st,
{
    match st {
        Stat::ExprStat(e) => 1 + expr_size(e),
        Stat::Let(_, e) => 1 + expr_size(e),
        Stat::Assign(_, e) => 1 + expr_size(e),
        Stat::Cond(branches) => 1 + branches_size(branches@),
        Stat::While(e, bl) => 1 + expr_size(e) + block_size(bl@),
        Stat::Log(e) => 1 + expr_size(e),
        Stat::Return(e) => 1 + expr_size(e),
    }
}

/// Structural size of a branch list (at least 1).
pub open spec fn branches_size(s: Seq<(Cond, Block)>) -> nat
    decreases s,
{
    if s.len() == 0 {
        1
    } else {
        1 + cond_size(s[0].0) + block_size(s[0].1@) + branches_size(s.subrange(1, s.len() as int))
    }
}

/// Structural size of a branch guard (at least 1).
pub open spec fn cond_size(c: Cond) -> nat
    decreases c,
{
    match c {
        Cond::If(e) => 1 + expr_size(e),
        Cond::Else => 1,
    }
}

/// Structural size of a block (at least 1).
pub open spec fn block_size(b: Seq<Positioned>) -> nat
    decreases b,
{
    if b.len() == 0 {
        1
    } else {
        1 + stat_size(b[0].stat) + block_size(b.subrange(1, b.len() as int))
    }
}

/// Every element of an expression sequence is strictly smaller than the
/// sequence.
pub proof fn lemma_exprs_size_elem(s: Seq<Expr>, i: int)
    requires
        0 <= i < s.len(),
    ensures
        expr_size(s[i]) < exprs_size(s),
    decreases s.len(),
{
    if i > 0 {
        lemma_exprs_size_elem(s.subrange(1, s.len() as int), i - 1);
        assert(s.subrange(1, s.len() as int)[i - 1] == s[i]);
    }
}

/// Every statement of a block is strictly smaller than the block.
pub proof fn lemma_block_size_elem(b: Seq<Positioned>, i: int)
    requires
        0 <= i < b.len(),
    ensures
        stat_size(b[i].stat) < block_size(b),
    decreases b.len(),
{
    if i > 0 {
        lemma_block_size_elem(b.subrange(1, b.len() as int), i - 1);
        assert(b.subrange(1, b.len() as int)[i - 1] == b[i]);
    }
}

/// Every branch of a branch list is strictly smaller than the list.
pub proof fn lemma_branches_size_elem(s: Seq<(Cond, Block)>, i: int)
    requires
        0 <= i < s.len(),
    ensures
        cond_size(s[i].0) < branches_size(s),
        block_size(s[i].1@) < branches_size(s),
    decreases s.len(),
{
    if i > 0 {
        lemma_branches_size_elem(s.subrange(1, s.len() as int), i - 1);
        assert(s.subrange(1, s.len() as int)[i - 1] == s[i]);
    }
}

} // verus!
