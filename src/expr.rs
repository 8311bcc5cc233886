//! The meaning of a program: the expression tree that the compiler reads
//! from the source, its value, and the bytecode that it compiles to.
use vstd::prelude::*;
use crate::chunk::{OpCode, opcode_byte};
use crate::value::{double_sum, double_difference, double_product, double_quotient, negated};

verus! {

/// The four binary operators.
#[derive(Clone, Copy, Debug, PartialEq, Eq, Structural)]
pub enum BinaryOp {
    Add,
    Subtract,
    Multiply,
    Divide,
}

/// An expression as the compiler reads it. Each node carries the source
/// line that its instruction is emitted with; a parenthesized expression
/// is a `Group`, which emits nothing of its own.
pub enum Expr {
    Literal { value: u64, line: usize },
    Group { inner: Box<Expr> },
    Negate { operand: Box<Expr>, line: usize },
    Binary { op: BinaryOp, left: Box<Expr>, right: Box<Expr>, line: usize },
}

pub open spec fn op_code(op: BinaryOp) -> OpCode {
    match op {
        BinaryOp::Add => OpCode::Add,
        BinaryOp::Subtract => OpCode::Subtract,
        BinaryOp::Multiply => OpCode::Multiply,
        BinaryOp::Divide => OpCode::Divide,
    }
}

/// One IEEE-754 operation.
pub open spec fn apply(op: BinaryOp, a: u64, b: u64) -> u64 {
    match op {
        BinaryOp::Add => double_sum(a, b),
        BinaryOp::Subtract => double_difference(a, b),
        BinaryOp::Multiply => double_product(a, b),
        BinaryOp::Divide => double_quotient(a, b),
    }
}

/// The value of an expression, evaluated in double precision.
pub open spec fn eval(e: Expr) -> u64
    decreases e,
{
    match e {
        Expr::Literal { value, .. } => value,
        Expr::Group { inner } => eval(*inner),
        Expr::Negate { operand, .. } => negated(eval(*operand)),
        Expr::Binary { op, left, right, .. } => apply(op, eval(*left), eval(*right)),
    }
}

/// The literals of an expression, left to right: its constant pool.
pub open spec fn constants_of(e: Expr) -> Seq<u64>
    decreases e,
{
    match e {
        Expr::Literal { value, .. } => seq![value],
        Expr::Group { inner } => constants_of(*inner),
        Expr::Negate { operand, .. } => constants_of(*operand),
        Expr::Binary { left, right, .. } => constants_of(*left) + constants_of(*right),
    }
}

/// The postfix bytecode of an expression whose first literal has pool
/// index `base`.
pub open spec fn code_of(e: Expr, base: int) -> Seq<u8>
    decreases e,
{
    match e {
        Expr::Literal { .. } => seq![opcode_byte(OpCode::Constant), base as u8],
        Expr::Group { inner } => code_of(*inner, base),
        Expr::Negate { operand, .. } => code_of(*operand, base) + seq![opcode_byte(OpCode::Negate)],
        Expr::Binary { op, left, right, .. } => code_of(*left, base) + code_of(
            *right,
            base + constants_of(*left).len(),
        ) + seq![opcode_byte(op_code(op))],
    }
}

/// The line of each byte of `code_of(e, _)`.
pub open spec fn lines_of(e: Expr) -> Seq<usize>
    decreases e,
{
    match e {
        Expr::Literal { line, .. } => seq![line, line],
        Expr::Group { inner } => lines_of(*inner),
        Expr::Negate { operand, line } => lines_of(*operand) + seq![line],
        Expr::Binary { left, right, line, .. } => lines_of(*left) + lines_of(*right) + seq![line],
    }
}

pub proof fn lemma_code_lines_len(e: Expr, base: int)
    ensures
        code_of(e, base).len() == lines_of(e).len(),
        code_of(e, base).len() >= 2,
    decreases e,
{
    match e {
        Expr::Literal { .. } => {},
        Expr::Group { inner } => {
            lemma_code_lines_len(*inner, base);
        },
        Expr::Negate { operand, .. } => {
            lemma_code_lines_len(*operand, base);
        },
        Expr::Binary { left, right, .. } => {
            lemma_code_lines_len(*left, base);
            lemma_code_lines_len(*right, base + constants_of(*left).len());
        },
    }
}


/// The expression with its parentheses dropped: the same arithmetic.
pub open spec fn ungroup(e: Expr) -> Expr
    decreases e,
{
    match e {
        Expr::Literal { .. } => e,
        Expr::Group { inner } => ungroup(*inner),
        Expr::Negate { operand, line } => Expr::Negate { operand: Box::new(ungroup(*operand)), line },
        Expr::Binary { op, left, right, line } => Expr::Binary {
            op,
            left: Box::new(ungroup(*left)),
            right: Box::new(ungroup(*right)),
            line,
        },
    }
}

/// Dropping parentheses keeps the value.
pub proof fn lemma_ungroup_eval(e: Expr)
    ensures
        eval(ungroup(e)) == eval(e),
    decreases e,
{
    match e {
        Expr::Literal { .. } => {},
        Expr::Group { inner } => lemma_ungroup_eval(*inner),
        Expr::Negate { operand, .. } => lemma_ungroup_eval(*operand),
        Expr::Binary { left, right, .. } => {
            lemma_ungroup_eval(*left);
            lemma_ungroup_eval(*right);
        },
    }
}

} // verus!
