//! The operators of the intermediate representation, with the names they
//! carry in the textual IR dump.

use vstd::prelude::*;
use crate::ast::{BinOp, UnaryOp};

verus! {

/// An arithmetic, comparison or logical operator of the IR.
#[derive(Clone, Copy, Debug, PartialEq, Eq, Structural)]
pub enum IrOp {
    Add,
    Sub,
    Mul,
    Div,
    Rem,
    Pow,
    Eq,
    Ne,
    Lt,
    Le,
    Gt,
    Ge,
    And,
    Or,
    Neg,
    Not,
}

impl IrOp {
    /// The operator's name in the IR dump.
    pub open spec fn name_spec(self) -> Seq<char> {
        match self {
            IrOp::Add => "add"@,
            IrOp::Sub => "sub"@,
            IrOp::Mul => "mul"@,
            IrOp::Div => "div"@,
            IrOp::Rem => "rem"@,
            IrOp::Pow => "pow"@,
            IrOp::Eq => "eq"@,
            IrOp::Ne => "ne"@,
            IrOp::Lt => "lt"@,
            IrOp::Le => "le"@,
            IrOp::Gt => "gt"@,
            IrOp::Ge => "ge"@,
            IrOp::And => "and"@,
            IrOp::Or => "or"@,
            IrOp::Neg => "neg"@,
            IrOp::Not => "not"@,
        }
    }

    /// The operator's name in the IR dump (`add`, `lt`, `not`, ...).
    pub fn name(&self) -> (s: &'static str)
        ensures
            s@ == self.name_spec(),
    {
        match self {
            IrOp::Add => "add",
            IrOp::Sub => "sub",
            IrOp::Mul => "mul",
            IrOp::Div => "div",
            IrOp::Rem => "rem",
            IrOp::Pow => "pow",
            IrOp::Eq => "eq",
            IrOp::Ne => "ne",
            IrOp::Lt => "lt",
            IrOp::Le => "le",
            IrOp::Gt => "gt",
            IrOp::Ge => "ge",
            IrOp::And => "and",
            IrOp::Or => "or",
            IrOp::Neg => "neg",
            IrOp::Not => "not",
        }
    }

    /// The IR operator of a binary operator of the source language.
    pub open spec fn of_binary_spec(op: BinOp) -> IrOp {
        match op {
            BinOp::Add => IrOp::Add,
            BinOp::Sub => IrOp::Sub,
            BinOp::Mul => IrOp::Mul,
            BinOp::Div => IrOp::Div,
            BinOp::Rem => IrOp::Rem,
            BinOp::Pow => IrOp::Pow,
            BinOp::Eq => IrOp::Eq,
            BinOp::Ne => IrOp::Ne,
            BinOp::Lt => IrOp::Lt,
            BinOp::Le => IrOp::Le,
            BinOp::Gt => IrOp::Gt,
            BinOp::Ge => IrOp::Ge,
            BinOp::And => IrOp::And,
            BinOp::Or => IrOp::Or,
        }
    }

    /// The IR operator of a binary operator of the source language.
    pub fn of_binary(op: &BinOp) -> (r: IrOp)
        ensures
            r == Self::of_binary_spec(*op),
    {
        match op {
            BinOp::Add => IrOp::Add,
            BinOp::Sub => IrOp::Sub,
            BinOp::Mul => IrOp::Mul,
            BinOp::Div => IrOp::Div,
            BinOp::Rem => IrOp::Rem,
            BinOp::Pow => IrOp::Pow,
            BinOp::Eq => IrOp::Eq,
            BinOp::Ne => IrOp::Ne,
            BinOp::Lt => IrOp::Lt,
            BinOp::Le => IrOp::Le,
            BinOp::Gt => IrOp::Gt,
            BinOp::Ge => IrOp::Ge,
            BinOp::And => IrOp::And,
            BinOp::Or => IrOp::Or,
        }
    }

    /// The IR operator of a unary operator of the source language.
    pub fn of_unary(op: &UnaryOp) -> (r: IrOp)
        ensures
            r == (match *op {
                UnaryOp::Neg => IrOp::Neg,
                UnaryOp::Not => IrOp::Not,
            }),
    {
        match op {
            UnaryOp::Neg => IrOp::Neg,
            UnaryOp::Not => IrOp::Not,
        }
    }
}

} // verus!
