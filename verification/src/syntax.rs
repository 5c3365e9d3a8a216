//! The part of a Python syntax tree that the checks read.

use vstd::prelude::*;

use crate::types::TypeId;

verus! {

/// A half-open range of byte offsets in a source text.
#[derive(Clone, Copy, PartialEq, Eq, Structural, Debug)]
pub struct TextRange {
    pub start: u32,
    pub end: u32,
}

/// A comparison operator; the ordering operators are not told apart.
#[derive(Clone, Copy, PartialEq, Eq, Structural, Debug)]
pub enum CmpOp {
    Eq,
    NotEq,
    Is,
    IsNot,
    In,
    NotIn,
    Order,
}

/// What a node of the tree is. The comments name its children, in source order.
#[derive(Debug)]
pub enum NodeKind {
    // -- statements
    /// `return`: the value, if there is one.
    Return,
    /// A function definition: decorators, parameters, annotations, then the body.
    FunctionDef,
    /// A class definition: decorators, bases, then the body.
    ClassDef,
    /// `assert`: the test, then the message.
    Assert,
    /// An expression statement: the expression.
    ExprStmt,
    /// `if`: the test, the body, then the `ElifElse` clauses.
    If,
    /// An `elif` or `else` clause: the test of an `elif`, then the body.
    ElifElse { has_test: bool },
    /// `while`: the test, the body, the statements of its `else`.
    While,
    /// Any other statement, exception handler, match case or pattern.
    OtherStmt,
    // -- expressions
    /// `and` / `or`: the operands.
    BoolOp,
    /// `not`: the operand.
    Not,
    /// A lambda: defaults, then the body.
    Lambda,
    /// `body if test else orelse`, in that order.
    Ternary,
    /// A (chained) comparison: the operands.
    Compare(Vec<CmpOp>),
    /// A call: the callee, then the arguments; `keywords` of them are keyword arguments.
    Call { keywords: usize },
    /// `yield`: the value, if there is one.
    Yield,
    /// `yield from`: the delegate.
    YieldFrom,
    /// A name.
    Name(String),
    /// An attribute access: the object.
    Attribute(String),
    /// A subscript: the object, then the index.
    Subscript,
    /// A tuple display: the elements.
    Tuple,
    NumberLiteral,
    StringLiteral,
    /// One `for` clause of a comprehension: target, iterable, then the conditions.
    Comprehension,
    /// Any other expression: its operands.
    OtherExpr,
}

/// A node of the syntax tree.
#[derive(Debug)]
pub struct Node {
    pub kind: NodeKind,
    /// Where the node stands.
    pub range: TextRange,
    /// The same, with the parentheses around an operand.
    pub outer: TextRange,
    /// The type inferred for an expression in its scope, where there is one.
    pub ty: Option<TypeId>,
    /// The type inferred for the leaf of a condition in the condition's own region.
    pub region_ty: Option<TypeId>,
    pub children: Vec<Node>,
}

} // verus!
