//! The syntax tree that the renderer consumes.
//!
//! Every tagged union has an `Unsupported` variant: it stands for any shape
//! of the source language that the renderer does not lay out. Rendering a
//! tree that holds one fails; nothing is ever left out silently.

use vstd::prelude::*;
use vstd::string::StringExecFns;

verus! {

/// The kind of a syntax node, as named in a diagnostic.
#[derive(Clone, Copy, Debug, PartialEq, Eq, Structural)]
pub enum NodeKind {
    Item,
    Parameter,
    Type,
    Statement,
    Expression,
}

/// A type as written in a signature.
#[derive(Debug)]
pub enum Type {
    /// A raw pointer. The two qualifiers are kept apart: neither excludes
    /// the other.
    Pointer { is_const: bool, is_mut: bool, pointee: Box<Type> },
    /// A path, as its segments in order.
    Path { segments: Vec<String> },
    Unsupported,
}

/// One parameter of a function.
#[derive(Debug)]
pub enum Param {
    /// The receiver, `self`.
    Receiver { is_ref: bool, is_mut: bool, explicit_type: Option<Type> },
    /// A binding by name. Its declared type is not part of the tree.
    Named { name: String },
    Unsupported,
}

/// A function definition.
#[derive(Debug)]
pub struct Function {
    pub is_const: bool,
    pub name: String,
    pub params: Vec<Param>,
    pub return_type: Option<Type>,
    pub body: Block,
}

/// A declaration, at the top of a file or inside a block.
#[derive(Debug)]
pub enum Item {
    Function(Function),
    Unsupported,
}

/// A sequence of statements delimited as a unit.
#[derive(Debug)]
pub struct Block {
    pub stmts: Vec<Stmt>,
}

/// One statement of a block.
#[derive(Debug)]
pub enum Stmt {
    Item(Item),
    Expr { expr: Expr, semi: bool },
    Unsupported,
}

/// An expression.
#[derive(Debug)]
pub enum Expr {
    Block(Block),
    Call { callee: Box<Expr>, args: Vec<Expr> },
    Path { segments: Vec<String> },
    Unsupported,
}

/// The failure of a rendering: the tree holds a node that the renderer does
/// not lay out.
#[derive(Clone, Copy, Debug, PartialEq, Eq, Structural)]
pub struct UnsupportedNode {
    /// The kind of the first such node, in the order in which the text is
    /// written.
    pub kind: NodeKind,
}

/// The word for a kind of node.
pub open spec fn kind_name(kind: NodeKind) -> Seq<char> {
    match kind {
        NodeKind::Item => "item"@,
        NodeKind::Parameter => "parameter"@,
        NodeKind::Type => "type"@,
        NodeKind::Statement => "statement"@,
        NodeKind::Expression => "expression"@,
    }
}

impl NodeKind {
    /// The word for this kind of node.
    pub fn name(&self) -> (r: &'static str)
        ensures
            r@ == kind_name(*self),
    {
        match self {
            NodeKind::Item => "item",
            NodeKind::Parameter => "parameter",
            NodeKind::Type => "type",
            NodeKind::Statement => "statement",
            NodeKind::Expression => "expression",
        }
    }
}

impl UnsupportedNode {
    /// The diagnostic for this failure: it names the kind of the node.
    pub fn message(&self) -> (r: String)
        ensures
            r@ == "unsupported "@ + kind_name(self.kind) + " node"@,
    {
        let mut r = String::from_str("unsupported ");
        r.append(self.kind.name());
        r.append(" node");
        r
    }
}

} // verus!
