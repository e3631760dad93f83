//! The text of a tree, as mathematics.
//!
//! Each function gives the characters that a node is laid out as, or the
//! kind of the first node that cannot be laid out. `unit` is the indent
//! unit and `depth` the number of enclosing blocks that are laid out over
//! several lines.

use vstd::prelude::*;
use crate::syntax::{Block, Expr, Function, Item, NodeKind, Param, Stmt, Type};

verus! {

/// `unit` repeated `depth` times.
pub open spec fn indent_text(unit: Seq<char>, depth: nat) -> Seq<char>
    decreases depth,
{
    if depth == 0 {
        Seq::empty()
    } else {
        indent_text(unit, (depth - 1) as nat) + unit
    }
}

/// `word` if `present`, else nothing.
pub open spec fn keyword(present: bool, word: Seq<char>) -> Seq<char> {
    if present {
        word
    } else {
        Seq::empty()
    }
}

/// `sep` unless `first`.
pub open spec fn separator(first: bool, sep: Seq<char>) -> Seq<char> {
    if first {
        Seq::empty()
    } else {
        sep
    }
}

/// The segments joined by `::`.
pub open spec fn path_text(segments: Seq<String>) -> Seq<char>
    decreases segments.len(),
{
    if segments.len() == 0 {
        Seq::empty()
    } else {
        path_text(segments.drop_last()) + separator(segments.len() == 1, "::"@)
            + segments.last()@
    }
}

pub open spec fn type_text(t: Type) -> Result<Seq<char>, NodeKind>
    decreases t,
{
    match t {
        Type::Pointer { is_const, is_mut, pointee } => match type_text(*pointee) {
            Ok(p) => Ok("*"@ + keyword(is_const, "const "@) + keyword(is_mut, "mut "@) + p),
            Err(k) => Err(k),
        },
        Type::Path { segments } => Ok(path_text(segments@)),
        Type::Unsupported => Err(NodeKind::Type),
    }
}

pub open spec fn param_text(p: Param) -> Result<Seq<char>, NodeKind> {
    match p {
        Param::Receiver { is_ref, is_mut, explicit_type } => {
            let head = keyword(is_ref, "&"@) + keyword(is_mut, "mut "@) + "self "@;
            match explicit_type {
                None => Ok(head),
                Some(t) => match type_text(t) {
                    Ok(tt) => Ok(head + ": "@ + tt),
                    Err(k) => Err(k),
                },
            }
        },
        Param::Named { name } => Ok(name@),
        Param::Unsupported => Err(NodeKind::Parameter),
    }
}

/// The parameters joined by `, `; the first that fails decides.
pub open spec fn params_text(params: Seq<Param>) -> Result<Seq<char>, NodeKind>
    decreases params.len(),
{
    if params.len() == 0 {
        Ok(Seq::empty())
    } else {
        match params_text(params.drop_last()) {
            Err(k) => Err(k),
            Ok(before) => match param_text(params.last()) {
                Err(k) => Err(k),
                Ok(p) => Ok(before + separator(params.len() == 1, ", "@) + p),
            },
        }
    }
}

pub open spec fn expr_text(e: Expr, semi: bool, unit: Seq<char>, depth: nat) -> Result<
    Seq<char>,
    NodeKind,
>
    decreases e, 0nat,
{
    match e {
        Expr::Block(b) => block_text(b, unit, depth),
        Expr::Call { callee, args } => match expr_text(*callee, false, unit, depth) {
            Err(k) => Err(k),
            Ok(c) => match args_text(args@, unit, depth) {
                Err(k) => Err(k),
                Ok(a) => Ok(c + "("@ + a + ")"@ + keyword(semi, ";"@)),
            },
        },
        Expr::Path { segments } => Ok(path_text(segments@) + keyword(semi, ";"@)),
        Expr::Unsupported => Err(NodeKind::Expression),
    }
}

/// The arguments of a call joined by `, `; the first that fails decides.
pub open spec fn args_text(args: Seq<Expr>, unit: Seq<char>, depth: nat) -> Result<
    Seq<char>,
    NodeKind,
>
    decreases args, 1nat,
{
    if args.len() == 0 {
        Ok(Seq::empty())
    } else {
        match args_text(args.drop_last(), unit, depth) {
            Err(k) => Err(k),
            Ok(before) => match expr_text(args.last(), false, unit, depth) {
                Err(k) => Err(k),
                Ok(a) => Ok(before + separator(args.len() == 1, ", "@) + a),
            },
        }
    }
}

pub open spec fn stmt_text(s: Stmt, unit: Seq<char>, depth: nat) -> Result<Seq<char>, NodeKind>
    decreases s, 0nat,
{
    match s {
        Stmt::Item(i) => item_text(i, unit, depth),
        Stmt::Expr { expr, semi } => expr_text(expr, semi, unit, depth),
        Stmt::Unsupported => Err(NodeKind::Statement),
    }
}

/// One line for each statement: `unit` repeated `depth` times, the
/// statement, a newline. The first statement that fails decides.
pub open spec fn lines_text(stmts: Seq<Stmt>, unit: Seq<char>, depth: nat) -> Result<
    Seq<char>,
    NodeKind,
>
    decreases stmts, 1nat,
{
    if stmts.len() == 0 {
        Ok(Seq::empty())
    } else {
        match lines_text(stmts.drop_last(), unit, depth) {
            Err(k) => Err(k),
            Ok(before) => match stmt_text(stmts.last(), unit, depth) {
                Err(k) => Err(k),
                Ok(s) => Ok(before + indent_text(unit, depth) + s + "\n"@),
            },
        }
    }
}

/// A block on one line where it holds at most one statement, else one
/// statement to a line, a level deeper than `depth`.
pub open spec fn block_text(b: Block, unit: Seq<char>, depth: nat) -> Result<Seq<char>, NodeKind>
    decreases b, 2nat,
{
    if b.stmts@.len() == 0 {
        Ok("{ }"@)
    } else if b.stmts@.len() == 1 {
        match stmt_text(b.stmts@[0], unit, depth) {
            Err(k) => Err(k),
            Ok(s) => Ok("{ "@ + s + " }"@),
        }
    } else {
        match lines_text(b.stmts@, unit, depth + 1) {
            Err(k) => Err(k),
            Ok(lines) => Ok("{\n"@ + lines + "}"@),
        }
    }
}

pub open spec fn item_text(i: Item, unit: Seq<char>, depth: nat) -> Result<Seq<char>, NodeKind>
    decreases i, 1nat,
{
    match i {
        Item::Function(f) => fn_text(f, unit, depth),
        Item::Unsupported => Err(NodeKind::Item),
    }
}

/// The signature up to and with the space before the body.
pub open spec fn signature_text(f: Function) -> Result<Seq<char>, NodeKind> {
    match params_text(f.params@) {
        Err(k) => Err(k),
        Ok(ps) => {
            let head = keyword(f.is_const, "const "@) + "fn "@ + f.name@ + "("@ + ps + ")"@;
            match f.return_type {
                None => Ok(head + " "@),
                Some(t) => match type_text(t) {
                    Err(k) => Err(k),
                    Ok(tt) => Ok(head + " -> "@ + tt + " "@),
                },
            }
        },
    }
}

pub open spec fn fn_text(f: Function, unit: Seq<char>, depth: nat) -> Result<Seq<char>, NodeKind>
    decreases f, 0nat,
{
    match signature_text(f) {
        Err(k) => Err(k),
        Ok(sig) => match block_text(f.body, unit, depth) {
            Err(k) => Err(k),
            Ok(body) => Ok(sig + body),
        },
    }
}

/// The items of a file, each laid out at depth 0, one after the other with
/// nothing between them. The first item that fails decides.
pub open spec fn file_text(items: Seq<Item>, unit: Seq<char>) -> Result<Seq<char>, NodeKind>
    decreases items.len(),
{
    if items.len() == 0 {
        Ok(Seq::empty())
    } else {
        match file_text(items.drop_last(), unit) {
            Err(k) => Err(k),
            Ok(before) => match item_text(items.last(), unit, 0) {
                Err(k) => Err(k),
                Ok(i) => Ok(before + i),
            },
        }
    }
}

} // verus!
