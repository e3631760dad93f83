//! The renderer: from a tree to its text.
//!
//! Every function returns the whole text of its node or the failure; none
//! returns part of a text. The functions that lay out statements take the
//! indentation state of the pass and hand it back as they found it.

use vstd::prelude::*;
use vstd::string::StringExecFns;
use crate::config::Config;
use crate::indent::Indent;
use crate::laws::{
    block_supported, expr_supported, file_supported, fn_supported, item_supported,
    lemma_args_fail, lemma_block_supported, lemma_expr_supported, lemma_file_fail,
    lemma_file_supported, lemma_fn_supported, lemma_item_supported, lemma_lines_fail,
    lemma_param_supported, lemma_params_fail, lemma_stmt_supported, lemma_type_supported,
    param_supported, stmt_supported, type_supported,
};
use crate::syntax::{Block, Expr, Function, Item, NodeKind, Param, Stmt, Type, UnsupportedNode};
use crate::text::{
    args_text, block_text, expr_text, file_text, fn_text, item_text, keyword, lines_text,
    param_text, params_text, path_text, separator, signature_text, stmt_text, type_text,
};

verus! {

/// `r` is what a renderer owes for a node whose text is `t`: that text, or
/// the failure that names the kind.
pub open spec fn rendered(r: Result<String, UnsupportedNode>, t: Result<Seq<char>, NodeKind>) -> bool {
    match t {
        Ok(s) => match r {
            Ok(o) => o@ == s,
            Err(_) => false,
        },
        Err(k) => match r {
            Ok(_) => false,
            Err(e) => e.kind == k,
        },
    }
}

/// The segments of a path joined by `::`.
pub fn rewrite_path(segments: &Vec<String>) -> (out: String)
    ensures
        out@ == path_text(segments@),
{
    let mut out = String::new();
    let mut i: usize = 0;
    proof {
        assert(segments@.take(0) =~= Seq::<String>::empty());
    }
    while i < segments.len()
        invariant
            i <= segments.len(),
            out@ == path_text(segments@.take(i as int)),
        decreases segments.len() - i,
    {
        let ghost before = out@;
        if i > 0 {
            out.append("::");
        }
        out.append(segments[i].as_str());
        proof {
            let next = segments@.take(i + 1);
            assert(next.drop_last() =~= segments@.take(i as int));
            assert(next.last() == segments@[i as int]);
            assert(out@ =~= before + separator(i == 0, "::"@) + segments@[i as int]@);
        }
        i += 1;
    }
    proof {
        assert(segments@.take(i as int) =~= segments@);
    }
    out
}

/// A type: a pointer with its qualifiers and its pointee, or a path.
pub fn rewrite_type(t: &Type) -> (r: Result<String, UnsupportedNode>)
    ensures
        rendered(r, type_text(*t)),
        r is Ok <==> type_supported(*t),
    decreases t,
{
    proof {
        lemma_type_supported(*t);
    }
    match t {
        Type::Pointer { is_const, is_mut, pointee } => {
            let inner = match rewrite_type(pointee) {
                Err(e) => {
                    return Err(e);
                },
                Ok(inner) => inner,
            };
            let mut out = String::from_str("*");
            if *is_const {
                out.append("const ");
            }
            if *is_mut {
                out.append("mut ");
            }
            out.append(inner.as_str());
            proof {
                assert(out@ =~= "*"@ + keyword(*is_const, "const "@) + keyword(*is_mut, "mut "@)
                    + inner@);
            }
            Ok(out)
        },
        Type::Path { segments } => Ok(rewrite_path(segments)),
        Type::Unsupported => Err(UnsupportedNode { kind: NodeKind::Type }),
    }
}

/// One parameter: the receiver with its type where one is written, or the
/// name of a binding.
pub fn rewrite_param(p: &Param) -> (r: Result<String, UnsupportedNode>)
    ensures
        rendered(r, param_text(*p)),
        r is Ok <==> param_supported(*p),
{
    proof {
        lemma_param_supported(*p);
    }
    match p {
        Param::Receiver { is_ref, is_mut, explicit_type } => {
            let mut out = String::new();
            if *is_ref {
                out.append("&");
            }
            if *is_mut {
                out.append("mut ");
            }
            out.append("self ");
            let ghost head = out@;
            proof {
                assert(head =~= keyword(*is_ref, "&"@) + keyword(*is_mut, "mut "@) + "self "@);
            }
            match explicit_type {
                None => Ok(out),
                Some(t) => match rewrite_type(t) {
                    Err(e) => Err(e),
                    Ok(tt) => {
                        out.append(": ");
                        out.append(tt.as_str());
                        Ok(out)
                    },
                },
            }
        },
        Param::Named { name } => Ok(name.clone()),
        Param::Unsupported => Err(UnsupportedNode { kind: NodeKind::Parameter }),
    }
}

/// The signature of a function, up to and with the space before its body.
pub fn rewrite_signature(f: &Function) -> (r: Result<String, UnsupportedNode>)
    ensures
        rendered(r, signature_text(*f)),
{
    let mut out = String::new();
    if f.is_const {
        out.append("const ");
    }
    out.append("fn ");
    out.append(f.name.as_str());
    out.append("(");
    let ghost open = out@;
    let mut i: usize = 0;
    proof {
        assert(f.params@.take(0) =~= Seq::<Param>::empty());
        assert(out@ =~= open + Seq::<char>::empty());
    }
    while i < f.params.len()
        invariant
            i <= f.params.len(),
            params_text(f.params@.take(i as int)) matches Ok(ps) && out@ == open + ps,
        decreases f.params.len() - i,
    {
        let ghost before = params_text(f.params@.take(i as int))->Ok_0;
        proof {
            let next = f.params@.take(i + 1);
            assert(next.drop_last() =~= f.params@.take(i as int));
            assert(next.last() == f.params@[i as int]);
        }
        match rewrite_param(&f.params[i]) {
            Err(e) => {
                proof {
                    lemma_params_fail(f.params@, i + 1);
                }
                return Err(e);
            },
            Ok(p) => {
                if i > 0 {
                    out.append(", ");
                }
                out.append(p.as_str());
                proof {
                    assert(out@ =~= open + (before + separator(i == 0, ", "@) + p@));
                }
            },
        }
        i += 1;
    }
    proof {
        assert(f.params@.take(i as int) =~= f.params@);
    }
    let ghost ps = params_text(f.params@)->Ok_0;
    out.append(")");
    let ghost head = out@;
    proof {
        assert(head =~= keyword(f.is_const, "const "@) + "fn "@ + f.name@ + "("@ + ps + ")"@);
    }
    match &f.return_type {
        None => {},
        Some(t) => match rewrite_type(t) {
            Err(e) => {
                return Err(e);
            },
            Ok(tt) => {
                out.append(" -> ");
                out.append(tt.as_str());
            },
        },
    }
    out.append(" ");
    Ok(out)
}

/// An expression: a block, a call or a path. `semi` asks for a semicolon
/// after a call or a path; a block never takes one.
#[verifier::loop_isolation(false)]
pub fn rewrite_expr(e: &Expr, semi: bool, ind: &mut Indent) -> (r: Result<String, UnsupportedNode>)
    requires
        old(ind).wf(),
    ensures
        final(ind).wf(),
        final(ind)@ == old(ind)@,
        rendered(r, expr_text(*e, semi, old(ind)@.unit, old(ind)@.depth)),
        r is Ok <==> expr_supported(*e),
    decreases e,
{
    proof {
        lemma_expr_supported(*e, semi, ind@.unit, ind@.depth);
    }
    let ghost start = ind@;
    match e {
        Expr::Block(b) => rewrite_block(b, ind),
        Expr::Call { callee, args } => {
            let mut out = match rewrite_expr(callee, false, ind) {
                Err(err) => {
                    return Err(err);
                },
                Ok(c) => c,
            };
            out.append("(");
            let ghost open = out@;
            let mut i: usize = 0;
            proof {
                assert(args@.take(0) =~= Seq::<Expr>::empty());
                assert(out@ =~= open + Seq::<char>::empty());
            }
            while i < args.len()
                invariant
                    i <= args.len(),
                    ind.wf(),
                    ind@ == start,
                    args_text(args@.take(i as int), start.unit, start.depth) matches Ok(a) && out@
                        == open + a,
                decreases args.len() - i,
            {
                let ghost before = args_text(args@.take(i as int), start.unit, start.depth)->Ok_0;
                proof {
                    let next = args@.take(i + 1);
                    assert(next.drop_last() =~= args@.take(i as int));
                    assert(next.last() == args@[i as int]);
                }
                match rewrite_expr(&args[i], false, ind) {
                    Err(err) => {
                        proof {
                            lemma_args_fail(args@, i + 1, start.unit, start.depth);
                        }
                        return Err(err);
                    },
                    Ok(a) => {
                        if i > 0 {
                            out.append(", ");
                        }
                        out.append(a.as_str());
                        proof {
                            assert(out@ =~= open + (before + separator(i == 0, ", "@) + a@));
                        }
                    },
                }
                i += 1;
            }
            proof {
                assert(args@.take(i as int) =~= args@);
            }
            let ghost list = args_text(args@, start.unit, start.depth)->Ok_0;
            out.append(")");
            if semi {
                out.append(";");
            }
            proof {
                let c = expr_text(**callee, false, start.unit, start.depth)->Ok_0;
                assert(out@ =~= c + "("@ + list + ")"@ + keyword(semi, ";"@));
            }
            Ok(out)
        },
        Expr::Path { segments } => {
            let mut out = rewrite_path(segments);
            if semi {
                out.append(";");
            }
            proof {
                assert(out@ =~= path_text(segments@) + keyword(semi, ";"@));
            }
            Ok(out)
        },
        Expr::Unsupported => Err(UnsupportedNode { kind: NodeKind::Expression }),
    }
}

/// A statement: an item, or an expression with or without its semicolon.
pub fn rewrite_stmt(s: &Stmt, ind: &mut Indent) -> (r: Result<String, UnsupportedNode>)
    requires
        old(ind).wf(),
    ensures
        final(ind).wf(),
        final(ind)@ == old(ind)@,
        rendered(r, stmt_text(*s, old(ind)@.unit, old(ind)@.depth)),
        r is Ok <==> stmt_supported(*s),
    decreases s,
{
    proof {
        lemma_stmt_supported(*s, ind@.unit, ind@.depth);
    }
    match s {
        Stmt::Item(i) => rewrite_item(i, ind),
        Stmt::Expr { expr, semi } => rewrite_expr(expr, *semi, ind),
        Stmt::Unsupported => Err(UnsupportedNode { kind: NodeKind::Statement }),
    }
}

/// A block. Without statements it is `{ }`; with one, that statement on the
/// same line between the braces; with more, one statement to a line, each
/// indented a level deeper than the block, and the closing brace on a line
/// of its own without indentation.
#[verifier::loop_isolation(false)]
pub fn rewrite_block(b: &Block, ind: &mut Indent) -> (r: Result<String, UnsupportedNode>)
    requires
        old(ind).wf(),
    ensures
        final(ind).wf(),
        final(ind)@ == old(ind)@,
        rendered(r, block_text(*b, old(ind)@.unit, old(ind)@.depth)),
        r is Ok <==> block_supported(*b),
    decreases b,
{
    proof {
        lemma_block_supported(*b, ind@.unit, ind@.depth);
    }
    let ghost start = ind@;
    let n: usize = b.stmts.len();
    if n == 0 {
        return Ok(String::from_str("{ }"));
    }
    if n == 1 {
        return match rewrite_stmt(&b.stmts[0], ind) {
            Err(e) => Err(e),
            Ok(s) => {
                let mut out = String::from_str("{ ");
                out.append(s.as_str());
                out.append(" }");
                Ok(out)
            },
        };
    }
    ind.enter();
    let ghost inner = ind@;
    let mut out = String::from_str("{\n");
    let mut i: usize = 0;
    proof {
        assert(b.stmts@.take(0) =~= Seq::<Stmt>::empty());
        assert(out@ =~= "{\n"@ + Seq::<char>::empty());
    }
    while i < n
        invariant
            n == b.stmts.len(),
            i <= n,
            ind.wf(),
            ind@ == inner,
            inner.unit == start.unit,
            inner.depth == start.depth + 1,
            lines_text(b.stmts@.take(i as int), inner.unit, inner.depth) matches Ok(l) && out@
                == "{\n"@ + l,
        decreases n - i,
    {
        let ghost before = lines_text(b.stmts@.take(i as int), inner.unit, inner.depth)->Ok_0;
        proof {
            let next = b.stmts@.take(i + 1);
            assert(next.drop_last() =~= b.stmts@.take(i as int));
            assert(next.last() == b.stmts@[i as int]);
        }
        match rewrite_stmt(&b.stmts[i], ind) {
            Err(e) => {
                proof {
                    lemma_lines_fail(b.stmts@, i + 1, inner.unit, inner.depth);
                }
                ind.leave();
                return Err(e);
            },
            Ok(s) => {
                let ghost at_line = out@;
                ind.push_prefix(&mut out);
                out.append(s.as_str());
                out.append("\n");
                proof {
                    assert(out@ =~= "{\n"@ + (before + crate::text::indent_text(
                        inner.unit,
                        inner.depth,
                    ) + s@ + "\n"@));
                }
            },
        }
        i += 1;
    }
    proof {
        assert(b.stmts@.take(i as int) =~= b.stmts@);
    }
    ind.leave();
    out.append("}");
    Ok(out)
}

/// An item: a function.
pub fn rewrite_item(i: &Item, ind: &mut Indent) -> (r: Result<String, UnsupportedNode>)
    requires
        old(ind).wf(),
    ensures
        final(ind).wf(),
        final(ind)@ == old(ind)@,
        rendered(r, item_text(*i, old(ind)@.unit, old(ind)@.depth)),
        r is Ok <==> item_supported(*i),
    decreases i,
{
    proof {
        lemma_item_supported(*i, ind@.unit, ind@.depth);
    }
    match i {
        Item::Function(f) => rewrite_fn(f, ind),
        Item::Unsupported => Err(UnsupportedNode { kind: NodeKind::Item }),
    }
}

/// A function: its signature, a space, its body.
pub fn rewrite_fn(f: &Function, ind: &mut Indent) -> (r: Result<String, UnsupportedNode>)
    requires
        old(ind).wf(),
    ensures
        final(ind).wf(),
        final(ind)@ == old(ind)@,
        rendered(r, fn_text(*f, old(ind)@.unit, old(ind)@.depth)),
        r is Ok <==> fn_supported(*f),
    decreases f,
{
    proof {
        lemma_fn_supported(*f, ind@.unit, ind@.depth);
    }
    let mut out = match rewrite_signature(f) {
        Err(e) => {
            return Err(e);
        },
        Ok(sig) => sig,
    };
    match rewrite_block(&f.body, ind) {
        Err(e) => Err(e),
        Ok(body) => {
            out.append(body.as_str());
            Ok(out)
        },
    }
}

/// The items of a file in their order, each from depth 0, with nothing
/// between one and the next.
pub fn process_file(items: &Vec<Item>, cfg: &Config) -> (r: Result<String, UnsupportedNode>)
    ensures
        rendered(r, file_text(items@, cfg.unit())),
        r is Ok <==> file_supported(items@),
{
    proof {
        lemma_file_supported(items@, cfg.unit());
    }
    let mut ind = Indent::new(cfg);
    let mut out = String::new();
    let mut i: usize = 0;
    proof {
        assert(items@.take(0) =~= Seq::<Item>::empty());
    }
    while i < items.len()
        invariant
            i <= items.len(),
            ind.wf(),
            ind@.unit == cfg.unit(),
            ind@.depth == 0,
            file_text(items@.take(i as int), cfg.unit()) matches Ok(t) && out@ == t,
        decreases items.len() - i,
    {
        proof {
            let next = items@.take(i + 1);
            assert(next.drop_last() =~= items@.take(i as int));
            assert(next.last() == items@[i as int]);
        }
        match rewrite_item(&items[i], &mut ind) {
            Err(e) => {
                proof {
                    lemma_file_fail(items@, i + 1, cfg.unit());
                }
                return Err(e);
            },
            Ok(t) => {
                out.append(t.as_str());
            },
        }
        i += 1;
    }
    proof {
        assert(items@.take(i as int) =~= items@);
    }
    Ok(out)
}

} // verus!
