//! What holds of every rendering.

use vstd::prelude::*;
use crate::syntax::{Block, Expr, Function, Item, NodeKind, Param, Stmt, Type};
use crate::text::{
    args_text, block_text, expr_text, file_text, fn_text, indent_text, item_text, lines_text,
    param_text, params_text, signature_text, stmt_text, type_text,
};

verus! {

/// A parameter list whose first `n` parameters cannot be laid out cannot be
/// laid out, and fails as they do.
pub proof fn lemma_params_fail(params: Seq<Param>, n: int)
    requires
        0 <= n <= params.len(),
        params_text(params.take(n)) is Err,
    ensures
        params_text(params) == params_text(params.take(n)),
    decreases params.len(),
{
    if n == params.len() {
        assert(params.take(n) =~= params);
    } else {
        assert(params.drop_last().take(n) =~= params.take(n));
        lemma_params_fail(params.drop_last(), n);
    }
}

/// An argument list whose first `n` arguments cannot be laid out cannot be
/// laid out, and fails as they do.
pub proof fn lemma_args_fail(args: Seq<Expr>, n: int, unit: Seq<char>, depth: nat)
    requires
        0 <= n <= args.len(),
        args_text(args.take(n), unit, depth) is Err,
    ensures
        args_text(args, unit, depth) == args_text(args.take(n), unit, depth),
    decreases args.len(),
{
    if n == args.len() {
        assert(args.take(n) =~= args);
    } else {
        assert(args.drop_last().take(n) =~= args.take(n));
        lemma_args_fail(args.drop_last(), n, unit, depth);
    }
}

/// Statements whose first `n` cannot be laid out cannot be laid out, and
/// fail as they do.
pub proof fn lemma_lines_fail(stmts: Seq<Stmt>, n: int, unit: Seq<char>, depth: nat)
    requires
        0 <= n <= stmts.len(),
        lines_text(stmts.take(n), unit, depth) is Err,
    ensures
        lines_text(stmts, unit, depth) == lines_text(stmts.take(n), unit, depth),
    decreases stmts.len(),
{
    if n == stmts.len() {
        assert(stmts.take(n) =~= stmts);
    } else {
        assert(stmts.drop_last().take(n) =~= stmts.take(n));
        lemma_lines_fail(stmts.drop_last(), n, unit, depth);
    }
}

/// A file whose first `n` items cannot be laid out cannot be laid out, and
/// fails as they do.
pub proof fn lemma_file_fail(items: Seq<Item>, n: int, unit: Seq<char>)
    requires
        0 <= n <= items.len(),
        file_text(items.take(n), unit) is Err,
    ensures
        file_text(items, unit) == file_text(items.take(n), unit),
    decreases items.len(),
{
    if n == items.len() {
        assert(items.take(n) =~= items);
    } else {
        assert(items.drop_last().take(n) =~= items.take(n));
        lemma_file_fail(items.drop_last(), n, unit);
    }
}

/// A type that holds no unsupported node.
pub open spec fn type_supported(t: Type) -> bool
    decreases t,
{
    match t {
        Type::Pointer { is_const, is_mut, pointee } => type_supported(*pointee),
        Type::Path { segments } => true,
        Type::Unsupported => false,
    }
}

/// A parameter that holds no unsupported node.
pub open spec fn param_supported(p: Param) -> bool {
    match p {
        Param::Receiver { is_ref, is_mut, explicit_type } => match explicit_type {
            None => true,
            Some(t) => type_supported(t),
        },
        Param::Named { name } => true,
        Param::Unsupported => false,
    }
}

/// An expression that holds no unsupported node.
pub open spec fn expr_supported(e: Expr) -> bool
    decreases e,
{
    match e {
        Expr::Block(b) => block_supported(b),
        Expr::Call { callee, args } => expr_supported(*callee) && forall|i: int|
            0 <= i < args@.len() ==> expr_supported(#[trigger] args@[i]),
        Expr::Path { segments } => true,
        Expr::Unsupported => false,
    }
}

/// A statement that holds no unsupported node.
pub open spec fn stmt_supported(s: Stmt) -> bool
    decreases s,
{
    match s {
        Stmt::Item(i) => item_supported(i),
        Stmt::Expr { expr, semi } => expr_supported(expr),
        Stmt::Unsupported => false,
    }
}

/// A block that holds no unsupported node.
pub open spec fn block_supported(b: Block) -> bool
    decreases b,
{
    forall|i: int| 0 <= i < b.stmts@.len() ==> stmt_supported(#[trigger] b.stmts@[i])
}

/// An item that holds no unsupported node.
pub open spec fn item_supported(i: Item) -> bool
    decreases i,
{
    match i {
        Item::Function(f) => fn_supported(f),
        Item::Unsupported => false,
    }
}

/// A function that holds no unsupported node.
pub open spec fn fn_supported(f: Function) -> bool
    decreases f,
{
    &&& forall|i: int| 0 <= i < f.params@.len() ==> param_supported(#[trigger] f.params@[i])
    &&& match f.return_type {
        None => true,
        Some(t) => type_supported(t),
    }
    &&& block_supported(f.body)
}

/// A file none of whose items holds an unsupported node.
pub open spec fn file_supported(items: Seq<Item>) -> bool {
    forall|i: int| 0 <= i < items.len() ==> item_supported(#[trigger] items[i])
}

/// A type has a text exactly where it holds no unsupported node.
pub proof fn lemma_type_supported(t: Type)
    ensures
        type_text(t) is Ok <==> type_supported(t),
    decreases t,
{
    match t {
        Type::Pointer { is_const, is_mut, pointee } => lemma_type_supported(*pointee),
        _ => {},
    }
}

/// A parameter has a text exactly where it holds no unsupported node.
pub proof fn lemma_param_supported(p: Param)
    ensures
        param_text(p) is Ok <==> param_supported(p),
{
    match p {
        Param::Receiver { is_ref, is_mut, explicit_type } => match explicit_type {
            Some(t) => lemma_type_supported(t),
            None => {},
        },
        _ => {},
    }
}

/// A parameter list has a text exactly where none of its parameters holds
/// an unsupported node.
pub proof fn lemma_params_supported(params: Seq<Param>)
    ensures
        params_text(params) is Ok <==> forall|i: int|
            0 <= i < params.len() ==> param_supported(#[trigger] params[i]),
    decreases params.len(),
{
    if params.len() > 0 {
        let front = params.drop_last();
        lemma_params_supported(front);
        lemma_param_supported(params.last());
        assert(forall|i: int| 0 <= i < front.len() ==> front[i] == params[i]);
        if params_text(params) is Ok {
            assert forall|i: int| 0 <= i < params.len() implies param_supported(
                #[trigger] params[i],
            ) by {
                if i < front.len() {
                    assert(param_supported(front[i]));
                }
            }
        } else if params_text(front) is Err {
            let j = choose|j: int| 0 <= j < front.len() && !param_supported(#[trigger] front[j]);
            assert(!param_supported(params[j]));
        }
    }
}

/// An expression has a text exactly where it holds no unsupported node.
pub proof fn lemma_expr_supported(e: Expr, semi: bool, unit: Seq<char>, depth: nat)
    ensures
        expr_text(e, semi, unit, depth) is Ok <==> expr_supported(e),
    decreases e, 0nat,
{
    match e {
        Expr::Block(b) => lemma_block_supported(b, unit, depth),
        Expr::Call { callee, args } => {
            lemma_expr_supported(*callee, false, unit, depth);
            lemma_args_supported(args@, unit, depth);
        },
        _ => {},
    }
}

/// An argument list has a text exactly where none of its arguments holds an
/// unsupported node.
pub proof fn lemma_args_supported(args: Seq<Expr>, unit: Seq<char>, depth: nat)
    ensures
        args_text(args, unit, depth) is Ok <==> forall|i: int|
            0 <= i < args.len() ==> expr_supported(#[trigger] args[i]),
    decreases args, 1nat,
{
    if args.len() > 0 {
        let front = args.drop_last();
        lemma_args_supported(front, unit, depth);
        lemma_expr_supported(args.last(), false, unit, depth);
        assert(forall|i: int| 0 <= i < front.len() ==> front[i] == args[i]);
        if args_text(args, unit, depth) is Ok {
            assert forall|i: int| 0 <= i < args.len() implies expr_supported(
                #[trigger] args[i],
            ) by {
                if i < front.len() {
                    assert(expr_supported(front[i]));
                }
            }
        } else if args_text(front, unit, depth) is Err {
            let j = choose|j: int| 0 <= j < front.len() && !expr_supported(#[trigger] front[j]);
            assert(!expr_supported(args[j]));
        }
    }
}

/// A statement has a text exactly where it holds no unsupported node.
pub proof fn lemma_stmt_supported(s: Stmt, unit: Seq<char>, depth: nat)
    ensures
        stmt_text(s, unit, depth) is Ok <==> stmt_supported(s),
    decreases s, 0nat,
{
    match s {
        Stmt::Item(i) => lemma_item_supported(i, unit, depth),
        Stmt::Expr { expr, semi } => lemma_expr_supported(expr, semi, unit, depth),
        Stmt::Unsupported => {},
    }
}

/// Statements have their lines exactly where none of them holds an
/// unsupported node.
pub proof fn lemma_lines_supported(stmts: Seq<Stmt>, unit: Seq<char>, depth: nat)
    ensures
        lines_text(stmts, unit, depth) is Ok <==> forall|i: int|
            0 <= i < stmts.len() ==> stmt_supported(#[trigger] stmts[i]),
    decreases stmts, 1nat,
{
    if stmts.len() > 0 {
        let front = stmts.drop_last();
        lemma_lines_supported(front, unit, depth);
        lemma_stmt_supported(stmts.last(), unit, depth);
        assert(forall|i: int| 0 <= i < front.len() ==> front[i] == stmts[i]);
        if lines_text(stmts, unit, depth) is Ok {
            assert forall|i: int| 0 <= i < stmts.len() implies stmt_supported(
                #[trigger] stmts[i],
            ) by {
                if i < front.len() {
                    assert(stmt_supported(front[i]));
                }
            }
        } else if lines_text(front, unit, depth) is Err {
            let j = choose|j: int| 0 <= j < front.len() && !stmt_supported(#[trigger] front[j]);
            assert(!stmt_supported(stmts[j]));
        }
    }
}

/// A block has a text exactly where it holds no unsupported node.
pub proof fn lemma_block_supported(b: Block, unit: Seq<char>, depth: nat)
    ensures
        block_text(b, unit, depth) is Ok <==> block_supported(b),
    decreases b, 2nat,
{
    if b.stmts@.len() == 1 {
        lemma_stmt_supported(b.stmts@[0], unit, depth);
    } else if b.stmts@.len() >= 2 {
        lemma_lines_supported(b.stmts@, unit, depth + 1);
    }
}

/// An item has a text exactly where it holds no unsupported node.
pub proof fn lemma_item_supported(i: Item, unit: Seq<char>, depth: nat)
    ensures
        item_text(i, unit, depth) is Ok <==> item_supported(i),
    decreases i, 1nat,
{
    match i {
        Item::Function(f) => lemma_fn_supported(f, unit, depth),
        Item::Unsupported => {},
    }
}

/// A function has a text exactly where it holds no unsupported node.
pub proof fn lemma_fn_supported(f: Function, unit: Seq<char>, depth: nat)
    ensures
        fn_text(f, unit, depth) is Ok <==> fn_supported(f),
    decreases f, 0nat,
{
    lemma_params_supported(f.params@);
    match f.return_type {
        Some(t) => lemma_type_supported(t),
        None => {},
    }
    lemma_block_supported(f.body, unit, depth);
    assert(signature_text(f) is Ok <==> (params_text(f.params@) is Ok && match f.return_type {
        None => true,
        Some(t) => type_text(t) is Ok,
    }));
}

/// A file has a text exactly where none of its items holds an unsupported
/// node.
pub proof fn lemma_file_supported(items: Seq<Item>, unit: Seq<char>)
    ensures
        file_text(items, unit) is Ok <==> file_supported(items),
    decreases items.len(),
{
    if items.len() > 0 {
        let front = items.drop_last();
        lemma_file_supported(front, unit);
        lemma_item_supported(items.last(), unit, 0);
        assert(forall|i: int| 0 <= i < front.len() ==> front[i] == items[i]);
        if file_text(items, unit) is Ok {
            assert forall|i: int| 0 <= i < items.len() implies item_supported(
                #[trigger] items[i],
            ) by {
                if i < front.len() {
                    assert(item_supported(front[i]));
                }
            }
        } else if file_text(front, unit) is Err {
            let j = choose|j: int| 0 <= j < front.len() && !item_supported(#[trigger] front[j]);
            assert(!item_supported(items[j]));
        }
    }
}

/// An indentation of `depth` levels is `depth` times as long as the unit.
pub proof fn lemma_indent_len(unit: Seq<char>, depth: nat)
    ensures
        indent_text(unit, depth).len() == depth * unit.len(),
    decreases depth,
{
    let d = depth as int;
    let n = unit.len() as int;
    if depth > 0 {
        lemma_indent_len(unit, (depth - 1) as nat);
        assert((d - 1) * n + n == d * n) by (nonlinear_arith);
    } else {
        assert(d * n == 0) by (nonlinear_arith)
            requires
                d == 0,
        ;
    }
}

/// The layout of a block goes by the number of its statements: none gives
/// `{ }`; one gives that statement between the braces, at the depth of the
/// block and without a line break of the block's own; more give an opening
/// line, the statements' lines a level deeper, and the closing brace.
pub proof fn lemma_block_layout(b: Block, unit: Seq<char>, depth: nat)
    ensures
        b.stmts@.len() == 0 ==> block_text(b, unit, depth) == Ok::<Seq<char>, NodeKind>("{ }"@),
        b.stmts@.len() == 1 ==> block_text(b, unit, depth) == match stmt_text(
            b.stmts@[0],
            unit,
            depth,
        ) {
            Ok(s) => Ok("{ "@ + s + " }"@),
            Err(k) => Err(k),
        },
        b.stmts@.len() >= 2 ==> block_text(b, unit, depth) == match lines_text(
            b.stmts@,
            unit,
            depth + 1,
        ) {
            Ok(l) => Ok("{\n"@ + l + "}"@),
            Err(k) => Err(k),
        },
{
}

/// Where the line of statement `i` starts among the lines of `stmts`: after
/// the lines of the statements before it.
pub open spec fn line_offset(stmts: Seq<Stmt>, i: int, unit: Seq<char>, depth: nat) -> int {
    match lines_text(stmts.take(i), unit, depth) {
        Ok(l) => l.len() as int,
        Err(_) => 0,
    }
}

/// The lines of the first `n` statements are the start of the lines of all
/// of them.
pub proof fn lemma_lines_prefix(stmts: Seq<Stmt>, n: int, unit: Seq<char>, depth: nat)
    requires
        0 <= n <= stmts.len(),
        lines_text(stmts, unit, depth) is Ok,
    ensures
        lines_text(stmts.take(n), unit, depth) is Ok,
        ({
            let p = lines_text(stmts.take(n), unit, depth)->Ok_0;
            let l = lines_text(stmts, unit, depth)->Ok_0;
            p.len() <= l.len() && l.subrange(0, p.len() as int) == p
        }),
    decreases stmts.len(),
{
    let l = lines_text(stmts, unit, depth)->Ok_0;
    if n == stmts.len() {
        assert(stmts.take(n) =~= stmts);
        assert(l.subrange(0, l.len() as int) =~= l);
    } else {
        let front = stmts.drop_last();
        assert(front.take(n) =~= stmts.take(n));
        lemma_lines_prefix(front, n, unit, depth);
        let p = lines_text(stmts.take(n), unit, depth)->Ok_0;
        let lf = lines_text(front, unit, depth)->Ok_0;
        assert(l.subrange(0, p.len() as int) =~= lf.subrange(0, p.len() as int));
    }
}

/// Among the lines of statements laid out at `depth`, the line of each
/// statement starts where the line before it ended, and holds the indent
/// unit exactly `depth` times, then the statement, then a newline.
pub proof fn lemma_line_indented(stmts: Seq<Stmt>, i: int, unit: Seq<char>, depth: nat)
    requires
        0 <= i < stmts.len(),
        lines_text(stmts, unit, depth) is Ok,
    ensures
        stmt_text(stmts[i], unit, depth) is Ok,
        ({
            let l = lines_text(stmts, unit, depth)->Ok_0;
            let s = stmt_text(stmts[i], unit, depth)->Ok_0;
            let p = indent_text(unit, depth);
            let at = line_offset(stmts, i, unit, depth);
            &&& 0 <= at
            &&& line_offset(stmts, i + 1, unit, depth) == at + p.len() + s.len() + 1
            &&& at + p.len() + s.len() + 1 <= l.len()
            &&& l.subrange(at, at + p.len()) == p
            &&& l.subrange(at + p.len(), at + p.len() + s.len()) == s
            &&& l[at + p.len() + s.len()] == '\n'
        }),
{
    lemma_lines_prefix(stmts, i + 1, unit, depth);
    let upto = stmts.take(i + 1);
    assert(upto.drop_last() =~= stmts.take(i));
    assert(upto.last() == stmts[i]);
    reveal_strlit("\n");
    let l = lines_text(stmts, unit, depth)->Ok_0;
    let q = lines_text(upto, unit, depth)->Ok_0;
    let before = lines_text(stmts.take(i), unit, depth)->Ok_0;
    let s = stmt_text(stmts[i], unit, depth)->Ok_0;
    let p = indent_text(unit, depth);
    let at = before.len() as int;
    assert(q == before + p + s + "\n"@);
    assert forall|j: int| 0 <= j < q.len() implies l[j] == q[j] by {
        assert(l.subrange(0, q.len() as int)[j] == l[j]);
    }
    assert(l.subrange(at, at + p.len()) =~= p);
    assert(l.subrange(at + p.len(), at + p.len() + s.len()) =~= s);
}

/// In the text of a block of two statements or more at `depth`, the line of
/// each statement starts right after a newline and holds the indent unit
/// exactly `depth + 1` times, then the statement as it is laid out a level
/// deeper, then a newline.
pub proof fn lemma_block_line_indented(b: Block, i: int, unit: Seq<char>, depth: nat)
    requires
        b.stmts@.len() >= 2,
        0 <= i < b.stmts@.len(),
        block_text(b, unit, depth) is Ok,
    ensures
        stmt_text(b.stmts@[i], unit, depth + 1) is Ok,
        ({
            let t = block_text(b, unit, depth)->Ok_0;
            let s = stmt_text(b.stmts@[i], unit, depth + 1)->Ok_0;
            let p = indent_text(unit, depth + 1);
            let at = 2 + line_offset(b.stmts@, i, unit, depth + 1);
            &&& 2 <= at
            &&& at + p.len() + s.len() + 1 < t.len()
            &&& t[at - 1] == '\n'
            &&& t.subrange(at, at + p.len()) == p
            &&& t.subrange(at + p.len(), at + p.len() + s.len()) == s
            &&& t[at + p.len() + s.len()] == '\n'
        }),
{
    let stmts = b.stmts@;
    let d = depth + 1;
    lemma_line_indented(stmts, i, unit, d);
    reveal_strlit("{\n");
    reveal_strlit("}");
    let t = block_text(b, unit, depth)->Ok_0;
    let l = lines_text(stmts, unit, d)->Ok_0;
    let s = stmt_text(stmts[i], unit, d)->Ok_0;
    let p = indent_text(unit, d);
    let off = line_offset(stmts, i, unit, d);
    assert(t == "{\n"@ + l + "}"@);
    assert("{\n"@.len() == 2);
    assert(t[1] == '\n');
    if i > 0 {
        lemma_line_indented(stmts, i - 1, unit, d);
    } else {
        assert(stmts.take(0) =~= Seq::<Stmt>::empty());
    }
    assert(t.subrange(2 + off, 2 + off + p.len()) =~= l.subrange(off, off + p.len()));
    assert(t.subrange(2 + off + p.len(), 2 + off + p.len() + s.len()) =~= l.subrange(
        off + p.len(),
        off + p.len() + s.len(),
    ));
}

} // verus!
