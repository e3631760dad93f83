use fnfmt::config::{Config, TabSpaces};
use fnfmt::indent::Indent;
use fnfmt::render::{
    process_file, rewrite_block, rewrite_expr, rewrite_fn, rewrite_item, rewrite_param,
    rewrite_path, rewrite_signature, rewrite_stmt, rewrite_type,
};
use fnfmt::syntax::{Block, Expr, Function, Item, NodeKind, Param, Stmt, Type, UnsupportedNode};

fn tabs() -> Config {
    Config::default()
}

fn two_spaces() -> Config {
    Config { tab_spaces: TabSpaces::Spaces(2), max_width: 100 }
}

fn segs(names: &[&str]) -> Vec<String> {
    names.iter().map(|n| n.to_string()).collect()
}

fn path(names: &[&str]) -> Expr {
    Expr::Path { segments: segs(names) }
}

fn call(name: &str, args: Vec<Expr>) -> Expr {
    Expr::Call { callee: Box::new(path(&[name])), args }
}

fn call_stmt(name: &str) -> Stmt {
    Stmt::Expr { expr: call(name, vec![]), semi: true }
}

fn named(name: &str) -> Type {
    Type::Path { segments: segs(&[name]) }
}

fn func(name: &str, stmts: Vec<Stmt>) -> Function {
    Function {
        is_const: false,
        name: name.to_string(),
        params: vec![],
        return_type: None,
        body: Block { stmts },
    }
}

fn fails(kind: NodeKind) -> Result<String, UnsupportedNode> {
    Err(UnsupportedNode { kind })
}

#[test]
fn empty_body_is_one_line() {
    let f = func("f", vec![]);
    let mut ind = Indent::new(&tabs());
    assert_eq!(rewrite_fn(&f, &mut ind), Ok("fn f() { }".to_string()));
}

#[test]
fn const_function_with_one_statement_is_one_line() {
    let mut g = func("g", vec![call_stmt("h")]);
    g.is_const = true;
    let mut ind = Indent::new(&tabs());
    assert_eq!(rewrite_fn(&g, &mut ind), Ok("const fn g() { h(); }".to_string()));
}

#[test]
fn two_statements_take_a_line_each() {
    let f = func("f", vec![call_stmt("a"), call_stmt("b")]);
    let mut ind = Indent::new(&two_spaces());
    assert_eq!(rewrite_fn(&f, &mut ind), Ok("fn f() {\n  a();\n  b();\n}".to_string()));
}

#[test]
fn receiver_with_pointer_type() {
    let p = Param::Receiver {
        is_ref: true,
        is_mut: true,
        explicit_type: Some(Type::Pointer {
            is_const: false,
            is_mut: true,
            pointee: Box::new(named("T")),
        }),
    };
    assert_eq!(rewrite_param(&p), Ok("&mut self : *mut T".to_string()));
    let mut f = func("f", vec![]);
    f.params = vec![p];
    let mut ind = Indent::new(&tabs());
    assert_eq!(rewrite_fn(&f, &mut ind), Ok("fn f(&mut self : *mut T) { }".to_string()));
}

#[test]
fn single_block_statement_is_inline_and_its_lines_are_one_level_deep() {
    let inner = Expr::Block(Block { stmts: vec![call_stmt("a"), call_stmt("b")] });
    let f = func("f", vec![Stmt::Expr { expr: inner, semi: false }]);
    let mut ind = Indent::new(&tabs());
    assert_eq!(rewrite_fn(&f, &mut ind), Ok("fn f() { {\n\ta();\n\tb();\n} }".to_string()));
}

#[test]
fn nested_blocks_of_several_statements_indent_by_depth() {
    // The closing brace of a block takes no indentation of its own.
    let inner = Expr::Block(Block { stmts: vec![call_stmt("a"), call_stmt("b")] });
    let f = func("f", vec![Stmt::Expr { expr: inner, semi: true }, call_stmt("c")]);
    let mut ind = Indent::new(&two_spaces());
    assert_eq!(
        rewrite_fn(&f, &mut ind),
        Ok("fn f() {\n  {\n    a();\n    b();\n}\n  c();\n}".to_string())
    );
}

#[test]
fn every_line_of_a_block_starts_with_the_indentation_of_its_depth() {
    let b = Block { stmts: vec![call_stmt("a"), call_stmt("b"), call_stmt("c")] };
    let mut ind = Indent::new(&Config { tab_spaces: TabSpaces::Spaces(3), max_width: 100 });
    ind.enter();
    let text = rewrite_block(&b, &mut ind).unwrap();
    let lines: Vec<&str> = text.split('\n').collect();
    assert_eq!(lines, vec!["{", "      a();", "      b();", "      c();", "}"]);
}

#[test]
fn depth_is_the_same_after_a_render() {
    let inner = Expr::Block(Block { stmts: vec![call_stmt("a"), call_stmt("b")] });
    let f = func("f", vec![Stmt::Expr { expr: inner, semi: true }, call_stmt("c")]);
    let mut ind = Indent::new(&tabs());
    assert_eq!(ind.depth(), 0);
    assert!(rewrite_fn(&f, &mut ind).is_ok());
    assert_eq!(ind.depth(), 0);
    ind.enter();
    ind.enter();
    assert!(rewrite_item(&Item::Function(f), &mut ind).is_ok());
    assert_eq!(ind.depth(), 2);
}

#[test]
fn depth_is_the_same_after_a_failure() {
    let inner = Expr::Block(Block { stmts: vec![call_stmt("a"), Stmt::Unsupported] });
    let f = func("f", vec![call_stmt("c"), Stmt::Expr { expr: inner, semi: true }]);
    let mut ind = Indent::new(&tabs());
    assert_eq!(rewrite_fn(&f, &mut ind), fails(NodeKind::Statement));
    assert_eq!(ind.depth(), 0);
    let mut second = String::new();
    ind.push_prefix(&mut second);
    assert_eq!(second, "");
}

#[test]
fn enter_and_leave_move_one_level() {
    let mut ind = Indent::new(&two_spaces());
    let mut out = String::from("x");
    ind.push_prefix(&mut out);
    assert_eq!(out, "x");
    ind.enter();
    ind.enter();
    ind.enter();
    assert_eq!(ind.depth(), 3);
    ind.push_prefix(&mut out);
    assert_eq!(out, "x      ");
    ind.leave();
    assert_eq!(ind.depth(), 2);
    let mut two = String::new();
    ind.push_prefix(&mut two);
    assert_eq!(two, "    ");
}

#[test]
fn path_segments_are_joined_by_double_colons() {
    assert_eq!(rewrite_path(&segs(&[])), "");
    assert_eq!(rewrite_path(&segs(&["a"])), "a");
    assert_eq!(rewrite_path(&segs(&["a", "b", "c"])), "a::b::c");
}

#[test]
fn pointer_qualifiers_are_written_independently() {
    let both = Type::Pointer { is_const: true, is_mut: true, pointee: Box::new(named("T")) };
    assert_eq!(rewrite_type(&both), Ok("*const mut T".to_string()));
    let neither = Type::Pointer { is_const: false, is_mut: false, pointee: Box::new(named("T")) };
    assert_eq!(rewrite_type(&neither), Ok("*T".to_string()));
    let nested = Type::Pointer {
        is_const: true,
        is_mut: false,
        pointee: Box::new(Type::Pointer {
            is_const: false,
            is_mut: true,
            pointee: Box::new(Type::Path { segments: segs(&["std", "ffi", "c_void"]) }),
        }),
    };
    assert_eq!(rewrite_type(&nested), Ok("*const *mut std::ffi::c_void".to_string()));
}

#[test]
fn call_arguments_are_joined_by_comma_and_space() {
    let mut ind = Indent::new(&tabs());
    let e = call("f", vec![path(&["a"]), call("g", vec![path(&["b", "c"])]), path(&["d"])]);
    assert_eq!(rewrite_expr(&e, false, &mut ind), Ok("f(a, g(b::c), d)".to_string()));
    assert_eq!(rewrite_expr(&e, true, &mut ind), Ok("f(a, g(b::c), d);".to_string()));
}

#[test]
fn callee_never_takes_the_semicolon() {
    let mut ind = Indent::new(&tabs());
    let e = Expr::Call { callee: Box::new(call("f", vec![])), args: vec![] };
    assert_eq!(rewrite_expr(&e, true, &mut ind), Ok("f()();".to_string()));
}

#[test]
fn path_expression_takes_the_semicolon() {
    let mut ind = Indent::new(&tabs());
    assert_eq!(rewrite_expr(&path(&["a", "b"]), true, &mut ind), Ok("a::b;".to_string()));
    assert_eq!(rewrite_expr(&path(&["a", "b"]), false, &mut ind), Ok("a::b".to_string()));
}

#[test]
fn block_expression_takes_no_semicolon() {
    let mut ind = Indent::new(&tabs());
    let e = Expr::Block(Block { stmts: vec![] });
    assert_eq!(rewrite_expr(&e, true, &mut ind), Ok("{ }".to_string()));
    let s = Stmt::Expr { expr: Expr::Block(Block { stmts: vec![call_stmt("a")] }), semi: true };
    assert_eq!(rewrite_stmt(&s, &mut ind), Ok("{ a(); }".to_string()));
}

#[test]
fn block_layout_goes_by_the_number_of_statements() {
    let mut ind = Indent::new(&tabs());
    assert_eq!(rewrite_block(&Block { stmts: vec![] }, &mut ind), Ok("{ }".to_string()));
    assert_eq!(
        rewrite_block(&Block { stmts: vec![call_stmt("a")] }, &mut ind),
        Ok("{ a(); }".to_string())
    );
    assert_eq!(
        rewrite_block(&Block { stmts: vec![call_stmt("a"), call_stmt("b")] }, &mut ind),
        Ok("{\n\ta();\n\tb();\n}".to_string())
    );
}

#[test]
fn signature_with_parameters_and_return_type() {
    let f = Function {
        is_const: true,
        name: "f".to_string(),
        params: vec![
            Param::Receiver { is_ref: true, is_mut: false, explicit_type: None },
            Param::Named { name: "x".to_string() },
            Param::Named { name: "y".to_string() },
        ],
        return_type: Some(Type::Pointer {
            is_const: true,
            is_mut: false,
            pointee: Box::new(named("T")),
        }),
        body: Block { stmts: vec![] },
    };
    assert_eq!(rewrite_signature(&f), Ok("const fn f(&self , x, y) -> *const T ".to_string()));
    let mut ind = Indent::new(&tabs());
    assert_eq!(
        rewrite_fn(&f, &mut ind),
        Ok("const fn f(&self , x, y) -> *const T { }".to_string())
    );
}

#[test]
fn nested_function_is_laid_out_at_the_depth_of_its_statement() {
    let inner = func("g", vec![call_stmt("a"), call_stmt("b")]);
    let f = func("f", vec![Stmt::Item(Item::Function(inner)), call_stmt("c")]);
    let mut ind = Indent::new(&tabs());
    assert_eq!(
        rewrite_fn(&f, &mut ind),
        Ok("fn f() {\n\tfn g() {\n\t\ta();\n\t\tb();\n}\n\tc();\n}".to_string())
    );
}

#[test]
fn items_of_a_file_follow_each_other_without_separator() {
    let items = vec![
        Item::Function(func("f", vec![])),
        Item::Function(func("g", vec![call_stmt("a"), call_stmt("b")])),
        Item::Function(func("h", vec![call_stmt("a")])),
    ];
    assert_eq!(
        process_file(&items, &two_spaces()),
        Ok("fn f() { }fn g() {\n  a();\n  b();\n}fn h() { a(); }".to_string())
    );
    assert_eq!(process_file(&vec![], &tabs()), Ok(String::new()));
}

#[test]
fn unsupported_item_fails() {
    let items = vec![Item::Function(func("f", vec![])), Item::Unsupported];
    assert_eq!(process_file(&items, &tabs()), fails(NodeKind::Item));
    let mut ind = Indent::new(&tabs());
    assert_eq!(rewrite_item(&Item::Unsupported, &mut ind), fails(NodeKind::Item));
    let f = func("f", vec![Stmt::Item(Item::Unsupported)]);
    assert_eq!(rewrite_fn(&f, &mut ind), fails(NodeKind::Item));
}

#[test]
fn unsupported_statement_fails() {
    let mut ind = Indent::new(&tabs());
    assert_eq!(rewrite_stmt(&Stmt::Unsupported, &mut ind), fails(NodeKind::Statement));
    let f = func("f", vec![call_stmt("a"), call_stmt("b"), Stmt::Unsupported]);
    assert_eq!(process_file(&vec![Item::Function(f)], &tabs()), fails(NodeKind::Statement));
}

#[test]
fn unsupported_expression_fails() {
    let mut ind = Indent::new(&tabs());
    assert_eq!(rewrite_expr(&Expr::Unsupported, true, &mut ind), fails(NodeKind::Expression));
    let arg = call("f", vec![path(&["a"]), Expr::Unsupported, path(&["b"])]);
    assert_eq!(rewrite_expr(&arg, false, &mut ind), fails(NodeKind::Expression));
    let callee = Expr::Call { callee: Box::new(Expr::Unsupported), args: vec![] };
    assert_eq!(rewrite_expr(&callee, false, &mut ind), fails(NodeKind::Expression));
}

#[test]
fn unsupported_type_fails() {
    assert_eq!(rewrite_type(&Type::Unsupported), fails(NodeKind::Type));
    let p = Type::Pointer { is_const: true, is_mut: false, pointee: Box::new(Type::Unsupported) };
    assert_eq!(rewrite_type(&p), fails(NodeKind::Type));
    let mut f = func("f", vec![]);
    f.return_type = Some(p);
    assert_eq!(rewrite_signature(&f), fails(NodeKind::Type));
    let r = Param::Receiver { is_ref: false, is_mut: false, explicit_type: Some(Type::Unsupported) };
    assert_eq!(rewrite_param(&r), fails(NodeKind::Type));
}

#[test]
fn unsupported_parameter_fails() {
    assert_eq!(rewrite_param(&Param::Unsupported), fails(NodeKind::Parameter));
    let mut f = func("f", vec![]);
    f.params = vec![Param::Named { name: "x".to_string() }, Param::Unsupported];
    let mut ind = Indent::new(&tabs());
    assert_eq!(rewrite_fn(&f, &mut ind), fails(NodeKind::Parameter));
}

#[test]
fn the_first_unsupported_node_in_writing_order_is_reported() {
    let mut f = func("f", vec![Stmt::Unsupported]);
    f.params = vec![Param::Unsupported];
    f.return_type = Some(Type::Unsupported);
    let mut ind = Indent::new(&tabs());
    assert_eq!(rewrite_fn(&f, &mut ind), fails(NodeKind::Parameter));
    f.params = vec![];
    assert_eq!(rewrite_fn(&f, &mut ind), fails(NodeKind::Type));
    f.return_type = None;
    assert_eq!(rewrite_fn(&f, &mut ind), fails(NodeKind::Statement));
    let b = Block { stmts: vec![Stmt::Expr { expr: Expr::Unsupported, semi: false }, Stmt::Unsupported] };
    assert_eq!(rewrite_block(&b, &mut ind), fails(NodeKind::Expression));
}

#[test]
fn failure_message_names_the_kind() {
    assert_eq!(UnsupportedNode { kind: NodeKind::Item }.message(), "unsupported item node");
    assert_eq!(UnsupportedNode { kind: NodeKind::Type }.message(), "unsupported type node");
    assert_eq!(NodeKind::Parameter.name(), "parameter");
    assert_eq!(NodeKind::Statement.name(), "statement");
    assert_eq!(NodeKind::Expression.name(), "expression");
}

#[test]
fn one_statement_stays_inline_whatever_its_width() {
    let long = "a_name_that_is_much_longer_than_the_width_that_was_configured";
    let f = func("f", vec![call_stmt(long)]);
    let cfg = Config { tab_spaces: TabSpaces::Tabs, max_width: 10 };
    assert_eq!(
        process_file(&vec![Item::Function(f)], &cfg),
        Ok(format!("fn f() {{ {long}(); }}"))
    );
}
