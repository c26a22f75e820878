use minipack::ast::{Decl, Dtor, Expr, Fun, Prop, PropVal, Script, Stmt, StmtListItem};
use minipack::detect::{detect, detect_vars};

fn id(name: &str) -> Expr {
    Expr::Id(name.to_owned())
}

fn req(name: &str) -> Expr {
    Expr::Call(Box::new(id("require")), vec![Expr::Str(name.to_owned())])
}

fn expr_stmt(e: Expr) -> StmtListItem {
    StmtListItem::Stmt(Stmt::Expr(e))
}

fn var_stmt(decls: Vec<Dtor>) -> StmtListItem {
    StmtListItem::Stmt(Stmt::Var(decls))
}

#[test]
fn detects_var_require() {
    // var x = require('y')
    let script = Script { body: vec![var_stmt(vec![Dtor::Simple(Some(req("y")))])] };
    assert_eq!(detect(&script), vec!["y"]);
}

#[test]
fn detects_bare_require() {
    // require('y')
    let script = Script { body: vec![expr_stmt(req("y"))] };
    assert_eq!(detect(&script), vec!["y"]);
}

#[test]
fn detects_require_in_array_and_obj() {
    // [null,whatever(),{a:require('a')},,b,require('c')]
    let arr = Expr::Arr(vec![
        Some(Expr::Other),
        Some(Expr::Call(Box::new(id("whatever")), vec![])),
        Some(Expr::Obj(vec![Prop { val: PropVal::Init(req("a")) }])),
        None,
        Some(id("b")),
        Some(req("c")),
    ]);
    let script = Script { body: vec![expr_stmt(arr)] };
    assert_eq!(detect(&script), vec!["a", "c"]);
}

#[test]
fn detects_require_in_fn() {
    // var a = null
    // var b = function () {
    //     function c() { require('d') }
    //     require('e')
    // }, c = require('f')
    // null, require('g'), void require
    let inner_fn = Fun { body: vec![expr_stmt(req("d"))] };
    let outer_fn = Fun {
        body: vec![StmtListItem::Decl(Decl::Fun(inner_fn)), expr_stmt(req("e"))],
    };
    let script = Script {
        body: vec![
            var_stmt(vec![Dtor::Simple(Some(Expr::Other))]),
            var_stmt(vec![
                Dtor::Simple(Some(Expr::Fun(outer_fn))),
                Dtor::Simple(Some(req("f"))),
            ]),
            expr_stmt(Expr::Comma(vec![
                Expr::Other,
                req("g"),
                Expr::Unop(Box::new(id("require"))),
            ])),
        ],
    };
    assert_eq!(detect(&script), vec!["d", "e", "f", "g"]);
}

#[test]
fn detects_require_in_member_expression_object() {
    // require('util').inherits
    let script = Script { body: vec![expr_stmt(Expr::Dot(Box::new(req("util"))))] };
    assert_eq!(detect(&script), vec!["util"]);
}

#[test]
fn nested_require_discovered_once() {
    // require(require('x'))
    let nested = Expr::Call(Box::new(id("require")), vec![req("x")]);
    let script = Script { body: vec![expr_stmt(nested)] };
    assert_eq!(detect(&script), vec!["x"]);
}

#[test]
fn non_literal_argument_ignored() {
    // require(x)
    let call = Expr::Call(Box::new(id("require")), vec![id("x")]);
    let script = Script { body: vec![expr_stmt(call)] };
    assert_eq!(detect(&script), Vec::<String>::new());
}

#[test]
fn duplicates_preserved_in_order() {
    // require('x'); require('y'); require('x')
    let script = Script { body: vec![expr_stmt(req("x")), expr_stmt(req("y")), expr_stmt(req("x"))] };
    assert_eq!(detect(&script), vec!["x", "y", "x"]);
}

#[test]
fn walks_statement_kinds() {
    // if (require('a')) { require('b') } else { while (require('c')) require('d') }
    // switch (require('e')) { case require('f'): require('g') }
    // try { require('h') } catch (e) { require('i') } finally { require('j') }
    let if_stmt = Stmt::If(
        req("a"),
        Box::new(Stmt::Block(vec![expr_stmt(req("b"))])),
        Some(Box::new(Stmt::While(req("c"), Box::new(Stmt::Expr(req("d")))))),
    );
    let switch_stmt = Stmt::Switch(
        req("e"),
        vec![minipack::ast::Case { test: Some(req("f")), body: vec![expr_stmt(req("g"))] }],
    );
    let try_stmt = Stmt::Try(
        vec![expr_stmt(req("h"))],
        Some(vec![expr_stmt(req("i"))]),
        Some(vec![expr_stmt(req("j"))]),
    );
    let script = Script {
        body: vec![
            StmtListItem::Stmt(if_stmt),
            StmtListItem::Stmt(switch_stmt),
            StmtListItem::Stmt(try_stmt),
        ],
    };
    assert_eq!(detect(&script), vec!["a", "b", "c", "d", "e", "f", "g", "h", "i", "j"]);
}

#[test]
fn loop_heads_not_walked() {
    // for (var x = require('a'); require('b'); require('c')) require('d')
    // the head's own declarations are not walked, only condition and update
    let for_stmt = Stmt::For(Some(req("b")), Some(req("c")), Box::new(Stmt::Expr(req("d"))));
    let script = Script { body: vec![StmtListItem::Stmt(for_stmt)] };
    assert_eq!(detect(&script), vec!["b", "c", "d"]);
}

#[test]
fn detect_vars_scans_only_top_level_vars() {
    // var x = require('y'); require('z')
    let script = Script {
        body: vec![var_stmt(vec![Dtor::Simple(Some(req("y")))]), expr_stmt(req("z"))],
    };
    assert_eq!(detect_vars(&script), vec!["y"]);
    assert_eq!(detect(&script), vec!["y", "z"]);
}
