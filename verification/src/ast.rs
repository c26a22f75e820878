//! Syntax tree model for a CommonJS-style module.
//!
//! The tree holds exactly what the bundler's traversal reads: statement and
//! expression structure, identifier names and string-literal values. Node
//! kinds whose children the walker never visits are folded into the
//! variants that carry no children.

use vstd::prelude::*;

verus! {

/// A parsed top-level program: a list of statements and declarations.
pub struct Script {
    pub body: Vec<StmtListItem>,
}

/// An item in a statement list: either a statement or a declaration.
pub enum StmtListItem {
    Stmt(Stmt),
    Decl(Decl),
}

/// A declaration. Function declarations are the only kind.
pub enum Decl {
    Fun(Fun),
}

/// A function declaration or expression; only its body is traversed.
pub struct Fun {
    pub body: Vec<StmtListItem>,
}

/// One declarator of a `var` statement. Only a simple binding with an
/// initializer expression is traversed; destructuring patterns are skipped.
pub enum Dtor {
    Simple(Option<Expr>),
    Compound,
}

/// One `case` of a `switch` statement: an optional test expression
/// (absent for `default:`) and a statement list.
pub struct Case {
    pub test: Option<Expr>,
    pub body: Vec<StmtListItem>,
}

/// A statement. `Other` stands for the statement kinds the walker skips
/// entirely (empty statements, `break`, `continue`, `debugger`, `with`).
pub enum Stmt {
    Block(Vec<StmtListItem>),
    Var(Vec<Dtor>),
    Expr(Expr),
    If(Expr, Box<Stmt>, Option<Box<Stmt>>),
    Label(Box<Stmt>),
    Switch(Expr, Vec<Case>),
    Return(Option<Expr>),
    Throw(Expr),
    Try(Vec<StmtListItem>, Option<Vec<StmtListItem>>, Option<Vec<StmtListItem>>),
    While(Expr, Box<Stmt>),
    DoWhile(Box<Stmt>, Expr),
    For(Option<Expr>, Option<Expr>, Box<Stmt>),
    ForIn(Expr, Box<Stmt>),
    ForOf(Expr, Box<Stmt>),
    Other,
}

/// A property of an object literal; only its value side is traversed.
pub struct Prop {
    pub val: PropVal,
}

/// A property value: an initializer expression, or a getter or setter
/// whose body is a statement list.
pub enum PropVal {
    Init(Expr),
    Getter(Vec<StmtListItem>),
    Setter(Vec<StmtListItem>),
}

/// An expression. `Id` carries the identifier's name and `Str` the string
/// literal's value; those two, together with `Call`, are what the require
/// detector reads. `Other` stands for the leaf kinds with no children
/// (`this`, numbers, booleans, `null`, regular expressions, `new.target`).
pub enum Expr {
    Id(String),
    Str(String),
    Call(Box<Expr>, Vec<Expr>),
    Comma(Vec<Expr>),
    Arr(Vec<Option<Expr>>),
    Obj(Vec<Prop>),
    Fun(Fun),
    Unop(Box<Expr>),
    Binop(Box<Expr>, Box<Expr>),
    Logop(Box<Expr>, Box<Expr>),
    IncDec(Box<Expr>),
    Assign(Box<Expr>),
    Cond(Box<Expr>, Box<Expr>, Box<Expr>),
    Dot(Box<Expr>),
    Brack(Box<Expr>, Box<Expr>),
    Other,
}

/// True of a call expression whose callee is the bare identifier `require`
/// and whose first argument is a string literal: a statically analyzable
/// import.
pub open spec fn is_require_call(e: Expr) -> bool {
    &&& e is Call
    &&& (*e->Call_0) is Id
    &&& (*e->Call_0)->Id_0@ == "require"@
    &&& e->Call_1@.len() > 0
    &&& e->Call_1@[0] is Str
}

/// The import identifier discovered at a require call.
pub open spec fn require_arg(e: Expr) -> Seq<char>
    recommends
        is_require_call(e),
{
    e->Call_1@[0]->Str_0@
}

/// The sequence of import identifiers a require call contributes: one
/// element when it is statically analyzable, none otherwise.
pub open spec fn reqs_at(e: Expr) -> Seq<Seq<char>> {
    if is_require_call(e) {
        seq![require_arg(e)]
    } else {
        Seq::empty()
    }
}

/// All import identifiers discovered in a script, in left-to-right,
/// depth-first, preorder encounter order, duplicates preserved.
pub open spec fn reqs_of_script(s: Script) -> Seq<Seq<char>> {
    reqs_of_items(s.body@)
}

pub open spec fn reqs_of_items(items: Seq<StmtListItem>) -> Seq<Seq<char>>
    decreases items,
{
    if items.len() == 0 {
        Seq::empty()
    } else {
        reqs_of_items(items.drop_last()) + reqs_of_item(items.last())
    }
}

pub open spec fn reqs_of_item(item: StmtListItem) -> Seq<Seq<char>>
    decreases item,
{
    match item {
        StmtListItem::Stmt(s) => reqs_of_stmt(s),
        StmtListItem::Decl(d) => reqs_of_decl(d),
    }
}

pub open spec fn reqs_of_decl(d: Decl) -> Seq<Seq<char>>
    decreases d,
{
    match d {
        Decl::Fun(f) => reqs_of_fun(f),
    }
}

pub open spec fn reqs_of_fun(f: Fun) -> Seq<Seq<char>>
    decreases f,
{
    reqs_of_items(f.body@)
}

pub open spec fn reqs_of_opt_expr(e: Option<Expr>) -> Seq<Seq<char>>
    decreases e,
{
    match e {
        Option::Some(inner) => reqs_of_expr(inner),
        Option::None => Seq::empty(),
    }
}

pub open spec fn reqs_of_dtors(ds: Seq<Dtor>) -> Seq<Seq<char>>
    decreases ds,
{
    if ds.len() == 0 {
        Seq::empty()
    } else {
        reqs_of_dtors(ds.drop_last()) + reqs_of_dtor(ds.last())
    }
}

pub open spec fn reqs_of_dtor(d: Dtor) -> Seq<Seq<char>>
    decreases d,
{
    match d {
        Dtor::Simple(init) => reqs_of_opt_expr(init),
        Dtor::Compound => Seq::empty(),
    }
}

pub open spec fn reqs_of_cases(cs: Seq<Case>) -> Seq<Seq<char>>
    decreases cs,
{
    if cs.len() == 0 {
        Seq::empty()
    } else {
        reqs_of_cases(cs.drop_last()) + reqs_of_case(cs.last())
    }
}

pub open spec fn reqs_of_case(c: Case) -> Seq<Seq<char>>
    decreases c,
{
    reqs_of_opt_expr(c.test) + reqs_of_items(c.body@)
}

pub open spec fn reqs_of_stmt(s: Stmt) -> Seq<Seq<char>>
    decreases s,
{
    match s {
        Stmt::Block(items) => reqs_of_items(items@),
        Stmt::Var(decls) => reqs_of_dtors(decls@),
        Stmt::Expr(e) => reqs_of_expr(e),
        Stmt::If(cond, cons, alt) => reqs_of_expr(cond) + reqs_of_stmt(*cons)
            + reqs_of_opt_stmt(alt),
        Stmt::Label(body) => reqs_of_stmt(*body),
        Stmt::Switch(cond, cases) => reqs_of_expr(cond) + reqs_of_cases(cases@),
        Stmt::Return(arg) => reqs_of_opt_expr(arg),
        Stmt::Throw(arg) => reqs_of_expr(arg),
        Stmt::Try(block, caught, finally) => reqs_of_items(block@)
            + reqs_of_opt_items(caught) + reqs_of_opt_items(finally),
        Stmt::While(cond, body) => reqs_of_expr(cond) + reqs_of_stmt(*body),
        Stmt::DoWhile(body, cond) => reqs_of_stmt(*body) + reqs_of_expr(cond),
        Stmt::For(cond, update, body) => reqs_of_opt_expr(cond)
            + reqs_of_opt_expr(update) + reqs_of_stmt(*body),
        Stmt::ForIn(iterable, body) => reqs_of_expr(iterable) + reqs_of_stmt(*body),
        Stmt::ForOf(iterable, body) => reqs_of_expr(iterable) + reqs_of_stmt(*body),
        Stmt::Other => Seq::empty(),
    }
}

pub open spec fn reqs_of_opt_stmt(s: Option<Box<Stmt>>) -> Seq<Seq<char>>
    decreases s,
{
    match s {
        Option::Some(inner) => reqs_of_stmt(*inner),
        Option::None => Seq::empty(),
    }
}

pub open spec fn reqs_of_opt_items(items: Option<Vec<StmtListItem>>) -> Seq<Seq<char>>
    decreases items,
{
    match items {
        Option::Some(inner) => reqs_of_items(inner@),
        Option::None => Seq::empty(),
    }
}

pub open spec fn reqs_of_exprs(es: Seq<Expr>) -> Seq<Seq<char>>
    decreases es,
{
    if es.len() == 0 {
        Seq::empty()
    } else {
        reqs_of_exprs(es.drop_last()) + reqs_of_expr(es.last())
    }
}

pub open spec fn reqs_of_opt_exprs(es: Seq<Option<Expr>>) -> Seq<Seq<char>>
    decreases es,
{
    if es.len() == 0 {
        Seq::empty()
    } else {
        reqs_of_opt_exprs(es.drop_last()) + reqs_of_opt_expr(es.last())
    }
}

pub open spec fn reqs_of_props(ps: Seq<Prop>) -> Seq<Seq<char>>
    decreases ps,
{
    if ps.len() == 0 {
        Seq::empty()
    } else {
        reqs_of_props(ps.drop_last()) + reqs_of_prop(ps.last())
    }
}

pub open spec fn reqs_of_prop(p: Prop) -> Seq<Seq<char>>
    decreases p,
{
    match p.val {
        PropVal::Init(e) => reqs_of_expr(e),
        PropVal::Getter(body) => reqs_of_items(body@),
        PropVal::Setter(body) => reqs_of_items(body@),
    }
}

pub open spec fn reqs_of_expr(e: Expr) -> Seq<Seq<char>>
    decreases e,
{
    reqs_at(e) + match e {
        Expr::Id(_) => Seq::empty(),
        Expr::Str(_) => Seq::empty(),
        Expr::Call(callee, args) => reqs_of_expr(*callee) + reqs_of_exprs(args@),
        Expr::Comma(es) => reqs_of_exprs(es@),
        Expr::Arr(els) => reqs_of_opt_exprs(els@),
        Expr::Obj(props) => reqs_of_props(props@),
        Expr::Fun(f) => reqs_of_fun(f),
        Expr::Unop(inner) => reqs_of_expr(*inner),
        Expr::Binop(a, b) => reqs_of_expr(*a) + reqs_of_expr(*b),
        Expr::Logop(a, b) => reqs_of_expr(*a) + reqs_of_expr(*b),
        Expr::IncDec(inner) => reqs_of_expr(*inner),
        Expr::Assign(rhs) => reqs_of_expr(*rhs),
        Expr::Cond(cond, cons, alt) => reqs_of_expr(*cond) + reqs_of_expr(*cons)
            + reqs_of_expr(*alt),
        Expr::Dot(object) => reqs_of_expr(*object),
        Expr::Brack(object, property) => reqs_of_expr(*object) + reqs_of_expr(*property),
        Expr::Other => Seq::empty(),
    }
}

} // verus!
