//! A generic depth-first syntax tree walker.
//!
//! The walker performs one full traversal of a [`Script`](crate::ast::Script),
//! invoking registered hooks at entry and exit of each node kind it knows,
//! in a fixed node-kind-specific child order. It performs no mutation and
//! holds no state beyond the callback object.
//!
//! The traversal's contract is stated over a trace of [`VisitEvent`]s: each
//! hook appends one event, and a finished walk has appended exactly
//! [`ev_script`] of the tree.

use vstd::prelude::*;

use crate::ast::{Case, Decl, Dtor, Expr, Fun, Prop, PropVal, Script, Stmt, StmtListItem};

verus! {

/// One hook invocation, with the node it was invoked on.
pub enum VisitEvent {
    PreScript(Script),
    PostScript(Script),
    PreStmt(Stmt),
    PostStmt(Stmt),
    PreExpr(Expr),
    PostExpr(Expr),
    PreDecl(Decl),
    PostDecl(Decl),
    PreFun(Fun),
    PostFun(Fun),
}

/// The events one full walk of a script fires, in order.
pub open spec fn ev_script(s: Script) -> Seq<VisitEvent> {
    seq![VisitEvent::PreScript(s)] + ev_items(s.body@) + seq![VisitEvent::PostScript(s)]
}

pub open spec fn ev_items(items: Seq<StmtListItem>) -> Seq<VisitEvent>
    decreases items,
{
    if items.len() == 0 {
        Seq::empty()
    } else {
        ev_items(items.drop_last()) + ev_item(items.last())
    }
}

pub open spec fn ev_item(item: StmtListItem) -> Seq<VisitEvent>
    decreases item,
{
    match item {
        StmtListItem::Stmt(s) => ev_stmt(s),
        StmtListItem::Decl(d) => ev_decl(d),
    }
}

pub open spec fn ev_decl(d: Decl) -> Seq<VisitEvent>
    decreases d,
{
    match d {
        Decl::Fun(f) => seq![VisitEvent::PreDecl(d)] + ev_fun(f) + seq![VisitEvent::PostDecl(d)],
    }
}

pub open spec fn ev_fun(f: Fun) -> Seq<VisitEvent>
    decreases f,
{
    seq![VisitEvent::PreFun(f)] + ev_items(f.body@) + seq![VisitEvent::PostFun(f)]
}

pub open spec fn ev_opt_expr(e: Option<Expr>) -> Seq<VisitEvent>
    decreases e,
{
    match e {
        Option::Some(inner) => ev_expr(inner),
        Option::None => Seq::empty(),
    }
}

pub open spec fn ev_dtors(ds: Seq<Dtor>) -> Seq<VisitEvent>
    decreases ds,
{
    if ds.len() == 0 {
        Seq::empty()
    } else {
        ev_dtors(ds.drop_last()) + ev_dtor(ds.last())
    }
}

pub open spec fn ev_dtor(d: Dtor) -> Seq<VisitEvent>
    decreases d,
{
    match d {
        Dtor::Simple(init) => ev_opt_expr(init),
        Dtor::Compound => Seq::empty(),
    }
}

pub open spec fn ev_cases(cs: Seq<Case>) -> Seq<VisitEvent>
    decreases cs,
{
    if cs.len() == 0 {
        Seq::empty()
    } else {
        ev_cases(cs.drop_last()) + ev_case(cs.last())
    }
}

pub open spec fn ev_case(c: Case) -> Seq<VisitEvent>
    decreases c,
{
    ev_opt_expr(c.test) + ev_items(c.body@)
}

pub open spec fn ev_stmt(s: Stmt) -> Seq<VisitEvent>
    decreases s,
{
    seq![VisitEvent::PreStmt(s)] + ev_stmt_children(s) + seq![VisitEvent::PostStmt(s)]
}

pub open spec fn ev_stmt_children(s: Stmt) -> Seq<VisitEvent>
    decreases s, 0nat,
{
    match s {
        Stmt::Block(items) => ev_items(items@),
        Stmt::Var(decls) => ev_dtors(decls@),
        Stmt::Expr(e) => ev_expr(e),
        Stmt::If(cond, cons, alt) => ev_expr(cond) + ev_stmt(*cons) + ev_opt_stmt(alt),
        Stmt::Label(body) => ev_stmt(*body),
        Stmt::Switch(cond, cases) => ev_expr(cond) + ev_cases(cases@),
        Stmt::Return(arg) => ev_opt_expr(arg),
        Stmt::Throw(arg) => ev_expr(arg),
        Stmt::Try(block, caught, finally) => ev_items(block@) + ev_opt_items(caught)
            + ev_opt_items(finally),
        Stmt::While(cond, body) => ev_expr(cond) + ev_stmt(*body),
        Stmt::DoWhile(body, cond) => ev_stmt(*body) + ev_expr(cond),
        Stmt::For(cond, update, body) => ev_opt_expr(cond) + ev_opt_expr(update)
            + ev_stmt(*body),
        Stmt::ForIn(iterable, body) => ev_expr(iterable) + ev_stmt(*body),
        Stmt::ForOf(iterable, body) => ev_expr(iterable) + ev_stmt(*body),
        Stmt::Other => Seq::empty(),
    }
}

pub open spec fn ev_opt_stmt(s: Option<Box<Stmt>>) -> Seq<VisitEvent>
    decreases s,
{
    match s {
        Option::Some(inner) => ev_stmt(*inner),
        Option::None => Seq::empty(),
    }
}

pub open spec fn ev_opt_items(items: Option<Vec<StmtListItem>>) -> Seq<VisitEvent>
    decreases items,
{
    match items {
        Option::Some(inner) => ev_items(inner@),
        Option::None => Seq::empty(),
    }
}

pub open spec fn ev_exprs(es: Seq<Expr>) -> Seq<VisitEvent>
    decreases es,
{
    if es.len() == 0 {
        Seq::empty()
    } else {
        ev_exprs(es.drop_last()) + ev_expr(es.last())
    }
}

pub open spec fn ev_opt_exprs(es: Seq<Option<Expr>>) -> Seq<VisitEvent>
    decreases es,
{
    if es.len() == 0 {
        Seq::empty()
    } else {
        ev_opt_exprs(es.drop_last()) + ev_opt_expr(es.last())
    }
}

pub open spec fn ev_props(ps: Seq<Prop>) -> Seq<VisitEvent>
    decreases ps,
{
    if ps.len() == 0 {
        Seq::empty()
    } else {
        ev_props(ps.drop_last()) + ev_prop(ps.last())
    }
}

pub open spec fn ev_prop(p: Prop) -> Seq<VisitEvent>
    decreases p,
{
    match p.val {
        PropVal::Init(e) => ev_expr(e),
        PropVal::Getter(body) => ev_items(body@),
        PropVal::Setter(body) => ev_items(body@),
    }
}

pub open spec fn ev_expr(e: Expr) -> Seq<VisitEvent>
    decreases e,
{
    seq![VisitEvent::PreExpr(e)] + ev_expr_children(e) + seq![VisitEvent::PostExpr(e)]
}

pub open spec fn ev_expr_children(e: Expr) -> Seq<VisitEvent>
    decreases e, 0nat,
{
    match e {
        Expr::Id(_) => Seq::empty(),
        Expr::Str(_) => Seq::empty(),
        Expr::Call(callee, args) => ev_expr(*callee) + ev_exprs(args@),
        Expr::Comma(es) => ev_exprs(es@),
        Expr::Arr(els) => ev_opt_exprs(els@),
        Expr::Obj(props) => ev_props(props@),
        Expr::Fun(f) => ev_fun(f),
        Expr::Unop(inner) => ev_expr(*inner),
        Expr::Binop(a, b) => ev_expr(*a) + ev_expr(*b),
        Expr::Logop(a, b) => ev_expr(*a) + ev_expr(*b),
        Expr::IncDec(inner) => ev_expr(*inner),
        Expr::Assign(rhs) => ev_expr(*rhs),
        Expr::Cond(cond, cons, alt) => ev_expr(*cond) + ev_expr(*cons) + ev_expr(*alt),
        Expr::Dot(object) => ev_expr(*object),
        Expr::Brack(object, property) => ev_expr(*object) + ev_expr(*property),
        Expr::Other => Seq::empty(),
    }
}

/// Hooks called on different kinds of nodes, before descending into a node's
/// children (`pre_*`) and after they were handled (`post_*`).
///
/// An implementation carries its own state; the walker promises to every
/// implementation that after a walk the abstract trace has grown by exactly
/// the events of the walked tree, so the implementation's state can be
/// related to the trace through its invariant.
pub trait Callbacks: Sized {
    /// An abstraction of the hook state: the trace of events consumed so far.
    spec fn trace(&self) -> Seq<VisitEvent>;

    /// The implementation's own invariant, preserved by every hook.
    spec fn inv(&self) -> bool;

    /// Called before a top-level Script node is entered.
    fn pre_script(&mut self, node: &Script)
        requires
            old(self).inv(),
        ensures
            final(self).inv(),
            final(self).trace() == old(self).trace().push(VisitEvent::PreScript(*node)),
    ;

    /// Called before a Statement node is entered.
    fn pre_stmt(&mut self, node: &Stmt)
        requires
            old(self).inv(),
        ensures
            final(self).inv(),
            final(self).trace() == old(self).trace().push(VisitEvent::PreStmt(*node)),
    ;

    /// Called before an Expression node is entered.
    fn pre_expr(&mut self, node: &Expr)
        requires
            old(self).inv(),
        ensures
            final(self).inv(),
            final(self).trace() == old(self).trace().push(VisitEvent::PreExpr(*node)),
    ;

    /// Called before a Declaration node is entered.
    fn pre_decl(&mut self, node: &Decl)
        requires
            old(self).inv(),
        ensures
            final(self).inv(),
            final(self).trace() == old(self).trace().push(VisitEvent::PreDecl(*node)),
    ;

    /// Called before a Function node is entered.
    fn pre_fun(&mut self, node: &Fun)
        requires
            old(self).inv(),
        ensures
            final(self).inv(),
            final(self).trace() == old(self).trace().push(VisitEvent::PreFun(*node)),
    ;

    /// Called after a top-level Script node was handled.
    fn post_script(&mut self, node: &Script)
        requires
            old(self).inv(),
        ensures
            final(self).inv(),
            final(self).trace() == old(self).trace().push(VisitEvent::PostScript(*node)),
    ;

    /// Called after a Statement node was handled.
    fn post_stmt(&mut self, node: &Stmt)
        requires
            old(self).inv(),
        ensures
            final(self).inv(),
            final(self).trace() == old(self).trace().push(VisitEvent::PostStmt(*node)),
    ;

    /// Called after an Expression node was handled.
    fn post_expr(&mut self, node: &Expr)
        requires
            old(self).inv(),
        ensures
            final(self).inv(),
            final(self).trace() == old(self).trace().push(VisitEvent::PostExpr(*node)),
    ;

    /// Called after a Declaration node was handled.
    fn post_decl(&mut self, node: &Decl)
        requires
            old(self).inv(),
        ensures
            final(self).inv(),
            final(self).trace() == old(self).trace().push(VisitEvent::PostDecl(*node)),
    ;

    /// Called after a Function node was handled.
    fn post_fun(&mut self, node: &Fun)
        requires
            old(self).inv(),
        ensures
            final(self).inv(),
            final(self).trace() == old(self).trace().push(VisitEvent::PostFun(*node)),
    ;
}

/// A syntax tree walker: one tree, one callback object.
pub struct Walker<'a, C: Callbacks> {
    pub ast: &'a Script,
    pub callbacks: C,
}

impl<'a, C: Callbacks> Walker<'a, C> {
    /// Create a new Walker for a given Script, calling the hooks in
    /// `callbacks` on the relevant nodes.
    pub fn new(ast: &'a Script, callbacks: C) -> (w: Walker<'a, C>)
        ensures
            w.ast == ast,
            w.callbacks == callbacks,
    {
        Walker { ast, callbacks }
    }

    /// Do a recursive walk, calling `callbacks` where relevant.
    /// Returns the Callbacks instance, so that implementations carrying
    /// state can be inspected afterwards.
    /// Consumes the walker; create a new one to do more than one walk.
    pub fn walk(self) -> (c: C)
        requires
            self.callbacks.inv(),
        ensures
            c.inv(),
            c.trace() == self.callbacks.trace() + ev_script(*self.ast),
    {
        let Walker { ast, mut callbacks } = self;
        Self::walk_script(&mut callbacks, ast);
        callbacks
    }

    /// Kick off the walk at the top-level Script node.
    fn walk_script(cb: &mut C, ast: &Script)
        requires
            old(cb).inv(),
        ensures
            final(cb).inv(),
            final(cb).trace() == old(cb).trace() + ev_script(*ast),
    {
        let ghost t0 = cb.trace();
        cb.pre_script(ast);
        Self::walk_items(cb, &ast.body);
        cb.post_script(ast);
        proof {
            assert(cb.trace() =~= t0 + ev_script(*ast));
        }
    }

    /// Walk each item of a statement list in order.
    fn walk_items(cb: &mut C, items: &Vec<StmtListItem>)
        requires
            old(cb).inv(),
        ensures
            final(cb).inv(),
            final(cb).trace() == old(cb).trace() + ev_items(items@),
        decreases items,
    {
        let ghost t0 = cb.trace();
        let mut i: usize = 0;
        while i < items.len()
            invariant
                cb.inv(),
                i <= items.len(),
                cb.trace() == t0 + ev_items(items@.take(i as int)),
            decreases items.len() - i,
        {
            Self::walk_stmt_item(cb, &items[i]);
            proof {
                assert(items@.take(i + 1).drop_last() =~= items@.take(i as int));
                assert(cb.trace() =~= t0 + ev_items(items@.take(i + 1)));
            }
            i = i + 1;
        }
        proof {
            assert(items@.take(items@.len() as int) =~= items@);
        }
    }

    /// Walk an item in a list of statements, like in `{ blocks; }`.
    fn walk_stmt_item(cb: &mut C, item: &StmtListItem)
        requires
            old(cb).inv(),
        ensures
            final(cb).inv(),
            final(cb).trace() == old(cb).trace() + ev_item(*item),
        decreases item,
    {
        match item {
            StmtListItem::Stmt(stmt) => Self::walk_stmt(cb, stmt),
            StmtListItem::Decl(decl) => Self::walk_decl(cb, decl),
        }
    }

    /// Walk a statement.
    fn walk_stmt(cb: &mut C, stmt: &Stmt)
        requires
            old(cb).inv(),
        ensures
            final(cb).inv(),
            final(cb).trace() == old(cb).trace() + ev_stmt(*stmt),
        decreases stmt,
    {
        let ghost t0 = cb.trace();
        cb.pre_stmt(stmt);
        let ghost t1 = cb.trace();
        match stmt {
            Stmt::Block(items) => {
                Self::walk_items(cb, items);
            },
            Stmt::Var(decls) => {
                Self::walk_var(cb, decls);
            },
            Stmt::Expr(e) => {
                Self::walk_expr(cb, e);
            },
            Stmt::If(cond, cons, alt) => {
                Self::walk_expr(cb, cond);
                Self::walk_stmt(cb, cons);
                if let Option::Some(node) = alt {
                    Self::walk_stmt(cb, node);
                }
                proof {
                    assert(cb.trace() =~= t1 + ev_stmt_children(*stmt));
                }
            },
            Stmt::Label(body) => {
                Self::walk_stmt(cb, body);
            },
            Stmt::Switch(cond, cases) => {
                Self::walk_expr(cb, cond);
                Self::walk_cases(cb, cases);
                proof {
                    assert(cb.trace() =~= t1 + ev_stmt_children(*stmt));
                }
            },
            Stmt::Return(arg) => {
                if let Option::Some(node) = arg {
                    Self::walk_expr(cb, node);
                }
            },
            Stmt::Throw(arg) => {
                Self::walk_expr(cb, arg);
            },
            Stmt::Try(block, caught, finally) => {
                Self::walk_items(cb, block);
                if let Option::Some(caught_block) = caught {
                    Self::walk_items(cb, caught_block);
                }
                if let Option::Some(finally_block) = finally {
                    Self::walk_items(cb, finally_block);
                }
                proof {
                    assert(cb.trace() =~= t1 + ev_stmt_children(*stmt));
                }
            },
            Stmt::While(cond, body) => {
                Self::walk_expr(cb, cond);
                Self::walk_stmt(cb, body);
                proof {
                    assert(cb.trace() =~= t1 + ev_stmt_children(*stmt));
                }
            },
            Stmt::DoWhile(body, cond) => {
                Self::walk_stmt(cb, body);
                Self::walk_expr(cb, cond);
                proof {
                    assert(cb.trace() =~= t1 + ev_stmt_children(*stmt));
                }
            },
            Stmt::For(cond, update, body) => {
                if let Option::Some(node) = cond {
                    Self::walk_expr(cb, node);
                }
                if let Option::Some(node) = update {
                    Self::walk_expr(cb, node);
                }
                Self::walk_stmt(cb, body);
                proof {
                    assert(cb.trace() =~= t1 + ev_stmt_children(*stmt));
                }
            },
            Stmt::ForIn(iterable, body) => {
                Self::walk_expr(cb, iterable);
                Self::walk_stmt(cb, body);
                proof {
                    assert(cb.trace() =~= t1 + ev_stmt_children(*stmt));
                }
            },
            Stmt::ForOf(iterable, body) => {
                Self::walk_expr(cb, iterable);
                Self::walk_stmt(cb, body);
                proof {
                    assert(cb.trace() =~= t1 + ev_stmt_children(*stmt));
                }
            },
            Stmt::Other => {},
        }
        cb.post_stmt(stmt);
        proof {
            assert(cb.trace() =~= t0 + ev_stmt(*stmt));
        }
    }

    /// Walk a declaration node (just `function a(){}` currently).
    fn walk_decl(cb: &mut C, decl: &Decl)
        requires
            old(cb).inv(),
        ensures
            final(cb).inv(),
            final(cb).trace() == old(cb).trace() + ev_decl(*decl),
        decreases decl,
    {
        let ghost t0 = cb.trace();
        cb.pre_decl(decl);
        match decl {
            Decl::Fun(fun) => Self::walk_fun(cb, fun),
        }
        cb.post_decl(decl);
        proof {
            assert(cb.trace() =~= t0 + ev_decl(*decl));
        }
    }

    /// Walk a var declaration: each simple declarator's initializer.
    fn walk_var(cb: &mut C, decls: &Vec<Dtor>)
        requires
            old(cb).inv(),
        ensures
            final(cb).inv(),
            final(cb).trace() == old(cb).trace() + ev_dtors(decls@),
        decreases decls,
    {
        let ghost t0 = cb.trace();
        let mut i: usize = 0;
        while i < decls.len()
            invariant
                cb.inv(),
                i <= decls.len(),
                cb.trace() == t0 + ev_dtors(decls@.take(i as int)),
            decreases decls.len() - i,
        {
            let ghost tc = cb.trace();
            if let Dtor::Simple(Option::Some(expr)) = &decls[i] {
                Self::walk_expr(cb, expr);
            }
            proof {
                assert(cb.trace() =~= tc + ev_dtor(decls@[i as int]));
                assert(decls@.take(i + 1).drop_last() =~= decls@.take(i as int));
                assert(decls@.take(i + 1).last() == decls@[i as int]);
                assert(cb.trace() =~= t0 + ev_dtors(decls@.take(i + 1)));
            }
            i = i + 1;
        }
        proof {
            assert(decls@.take(decls@.len() as int) =~= decls@);
        }
    }

    /// Walk the cases of a switch: each case's test, then its body.
    fn walk_cases(cb: &mut C, cases: &Vec<Case>)
        requires
            old(cb).inv(),
        ensures
            final(cb).inv(),
            final(cb).trace() == old(cb).trace() + ev_cases(cases@),
        decreases cases,
    {
        let ghost t0 = cb.trace();
        let mut i: usize = 0;
        while i < cases.len()
            invariant
                cb.inv(),
                i <= cases.len(),
                cb.trace() == t0 + ev_cases(cases@.take(i as int)),
            decreases cases.len() - i,
        {
            let ghost tc = cb.trace();
            let case = &cases[i];
            if let Option::Some(test) = &case.test {
                Self::walk_expr(cb, test);
            }
            Self::walk_items(cb, &case.body);
            proof {
                assert(cb.trace() =~= tc + ev_case(cases@[i as int]));
                assert(cases@.take(i + 1).drop_last() =~= cases@.take(i as int));
                assert(cb.trace() =~= t0 + ev_cases(cases@.take(i + 1)));
            }
            i = i + 1;
        }
        proof {
            assert(cases@.take(cases@.len() as int) =~= cases@);
        }
    }

    /// Walk an expression node.
    fn walk_expr(cb: &mut C, expr: &Expr)
        requires
            old(cb).inv(),
        ensures
            final(cb).inv(),
            final(cb).trace() == old(cb).trace() + ev_expr(*expr),
        decreases expr,
    {
        let ghost t0 = cb.trace();
        cb.pre_expr(expr);
        let ghost t1 = cb.trace();
        match expr {
            Expr::Id(_) => {},
            Expr::Str(_) => {},
            Expr::Call(callee, args) => {
                Self::walk_expr(cb, callee);
                Self::walk_exprs(cb, args);
                proof {
                    assert(cb.trace() =~= t1 + ev_expr_children(*expr));
                }
            },
            Expr::Comma(es) => {
                Self::walk_exprs(cb, es);
            },
            Expr::Arr(els) => {
                Self::walk_opt_exprs(cb, els);
            },
            Expr::Obj(props) => {
                Self::walk_props(cb, props);
            },
            Expr::Fun(fun) => {
                Self::walk_fun(cb, fun);
            },
            Expr::Unop(inner) => {
                Self::walk_expr(cb, inner);
            },
            Expr::Binop(a, b) => {
                Self::walk_expr(cb, a);
                Self::walk_expr(cb, b);
                proof {
                    assert(cb.trace() =~= t1 + ev_expr_children(*expr));
                }
            },
            Expr::Logop(a, b) => {
                Self::walk_expr(cb, a);
                Self::walk_expr(cb, b);
                proof {
                    assert(cb.trace() =~= t1 + ev_expr_children(*expr));
                }
            },
            Expr::IncDec(inner) => {
                Self::walk_expr(cb, inner);
            },
            Expr::Assign(rhs) => {
                Self::walk_expr(cb, rhs);
            },
            Expr::Cond(cond, cons, alt) => {
                Self::walk_expr(cb, cond);
                Self::walk_expr(cb, cons);
                Self::walk_expr(cb, alt);
                proof {
                    assert(cb.trace() =~= t1 + ev_expr_children(*expr));
                }
            },
            Expr::Dot(object) => {
                Self::walk_expr(cb, object);
            },
            Expr::Brack(object, property) => {
                Self::walk_expr(cb, object);
                Self::walk_expr(cb, property);
                proof {
                    assert(cb.trace() =~= t1 + ev_expr_children(*expr));
                }
            },
            Expr::Other => {},
        }
        cb.post_expr(expr);
        proof {
            assert(cb.trace() =~= t0 + ev_expr(*expr));
        }
    }

    /// Walk a list of expressions in order.
    fn walk_exprs(cb: &mut C, es: &Vec<Expr>)
        requires
            old(cb).inv(),
        ensures
            final(cb).inv(),
            final(cb).trace() == old(cb).trace() + ev_exprs(es@),
        decreases es,
    {
        let ghost t0 = cb.trace();
        let mut i: usize = 0;
        while i < es.len()
            invariant
                cb.inv(),
                i <= es.len(),
                cb.trace() == t0 + ev_exprs(es@.take(i as int)),
            decreases es.len() - i,
        {
            Self::walk_expr(cb, &es[i]);
            proof {
                assert(es@.take(i + 1).drop_last() =~= es@.take(i as int));
                assert(cb.trace() =~= t0 + ev_exprs(es@.take(i + 1)));
            }
            i = i + 1;
        }
        proof {
            assert(es@.take(es@.len() as int) =~= es@);
        }
    }

    /// Walk the present elements of an array literal in order.
    fn walk_opt_exprs(cb: &mut C, els: &Vec<Option<Expr>>)
        requires
            old(cb).inv(),
        ensures
            final(cb).inv(),
            final(cb).trace() == old(cb).trace() + ev_opt_exprs(els@),
        decreases els,
    {
        let ghost t0 = cb.trace();
        let mut i: usize = 0;
        while i < els.len()
            invariant
                cb.inv(),
                i <= els.len(),
                cb.trace() == t0 + ev_opt_exprs(els@.take(i as int)),
            decreases els.len() - i,
        {
            let ghost tc = cb.trace();
            if let Option::Some(node) = &els[i] {
                Self::walk_expr(cb, node);
            }
            proof {
                assert(cb.trace() =~= tc + ev_opt_expr(els@[i as int]));
                assert(els@.take(i + 1).drop_last() =~= els@.take(i as int));
                assert(els@.take(i + 1).last() == els@[i as int]);
                assert(cb.trace() =~= t0 + ev_opt_exprs(els@.take(i + 1)));
            }
            i = i + 1;
        }
        proof {
            assert(els@.take(els@.len() as int) =~= els@);
        }
    }

    /// Walk the properties of an object literal: initializer values as
    /// expressions, getter and setter bodies as statement lists.
    fn walk_props(cb: &mut C, props: &Vec<Prop>)
        requires
            old(cb).inv(),
        ensures
            final(cb).inv(),
            final(cb).trace() == old(cb).trace() + ev_props(props@),
        decreases props,
    {
        let ghost t0 = cb.trace();
        let mut i: usize = 0;
        while i < props.len()
            invariant
                cb.inv(),
                i <= props.len(),
                cb.trace() == t0 + ev_props(props@.take(i as int)),
            decreases props.len() - i,
        {
            let ghost tc = cb.trace();
            match &props[i].val {
                PropVal::Init(value) => Self::walk_expr(cb, value),
                PropVal::Getter(body) => Self::walk_items(cb, body),
                PropVal::Setter(body) => Self::walk_items(cb, body),
            }
            proof {
                assert(cb.trace() =~= tc + ev_prop(props@[i as int]));
                assert(props@.take(i + 1).drop_last() =~= props@.take(i as int));
                assert(props@.take(i + 1).last() == props@[i as int]);
                assert(cb.trace() =~= t0 + ev_props(props@.take(i + 1)));
            }
            i = i + 1;
        }
        proof {
            assert(props@.take(props@.len() as int) =~= props@);
        }
    }

    /// Walk a function declaration or expression node: its body.
    fn walk_fun(cb: &mut C, fun: &Fun)
        requires
            old(cb).inv(),
        ensures
            final(cb).inv(),
            final(cb).trace() == old(cb).trace() + ev_fun(*fun),
        decreases fun,
    {
        let ghost t0 = cb.trace();
        cb.pre_fun(fun);
        Self::walk_items(cb, &fun.body);
        cb.post_fun(fun);
        proof {
            assert(cb.trace() =~= t0 + ev_fun(*fun));
        }
    }
}

} // verus!
