//! The require detector: a walker hook set that records the string-literal
//! argument of every call whose callee is the bare identifier `require`,
//! in left-to-right, depth-first, preorder encounter order, duplicates
//! preserved. Calls whose first argument is not a string literal (such as
//! `require(x)`) contribute nothing, and a nested `require(require('a'))`
//! is discovered once per call node, not per descendant literal.

use vstd::prelude::*;

use crate::ast::{
    is_require_call, reqs_at, reqs_of_case, reqs_of_cases, reqs_of_decl, reqs_of_dtor,
    reqs_of_dtors, reqs_of_expr, reqs_of_exprs, reqs_of_fun, reqs_of_item, reqs_of_items,
    reqs_of_opt_expr, reqs_of_opt_exprs, reqs_of_opt_items, reqs_of_opt_stmt, reqs_of_prop,
    reqs_of_props, reqs_of_script, reqs_of_stmt, Case, Decl, Dtor, Expr, Fun, Prop, PropVal,
    Script, Stmt, StmtListItem,
};
use crate::walk::{
    ev_case, ev_cases, ev_decl, ev_dtor, ev_dtors, ev_expr, ev_expr_children, ev_exprs, ev_fun,
    ev_item, ev_items, ev_opt_expr, ev_opt_exprs, ev_opt_items, ev_opt_stmt, ev_prop, ev_props,
    ev_script, ev_stmt, ev_stmt_children, Callbacks, VisitEvent, Walker,
};

verus! {

/// The import identifiers one hook event contributes: the literal argument
/// when the event enters a statically analyzable require call, nothing
/// otherwise.
pub open spec fn reqs_of_event(ev: VisitEvent) -> Seq<Seq<char>> {
    match ev {
        VisitEvent::PreExpr(e) => reqs_at(e),
        _ => Seq::empty(),
    }
}

/// The import identifiers a trace of hook events contributes, in order.
pub open spec fn collect_reqs(tr: Seq<VisitEvent>) -> Seq<Seq<char>>
    decreases tr,
{
    if tr.len() == 0 {
        Seq::empty()
    } else {
        collect_reqs(tr.drop_last()) + reqs_of_event(tr.last())
    }
}

/// The views of a sequence of strings.
pub open spec fn string_views(ss: Seq<String>) -> Seq<Seq<char>> {
    ss.map_values(|s: String| s@)
}

/// A tree walker hook set that tracks require() calls.
pub struct FindRequires {
    modules: Vec<String>,
    events: Ghost<Seq<VisitEvent>>,
}

impl FindRequires {
    pub fn new() -> (r: FindRequires)
        ensures
            r.inv(),
            r.trace() == Seq::<VisitEvent>::empty(),
    {
        let r = FindRequires { modules: Vec::new(), events: Ghost(Seq::empty()) };
        proof {
            assert(string_views(r.modules@) =~= collect_reqs(r.events@));
        }
        r
    }

    /// Hand out the recorded import identifiers.
    pub fn get_modules(self) -> (r: Vec<String>)
        requires
            self.inv(),
        ensures
            string_views(r@) == collect_reqs(self.trace()),
    {
        self.modules
    }
}

impl Callbacks for FindRequires {
    closed spec fn trace(&self) -> Seq<VisitEvent> {
        self.events@
    }

    closed spec fn inv(&self) -> bool {
        string_views(self.modules@) == collect_reqs(self.events@)
    }

    fn pre_script(&mut self, node: &Script) {
        let ghost t0 = self.events@;
        self.events = Ghost(t0.push(VisitEvent::PreScript(*node)));
        proof {
            assert(t0.push(VisitEvent::PreScript(*node)).drop_last() =~= t0);
            assert(string_views(self.modules@) =~= collect_reqs(self.events@));
        }
    }

    fn pre_stmt(&mut self, node: &Stmt) {
        let ghost t0 = self.events@;
        self.events = Ghost(t0.push(VisitEvent::PreStmt(*node)));
        proof {
            assert(t0.push(VisitEvent::PreStmt(*node)).drop_last() =~= t0);
            assert(string_views(self.modules@) =~= collect_reqs(self.events@));
        }
    }

    fn pre_expr(&mut self, node: &Expr) {
        let ghost t0 = self.events@;
        let ghost m0 = self.modules@;
        if let Expr::Call(callee, args) = node {
            if is_require_name(callee) {
                if args.len() > 0 {
                    if let Expr::Str(val) = &args[0] {
                        self.modules.push(val.clone());
                    }
                }
            }
        }
        self.events = Ghost(t0.push(VisitEvent::PreExpr(*node)));
        proof {
            assert(t0.push(VisitEvent::PreExpr(*node)).drop_last() =~= t0);
            if is_require_call(*node) {
                assert(self.modules@ == m0.push(self.modules@.last()));
                assert(string_views(self.modules@) =~= string_views(m0).push(
                    self.modules@.last()@,
                ));
            }
            assert(string_views(self.modules@) =~= collect_reqs(self.events@));
        }
    }

    fn pre_decl(&mut self, node: &Decl) {
        let ghost t0 = self.events@;
        self.events = Ghost(t0.push(VisitEvent::PreDecl(*node)));
        proof {
            assert(t0.push(VisitEvent::PreDecl(*node)).drop_last() =~= t0);
            assert(string_views(self.modules@) =~= collect_reqs(self.events@));
        }
    }

    fn pre_fun(&mut self, node: &Fun) {
        let ghost t0 = self.events@;
        self.events = Ghost(t0.push(VisitEvent::PreFun(*node)));
        proof {
            assert(t0.push(VisitEvent::PreFun(*node)).drop_last() =~= t0);
            assert(string_views(self.modules@) =~= collect_reqs(self.events@));
        }
    }

    fn post_script(&mut self, node: &Script) {
        let ghost t0 = self.events@;
        self.events = Ghost(t0.push(VisitEvent::PostScript(*node)));
        proof {
            assert(t0.push(VisitEvent::PostScript(*node)).drop_last() =~= t0);
            assert(string_views(self.modules@) =~= collect_reqs(self.events@));
        }
    }

    fn post_stmt(&mut self, node: &Stmt) {
        let ghost t0 = self.events@;
        self.events = Ghost(t0.push(VisitEvent::PostStmt(*node)));
        proof {
            assert(t0.push(VisitEvent::PostStmt(*node)).drop_last() =~= t0);
            assert(string_views(self.modules@) =~= collect_reqs(self.events@));
        }
    }

    fn post_expr(&mut self, node: &Expr) {
        let ghost t0 = self.events@;
        self.events = Ghost(t0.push(VisitEvent::PostExpr(*node)));
        proof {
            assert(t0.push(VisitEvent::PostExpr(*node)).drop_last() =~= t0);
            assert(string_views(self.modules@) =~= collect_reqs(self.events@));
        }
    }

    fn post_decl(&mut self, node: &Decl) {
        let ghost t0 = self.events@;
        self.events = Ghost(t0.push(VisitEvent::PostDecl(*node)));
        proof {
            assert(t0.push(VisitEvent::PostDecl(*node)).drop_last() =~= t0);
            assert(string_views(self.modules@) =~= collect_reqs(self.events@));
        }
    }

    fn post_fun(&mut self, node: &Fun) {
        let ghost t0 = self.events@;
        self.events = Ghost(t0.push(VisitEvent::PostFun(*node)));
        proof {
            assert(t0.push(VisitEvent::PostFun(*node)).drop_last() =~= t0);
            assert(string_views(self.modules@) =~= collect_reqs(self.events@));
        }
    }
}

/// True iff the expression is the bare identifier `require`.
fn is_require_name(id: &Expr) -> (r: bool)
    ensures
        r == ((*id) is Id && (*id)->Id_0@ == "require"@),
{
    if let Expr::Id(name) = id {
        let req = "require".to_owned();
        *name == req
    } else {
        false
    }
}

/// Find require() calls in a parsed script.
///
/// The result lists every statically analyzable import identifier in
/// left-to-right, depth-first, preorder encounter order, duplicates
/// preserved.
pub fn detect(ast: &Script) -> (r: Vec<String>)
    ensures
        string_views(r@) == reqs_of_script(*ast),
{
    let walker = Walker::new(ast, FindRequires::new());
    let find = walker.walk();
    let r = find.get_modules();
    proof {
        assert(Seq::<VisitEvent>::empty() + ev_script(*ast) =~= ev_script(*ast));
        lemma_collect_script(*ast);
    }
    r
}

/// Concatenating traces concatenates their discoveries.
proof fn lemma_collect_concat(a: Seq<VisitEvent>, b: Seq<VisitEvent>)
    ensures
        collect_reqs(a + b) == collect_reqs(a) + collect_reqs(b),
    decreases b.len(),
{
    if b.len() == 0 {
        assert(a + b =~= a);
        assert(collect_reqs(a) + collect_reqs(b) =~= collect_reqs(a));
    } else {
        lemma_collect_concat(a, b.drop_last());
        assert((a + b).drop_last() =~= a + b.drop_last());
        assert((a + b).last() == b.last());
        assert(collect_reqs(a) + collect_reqs(b.drop_last()) + reqs_of_event(b.last()) =~= collect_reqs(
            a,
        ) + collect_reqs(b));
    }
}

/// A one-event trace discovers what its event contributes.
proof fn lemma_collect_one(ev: VisitEvent)
    ensures
        collect_reqs(seq![ev]) == reqs_of_event(ev),
{
    assert(seq![ev].drop_last() =~= Seq::<VisitEvent>::empty());
    assert(collect_reqs(seq![ev].drop_last()) + reqs_of_event(ev) =~= reqs_of_event(ev));
}

/// The pre/post events that frame a node's children contribute nothing
/// beyond the node's own discovery.
proof fn lemma_collect_framed(pre: VisitEvent, mid: Seq<VisitEvent>, post: VisitEvent)
    ensures
        collect_reqs(seq![pre] + mid + seq![post]) == reqs_of_event(pre) + collect_reqs(mid)
            + reqs_of_event(post),
{
    lemma_collect_concat(seq![pre] + mid, seq![post]);
    lemma_collect_concat(seq![pre], mid);
    lemma_collect_one(pre);
    lemma_collect_one(post);
}

proof fn lemma_collect_script(s: Script)
    ensures
        collect_reqs(ev_script(s)) == reqs_of_script(s),
{
    lemma_collect_framed(VisitEvent::PreScript(s), ev_items(s.body@), VisitEvent::PostScript(s));
    lemma_collect_items(s.body@);
    assert(collect_reqs(ev_script(s)) =~= reqs_of_script(s));
}

proof fn lemma_collect_items(items: Seq<StmtListItem>)
    ensures
        collect_reqs(ev_items(items)) == reqs_of_items(items),
    decreases items,
{
    if items.len() == 0 {
    } else {
        lemma_collect_concat(ev_items(items.drop_last()), ev_item(items.last()));
        lemma_collect_items(items.drop_last());
        lemma_collect_item(items.last());
    }
}

proof fn lemma_collect_item(item: StmtListItem)
    ensures
        collect_reqs(ev_item(item)) == reqs_of_item(item),
    decreases item,
{
    match item {
        StmtListItem::Stmt(s) => lemma_collect_stmt(s),
        StmtListItem::Decl(d) => lemma_collect_decl(d),
    }
}

proof fn lemma_collect_decl(d: Decl)
    ensures
        collect_reqs(ev_decl(d)) == reqs_of_decl(d),
    decreases d,
{
    match d {
        Decl::Fun(f) => {
            lemma_collect_framed(VisitEvent::PreDecl(d), ev_fun(f), VisitEvent::PostDecl(d));
            lemma_collect_fun(f);
            assert(collect_reqs(ev_decl(d)) =~= reqs_of_decl(d));
        },
    }
}

proof fn lemma_collect_fun(f: Fun)
    ensures
        collect_reqs(ev_fun(f)) == reqs_of_fun(f),
    decreases f,
{
    lemma_collect_framed(VisitEvent::PreFun(f), ev_items(f.body@), VisitEvent::PostFun(f));
    lemma_collect_items(f.body@);
    assert(collect_reqs(ev_fun(f)) =~= reqs_of_fun(f));
}

proof fn lemma_collect_opt_expr(e: Option<Expr>)
    ensures
        collect_reqs(ev_opt_expr(e)) == reqs_of_opt_expr(e),
    decreases e,
{
    match e {
        Option::Some(inner) => lemma_collect_expr(inner),
        Option::None => {},
    }
}

proof fn lemma_collect_dtors(ds: Seq<Dtor>)
    ensures
        collect_reqs(ev_dtors(ds)) == reqs_of_dtors(ds),
    decreases ds,
{
    if ds.len() == 0 {
    } else {
        lemma_collect_concat(ev_dtors(ds.drop_last()), ev_dtor(ds.last()));
        lemma_collect_dtors(ds.drop_last());
        lemma_collect_dtor(ds.last());
    }
}

proof fn lemma_collect_dtor(d: Dtor)
    ensures
        collect_reqs(ev_dtor(d)) == reqs_of_dtor(d),
    decreases d,
{
    match d {
        Dtor::Simple(init) => lemma_collect_opt_expr(init),
        Dtor::Compound => {},
    }
}

proof fn lemma_collect_cases(cs: Seq<Case>)
    ensures
        collect_reqs(ev_cases(cs)) == reqs_of_cases(cs),
    decreases cs,
{
    if cs.len() == 0 {
    } else {
        lemma_collect_concat(ev_cases(cs.drop_last()), ev_case(cs.last()));
        lemma_collect_cases(cs.drop_last());
        lemma_collect_case(cs.last());
    }
}

proof fn lemma_collect_case(c: Case)
    ensures
        collect_reqs(ev_case(c)) == reqs_of_case(c),
    decreases c,
{
    lemma_collect_concat(ev_opt_expr(c.test), ev_items(c.body@));
    lemma_collect_opt_expr(c.test);
    lemma_collect_items(c.body@);
}

proof fn lemma_collect_opt_stmt(s: Option<Box<Stmt>>)
    ensures
        collect_reqs(ev_opt_stmt(s)) == reqs_of_opt_stmt(s),
    decreases s,
{
    match s {
        Option::Some(inner) => lemma_collect_stmt(*inner),
        Option::None => {},
    }
}

proof fn lemma_collect_opt_items(items: Option<Vec<StmtListItem>>)
    ensures
        collect_reqs(ev_opt_items(items)) == reqs_of_opt_items(items),
    decreases items,
{
    match items {
        Option::Some(inner) => lemma_collect_items(inner@),
        Option::None => {},
    }
}

proof fn lemma_collect_stmt(s: Stmt)
    ensures
        collect_reqs(ev_stmt(s)) == reqs_of_stmt(s),
    decreases s,
{
    lemma_collect_framed(VisitEvent::PreStmt(s), ev_stmt_children(s), VisitEvent::PostStmt(s));
    lemma_collect_stmt_children(s);
    assert(collect_reqs(ev_stmt(s)) =~= reqs_of_stmt(s));
}

proof fn lemma_collect_stmt_children(s: Stmt)
    ensures
        collect_reqs(ev_stmt_children(s)) == reqs_of_stmt(s),
    decreases s, 0nat,
{
    match s {
        Stmt::Block(items) => lemma_collect_items(items@),
        Stmt::Var(decls) => lemma_collect_dtors(decls@),
        Stmt::Expr(e) => lemma_collect_expr(e),
        Stmt::If(cond, cons, alt) => {
            lemma_collect_concat(ev_expr(cond) + ev_stmt(*cons), ev_opt_stmt(alt));
            lemma_collect_concat(ev_expr(cond), ev_stmt(*cons));
            lemma_collect_expr(cond);
            lemma_collect_stmt(*cons);
            lemma_collect_opt_stmt(alt);
        },
        Stmt::Label(body) => lemma_collect_stmt(*body),
        Stmt::Switch(cond, cases) => {
            lemma_collect_concat(ev_expr(cond), ev_cases(cases@));
            lemma_collect_expr(cond);
            lemma_collect_cases(cases@);
        },
        Stmt::Return(arg) => lemma_collect_opt_expr(arg),
        Stmt::Throw(arg) => lemma_collect_expr(arg),
        Stmt::Try(block, caught, finally) => {
            lemma_collect_concat(ev_items(block@) + ev_opt_items(caught), ev_opt_items(finally));
            lemma_collect_concat(ev_items(block@), ev_opt_items(caught));
            lemma_collect_items(block@);
            lemma_collect_opt_items(caught);
            lemma_collect_opt_items(finally);
        },
        Stmt::While(cond, body) => {
            lemma_collect_concat(ev_expr(cond), ev_stmt(*body));
            lemma_collect_expr(cond);
            lemma_collect_stmt(*body);
        },
        Stmt::DoWhile(body, cond) => {
            lemma_collect_concat(ev_stmt(*body), ev_expr(cond));
            lemma_collect_stmt(*body);
            lemma_collect_expr(cond);
        },
        Stmt::For(cond, update, body) => {
            lemma_collect_concat(ev_opt_expr(cond) + ev_opt_expr(update), ev_stmt(*body));
            lemma_collect_concat(ev_opt_expr(cond), ev_opt_expr(update));
            lemma_collect_opt_expr(cond);
            lemma_collect_opt_expr(update);
            lemma_collect_stmt(*body);
        },
        Stmt::ForIn(iterable, body) => {
            lemma_collect_concat(ev_expr(iterable), ev_stmt(*body));
            lemma_collect_expr(iterable);
            lemma_collect_stmt(*body);
        },
        Stmt::ForOf(iterable, body) => {
            lemma_collect_concat(ev_expr(iterable), ev_stmt(*body));
            lemma_collect_expr(iterable);
            lemma_collect_stmt(*body);
        },
        Stmt::Other => {},
    }
}

proof fn lemma_collect_exprs(es: Seq<Expr>)
    ensures
        collect_reqs(ev_exprs(es)) == reqs_of_exprs(es),
    decreases es,
{
    if es.len() == 0 {
    } else {
        lemma_collect_concat(ev_exprs(es.drop_last()), ev_expr(es.last()));
        lemma_collect_exprs(es.drop_last());
        lemma_collect_expr(es.last());
    }
}

proof fn lemma_collect_opt_exprs(es: Seq<Option<Expr>>)
    ensures
        collect_reqs(ev_opt_exprs(es)) == reqs_of_opt_exprs(es),
    decreases es,
{
    if es.len() == 0 {
    } else {
        lemma_collect_concat(ev_opt_exprs(es.drop_last()), ev_opt_expr(es.last()));
        lemma_collect_opt_exprs(es.drop_last());
        lemma_collect_opt_expr(es.last());
    }
}

proof fn lemma_collect_props(ps: Seq<Prop>)
    ensures
        collect_reqs(ev_props(ps)) == reqs_of_props(ps),
    decreases ps,
{
    if ps.len() == 0 {
    } else {
        lemma_collect_concat(ev_props(ps.drop_last()), ev_prop(ps.last()));
        lemma_collect_props(ps.drop_last());
        lemma_collect_prop(ps.last());
    }
}

proof fn lemma_collect_prop(p: Prop)
    ensures
        collect_reqs(ev_prop(p)) == reqs_of_prop(p),
    decreases p,
{
    match p.val {
        PropVal::Init(e) => lemma_collect_expr(e),
        PropVal::Getter(body) => lemma_collect_items(body@),
        PropVal::Setter(body) => lemma_collect_items(body@),
    }
}

proof fn lemma_collect_expr(e: Expr)
    ensures
        collect_reqs(ev_expr(e)) == reqs_of_expr(e),
    decreases e,
{
    lemma_collect_framed(VisitEvent::PreExpr(e), ev_expr_children(e), VisitEvent::PostExpr(e));
    lemma_collect_expr_children(e);
    assert(collect_reqs(ev_expr(e)) =~= reqs_of_expr(e));
}

proof fn lemma_collect_expr_children(e: Expr)
    ensures
        reqs_at(e) + collect_reqs(ev_expr_children(e)) == reqs_of_expr(e),
    decreases e, 0nat,
{
    match e {
        Expr::Id(_) => {
            assert(reqs_at(e) + collect_reqs(ev_expr_children(e)) =~= reqs_of_expr(e));
        },
        Expr::Str(_) => {
            assert(reqs_at(e) + collect_reqs(ev_expr_children(e)) =~= reqs_of_expr(e));
        },
        Expr::Call(callee, args) => {
            lemma_collect_concat(ev_expr(*callee), ev_exprs(args@));
            lemma_collect_expr(*callee);
            lemma_collect_exprs(args@);
            assert(reqs_at(e) + collect_reqs(ev_expr_children(e)) =~= reqs_of_expr(e));
        },
        Expr::Comma(es) => {
            lemma_collect_exprs(es@);
            assert(reqs_at(e) + collect_reqs(ev_expr_children(e)) =~= reqs_of_expr(e));
        },
        Expr::Arr(els) => {
            lemma_collect_opt_exprs(els@);
            assert(reqs_at(e) + collect_reqs(ev_expr_children(e)) =~= reqs_of_expr(e));
        },
        Expr::Obj(props) => {
            lemma_collect_props(props@);
            assert(reqs_at(e) + collect_reqs(ev_expr_children(e)) =~= reqs_of_expr(e));
        },
        Expr::Fun(f) => {
            lemma_collect_fun(f);
            assert(reqs_at(e) + collect_reqs(ev_expr_children(e)) =~= reqs_of_expr(e));
        },
        Expr::Unop(inner) => {
            lemma_collect_expr(*inner);
            assert(reqs_at(e) + collect_reqs(ev_expr_children(e)) =~= reqs_of_expr(e));
        },
        Expr::Binop(a, b) => {
            lemma_collect_concat(ev_expr(*a), ev_expr(*b));
            lemma_collect_expr(*a);
            lemma_collect_expr(*b);
            assert(reqs_at(e) + collect_reqs(ev_expr_children(e)) =~= reqs_of_expr(e));
        },
        Expr::Logop(a, b) => {
            lemma_collect_concat(ev_expr(*a), ev_expr(*b));
            lemma_collect_expr(*a);
            lemma_collect_expr(*b);
            assert(reqs_at(e) + collect_reqs(ev_expr_children(e)) =~= reqs_of_expr(e));
        },
        Expr::IncDec(inner) => {
            lemma_collect_expr(*inner);
            assert(reqs_at(e) + collect_reqs(ev_expr_children(e)) =~= reqs_of_expr(e));
        },
        Expr::Assign(rhs) => {
            lemma_collect_expr(*rhs);
            assert(reqs_at(e) + collect_reqs(ev_expr_children(e)) =~= reqs_of_expr(e));
        },
        Expr::Cond(cond, cons, alt) => {
            lemma_collect_concat(ev_expr(*cond) + ev_expr(*cons), ev_expr(*alt));
            lemma_collect_concat(ev_expr(*cond), ev_expr(*cons));
            lemma_collect_expr(*cond);
            lemma_collect_expr(*cons);
            lemma_collect_expr(*alt);
            assert(reqs_at(e) + collect_reqs(ev_expr_children(e)) =~= reqs_of_expr(e));
        },
        Expr::Dot(object) => {
            lemma_collect_expr(*object);
            assert(reqs_at(e) + collect_reqs(ev_expr_children(e)) =~= reqs_of_expr(e));
        },
        Expr::Brack(object, property) => {
            lemma_collect_concat(ev_expr(*object), ev_expr(*property));
            lemma_collect_expr(*object);
            lemma_collect_expr(*property);
            assert(reqs_at(e) + collect_reqs(ev_expr_children(e)) =~= reqs_of_expr(e));
        },
        Expr::Other => {
            assert(reqs_at(e) + collect_reqs(ev_expr_children(e)) =~= reqs_of_expr(e));
        },
    }
}


/// The import identifiers a top-level `var` declarator contributes: what
/// its initializer would contribute as a require call.
pub open spec fn var_reqs_of_dtors(ds: Seq<Dtor>) -> Seq<Seq<char>>
    decreases ds.len(),
{
    if ds.len() == 0 {
        Seq::empty()
    } else {
        var_reqs_of_dtors(ds.drop_last()) + match ds.last() {
            Dtor::Simple(Option::Some(e)) => reqs_at(e),
            _ => Seq::empty(),
        }
    }
}

/// The import identifiers found by the restricted, top-level-only scan.
pub open spec fn var_reqs_of_items(items: Seq<StmtListItem>) -> Seq<Seq<char>>
    decreases items.len(),
{
    if items.len() == 0 {
        Seq::empty()
    } else {
        var_reqs_of_items(items.drop_last()) + match items.last() {
            StmtListItem::Stmt(Stmt::Var(decls)) => var_reqs_of_dtors(decls@),
            _ => Seq::empty(),
        }
    }
}

pub open spec fn var_reqs_of_script(s: Script) -> Seq<Seq<char>> {
    var_reqs_of_items(s.body@)
}

/// A restricted detector that scans only the initializers of top-level
/// `var` declarations for require calls, ignoring everything nested.
pub fn detect_vars(ast: &Script) -> (r: Vec<String>)
    ensures
        string_views(r@) == var_reqs_of_script(*ast),
{
    let mut modules: Vec<String> = Vec::new();
    let mut i: usize = 0;
    while i < ast.body.len()
        invariant
            i <= ast.body.len(),
            string_views(modules@) =~= var_reqs_of_items(ast.body@.take(i as int)),
        decreases ast.body.len() - i,
    {
        let ghost m0 = modules@;
        if let StmtListItem::Stmt(Stmt::Var(decls)) = &ast.body[i] {
            let mut j: usize = 0;
            while j < decls.len()
                invariant
                    j <= decls.len(),
                    string_views(modules@) =~= string_views(m0) + var_reqs_of_dtors(
                        decls@.take(j as int),
                    ),
                decreases decls.len() - j,
            {
                let ghost mj = modules@;
                if let Dtor::Simple(Option::Some(e)) = &decls[j] {
                    if let Expr::Call(callee, args) = e {
                        if is_require_name(callee) {
                            if args.len() > 0 {
                                if let Expr::Str(val) = &args[0] {
                                    modules.push(val.clone());
                                }
                            }
                        }
                    }
                    proof {
                        assert(string_views(modules@) =~= string_views(mj) + reqs_at(
                            decls@[j as int]->Simple_0->0,
                        ));
                    }
                }
                proof {
                    assert(decls@.take(j + 1).drop_last() =~= decls@.take(j as int));
                    assert(decls@.take(j + 1).last() == decls@[j as int]);
                    assert(string_views(modules@) =~= string_views(m0) + var_reqs_of_dtors(
                        decls@.take(j + 1),
                    ));
                }
                j = j + 1;
            }
            proof {
                assert(decls@.take(decls@.len() as int) =~= decls@);
            }
        }
        proof {
            assert(ast.body@.take(i + 1).drop_last() =~= ast.body@.take(i as int));
            assert(ast.body@.take(i + 1).last() == ast.body@[i as int]);
            assert(string_views(modules@) =~= var_reqs_of_items(ast.body@.take(i + 1)));
        }
        i = i + 1;
    }
    proof {
        assert(ast.body@.take(ast.body@.len() as int) =~= ast.body@);
    }
    modules
}


/// A nested `require(require('x'))` yields exactly one discovery, `x`:
/// discovery is once per call node, and the outer call's argument is not
/// a string literal, so only the inner call contributes.
pub proof fn lemma_nested_require_once(outer: Expr, inner: Expr, x: String)
    requires
        inner is Call,
        (*inner->Call_0) is Id,
        (*inner->Call_0)->Id_0@ == "require"@,
        inner->Call_1@ =~= seq![Expr::Str(x)],
        outer is Call,
        (*outer->Call_0) is Id,
        (*outer->Call_0)->Id_0@ == "require"@,
        outer->Call_1@ =~= seq![inner],
    ensures
        reqs_of_expr(outer) == seq![x@],
{
    assert(!is_require_call(outer));
    assert(reqs_at(outer) =~= Seq::empty());
    assert(reqs_of_expr(*outer->Call_0) =~= Seq::empty());
    assert(is_require_call(inner));
    assert(reqs_at(inner) =~= seq![x@]);
    assert(reqs_of_expr(*inner->Call_0) =~= Seq::empty());
    assert(inner->Call_1@.drop_last() =~= Seq::empty());
    assert(inner->Call_1@.last() == Expr::Str(x));
    assert(reqs_of_expr(Expr::Str(x)) =~= Seq::empty());
    assert(reqs_of_exprs(Seq::<Expr>::empty()) =~= Seq::<Seq<char>>::empty());
    assert(reqs_of_exprs(inner->Call_1@) =~= Seq::empty());
    assert(reqs_of_expr(inner) =~= seq![x@]);
    assert(outer->Call_1@.drop_last() =~= Seq::empty());
    assert(outer->Call_1@.last() == inner);
    assert(reqs_of_exprs(outer->Call_1@) =~= seq![x@]);
    assert(reqs_of_expr(outer) =~= seq![x@]);
}

/// The detector ignores non-literal arguments: a call `require(x)` whose
/// argument is a bare identifier contributes nothing.
pub proof fn lemma_non_literal_ignored(call: Expr, arg: Expr)
    requires
        call is Call,
        (*call->Call_0) is Id,
        (*call->Call_0)->Id_0@ == "require"@,
        call->Call_1@ =~= seq![arg],
        arg is Id,
    ensures
        reqs_of_expr(call) == Seq::<Seq<char>>::empty(),
{
    assert(!is_require_call(call));
    assert(reqs_at(call) =~= Seq::empty());
    assert(reqs_of_expr(*call->Call_0) =~= Seq::empty());
    assert(call->Call_1@.drop_last() =~= Seq::empty());
    assert(call->Call_1@.last() == arg);
    assert(reqs_of_expr(arg) =~= Seq::empty());
    assert(reqs_of_exprs(Seq::<Expr>::empty()) =~= Seq::<Seq<char>>::empty());
    assert(reqs_of_exprs(call->Call_1@) =~= Seq::empty());
    assert(reqs_of_expr(call) =~= Seq::empty());
}

} // verus!
