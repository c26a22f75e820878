use minipack::ast::{Dtor, Expr, Script, Stmt, StmtListItem};
use minipack::builtins::NoBuiltins;
use minipack::deps::{Action, Deps, Event, ResolverConfig, RunState};
use minipack::graph::SourceFile;
use minipack::loader::{CodeParse, Error, LoadFile};

fn req(name: &str) -> Expr {
    Expr::Call(
        Box::new(Expr::Id("require".to_owned())),
        vec![Expr::Str(name.to_owned())],
    )
}

fn script_requiring(names: &[&str]) -> Script {
    let body = names
        .iter()
        .map(|n| StmtListItem::Stmt(Stmt::Var(vec![Dtor::Simple(Some(req(n)))])))
        .collect();
    Script { body }
}

fn code_file(path: &str, source: &str, requires: &[&str]) -> SourceFile {
    LoadFile::new(path.to_owned())
        .run(source.to_owned(), CodeParse::Tree(script_requiring(requires)))
        .unwrap()
}

fn expect_resolve(a: &Action, basedir: &str, name: &str) {
    match a {
        Action::Resolve { basedir: b, name: n } => {
            assert_eq!(b, basedir);
            assert_eq!(n, name);
        },
        _ => panic!("expected a resolve action"),
    }
}

fn expect_load(a: &Action, path: &str) {
    match a {
        Action::Load { path: p } => assert_eq!(p, path),
        _ => panic!("expected a load action"),
    }
}

#[test]
fn two_module_graph_round_trip() {
    // A requires B; B has no further dependencies.
    let mut deps: Deps<NoBuiltins> = Deps::new();
    let a = deps.run("./a");
    expect_resolve(&a, ".", "./a");
    let a = deps.step(Event::Resolved("/x/a.js".to_owned()));
    expect_load(&a, "/x/a.js");
    let file_a = code_file("/x/a.js", "var b = require('./b');\n", &["./b"]);
    let a = deps.step(Event::Loaded(Ok(file_a)));
    expect_resolve(&a, "/x", "./b");
    let a = deps.step(Event::Resolved("/x/b.js".to_owned()));
    expect_load(&a, "/x/b.js");
    let file_b = code_file("/x/b.js", "module.exports = 2;\n", &[]);
    let a = deps.step(Event::Loaded(Ok(file_b)));
    assert!(matches!(a, Action::Done));
    assert_eq!(deps.state(), RunState::Done);

    let modules = deps.modules();
    assert_eq!(modules.len(), 2);
    let rec_a = modules.iter().find(|r| r.file.path() == "/x/a.js").unwrap();
    let rec_b = modules.iter().find(|r| r.file.path() == "/x/b.js").unwrap();
    assert_eq!(rec_a.id, 1);
    assert!(rec_a.entry);
    assert_eq!(rec_b.id, 2);
    assert!(!rec_b.entry);
    assert_eq!(rec_a.dependencies.len(), 1);
    assert_eq!(rec_a.dependencies[0].name, "./b");
    assert_eq!(rec_a.dependencies[0].resolved.as_deref(), Some("/x/b.js"));
    assert_eq!(rec_a.dependencies[0].record, Some(2));
    assert_eq!(rec_b.dependencies.len(), 0);

    // The bundle's module table holds exactly the two modules, the entry
    // list exactly A's id, and A's dependency map names B's id.
    let bundle = minipack::pack::Pack::new(modules).to_string();
    assert_eq!(bundle.matches(":[function(require,exports,module){").count(), 2);
    assert!(bundle.ends_with("},{},[1]);"));
    let quoted = serde_json::to_string("./b").unwrap();
    assert!(bundle.contains(&format!("{}:2", quoted)));
}

#[test]
fn require_cycle_terminates_and_links_both_ways() {
    // A requires B, B requires A.
    let mut deps: Deps<NoBuiltins> = Deps::new();
    deps.run("./a");
    let a = deps.step(Event::Resolved("/x/a.js".to_owned()));
    expect_load(&a, "/x/a.js");
    let a = deps.step(Event::Loaded(Ok(code_file("/x/a.js", "require('./b');", &["./b"]))));
    expect_resolve(&a, "/x", "./b");
    let a = deps.step(Event::Resolved("/x/b.js".to_owned()));
    expect_load(&a, "/x/b.js");
    let a = deps.step(Event::Loaded(Ok(code_file("/x/b.js", "require('./a');", &["./a"]))));
    expect_resolve(&a, "/x", "./a");
    // B's dependency resolves to the already-loaded A: no second load.
    let a = deps.step(Event::Resolved("/x/a.js".to_owned()));
    assert!(matches!(a, Action::Done));

    let modules = deps.modules();
    assert_eq!(modules.len(), 2);
    let rec_a = modules.iter().find(|r| r.file.path() == "/x/a.js").unwrap();
    let rec_b = modules.iter().find(|r| r.file.path() == "/x/b.js").unwrap();
    assert_eq!(rec_a.dependencies[0].record, Some(rec_b.id));
    assert_eq!(rec_b.dependencies[0].record, Some(rec_a.id));
}

#[test]
fn entry_file_with_relative_and_stubbed_builtin() {
    // Entry a.js requires './b' and 'fs'; './b.js' exists and 'fs' is a
    // recognized builtin mapped to a stub.
    let mut deps = Deps::new().with_builtins_path("/shims".to_owned());
    deps.run("./a");
    let a = deps.step(Event::Resolved("/x/a.js".to_owned()));
    expect_load(&a, "/x/a.js");
    let file_a = code_file(
        "/x/a.js",
        "var b = require('./b');\nvar f = require('fs');\n",
        &["./b", "fs"],
    );
    let a = deps.step(Event::Loaded(Ok(file_a)));
    expect_resolve(&a, "/x", "./b");
    let a = deps.step(Event::Resolved("/x/b.js".to_owned()));
    expect_load(&a, "/x/b.js");
    let a = deps.step(Event::Loaded(Ok(code_file("/x/b.js", "module.exports = 2;", &[]))));
    assert!(matches!(a, Action::Done));

    let modules = deps.modules();
    assert_eq!(modules.len(), 2);
    let rec_a = modules.iter().find(|r| r.file.path() == "/x/a.js").unwrap();
    let rec_b = modules.iter().find(|r| r.file.path() == "/x/b.js").unwrap();
    assert!(rec_a.id < rec_b.id);
    let dep_b = rec_a.dependencies.iter().find(|d| d.name == "./b").unwrap();
    let dep_fs = rec_a.dependencies.iter().find(|d| d.name == "fs").unwrap();
    assert_eq!(dep_b.record, Some(rec_b.id));
    assert_eq!(dep_fs.resolved, None);
    assert_eq!(dep_fs.record, None);
}

#[test]
fn disabled_builtins_stay_unresolved_and_emit_null() {
    let mut deps = Deps::new().with_builtins_path("/shims".to_owned()).include_builtins(false);
    deps.run("./a");
    let a = deps.step(Event::Resolved("/x/a.js".to_owned()));
    expect_load(&a, "/x/a.js");
    let a = deps.step(Event::Loaded(Ok(code_file("/x/a.js", "require('fs');", &["fs"]))));
    assert!(matches!(a, Action::Done));

    let modules = deps.modules();
    let rec_a = &modules[0];
    assert_eq!(rec_a.dependencies.len(), 1);
    assert_eq!(rec_a.dependencies[0].name, "fs");
    assert_eq!(rec_a.dependencies[0].resolved, None);
    assert_eq!(rec_a.dependencies[0].record, None);

    let bundle = minipack::pack::Pack::new(modules).to_string();
    assert!(bundle.contains("\"fs\":null"));
}

#[test]
fn package_builtin_is_resolved_under_the_shim_root() {
    let mut deps = Deps::new().with_builtins_path("/shims".to_owned());
    deps.run("./a");
    let a = deps.step(Event::Resolved("/x/a.js".to_owned()));
    expect_load(&a, "/x/a.js");
    let a = deps.step(Event::Loaded(Ok(code_file("/x/a.js", "require('util');", &["util"]))));
    // util maps to the util/ package, resolved under the shim root.
    expect_resolve(&a, "/shims", "util/");
    let a = deps.step(Event::Resolved("/shims/node_modules/util/util.js".to_owned()));
    expect_load(&a, "/shims/node_modules/util/util.js");
    let shim = code_file("/shims/node_modules/util/util.js", "exports.inherits = 1;", &[]);
    let a = deps.step(Event::Loaded(Ok(shim)));
    assert!(matches!(a, Action::Done));

    let modules = deps.modules();
    assert_eq!(modules.len(), 2);
    let rec_a = modules.iter().find(|r| r.file.path() == "/x/a.js").unwrap();
    assert_eq!(rec_a.dependencies[0].name, "util");
    assert_eq!(
        rec_a.dependencies[0].resolved.as_deref(),
        Some("/shims/node_modules/util/util.js")
    );
}

#[test]
fn builtin_without_mapping_is_a_configuration_error() {
    // zlib is a recognized platform builtin, but the static table maps no
    // shim for it.
    let mut deps = Deps::new().with_builtins_path("/shims".to_owned());
    deps.run("./a");
    let a = deps.step(Event::Resolved("/x/a.js".to_owned()));
    expect_load(&a, "/x/a.js");
    let a = deps.step(Event::Loaded(Ok(code_file("/x/a.js", "require('zlib');", &["zlib"]))));
    match a {
        Action::Failed(Error::Configuration { name }) => assert_eq!(name, "zlib"),
        _ => panic!("expected a configuration failure"),
    }
    assert_eq!(deps.state(), RunState::Failed);
}

#[test]
fn resolution_failure_aborts_the_run() {
    let mut deps: Deps<NoBuiltins> = Deps::new();
    deps.run("./missing");
    let a = deps.step(Event::ResolveFailed);
    match a {
        Action::Failed(Error::Resolution { name }) => assert_eq!(name, "./missing"),
        _ => panic!("expected a resolution failure"),
    }
    assert_eq!(deps.state(), RunState::Failed);
}

#[test]
fn load_failure_aborts_the_run() {
    let mut deps: Deps<NoBuiltins> = Deps::new();
    deps.run("./a");
    deps.step(Event::Resolved("/x/a.js".to_owned()));
    let a = deps.step(Event::Loaded(Err(Error::Io {
        path: "/x/a.js".to_owned(),
        message: "permission denied".to_owned(),
    })));
    match a {
        Action::Failed(Error::Io { path, .. }) => assert_eq!(path, "/x/a.js"),
        _ => panic!("expected the load error back"),
    }
    assert_eq!(deps.state(), RunState::Failed);
}

#[test]
fn duplicate_imports_share_one_edge() {
    // require('./b'); require('./b')
    let mut deps: Deps<NoBuiltins> = Deps::new();
    deps.run("./a");
    let a = deps.step(Event::Resolved("/x/a.js".to_owned()));
    expect_load(&a, "/x/a.js");
    let file_a = code_file("/x/a.js", "require('./b');require('./b');", &["./b", "./b"]);
    let a = deps.step(Event::Loaded(Ok(file_a)));
    expect_resolve(&a, "/x", "./b");
    let a = deps.step(Event::Resolved("/x/b.js".to_owned()));
    expect_load(&a, "/x/b.js");
    let a = deps.step(Event::Loaded(Ok(code_file("/x/b.js", "2;", &[]))));
    assert!(matches!(a, Action::Done));
    let rec_a = deps.modules().iter().find(|r| r.file.path() == "/x/a.js").unwrap();
    assert_eq!(rec_a.dependencies.len(), 1);
}

fn bundle_two_modules() -> String {
    let mut deps: Deps<NoBuiltins> = Deps::new();
    deps.run("./a");
    deps.step(Event::Resolved("/x/a.js".to_owned()));
    deps.step(Event::Loaded(Ok(code_file("/x/a.js", "var b = require('./b');", &["./b"]))));
    deps.step(Event::Resolved("/x/b.js".to_owned()));
    let a = deps.step(Event::Loaded(Ok(code_file("/x/b.js", "module.exports = 2;", &[]))));
    assert!(matches!(a, Action::Done));
    minipack::pack::Pack::new(deps.modules()).to_string()
}

#[test]
fn rebundling_the_same_tree_is_byte_identical() {
    let one = bundle_two_modules();
    let two = bundle_two_modules();
    assert_eq!(one, two);
}

#[test]
fn json_data_file_is_bundled_as_export_assignment() {
    // Entry requires './config.json'; the data file has no dependencies
    // and serves an export assignment of its parsed value.
    let mut deps: Deps<NoBuiltins> = Deps::new();
    deps.run("./a");
    let a = deps.step(Event::Resolved("/x/a.js".to_owned()));
    expect_load(&a, "/x/a.js");
    let file_a = code_file("/x/a.js", "var c = require('./config.json');", &["./config.json"]);
    let a = deps.step(Event::Loaded(Ok(file_a)));
    expect_resolve(&a, "/x", "./config.json");
    let a = deps.step(Event::Resolved("/x/config.json".to_owned()));
    expect_load(&a, "/x/config.json");
    let loader = LoadFile::new("/x/config.json".to_owned());
    assert!(loader.is_data());
    let data = loader.run("{\"port\": 80}".to_owned(), CodeParse::Skipped).unwrap();
    let a = deps.step(Event::Loaded(Ok(data)));
    assert!(matches!(a, Action::Done));

    let bundle = minipack::pack::Pack::new(deps.modules()).to_string();
    assert!(bundle.contains("module.exports = {\"port\": 80}"));
}

#[test]
fn resolver_configuration_is_carried_for_the_driver() {
    let deps: Deps<NoBuiltins> = Deps::new();
    assert_eq!(deps.resolver().extensions, vec![".js".to_owned(), ".json".to_owned()]);
    assert!(!deps.resolver().preserve_symlinks);

    let deps = deps.with_resolver(ResolverConfig {
        extensions: vec![".js".to_owned()],
        preserve_symlinks: true,
    });
    assert_eq!(deps.resolver().extensions, vec![".js".to_owned()]);
    assert!(deps.resolver().preserve_symlinks);
}
