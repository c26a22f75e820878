use minipack::builtins::{
    get_builtin_mapping, BuiltinPlan, Builtins, NoBuiltins, NodeBuiltin, NodeBuiltins,
};
use minipack::loader::Error;

#[test]
fn mapping_holds_the_static_table() {
    let m = get_builtin_mapping();
    assert_eq!(m.len(), 18);
    assert!(matches!(
        m.iter().find(|e| e.0 == "fs").map(|e| &e.1),
        Some(NodeBuiltin::Stub)
    ));
    match m.iter().find(|e| e.0 == "crypto").map(|e| &e.1) {
        Some(NodeBuiltin::Package(p)) => assert_eq!(p, "crypto-browserify"),
        _ => panic!("crypto must map to a package"),
    }
    match m.iter().find(|e| e.0 == "util").map(|e| &e.1) {
        Some(NodeBuiltin::Package(p)) => assert_eq!(p, "util/"),
        _ => panic!("util must map to a package"),
    }
}

#[test]
fn node_builtins_recognize_core_module_names() {
    let b = NodeBuiltins::new("/shims".to_owned());
    assert!(b.is_builtin("fs"));
    assert!(b.is_builtin("events"));
    assert!(b.is_builtin("stream"));
    assert!(!b.is_builtin("events/"));
    assert!(!b.is_builtin("./events"));
    assert!(!b.is_builtin("acorn"));
}

#[test]
fn no_builtins_recognizes_nothing() {
    assert!(!NoBuiltins.is_builtin("fs"));
    assert!(!NoBuiltins.is_builtin("util"));
    // The no-op policy never attempts resolution: every import stays
    // external.
    assert!(matches!(NoBuiltins.plan("fs"), Ok(BuiltinPlan::External)));
}

#[test]
fn plan_follows_the_table() {
    let b = NodeBuiltins::new("/shims".to_owned());
    assert!(matches!(b.plan("fs"), Ok(BuiltinPlan::External)));
    match b.plan("http") {
        Ok(BuiltinPlan::Shim { basedir, package }) => {
            assert_eq!(basedir, "/shims");
            assert_eq!(package, "stream-http");
        },
        _ => panic!("http must be shimmed"),
    }
    match b.plan("zlib") {
        Err(Error::Configuration { name }) => assert_eq!(name, "zlib"),
        _ => panic!("unmapped builtin must be a configuration error"),
    }
}
