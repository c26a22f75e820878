use minipack::ast::Script;
use minipack::graph::{Dependency, HashOrder, ModuleRecord, SourceFile};
use minipack::loader::{CodeParse, LoadFile};

fn file(path: &str, source: &str) -> SourceFile {
    LoadFile::new(path.to_owned())
        .run(source.to_owned(), CodeParse::Tree(Script { body: vec![] }))
        .unwrap()
}

#[test]
fn dependency_lifecycle() {
    let d = Dependency::uninitialized("fs".to_owned());
    assert_eq!(d.name, "fs");
    assert_eq!(d.resolved, None);
    assert_eq!(d.record, None);

    let d = Dependency::resolved("./b".to_owned(), "/x/b.js".to_owned());
    assert_eq!(d.name, "./b");
    assert_eq!(d.resolved.as_deref(), Some("/x/b.js"));
    assert_eq!(d.record, None);

    let d = d.with_record(2);
    assert_eq!(d.record, Some(2));

    let mut d = Dependency::resolved("./c".to_owned(), "/x/c.js".to_owned());
    d.set_record(3);
    assert_eq!(d.record, Some(3));
    assert_eq!(d.name, "./c");
}

#[test]
fn source_file_accessors() {
    let f = file("/x/a.js", "var a = 1;");
    assert_eq!(f.path(), "/x/a.js");
    assert_eq!(f.source(), "var a = 1;");
    assert_eq!(f.served_source(), "var a = 1;");
    assert_eq!(f.hash().len(), 20);
}

#[test]
fn hash_comparison_is_a_total_order_on_digests() {
    let make = |path: &str, src: &str, id: usize| ModuleRecord {
        file: file(path, src),
        id,
        entry: false,
        dependencies: vec![],
    };
    let a = make("/x/a.js", "aaa", 1);
    let b = make("/x/b.js", "bbb", 2);
    let a2 = make("/y/a.js", "aaa", 3);
    assert!(matches!(a.hash_cmp(&a2), HashOrder::Equal));
    match a.hash_cmp(&b) {
        HashOrder::Less => assert!(matches!(b.hash_cmp(&a), HashOrder::Greater)),
        HashOrder::Greater => assert!(matches!(b.hash_cmp(&a), HashOrder::Less)),
        HashOrder::Equal => panic!("distinct contents must hash apart"),
    }
}
