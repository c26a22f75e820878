use minipack::ast::Script;
use minipack::graph::{Dependency, HashOrder, ModuleRecord};
use minipack::loader::{CodeParse, LoadFile};
use minipack::pack::{Pack, RUNTIME_PRELUDE};
use minipack::text::dec_string;

fn record(path: &str, source: &str, id: usize, entry: bool, deps: Vec<Dependency>) -> ModuleRecord {
    let file = LoadFile::new(path.to_owned())
        .run(source.to_owned(), CodeParse::Tree(Script { body: vec![] }))
        .unwrap();
    ModuleRecord { file, id, entry, dependencies: deps }
}

#[test]
fn bundle_shape_for_one_module() {
    let rec = record("/x/a.js", "module.exports = 1;", 1, true, vec![]);
    let modules = vec![rec];
    let bundle = Pack::new(&modules).to_string();
    let expected = format!(
        "_require = {}({{\n1:[function(require,exports,module){{\nmodule.exports = 1;\n}},{{}}]}},{{}},[1]);",
        RUNTIME_PRELUDE
    );
    assert_eq!(bundle, expected);
}

#[test]
fn modules_are_emitted_in_content_hash_order() {
    let one = record("/x/a.js", "first source", 1, true, vec![]);
    let two = record("/x/b.js", "second source", 2, false, vec![]);
    let first_hash_lower = matches!(one.hash_cmp(&two), HashOrder::Less);
    let modules = vec![one, two];
    let bundle = Pack::new(&modules).to_string();
    let pos1 = bundle.find("1:[function").unwrap();
    let pos2 = bundle.find("2:[function").unwrap();
    if first_hash_lower {
        assert!(pos1 < pos2);
    } else {
        assert!(pos2 < pos1);
    }
}

#[test]
fn hash_order_is_independent_of_map_order() {
    let a = || record("/x/a.js", "first source", 1, true, vec![]);
    let b = || record("/x/b.js", "second source", 2, false, vec![]);
    let forward = Pack::new(&vec![a(), b()]).to_string();
    let backward = Pack::new(&vec![b(), a()]).to_string();
    assert_eq!(forward, backward);
}

#[test]
fn dependency_map_is_sorted_by_literal_name() {
    let deps = vec![
        Dependency { name: "zebra".to_owned(), resolved: Some("/z.js".to_owned()), record: Some(3) },
        Dependency { name: "alpha".to_owned(), resolved: None, record: None },
    ];
    let rec = record("/x/a.js", "s", 1, true, deps);
    let modules = vec![rec];
    let bundle = Pack::new(&modules).to_string();
    assert!(bundle.contains("{\"alpha\":null,\"zebra\":3}"));
}

#[test]
fn dependency_names_are_json_escaped() {
    let odd = "we\"ird\\name";
    let deps = vec![Dependency { name: odd.to_owned(), resolved: None, record: None }];
    let rec = record("/x/a.js", "s", 1, true, deps);
    let modules = vec![rec];
    let bundle = Pack::new(&modules).to_string();
    let quoted = serde_json::to_string(odd).unwrap();
    assert!(bundle.contains(&format!("{}:null", quoted)));
    // The raw, unescaped name with its quote cannot appear as a JSON key.
    assert!(!bundle.contains("{we\"ird"));
}

#[test]
fn decimal_rendering() {
    assert_eq!(dec_string(0), "0");
    assert_eq!(dec_string(7), "7");
    assert_eq!(dec_string(10), "10");
    assert_eq!(dec_string(90210), "90210");
    assert_eq!(dec_string(u64::MAX), "18446744073709551615");
}
