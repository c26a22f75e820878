use minipack::ast::{Dtor, Expr, Script, Stmt, StmtListItem};
use minipack::graph::SourceFile;
use minipack::loader::{CodeParse, Error, LoadFile, ParseError};
use sha1::{Digest, Sha1};

fn req(name: &str) -> Expr {
    Expr::Call(
        Box::new(Expr::Id("require".to_owned())),
        vec![Expr::Str(name.to_owned())],
    )
}

fn script_requiring(names: &[&str]) -> Script {
    let body = names
        .iter()
        .map(|n| {
            StmtListItem::Stmt(Stmt::Var(vec![Dtor::Simple(Some(req(n)))]))
        })
        .collect();
    Script { body }
}

#[test]
fn code_file_hash_is_sha1_of_source() {
    let source = "var x = 1;\n";
    let file = LoadFile::new("/m/a.js".to_owned())
        .run(source.to_owned(), CodeParse::Tree(Script { body: vec![] }))
        .unwrap();
    let expected: Vec<u8> = Sha1::digest(source.as_bytes()).to_vec();
    assert_eq!(file.hash(), &expected);
    assert_eq!(file.hash().len(), 20);
}

#[test]
fn byte_identical_contents_hash_alike_regardless_of_path() {
    let source = "exports.a = 1;";
    let one = LoadFile::new("/m/a.js".to_owned())
        .run(source.to_owned(), CodeParse::Tree(Script { body: vec![] }))
        .unwrap();
    let two = LoadFile::new("/elsewhere/b.js".to_owned())
        .run(source.to_owned(), CodeParse::Tree(Script { body: vec![] }))
        .unwrap();
    assert_eq!(one.hash(), two.hash());
    let three = LoadFile::new("/m/c.js".to_owned())
        .run("exports.a = 2;".to_owned(), CodeParse::Tree(Script { body: vec![] }))
        .unwrap();
    assert_ne!(one.hash(), three.hash());
}

#[test]
fn code_file_records_detected_imports() {
    let tree = script_requiring(&["./b", "fs"]);
    let file = LoadFile::new("/m/a.js".to_owned())
        .run("var b = require('./b');\nvar f = require('fs');\n".to_owned(), CodeParse::Tree(tree))
        .unwrap();
    match &file {
        SourceFile::CJS { dependencies, .. } => {
            assert_eq!(dependencies, &vec!["./b".to_owned(), "fs".to_owned()]);
        },
        _ => panic!("expected a module"),
    }
}

#[test]
fn json_file_is_validated_and_served_as_export_assignment() {
    let loader = LoadFile::new("/m/data.json".to_owned());
    assert!(loader.is_data());
    let file = loader.run("{\"a\": 1}".to_owned(), CodeParse::Skipped).unwrap();
    assert!(matches!(file, SourceFile::JSON { .. }));
    assert_eq!(file.served_source(), "module.exports = {\"a\": 1}");
    assert_eq!(file.source(), "{\"a\": 1}");
}

#[test]
fn malformed_json_is_a_data_format_error() {
    let r = LoadFile::new("/m/data.json".to_owned()).run("{broken".to_owned(), CodeParse::Skipped);
    match r {
        Err(Error::DataFormat { path }) => assert_eq!(path, "/m/data.json"),
        _ => panic!("expected a data format error"),
    }
}

#[test]
fn parse_failure_is_fatal_with_position() {
    let r = LoadFile::new("/m/bad.js".to_owned()).run(
        "var = ;".to_owned(),
        CodeParse::SyntaxError { line: 1, column: 5, message: "unexpected token".to_owned() },
    );
    match r {
        Err(Error::Parse(pe)) => {
            assert_eq!(pe.filename, "/m/bad.js");
            assert_eq!(pe.line, 1);
            assert_eq!(pe.column, 5);
            assert_eq!(pe.describe(), "Parse error in /m/bad.js:1:5\nunexpected token");
        },
        _ => panic!("expected a parse error"),
    }
}

#[test]
fn unlocated_parse_failure_reports_zero_zero() {
    let pe = ParseError::new("x.js".to_owned(), 0, 0, "lex error".to_owned());
    assert_eq!(pe.describe(), "Parse error in x.js:0:0\nlex error");
}

#[test]
fn extension_decides_data_files() {
    assert!(LoadFile::new("a.json".to_owned()).is_data());
    assert!(LoadFile::new("/p/q/with.dots.json".to_owned()).is_data());
    assert!(!LoadFile::new("a.js".to_owned()).is_data());
    assert!(!LoadFile::new("json".to_owned()).is_data());
    assert!(!LoadFile::new("a.jsonx".to_owned()).is_data());
    assert!(!LoadFile::new(".json".to_owned()).is_data());
    assert!(!LoadFile::new("/p/q/.json".to_owned()).is_data());
    assert!(LoadFile::new("/p/q/..json".to_owned()).is_data());
}
