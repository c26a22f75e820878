//! Per-file loading: content hashing, data-file validation, code-file
//! detection, and the bundler's error taxonomy.
//!
//! Reading bytes from disk and running the parser happen at the caller's
//! edge; this module turns a file's path, text and parse outcome into a
//! well-formed [`SourceFile`], or the error that aborts the run.

use vstd::prelude::*;

use serde_json;
use sha1::{Digest, Sha1};

use crate::ast::Script;
use crate::detect::{detect, string_views};
use crate::graph::SourceFile;
use crate::text::{dec_str_of, push_dec};

verus! {

/// The digest of a source text's bytes. Two byte-identical contents have
/// identical digests, whatever their paths.
pub uninterp spec fn sha1_of(s: Seq<char>) -> Seq<u8>;

/// Relies on sha1's `Sha1::digest` over the string's UTF-8 bytes: a 20-byte
/// digest that depends on the content alone.
#[verifier::external_body]
fn sha1_digest(source: &str) -> (r: Vec<u8>)
    ensures
        r@ == sha1_of(source@),
        r@.len() == 20,
{
    Sha1::digest(source.as_bytes()).to_vec()
}

/// Whether a text is a syntactically well-formed JSON document.
pub uninterp spec fn json_wellformed(s: Seq<char>) -> bool;

/// Relies on serde_json's `from_str::<Value>`: it returns `Ok` exactly on
/// well-formed JSON text, a function of the text alone.
#[verifier::external_body]
fn json_check(source: &str) -> (r: bool)
    ensures
        r == json_wellformed(source@),
{
    serde_json::from_str::<serde_json::Value>(source).is_ok()
}

/// A parse failure: the originating file and the 1-based line/column of the
/// offending token where derivable, else an unlocated 0:0 position.
#[derive(Debug)]
pub struct ParseError {
    pub filename: String,
    pub line: u32,
    pub column: u32,
    pub message: String,
}

impl ParseError {
    pub fn new(filename: String, line: u32, column: u32, message: String) -> (r: ParseError)
        ensures
            r == (ParseError { filename, line, column, message }),
    {
        ParseError { filename, line, column, message }
    }

    /// Render the failure for reporting.
    pub fn describe(&self) -> (r: String)
        ensures
            r@ == "Parse error in "@ + self.filename@ + ":"@ + dec_str_of(self.line as nat) + ":"@
                + dec_str_of(self.column as nat) + "\n"@ + self.message@,
    {
        let mut s = "Parse error in ".to_owned();
        s.append(self.filename.as_str());
        s.append(":");
        push_dec(&mut s, self.line as u64);
        s.append(":");
        push_dec(&mut s, self.column as u64);
        s.append("\n");
        s.append(self.message.as_str());
        s
    }
}

/// Everything that can abort a bundling run. Each failure is fatal for the
/// whole run: there is no recovery policy and no partial output.
#[derive(Debug)]
pub enum Error {
    /// A file could not be opened or read.
    Io { path: String, message: String },
    /// A code file did not parse.
    Parse(ParseError),
    /// A data file held malformed structured data.
    DataFormat { path: String },
    /// An import identifier was not found under the resolution policy.
    Resolution { name: String },
    /// A builtin name was requested with no static mapping: a configuration
    /// defect, not a data defect.
    Configuration { name: String },
}

/// True of paths that name a structured-data file: the file name carries a
/// `.json` extension. A file name that is exactly `.json` is a hidden file
/// with no extension, so it counts as code, not data.
pub open spec fn is_json_path(p: Seq<char>) -> bool {
    &&& p.len() >= 6
    &&& p.subrange(p.len() - 5, p.len() as int) == ".json"@
    &&& p[p.len() - 6] != '/'
}

/// How the caller's parse of a code file went. `Skipped` is for data
/// files, which are never parsed as code.
pub enum CodeParse {
    Tree(Script),
    SyntaxError { line: u32, column: u32, message: String },
    Skipped,
}

/// Loads one file of the module graph.
pub struct LoadFile {
    pub path: String,
}

impl LoadFile {
    pub fn new(path: String) -> (r: Self)
        ensures
            r.path == path,
    {
        LoadFile { path }
    }

    /// Whether the path marks the file as structured data rather than code.
    pub fn is_data(&self) -> (r: bool)
        ensures
            r == is_json_path(self.path@),
    {
        let len = self.path.as_str().unicode_len();
        if len < 6 {
            return false;
        }
        if self.path.as_str().get_char(len - 6) == '/' {
            return false;
        }
        let suffix = self.path.as_str().substring_char(len - 5, len);
        let sfx = suffix.to_owned();
        let expected = ".json".to_owned();
        sfx == expected
    }

    /// Build the [`SourceFile`] for this path from its text and, for a code
    /// file, the outcome of parsing that text.
    ///
    /// A data file must hold well-formed JSON; its served source becomes an
    /// export assignment. A code file's tree is scanned for imports; a parse
    /// failure is fatal and reported with path and position.
    pub fn run(self, source: String, parse: CodeParse) -> (r: Result<SourceFile, Error>)
        requires
            is_json_path(self.path@) <==> parse is Skipped,
        ensures
            match r {
                Result::Ok(f) => {
                    &&& f.wf()
                    &&& f.spec_path() == self.path@
                    &&& f.spec_source() == source@
                    &&& (f is JSON <==> is_json_path(self.path@))
                    &&& (parse matches CodeParse::Tree(t) ==> f.spec_ast() == Option::Some(t)
                        && f.spec_dependencies() == crate::ast::reqs_of_script(t))
                },
                Result::Err(e) => match e {
                    Error::DataFormat { path } => {
                        &&& is_json_path(self.path@)
                        &&& !json_wellformed(source@)
                        &&& path == self.path
                    },
                    Error::Parse(pe) => {
                        &&& !is_json_path(self.path@)
                        &&& parse matches CodeParse::SyntaxError { line, column, message } ==> pe
                            == (ParseError { filename: self.path, line, column, message })
                        &&& parse is SyntaxError
                    },
                    _ => false,
                },
            },
            r is Ok <==> (if is_json_path(self.path@) {
                json_wellformed(source@)
            } else {
                parse is Tree
            }),
    {
        let is_json = self.is_data();
        let LoadFile { path } = self;
        let hash = sha1_digest(source.as_str());
        if is_json {
            if json_check(source.as_str()) {
                Result::Ok(SourceFile::JSON { path, source, hash })
            } else {
                Result::Err(Error::DataFormat { path })
            }
        } else {
            match parse {
                CodeParse::Tree(t) => {
                    let dependencies = detect(&t);
                    proof {
                        assert(string_views(dependencies@) == crate::ast::reqs_of_script(t));
                    }
                    Result::Ok(
                        SourceFile::CJS { path, source, hash, ast: Some(t), dependencies },
                    )
                },
                CodeParse::SyntaxError { line, column, message } => {
                    Result::Err(
                        Error::Parse(ParseError { filename: path, line, column, message }),
                    )
                },
                CodeParse::Skipped => {
                    proof {
                        assert(false);
                    }
                    Result::Err(Error::DataFormat { path })
                },
            }
        }
    }
}

} // verus!
