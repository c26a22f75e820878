//! The module graph's data model: source files, dependency edges, module
//! records and the module map.

use vstd::prelude::*;

use crate::ast::{reqs_of_script, Script};
use crate::loader::sha1_of;

verus! {

/// A 160-bit content digest, as 20 raw bytes.
pub type ContentHash = Vec<u8>;

/// A source file, read from disk and prepared for bundling.
pub enum SourceFile {
    /// A CommonJS module.
    CJS {
        /// Canonical path to the file.
        path: String,
        /// The file source content.
        source: String,
        /// Digest of the source content.
        hash: ContentHash,
        /// Syntax tree.
        ast: Option<Script>,
        /// Detected import identifiers, in encounter order, duplicates
        /// preserved.
        dependencies: Vec<String>,
    },
    /// A JSON data file on disk.
    JSON {
        /// Canonical path to the file.
        path: String,
        /// The file source content.
        source: String,
        /// Digest of the source content.
        hash: ContentHash,
    },
}

impl SourceFile {
    pub open spec fn spec_path(&self) -> Seq<char> {
        match *self {
            SourceFile::CJS { ref path, .. } => path@,
            SourceFile::JSON { ref path, .. } => path@,
        }
    }

    pub open spec fn spec_source(&self) -> Seq<char> {
        match *self {
            SourceFile::CJS { ref source, .. } => source@,
            SourceFile::JSON { ref source, .. } => source@,
        }
    }

    pub open spec fn spec_hash(&self) -> Seq<u8> {
        match *self {
            SourceFile::CJS { ref hash, .. } => hash@,
            SourceFile::JSON { ref hash, .. } => hash@,
        }
    }

    /// The syntax tree a module was built from; a data file has none.
    pub open spec fn spec_ast(&self) -> Option<Script> {
        match *self {
            SourceFile::CJS { ref ast, .. } => *ast,
            SourceFile::JSON { .. } => Option::None,
        }
    }

    /// The import identifiers this file asks for: what was detected in a
    /// module, nothing in a data file.
    pub open spec fn spec_dependencies(&self) -> Seq<Seq<char>> {
        match *self {
            SourceFile::CJS { ref dependencies, .. } => dependencies@.map_values(|s: String| s@),
            SourceFile::JSON { .. } => Seq::empty(),
        }
    }

    /// The source text a module serves at runtime: a module's own text; for
    /// a data file, an expression assigning the parsed value to the module's
    /// export slot.
    pub open spec fn spec_served_source(&self) -> Seq<char> {
        match *self {
            SourceFile::CJS { ref source, .. } => source@,
            SourceFile::JSON { ref source, .. } => "module.exports = "@ + source@,
        }
    }

    /// Well-formedness: the hash is the digest of the source content (and
    /// of nothing else, in particular not of the path), and a module's
    /// recorded imports are exactly what detection finds in its tree.
    pub open spec fn wf(&self) -> bool {
        &&& self.spec_hash() == sha1_of(self.spec_source())
        &&& self.spec_hash().len() == 20
        &&& match *self {
            SourceFile::CJS { ref ast, ref dependencies, .. } => {
                &&& ast is Some
                &&& dependencies@.map_values(|s: String| s@) == reqs_of_script(ast->0)
            },
            SourceFile::JSON { .. } => true,
        }
    }

    pub fn path(&self) -> (r: &String)
        ensures
            r@ == self.spec_path(),
    {
        match self {
            SourceFile::CJS { path, .. } => path,
            SourceFile::JSON { path, .. } => path,
        }
    }

    pub fn source(&self) -> (r: &String)
        ensures
            r@ == self.spec_source(),
    {
        match self {
            SourceFile::CJS { source, .. } => source,
            SourceFile::JSON { source, .. } => source,
        }
    }

    pub fn hash(&self) -> (r: &ContentHash)
        ensures
            r@ == self.spec_hash(),
    {
        match self {
            SourceFile::CJS { hash, .. } => hash,
            SourceFile::JSON { hash, .. } => hash,
        }
    }

    /// Build the source text this module serves at runtime.
    pub fn served_source(&self) -> (r: String)
        ensures
            r@ == self.spec_served_source(),
    {
        match self {
            SourceFile::CJS { source, .. } => source.clone(),
            SourceFile::JSON { source, .. } => {
                let mut s = "module.exports = ".to_owned();
                s.append(source.as_str());
                s
            },
        }
    }
}

/// One edge out of a module: the literal name as written in the require
/// call, the resolved absolute path (absent when resolution is
/// intentionally skipped, such as an omitted builtin), and a back-reference
/// to the resolved module's record by its id (absent until that module has
/// been loaded).
pub struct Dependency {
    pub name: String,
    pub resolved: Option<String>,
    pub record: Option<usize>,
}

impl Dependency {
    /// An edge whose resolution was skipped, or has not happened yet.
    pub fn uninitialized(name: String) -> (r: Dependency)
        ensures
            r.name == name,
            r.resolved is None,
            r.record is None,
    {
        Dependency { name, resolved: None, record: None }
    }

    /// An edge resolved to a concrete path, not yet backed by a record.
    pub fn resolved(name: String, resolved: String) -> (r: Dependency)
        ensures
            r.name == name,
            r.resolved == Option::Some(resolved),
            r.record is None,
    {
        Dependency { name, resolved: Some(resolved), record: None }
    }

    /// The edge, backed by the record with the given module id.
    pub fn with_record(self, record: usize) -> (r: Dependency)
        ensures
            r.name == self.name,
            r.resolved == self.resolved,
            r.record == Option::Some(record),
    {
        Dependency { record: Some(record), ..self }
    }

    /// Back-fill the edge with the id of the record it points at.
    pub fn set_record(&mut self, record: usize)
        ensures
            final(self).name == old(self).name,
            final(self).resolved == old(self).resolved,
            final(self).record == Option::Some(record),
    {
        self.record = Some(record);
    }
}

/// The outgoing edges of one module, keyed by the literal import
/// identifier: names are distinct, in discovery order.
pub type Dependencies = Vec<Dependency>;

/// One node in the module graph.
pub struct ModuleRecord {
    /// The file this module was built from.
    pub file: SourceFile,
    /// A unique id for this module, assigned in first-visit order starting
    /// at 1.
    pub id: usize,
    /// Whether this module is an entry point to the graph.
    pub entry: bool,
    /// The module's outgoing edges.
    pub dependencies: Dependencies,
}

/// Strict lexicographic order on byte strings.
pub open spec fn bytes_lt(a: Seq<u8>, b: Seq<u8>) -> bool
    decreases b.len(),
{
    if b.len() == 0 {
        false
    } else if a.len() == 0 {
        true
    } else if a.first() < b.first() {
        true
    } else if b.first() < a.first() {
        false
    } else {
        bytes_lt(a.drop_first(), b.drop_first())
    }
}

/// The byte order is asymmetric: no two byte strings order strictly below
/// each other.
pub proof fn lemma_bytes_lt_asymmetric(a: Seq<u8>, b: Seq<u8>)
    ensures
        bytes_lt(a, b) ==> !bytes_lt(b, a),
    decreases b.len(),
{
    if bytes_lt(a, b) && a.len() > 0 && b.len() > 0 && a.first() == b.first() {
        lemma_bytes_lt_asymmetric(a.drop_first(), b.drop_first());
    }
}

/// The byte order is connected: two different byte strings order one way
/// or the other.
pub proof fn lemma_bytes_lt_connected(a: Seq<u8>, b: Seq<u8>)
    requires
        a != b,
    ensures
        bytes_lt(a, b) || bytes_lt(b, a),
    decreases b.len(),
{
    if a.len() == 0 && b.len() == 0 {
        assert(a =~= b);
    } else if a.len() > 0 && b.len() > 0 && a.first() == b.first() {
        if a.drop_first() == b.drop_first() {
            assert(a =~= seq![a.first()] + a.drop_first());
            assert(b =~= seq![b.first()] + b.drop_first());
            assert(false);
        }
        lemma_bytes_lt_connected(a.drop_first(), b.drop_first());
    }
}

/// The byte order is transitive.
pub proof fn lemma_bytes_lt_transitive(a: Seq<u8>, b: Seq<u8>, c: Seq<u8>)
    ensures
        bytes_lt(a, b) && bytes_lt(b, c) ==> bytes_lt(a, c),
    decreases c.len(),
{
    if bytes_lt(a, b) && bytes_lt(b, c) && a.len() > 0 && b.len() > 0 && c.len() > 0
        && a.first() == b.first() && b.first() == c.first() {
        lemma_bytes_lt_transitive(a.drop_first(), b.drop_first(), c.drop_first());
    }
}

/// How two module records compare by content hash.
#[derive(PartialEq, Eq, Structural)]
pub enum HashOrder {
    Less,
    Equal,
    Greater,
}

impl ModuleRecord {
    /// Compare two records by their content hashes, byte-lexicographically.
    pub fn hash_cmp(&self, other: &Self) -> (r: HashOrder)
        ensures
            r == HashOrder::Less <==> bytes_lt(self.file.spec_hash(), other.file.spec_hash()),
            r == HashOrder::Greater <==> bytes_lt(other.file.spec_hash(), self.file.spec_hash()),
            r == HashOrder::Equal <==> self.file.spec_hash() == other.file.spec_hash(),
    {
        bytes_cmp(self.file.hash(), other.file.hash())
    }
}

/// Compare two byte strings lexicographically.
pub fn bytes_cmp(a: &Vec<u8>, b: &Vec<u8>) -> (r: HashOrder)
    ensures
        r == HashOrder::Less <==> bytes_lt(a@, b@),
        r == HashOrder::Greater <==> bytes_lt(b@, a@),
        r == HashOrder::Equal <==> a@ == b@,
{
    let mut i: usize = 0;
    proof {
        assert(a@.skip(0) =~= a@);
        assert(b@.skip(0) =~= b@);
        assert(a@.take(0) =~= b@.take(0));
    }
    loop
        invariant
            i <= a.len(),
            i <= b.len(),
            a@.take(i as int) =~= b@.take(i as int),
            bytes_lt(a@, b@) == bytes_lt(a@.skip(i as int), b@.skip(i as int)),
            bytes_lt(b@, a@) == bytes_lt(b@.skip(i as int), a@.skip(i as int)),
        decreases a.len() - i,
    {
        if i >= a.len() || i >= b.len() {
            if a.len() == b.len() {
                proof {
                    assert(a@.take(i as int) =~= a@);
                    assert(b@.take(i as int) =~= b@);
                    assert(a@.skip(i as int).len() == 0);
                    assert(b@.skip(i as int).len() == 0);
                    assert(a@ == b@);
                }
                return HashOrder::Equal;
            } else if i >= a.len() {
                proof {
                    assert(a@.skip(i as int).len() == 0);
                    assert(b@.skip(i as int).len() > 0);
                }
                return HashOrder::Less;
            } else {
                proof {
                    assert(b@.skip(i as int).len() == 0);
                    assert(a@.skip(i as int).len() > 0);
                }
                return HashOrder::Greater;
            }
        }
        let ca = a[i];
        let cb = b[i];
        if ca < cb {
            proof {
                assert(a@[i as int] != b@[i as int]);
            }
            return HashOrder::Less;
        } else if cb < ca {
            proof {
                assert(a@[i as int] != b@[i as int]);
            }
            return HashOrder::Greater;
        }
        proof {
            assert(a@.skip(i as int).drop_first() =~= a@.skip(i + 1));
            assert(b@.skip(i as int).drop_first() =~= b@.skip(i + 1));
            assert(a@.take(i + 1) =~= b@.take(i + 1));
        }
        i = i + 1;
    }
}

/// The graph's node table: every module reachable from the entry file,
/// each canonical path appearing at most once, the entry module first
/// in id order.
pub type ModuleMap = Vec<ModuleRecord>;

/// A finished module map: paths distinct, ids exactly 1..=len assigned in
/// first-visit order, the entry flag exactly on id 1, every record's file
/// well formed, every edge's back-reference filled exactly when the edge
/// was resolved, and pointing at the record of the resolved path.
pub open spec fn map_complete(ms: Seq<ModuleRecord>) -> bool {
    &&& forall|i: int, j: int|
        0 <= i < ms.len() && 0 <= j < ms.len() && i != j ==> #[trigger] ms[i].file.spec_path()
            != #[trigger] ms[j].file.spec_path()
    &&& forall|i: int, j: int|
        0 <= i < ms.len() && 0 <= j < ms.len() && i != j ==> #[trigger] ms[i].id
            != #[trigger] ms[j].id
    &&& forall|i: int| 0 <= i < ms.len() ==> 1 <= #[trigger] ms[i].id <= ms.len()
    &&& forall|i: int| 0 <= i < ms.len() ==> (#[trigger] ms[i].entry <==> ms[i].id == 1)
    &&& forall|i: int| 0 <= i < ms.len() ==> #[trigger] ms[i].file.wf()
    &&& forall|i: int, j: int|
        0 <= i < ms.len() && 0 <= j < ms[i].dependencies.len() ==> {
            let d = #[trigger] ms[i].dependencies[j];
            &&& (d.record is Some <==> d.resolved is Some)
            &&& (d.resolved is Some ==> exists|k: int|
                {
                    &&& 0 <= k < ms.len()
                    &&& (#[trigger] ms[k].file.spec_path()) == d.resolved->0@
                    &&& ms[k].id == d.record->0
                })
        }
    &&& forall|i: int, j: int, k: int|
        0 <= i < ms.len() && 0 <= j < ms[i].dependencies.len() && 0 <= k < ms[i].dependencies.len()
            && j != k ==> (#[trigger] ms[i].dependencies[j].name)@ != (#[trigger] ms[
            i
        ].dependencies[k].name)@
}


/// The content hash is a pure function of the source text: two files
/// holding byte-identical contents have identical hashes, whatever their
/// paths.
pub proof fn lemma_hash_content_only(a: SourceFile, b: SourceFile)
    requires
        a.wf(),
        b.wf(),
        a.spec_source() == b.spec_source(),
    ensures
        a.spec_hash() == b.spec_hash(),
{
}

} // verus!
