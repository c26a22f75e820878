//! Builtin module policy: mapping platform builtin module names to a
//! substitute package identifier to bundle in their place, or to an
//! explicit omit marker, with a no-op variant for disabling builtin
//! support entirely.

use vstd::prelude::*;

use node_resolve;

use crate::loader::Error;

verus! {

/// The platform's fixed builtin module names.
pub open spec fn core_name_table() -> Seq<Seq<char>> {
    seq![
        "assert"@,
        "buffer"@,
        "child_process"@,
        "cluster"@,
        "console"@,
        "constants"@,
        "crypto"@,
        "dgram"@,
        "dns"@,
        "domain"@,
        "events"@,
        "fs"@,
        "http"@,
        "https"@,
        "module"@,
        "net"@,
        "os"@,
        "path"@,
        "process"@,
        "punycode"@,
        "querystring"@,
        "readline"@,
        "repl"@,
        "stream"@,
        "string_decoder"@,
        "timers"@,
        "tls"@,
        "tty"@,
        "url"@,
        "util"@,
        "v8"@,
        "vm"@,
        "zlib"@,
    ]
}

/// Whether a name is one of the platform's fixed builtin module names.
pub open spec fn is_core_name(s: Seq<char>) -> bool {
    core_name_table().contains(s)
}

/// Relies on node_resolve's `is_core_module`: membership of the name in
/// its static builtin-name table, which holds exactly the names of
/// [`core_name_table`].
#[verifier::external_body]
fn core_module_check(name: &str) -> (r: bool)
    ensures
        r == is_core_name(name@),
{
    node_resolve::is_core_module(name)
}

/// What to do about one builtin module name.
pub enum NodeBuiltin {
    /// No shim is bundled; the import stays unresolved.
    Stub,
    /// This package is resolved and bundled in the builtin's place.
    Package(String),
}

/// The mathematical image of a [`NodeBuiltin`].
pub enum ShimKind {
    Stub,
    Package(Seq<char>),
}

pub open spec fn shim_view(b: NodeBuiltin) -> ShimKind {
    match b {
        NodeBuiltin::Stub => ShimKind::Stub,
        NodeBuiltin::Package(p) => ShimKind::Package(p@),
    }
}

pub open spec fn mapping_view(m: Seq<(String, NodeBuiltin)>) -> Seq<(Seq<char>, ShimKind)> {
    m.map_values(|e: (String, NodeBuiltin)| (e.0@, shim_view(e.1)))
}

/// The static builtin table: which substitute package stands in for each
/// supported builtin, and which builtins are omitted outright.
pub open spec fn builtin_table() -> Seq<(Seq<char>, ShimKind)> {
    seq![
        ("assert"@, ShimKind::Package("assert/"@)),
        ("buffer"@, ShimKind::Package("buffer/"@)),
        ("crypto"@, ShimKind::Package("crypto-browserify"@)),
        ("events"@, ShimKind::Package("events/"@)),
        ("fs"@, ShimKind::Stub),
        ("http"@, ShimKind::Package("stream-http"@)),
        ("https"@, ShimKind::Package("https-browserify"@)),
        ("os"@, ShimKind::Package("os-browserify"@)),
        ("path"@, ShimKind::Package("path-browserify"@)),
        ("process"@, ShimKind::Package("process/"@)),
        ("querystring"@, ShimKind::Package("querystring-es3"@)),
        ("stream"@, ShimKind::Package("stream-browserify"@)),
        ("string_decoder"@, ShimKind::Package("string_decoder"@)),
        ("timers"@, ShimKind::Package("timers-browserify"@)),
        ("tty"@, ShimKind::Package("tty-browserify"@)),
        ("url"@, ShimKind::Package("url/"@)),
        ("util"@, ShimKind::Package("util/"@)),
        ("vm"@, ShimKind::Package("vm-browserify"@)),
    ]
}

/// First match of a name in a table.
pub open spec fn table_find(t: Seq<(Seq<char>, ShimKind)>, name: Seq<char>) -> Option<ShimKind>
    decreases t.len(),
{
    if t.len() == 0 {
        Option::None
    } else if t.first().0 == name {
        Option::Some(t.first().1)
    } else {
        table_find(t.drop_first(), name)
    }
}

/// The shim decision the static table makes for a name.
pub open spec fn builtin_shim(name: Seq<char>) -> Option<ShimKind> {
    table_find(builtin_table(), name)
}

/// Build the static builtin mapping.
pub fn get_builtin_mapping() -> (r: Vec<(String, NodeBuiltin)>)
    ensures
        mapping_view(r@) == builtin_table(),
{
    let mut m: Vec<(String, NodeBuiltin)> = Vec::new();
    m.push(("assert".to_owned(), NodeBuiltin::Package("assert/".to_owned())));
    m.push(("buffer".to_owned(), NodeBuiltin::Package("buffer/".to_owned())));
    m.push(("crypto".to_owned(), NodeBuiltin::Package("crypto-browserify".to_owned())));
    m.push(("events".to_owned(), NodeBuiltin::Package("events/".to_owned())));
    m.push(("fs".to_owned(), NodeBuiltin::Stub));
    m.push(("http".to_owned(), NodeBuiltin::Package("stream-http".to_owned())));
    m.push(("https".to_owned(), NodeBuiltin::Package("https-browserify".to_owned())));
    m.push(("os".to_owned(), NodeBuiltin::Package("os-browserify".to_owned())));
    m.push(("path".to_owned(), NodeBuiltin::Package("path-browserify".to_owned())));
    m.push(("process".to_owned(), NodeBuiltin::Package("process/".to_owned())));
    m.push(("querystring".to_owned(), NodeBuiltin::Package("querystring-es3".to_owned())));
    m.push(("stream".to_owned(), NodeBuiltin::Package("stream-browserify".to_owned())));
    m.push(("string_decoder".to_owned(), NodeBuiltin::Package("string_decoder".to_owned())));
    m.push(("timers".to_owned(), NodeBuiltin::Package("timers-browserify".to_owned())));
    m.push(("tty".to_owned(), NodeBuiltin::Package("tty-browserify".to_owned())));
    m.push(("url".to_owned(), NodeBuiltin::Package("url/".to_owned())));
    m.push(("util".to_owned(), NodeBuiltin::Package("util/".to_owned())));
    m.push(("vm".to_owned(), NodeBuiltin::Package("vm-browserify".to_owned())));
    proof {
        assert(mapping_view(m@) =~= builtin_table());
    }
    m
}

/// What the graph builder is to do about one recognized builtin import.
pub enum BuiltinPlan {
    /// Bundle nothing; the import stays unresolved.
    External,
    /// Resolve this package under this base directory and bundle it in the
    /// builtin's place.
    Shim { basedir: String, package: String },
}

/// A builtin-handling policy: recognizes builtin names and decides how
/// each is shimmed.
pub trait Builtins: Sized {
    /// Whether the policy recognizes the name as a platform builtin.
    spec fn spec_is_builtin(&self, name: Seq<char>) -> bool;

    /// The shim decision for a name, if the policy has one.
    spec fn spec_shim(&self, name: Seq<char>) -> Option<ShimKind>;

    /// The base directory under which shim packages are resolved.
    spec fn spec_shim_basedir(&self) -> Seq<char>;

    /// Whether `module_id` is a builtin under this policy.
    fn is_builtin(&self, module_id: &str) -> (r: bool)
        ensures
            r == self.spec_is_builtin(module_id@),
    ;

    /// Decide how a builtin import is handled: leave it external for a
    /// stub mapping (or under the no-op policy, which never attempts
    /// resolution), resolve a replacement package for a package mapping,
    /// and fail with a configuration defect for a recognized builtin
    /// absent from the static table.
    fn plan(&self, module_id: &str) -> (r: Result<BuiltinPlan, Error>)
        ensures
            match r {
                Result::Ok(BuiltinPlan::External) => self.spec_shim(module_id@) == Option::Some(
                    ShimKind::Stub,
                ) || !self.spec_is_builtin(module_id@),
                Result::Ok(BuiltinPlan::Shim { basedir, package }) => {
                    &&& basedir@ == self.spec_shim_basedir()
                    &&& self.spec_shim(module_id@) == Option::Some(ShimKind::Package(package@))
                },
                Result::Err(e) => {
                    &&& e matches Error::Configuration { name } && name@ == module_id@
                    &&& self.spec_shim(module_id@) is None
                },
            },
    ;
}

/// Support platform builtins, shimmed from packages under a base
/// directory.
pub struct NodeBuiltins {
    pub basedir: String,
    pub mapping: Vec<(String, NodeBuiltin)>,
}

impl NodeBuiltins {
    /// A builtin policy resolving shim packages under `basedir`.
    pub fn new(basedir: String) -> (r: Self)
        ensures
            r.basedir == basedir,
            mapping_view(r.mapping@) == builtin_table(),
    {
        NodeBuiltins { basedir, mapping: get_builtin_mapping() }
    }
}

impl Builtins for NodeBuiltins {
    open spec fn spec_is_builtin(&self, name: Seq<char>) -> bool {
        is_core_name(name)
    }

    open spec fn spec_shim(&self, name: Seq<char>) -> Option<ShimKind> {
        table_find(mapping_view(self.mapping@), name)
    }

    open spec fn spec_shim_basedir(&self) -> Seq<char> {
        self.basedir@
    }

    fn is_builtin(&self, module_id: &str) -> (r: bool) {
        core_module_check(module_id)
    }

    fn plan(&self, module_id: &str) -> (r: Result<BuiltinPlan, Error>) {
        let name = module_id.to_owned();
        let ghost table = mapping_view(self.mapping@);
        let mut i: usize = 0;
        proof {
            assert(table.skip(0) =~= table);
        }
        loop
            invariant
                i <= self.mapping.len(),
                table == mapping_view(self.mapping@),
                table.len() == self.mapping@.len(),
                name@ == module_id@,
                table_find(table, name@) == table_find(table.skip(i as int), name@),
            decreases self.mapping.len() - i,
        {
            if i >= self.mapping.len() {
                proof {
                    assert(table.skip(i as int).len() == 0);
                }
                return Result::Err(Error::Configuration { name });
            }
            let entry = &self.mapping[i];
            proof {
                assert(table[i as int] == (entry.0@, shim_view(entry.1)));
                assert(table.skip(i as int).first() == table[i as int]);
            }
            if entry.0 == name {
                match &entry.1 {
                    NodeBuiltin::Stub => {
                        return Result::Ok(BuiltinPlan::External);
                    },
                    NodeBuiltin::Package(p) => {
                        return Result::Ok(
                            BuiltinPlan::Shim { basedir: self.basedir.clone(), package: p.clone() },
                        );
                    },
                }
            }
            proof {
                assert(table.skip(i as int).drop_first() =~= table.skip(i + 1));
            }
            i = i + 1;
        }
    }
}

/// Do not support any builtins.
pub struct NoBuiltins;

impl Builtins for NoBuiltins {
    open spec fn spec_is_builtin(&self, name: Seq<char>) -> bool {
        false
    }

    open spec fn spec_shim(&self, name: Seq<char>) -> Option<ShimKind> {
        Option::None
    }

    open spec fn spec_shim_basedir(&self) -> Seq<char> {
        Seq::empty()
    }

    fn is_builtin(&self, _module_id: &str) -> (r: bool) {
        false
    }

    /// The no-op policy recognizes nothing, so the graph builder never
    /// asks it for a plan; were it asked anyway, it would attempt no
    /// resolution, never fail, and leave the import external.
    fn plan(&self, _module_id: &str) -> (r: Result<BuiltinPlan, Error>)
        ensures
            r == Result::<BuiltinPlan, Error>::Ok(BuiltinPlan::External),
    {
        Result::Ok(BuiltinPlan::External)
    }
}

} // verus!
