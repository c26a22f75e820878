//! The module graph builder: starting from an entry identifier, it
//! discovers, deduplicates and records every reachable module, depth
//! first, assigning stable integer ids in first-visit order.
//!
//! The builder owns every decision — deduplication, id assignment, builtin
//! policy, error classification — while the filesystem work it cannot do
//! itself is delegated to its driver: each returned [`Action`] asks the
//! driver to resolve an identifier or to load a file, and the driver hands
//! the outcome back through [`Deps::step`]. A run is atomic: it ends in
//! one finished module map, or in the first fatal error.

use vstd::prelude::*;

use crate::builtins::{builtin_table, mapping_view, BuiltinPlan, Builtins, NoBuiltins, NodeBuiltins, ShimKind};
use crate::detect::string_views;
use crate::graph::{map_complete, Dependency, ModuleMap, ModuleRecord, SourceFile};
use crate::loader::Error;

verus! {

/// The directory part of a path: everything before the last `/`, the root
/// `/` itself when the last `/` is first, and `.` for a bare name.
pub open spec fn dirname_of(p: Seq<char>) -> Seq<char>
    decreases p.len(),
{
    if p.len() == 0 {
        "."@
    } else if p.last() == '/' {
        if p.len() == 1 {
            "/"@
        } else {
            p.drop_last()
        }
    } else {
        dirname_of(p.drop_last())
    }
}

/// Compute the directory part of a path.
pub fn dirname(p: &str) -> (r: String)
    ensures
        r@ == dirname_of(p@),
{
    let len = p.unicode_len();
    let mut i: usize = len;
    proof {
        assert(p@.take(len as int) =~= p@);
    }
    loop
        invariant
            i <= len,
            len == p@.len(),
            dirname_of(p@) == dirname_of(p@.take(i as int)),
            forall|j: int| i <= j < len ==> p@[j] != '/',
        decreases i,
    {
        if i == 0 {
            return ".".to_owned();
        }
        let c = p.get_char(i - 1);
        if c == '/' {
            if i == 1 {
                return "/".to_owned();
            }
            let d = p.substring_char(0, i - 1);
            proof {
                assert(p@.take(i as int).drop_last() =~= p@.take(i - 1));
                assert(p@.take(i as int).last() == '/');
            }
            return d.to_owned();
        }
        proof {
            assert(p@.take(i as int).drop_last() =~= p@.take(i - 1));
        }
        i = i - 1;
    }
}

/// What the builder asks its driver to do next.
pub enum Action {
    /// Resolve `name` against `basedir` with the filesystem resolver, then
    /// report [`Event::Resolved`] or [`Event::ResolveFailed`].
    Resolve { basedir: String, name: String },
    /// Read and prepare the file at `path`, then report [`Event::Loaded`].
    Load { path: String },
    /// The run finished; the module map is complete.
    Done,
    /// The run aborted on this fatal error.
    Failed(Error),
}

/// The driver's answer to the previous [`Action`].
pub enum Event {
    /// Resolution produced this absolute path.
    Resolved(String),
    /// Resolution found nothing.
    ResolveFailed,
    /// Loading produced this file, or failed.
    Loaded(Result<SourceFile, Error>),
}

/// What the driver's filesystem resolver is to honor: the candidate
/// extension order (code before data) and the symlink-preservation
/// policy. The resolver itself is the driver's; the builder only carries
/// its configuration.
pub struct ResolverConfig {
    pub extensions: Vec<String>,
    pub preserve_symlinks: bool,
}

/// The extension order a fresh builder asks for: code before data.
pub open spec fn default_extensions() -> Seq<Seq<char>> {
    seq![".js"@, ".json"@]
}

/// One resolution the driver answered during a run: the importing module's
/// canonical path, the literal import name the builder asked to have
/// resolved for it, and the absolute path the driver answered with.
pub type ResolutionNote = (Seq<char>, Seq<char>, Seq<char>);

/// Every resolved edge carries the very path the driver answered for that
/// import: for each record and each of its edges resolved to a path, the
/// run's resolution log holds the (importer path, literal name, answered
/// path) triple of the resolution that produced the edge. A driver that
/// answered each request with one fixed path thus knows each resolved
/// edge points where its own answer said.
pub open spec fn edges_follow_resolutions(ms: Seq<ModuleRecord>, log: Seq<ResolutionNote>) -> bool {
    forall|i: int, j: int|
        0 <= i < ms.len() && 0 <= j < ms[i].dependencies@.len() ==> ((#[trigger] ms[
            i
        ].dependencies@[j]).resolved is Some ==> log.contains(
            (ms[i].file.spec_path(), ms[i].dependencies@[j].name@, ms[i].dependencies@[
                j
            ].resolved->0@),
        ))
}

/// What the builder waits on, as its callers see it: nothing, the entry
/// identifier's resolution, one module's import being resolved, or one
/// path being loaded.
pub enum Pending {
    Nothing,
    EntryResolution { name: Seq<char> },
    DepResolution { importer: Seq<char>, dep: Seq<char> },
    Loading { path: Seq<char> },
}

/// Where a bundling run stands. Only one run is meaningful per instance.
#[derive(PartialEq, Eq, Structural, Clone, Copy, Debug)]
pub enum RunState {
    Idle,
    Running,
    Done,
    Failed,
}

enum Await {
    Nothing,
    Entry { name: String },
    Dep { name: String },
    Load { path: String },
}

struct Frame {
    record: ModuleRecord,
    names: Vec<String>,
    next_name: usize,
    next_dep: usize,
}

/// Builds a dependency graph for CommonJS modules.
pub struct Deps<B: Builtins> {
    resolver: ResolverConfig,
    module_id: usize,
    loaded_files: Vec<String>,
    module_map: ModuleMap,
    include_builtins: bool,
    builtins: B,
    stack: Vec<Frame>,
    state: RunState,
    awaiting: Await,
    resolutions: Ghost<Seq<ResolutionNote>>,
}

spec fn frame_measure(f: Frame) -> int {
    2 * (f.names@.len() - f.next_name) + (f.record.dependencies@.len() - f.next_dep) + 1
}

spec fn stack_measure(st: Seq<Frame>) -> int
    decreases st.len(),
{
    if st.len() == 0 {
        0
    } else {
        stack_measure(st.drop_last()) + frame_measure(st.last())
    }
}

spec fn deps_wf(ds: Seq<Dependency>) -> bool {
    forall|j: int, k: int|
        0 <= j < ds.len() && 0 <= k < ds.len() && j != k ==> (#[trigger] ds[j].name)@ != (
        #[trigger] ds[k].name)@
}

spec fn deps_loaded_upto(ds: Seq<Dependency>, upto: int, loaded: Seq<Seq<char>>) -> bool {
    forall|j: int|
        0 <= j < upto ==> ((#[trigger] ds[j]).resolved is Some ==> loaded.contains(
            ds[j].resolved->0@,
        ))
}

/// Every edge's literal name is one of the detected import identifiers.
pub open spec fn deps_from_names(ds: Seq<Dependency>, names: Seq<Seq<char>>) -> bool {
    forall|j: int| 0 <= j < ds.len() ==> names.contains((#[trigger] ds[j].name)@)
}

/// Some edge carries this literal import name.
pub open spec fn name_found(ds: Seq<Dependency>, x: Seq<char>) -> bool {
    exists|j: int| 0 <= j < ds.len() && (#[trigger] ds[j].name)@ == x
}

/// Each of the first `upto` detected import identifiers has an edge.
pub open spec fn names_covered(ds: Seq<Dependency>, names: Seq<Seq<char>>, upto: int) -> bool {
    forall|k: int| 0 <= k < upto ==> name_found(ds, #[trigger] names[k])
}

/// Every record's edges are exactly its file's detected imports: one edge
/// per distinct detected identifier, and no edge that detection did not
/// ask for.
pub open spec fn edges_match_imports(ms: Seq<ModuleRecord>) -> bool {
    forall|i: int|
        0 <= i < ms.len() ==> {
            let r = #[trigger] ms[i];
            &&& deps_from_names(r.dependencies@, r.file.spec_dependencies())
            &&& names_covered(
                r.dependencies@,
                r.file.spec_dependencies(),
                r.file.spec_dependencies().len() as int,
            )
        }
}

/// An inserted record is never changed afterwards, except that its edges'
/// back-references are filled in: file, id, entry flag, and each edge's
/// name and resolution survive.
pub open spec fn record_preserved(r0: ModuleRecord, r1: ModuleRecord) -> bool {
    &&& r1.file == r0.file
    &&& r1.id == r0.id
    &&& r1.entry == r0.entry
    &&& r1.dependencies@.len() == r0.dependencies@.len()
    &&& forall|j: int|
        0 <= j < r0.dependencies@.len() ==> (#[trigger] r1.dependencies@[j]).name == r0.dependencies@[j].name
            && r1.dependencies@[j].resolved == r0.dependencies@[j].resolved
}

proof fn lemma_names_covered_transfer(
    ds0: Seq<Dependency>,
    ds1: Seq<Dependency>,
    names: Seq<Seq<char>>,
    upto: int,
)
    requires
        names_covered(ds0, names, upto),
        ds1.len() == ds0.len(),
        forall|j: int| 0 <= j < ds0.len() ==> (#[trigger] ds1[j]).name == ds0[j].name,
    ensures
        names_covered(ds1, names, upto),
{
    assert forall|k: int| 0 <= k < upto implies name_found(ds1, #[trigger] names[k]) by {
        let j = choose|j: int| 0 <= j < ds0.len() && (#[trigger] ds0[j].name)@ == names[k];
        assert(ds1[j].name@ == names[k]);
    }
}

spec fn path_recorded(recs: Seq<ModuleRecord>, x: Seq<char>) -> bool {
    exists|i: int| 0 <= i < recs.len() && (#[trigger] recs[i].file.spec_path()) == x
}

impl Deps<NoBuiltins> {
    /// A fresh builder: no builtin shims, builtins included, nothing run.
    pub fn new() -> (r: Deps<NoBuiltins>)
        ensures
            r.wf(),
            r.spec_state() == RunState::Idle,
            r.spec_include_builtins() == true,
            string_views(r.spec_resolver().extensions@) == default_extensions(),
            r.spec_resolver().preserve_symlinks == false,
            r.spec_modules() == Seq::<ModuleRecord>::empty(),
            r.spec_loaded() == Seq::<Seq<char>>::empty(),
            r.spec_pending() == Pending::Nothing,
    {
        let r = Deps {
            resolver: ResolverConfig {
                extensions: default_extension_list(),
                preserve_symlinks: false,
            },
            module_id: 0,
            loaded_files: Vec::new(),
            module_map: Vec::new(),
            include_builtins: true,
            builtins: NoBuiltins,
            stack: Vec::new(),
            state: RunState::Idle,
            awaiting: Await::Nothing,
            resolutions: Ghost(Seq::empty()),
        };
        proof {
            assert(r.all_records() =~= Seq::<ModuleRecord>::empty());
            assert(r.loaded_views() =~= Seq::<Seq<char>>::empty());
        }
        r
    }
}

impl<B: Builtins> Deps<B> {
    spec fn rec_wf(&self, r: ModuleRecord) -> bool {
        &&& 1 <= r.id <= self.module_id
        &&& (r.entry <==> r.id == 1)
        &&& r.file.wf()
        &&& deps_wf(r.dependencies@)
        &&& deps_from_names(r.dependencies@, r.file.spec_dependencies())
        &&& forall|j: int|
            0 <= j < r.dependencies.len() ==> ((#[trigger] r.dependencies[j]).resolved is None
                <==> (self.builtins.spec_is_builtin(r.dependencies[j].name@) && (
                !self.include_builtins || self.builtins.spec_shim(r.dependencies[j].name@)
                    == Option::Some(ShimKind::Stub))))
        &&& forall|j: int|
            0 <= j < r.dependencies.len() ==> ((#[trigger] r.dependencies[j]).resolved is Some
                ==> self.resolutions@.contains(
                (r.file.spec_path(), r.dependencies[j].name@, r.dependencies[j].resolved->0@),
            ))
        &&& r.file.spec_path() == self.loaded_views()[r.id - 1]
    }

    spec fn all_records(&self) -> Seq<ModuleRecord> {
        self.module_map@ + self.stack@.map_values(|f: Frame| f.record)
    }

    spec fn loaded_views(&self) -> Seq<Seq<char>> {
        string_views(self.loaded_files@)
    }

    spec fn frame_wf(&self, f: Frame) -> bool {
        &&& self.rec_wf(f.record)
        &&& f.next_name <= f.names@.len()
        &&& f.next_dep <= f.record.dependencies@.len()
        &&& string_views(f.names@) == f.record.file.spec_dependencies()
        &&& deps_loaded_upto(f.record.dependencies@, f.next_dep as int, self.loaded_views())
        &&& names_covered(f.record.dependencies@, string_views(f.names@), f.next_name as int)
    }

    spec fn wf_base(&self) -> bool {
        let recs = self.all_records();
        &&& self.module_id == recs.len()
        &&& forall|i: int| 0 <= i < recs.len() ==> self.rec_wf(#[trigger] recs[i])
        &&& forall|i: int, j: int|
            0 <= i < recs.len() && 0 <= j < recs.len() && i != j ==> (#[trigger] recs[
                i
            ].file.spec_path()) != (#[trigger] recs[j].file.spec_path())
        &&& forall|i: int, j: int|
            0 <= i < recs.len() && 0 <= j < recs.len() && i != j ==> (#[trigger] recs[i].id) != (
            #[trigger] recs[j].id)
        &&& forall|i: int|
            0 <= i < recs.len() ==> self.loaded_views().contains(
                (#[trigger] recs[i]).file.spec_path(),
            )
        &&& forall|i: int| 0 <= i < self.stack@.len() ==> self.frame_wf(#[trigger] self.stack@[i])
        &&& forall|i: int|
            0 <= i < self.module_map@.len() ==> deps_loaded_upto(
                (#[trigger] self.module_map@[i]).dependencies@,
                self.module_map@[i].dependencies@.len() as int,
                self.loaded_views(),
            )
        &&& forall|i: int|
            0 <= i < self.module_map@.len() ==> names_covered(
                (#[trigger] self.module_map@[i]).dependencies@,
                self.module_map@[i].file.spec_dependencies(),
                self.module_map@[i].file.spec_dependencies().len() as int,
            )
        &&& forall|l: int|
            0 <= l < self.loaded_views().len() ==> (path_recorded(
                self.all_records(),
                #[trigger] self.loaded_views()[l],
            ) || (self.awaiting matches Await::Load { path } && self.loaded_views()[l] == path@))
        &&& self.loaded_views().len() == self.module_id + (if self.awaiting is Load {
            1int
        } else {
            0int
        })
        &&& self.module_id >= 1 ==> exists|i: int|
            0 <= i < recs.len() && (#[trigger] recs[i].id) == 1
    }

    pub closed spec fn wf(&self) -> bool {
        match self.state {
            RunState::Idle => {
                &&& self.wf_base()
                &&& self.module_id == 0
                &&& self.stack@.len() == 0
                &&& self.module_map@.len() == 0
                &&& self.loaded_files@.len() == 0
                &&& self.awaiting is Nothing
            },
            RunState::Running => self.wf_base() && match self.awaiting {
                Await::Nothing => false,
                Await::Entry { .. } => {
                    &&& self.stack@.len() == 0
                    &&& self.module_map@.len() == 0
                    &&& self.module_id == 0
                },
                Await::Dep { ref name } => {
                    &&& self.stack@.len() > 0
                    &&& self.stack@.last().next_name < self.stack@.last().names@.len()
                    &&& name@ == self.stack@.last().names@[
                        self.stack@.last().next_name as int
                    ]@
                    &&& forall|j: int|
                        0 <= j < self.stack@.last().record.dependencies@.len() ==> (
                        #[trigger] self.stack@.last().record.dependencies@[j].name)@ != name@
                    &&& (self.builtins.spec_is_builtin(name@) ==> self.include_builtins
                        && self.builtins.spec_shim(name@) matches Option::Some(
                        ShimKind::Package(_),
                    ))
                },
                Await::Load { ref path } => {
                    &&& self.loaded_views().len() >= 1 && self.loaded_views().last() == path@
                    &&& forall|i: int|
                        0 <= i < self.all_records().len() ==> (#[trigger] self.all_records()[
                            i
                        ].file.spec_path()) != path@
                    &&& (self.stack@.len() == 0 ==> self.module_map@.len() == 0)
                },
            },
            RunState::Done => {
                &&& self.wf_base()
                &&& self.stack@.len() == 0
                &&& self.awaiting is Nothing
                &&& map_complete(self.module_map@)
            },
            RunState::Failed => true,
        }
    }

    /// Where the run stands.
    pub closed spec fn spec_state(&self) -> RunState {
        self.state
    }

    /// The node table built so far; at `Done`, the finished graph.
    pub closed spec fn spec_modules(&self) -> Seq<ModuleRecord> {
        self.module_map@
    }

    /// The canonical paths already loaded (or being loaded) this run.
    pub closed spec fn spec_loaded(&self) -> Seq<Seq<char>> {
        self.loaded_views()
    }

    /// The resolutions the driver has answered this run, oldest first:
    /// each is (importer path, literal import name, answered path).
    pub closed spec fn spec_resolutions(&self) -> Seq<ResolutionNote> {
        self.resolutions@
    }

    /// Whether builtin shims are included in the bundle.
    pub closed spec fn spec_include_builtins(&self) -> bool {
        self.include_builtins
    }

    /// The builtin policy in force.
    pub closed spec fn spec_builtins(&self) -> B {
        self.builtins
    }

    /// The resolver configuration the driver is to honor.
    pub closed spec fn spec_resolver(&self) -> ResolverConfig {
        self.resolver
    }

    /// What the builder waits on.
    pub closed spec fn spec_pending(&self) -> Pending {
        match self.awaiting {
            Await::Nothing => Pending::Nothing,
            Await::Entry { ref name } => Pending::EntryResolution { name: name@ },
            Await::Dep { ref name } => Pending::DepResolution {
                importer: self.stack@.last().record.file.spec_path(),
                dep: name@,
            },
            Await::Load { ref path } => Pending::Loading { path: path@ },
        }
    }

    /// Which events the builder can take next.
    pub closed spec fn accepts(&self, e: Event) -> bool {
        match self.awaiting {
            Await::Nothing => false,
            Await::Entry { .. } => e is Resolved || e is ResolveFailed,
            Await::Dep { .. } => e is Resolved || e is ResolveFailed,
            Await::Load { ref path } => match e {
                Event::Loaded(Result::Ok(f)) => f.wf() && f.spec_path() == path@,
                Event::Loaded(Result::Err(_)) => true,
                _ => false,
            },
        }
    }

    /// Use a different resolver configuration.
    pub fn with_resolver(self, resolver: ResolverConfig) -> (r: Self)
        requires
            self.wf(),
            self.spec_state() == RunState::Idle,
        ensures
            r.wf(),
            r.spec_state() == RunState::Idle,
            r.spec_resolver() == resolver,
            r.spec_include_builtins() == self.spec_include_builtins(),
            r.spec_builtins() == self.spec_builtins(),
            r.spec_modules() == self.spec_modules(),
            r.spec_loaded() == self.spec_loaded(),
    {
        let r = Deps { resolver, ..self };
        proof {
            assert(r.all_records() =~= Seq::<ModuleRecord>::empty());
            assert(r.loaded_views() =~= Seq::<Seq<char>>::empty());
        }
        r
    }

    /// The resolver configuration the driver is to honor.
    pub fn resolver(&self) -> (r: &ResolverConfig)
        ensures
            r == self.spec_resolver(),
    {
        &self.resolver
    }

    /// Configure the base path under which builtin shim packages are
    /// resolved, enabling the platform builtin mapping.
    pub fn with_builtins_path(self, path: String) -> (r: Deps<NodeBuiltins>)
        requires
            self.wf(),
            self.spec_state() == RunState::Idle,
        ensures
            r.wf(),
            r.spec_state() == RunState::Idle,
            r.spec_include_builtins() == self.spec_include_builtins(),
            r.spec_builtins().basedir@ == path@,
            mapping_view(r.spec_builtins().mapping@) == builtin_table(),
            r.spec_resolver() == self.spec_resolver(),
            r.spec_modules() == self.spec_modules(),
            r.spec_loaded() == self.spec_loaded(),
    {
        let r = Deps {
            resolver: self.resolver,
            module_id: self.module_id,
            loaded_files: self.loaded_files,
            module_map: self.module_map,
            include_builtins: self.include_builtins,
            builtins: NodeBuiltins::new(path),
            stack: self.stack,
            state: self.state,
            awaiting: self.awaiting,
            resolutions: self.resolutions,
        };
        proof {
            assert(r.all_records() =~= Seq::<ModuleRecord>::empty());
        }
        r
    }

    /// Disable builtin support entirely.
    pub fn no_builtins(self) -> (r: Deps<NoBuiltins>)
        requires
            self.wf(),
            self.spec_state() == RunState::Idle,
        ensures
            r.wf(),
            r.spec_state() == RunState::Idle,
            r.spec_include_builtins() == self.spec_include_builtins(),
            r.spec_resolver() == self.spec_resolver(),
            r.spec_modules() == self.spec_modules(),
            r.spec_loaded() == self.spec_loaded(),
    {
        let r = Deps {
            resolver: self.resolver,
            module_id: self.module_id,
            loaded_files: self.loaded_files,
            module_map: self.module_map,
            include_builtins: self.include_builtins,
            builtins: NoBuiltins,
            stack: self.stack,
            state: self.state,
            awaiting: self.awaiting,
            resolutions: self.resolutions,
        };
        proof {
            assert(r.all_records() =~= Seq::<ModuleRecord>::empty());
        }
        r
    }

    /// Toggle inclusion of builtins. If `false`, builtin modules stay as
    /// external `require()` calls, satisfied by whatever program runs the
    /// bundle; if `true`, shims for them are bundled.
    pub fn include_builtins(self, included: bool) -> (r: Self)
        requires
            self.wf(),
            self.spec_state() == RunState::Idle,
        ensures
            r.wf(),
            r.spec_state() == RunState::Idle,
            r.spec_include_builtins() == included,
            r.spec_builtins() == self.spec_builtins(),
            r.spec_resolver() == self.spec_resolver(),
            r.spec_modules() == self.spec_modules(),
            r.spec_loaded() == self.spec_loaded(),
    {
        let r = Deps { include_builtins: included, ..self };
        proof {
            assert(r.all_records() =~= Seq::<ModuleRecord>::empty());
            assert(r.loaded_views() =~= Seq::<Seq<char>>::empty());
        }
        r
    }

    /// The finished (or partial) module map.
    pub fn modules(&self) -> (r: &ModuleMap)
        ensures
            r@ == self.spec_modules(),
    {
        &self.module_map
    }

    /// Where the run stands.
    pub fn state(&self) -> (r: RunState)
        ensures
            r == self.spec_state(),
    {
        self.state
    }

    /// Start dependency resolution at an entry identifier, resolved
    /// against the current working directory.
    pub fn run(&mut self, entry: &str) -> (a: Action)
        requires
            old(self).wf(),
            old(self).spec_state() == RunState::Idle,
        ensures
            final(self).wf(),
            final(self).spec_state() == RunState::Running,
            final(self).spec_include_builtins() == old(self).spec_include_builtins(),
            final(self).spec_builtins() == old(self).spec_builtins(),
            a matches Action::Resolve { basedir, name } && basedir@ == "."@ && name@ == entry@,
            forall|p: String| final(self).accepts(Event::Resolved(p)),
            final(self).accepts(Event::ResolveFailed),
            final(self).spec_pending() == (Pending::EntryResolution { name: entry@ }),
            final(self).spec_modules() == old(self).spec_modules(),
            final(self).spec_loaded() == old(self).spec_loaded(),
            final(self).spec_resolutions() == Seq::<ResolutionNote>::empty(),
    {
        self.state = RunState::Running;
        self.awaiting = Await::Entry { name: entry.to_owned() };
        proof {
            self.resolutions@ = Seq::empty();
        }
        Action::Resolve { basedir: ".".to_owned(), name: entry.to_owned() }
    }

    /// Feed back the outcome of the previous action and get the next one.
    ///
    /// The run fails exactly on a failed resolution, a failed load (with
    /// that very error), or a recognized builtin missing from the static
    /// table. The entry resolution is followed by the load of exactly the
    /// resolved path; every resolution asked for afterwards is the awaited
    /// import against its requiring file's directory, or its shim package
    /// under the shim root; every load is of a never-loaded path. The
    /// module map only grows, and an inserted record is never changed
    /// apart from filling its back-references. Each answered import
    /// resolution is appended to the resolution log, and at `Done` every
    /// resolved edge carries the very path the driver answered for that
    /// (importer, literal name) pair. At `Done` the map is
    /// complete, each record's edges are exactly its file's detected
    /// imports, an import is unresolved exactly where the builtin policy
    /// calls for it, and the record with id k holds the k-th loaded path,
    /// the entry module being the first.
    pub fn step(&mut self, event: Event) -> (a: Action)
        requires
            old(self).wf(),
            old(self).spec_state() == RunState::Running,
            old(self).accepts(event),
        ensures
            final(self).wf(),
            final(self).spec_include_builtins() == old(self).spec_include_builtins(),
            final(self).spec_builtins() == old(self).spec_builtins(),
            (a is Done) <==> final(self).spec_state() == RunState::Done,
            (a is Failed) <==> final(self).spec_state() == RunState::Failed,
            (a is Resolve || a is Load) <==> final(self).spec_state() == RunState::Running,
            a is Done ==> map_complete(final(self).spec_modules()),
            a is Done ==> builtins_respected(
                final(self).spec_modules(),
                old(self).spec_builtins(),
                old(self).spec_include_builtins(),
            ),
            a is Done ==> unresolved_only_builtins(
                final(self).spec_modules(),
                old(self).spec_builtins(),
            ),
            a is Done ==> edges_follow_resolutions(
                final(self).spec_modules(),
                final(self).spec_resolutions(),
            ),
            final(self).spec_resolutions() == (if old(self).spec_pending() is DepResolution
                && event is Resolved {
                old(self).spec_resolutions().push(
                    (
                        old(self).spec_pending()->DepResolution_importer,
                        old(self).spec_pending()->DepResolution_dep,
                        event->Resolved_0@,
                    ),
                )
            } else {
                old(self).spec_resolutions()
            }),
            a matches Action::Load { path } ==> !old(self).spec_loaded().contains(path@) && final(self).spec_loaded() == old(self).spec_loaded().push(path@),
            !(a is Load) ==> final(self).spec_loaded() == old(self).spec_loaded(),
            a is Resolve ==> (forall|p: String| final(self).accepts(Event::Resolved(p))) && final(self).accepts(Event::ResolveFailed),
            a matches Action::Load { path } ==> (forall|f: SourceFile|
                f.wf() && f.spec_path() == path@ ==> final(self).accepts(
                    Event::Loaded(Result::Ok(f)),
                )) && (forall|e: Error| final(self).accepts(Event::Loaded(Result::Err(e)))),
            event is ResolveFailed ==> (a matches Action::Failed(err) && err matches Error::Resolution { name }
                && (old(self).spec_pending() matches Pending::EntryResolution { name: n }
                    ==> name@ == n) && (old(self).spec_pending() matches Pending::DepResolution {
                    importer,
                    dep,
                } ==> name@ == dep)),
            event matches Event::Loaded(lr) ==> (lr matches Result::Err(e) ==> a
                == Action::Failed(e)),
            a matches Action::Failed(err) ==> (event is ResolveFailed && err is Resolution) || (
            event matches Event::Loaded(lr) && lr is Err && err == lr->Err_0) || (err matches Error::Configuration { name }
                && old(self).spec_builtins().spec_is_builtin(name@) && old(self).spec_builtins().spec_shim(name@) is None && old(self).spec_include_builtins()),
            old(self).spec_pending() is EntryResolution ==> (event matches Event::Resolved(p)
                ==> a == (Action::Load { path: p }) && final(self).spec_loaded() == seq![p@]),
            a matches Action::Resolve { basedir, name } ==> final(self).spec_pending() matches Pending::DepResolution { importer, dep }
                && final(self).spec_loaded().contains(importer) && (if old(self).spec_builtins().spec_is_builtin(dep) {
                &&& old(self).spec_include_builtins()
                &&& old(self).spec_builtins().spec_shim(dep) == Option::Some(
                    ShimKind::Package(name@),
                )
                &&& basedir@ == old(self).spec_builtins().spec_shim_basedir()
            } else {
                &&& name@ == dep
                &&& basedir@ == dirname_of(importer)
            }),
            a matches Action::Load { path } ==> final(self).spec_pending() == (Pending::Loading {
                path: path@,
            }),
            final(self).spec_modules().len() >= old(self).spec_modules().len(),
            forall|i: int|
                0 <= i < old(self).spec_modules().len() ==> record_preserved(
                    #[trigger] old(self).spec_modules()[i],
                    final(self).spec_modules()[i],
                ),
            a is Done ==> edges_match_imports(final(self).spec_modules()),
            a is Done ==> final(self).spec_modules().len() == final(self).spec_loaded().len(),
            a is Done ==> final(self).spec_modules().len() >= 1,
            a is Done ==> forall|i: int|
                0 <= i < final(self).spec_modules().len() ==> (#[trigger] final(self).spec_modules()[i]).file.spec_path() == final(self).spec_loaded()[final(self).spec_modules()[i].id - 1],
            a is Done ==> exists|i: int|
                0 <= i < final(self).spec_modules().len() && (#[trigger] final(self).spec_modules()[i].id) == 1 && final(self).spec_modules()[i].entry && final(self).spec_modules()[i].file.spec_path() == final(self).spec_loaded()[0],
    {
        match event {
            Event::Resolved(path) => {
                let entry_phase = match &self.awaiting {
                    Await::Entry { .. } => true,
                    _ => false,
                };
                if entry_phase {
                    self.awaiting = Await::Load { path: path.clone() };
                    self.loaded_files.push(path.clone());
                    proof {
                        assert(self.loaded_views() =~= old(self).loaded_views().push(path@));
                        assert(self.all_records() =~= old(self).all_records());
                        assert(self.all_records().len() == 0);
                        assert(self.loaded_views().len() == 1);
                        assert(self.loaded_views()[0] == path@);
                        assert(self.loaded_views().contains(path@));
                        assert(self.wf());
                        assert(self.loaded_views() =~= seq![path@]);
                        lemma_preserved_refl(self.module_map@);
                    }
                    Action::Load { path }
                } else {
                    let name = match &self.awaiting {
                        Await::Dep { name } => name.clone(),
                        _ => {
                            proof {
                                assert(false);
                            }
                            String::new()
                        },
                    };
                    self.awaiting = Await::Nothing;
                    let mut f = self.stack.pop().unwrap();
                    let ghost st0 = old(self).stack@;
                    let ghost f0 = st0.last();
                    let ghost name_snap = name;
                    let ghost path_snap = path;
                    let ghost trip = (f0.record.file.spec_path(), name_snap@, path_snap@);
                    proof {
                        assert(old(self).awaiting is Dep);
                        assert(f0 == old(self).stack@[old(self).stack@.len() - 1]);
                        assert(old(self).frame_wf(f0));
                        assert(f == f0);
                        assert(self.frame_wf(f0));
                        assert(f.next_name < f.names@.len());
                        assert(name_snap@ == f0.names@[f0.next_name as int]@);
                        self.resolutions@ = self.resolutions@.push(trip);
                        lemma_push_keeps_contains(old(self).resolutions@, trip);
                        assert(self.resolutions@.contains(trip));
                        assert(self.frame_wf(f0));
                    }
                    let nn = f.names.len();
                    proof {
                        assert(f.next_name < nn);
                    }
                    f.record.dependencies.push(Dependency::resolved(name, path));
                    f.next_name = f.next_name + 1;
                    self.stack.push(f);
                    proof {
                        assert(self.frame_wf(f0));
                        self.lemma_frame_extended(
                            f0,
                            f,
                            Dependency { name: name_snap, resolved: Some(path_snap), record: None },
                        );
                        self.lemma_top_swapped(*old(self), f);
                    }
                    self.advance()
                }
            },
            Event::ResolveFailed => {
                let name = match &self.awaiting {
                    Await::Entry { name } => name.clone(),
                    Await::Dep { name } => name.clone(),
                    _ => {
                        proof {
                            assert(false);
                        }
                        String::new()
                    },
                };
                self.awaiting = Await::Nothing;
                self.state = RunState::Failed;
                proof {
                    lemma_preserved_refl(self.module_map@);
                }
                Action::Failed(Error::Resolution { name })
            },
            Event::Loaded(Result::Err(e)) => {
                self.awaiting = Await::Nothing;
                self.state = RunState::Failed;
                proof {
                    lemma_preserved_refl(self.module_map@);
                }
                Action::Failed(e)
            },
            Event::Loaded(Result::Ok(file)) => {
                self.awaiting = Await::Nothing;
                let entry = self.stack.len() == 0;
                let cap = self.loaded_files.len();
                proof {
                    assert(cap == self.module_id + 1);
                }
                let id = self.module_id + 1;
                self.module_id = id;
                let names: Vec<String> = match &file {
                    SourceFile::CJS { dependencies, .. } => clone_strings(dependencies),
                    SourceFile::JSON { .. } => Vec::new(),
                };
                let ghost file_snap = file;
                let record = ModuleRecord { file, id, entry, dependencies: Vec::new() };
                let f = Frame { record, names, next_name: 0, next_dep: 0 };
                self.stack.push(f);
                proof {
                    let or = old(self).all_records();
                    let nr = self.all_records();
                    assert(nr =~= or.push(f.record));
                    assert(f.record.file.spec_dependencies() =~= string_views(f.names@));
                    assert(deps_wf(f.record.dependencies@));
                    assert(entry <==> or.len() == 0);
                    if entry {
                        assert(old(self).module_map@.len() == 0);
                        assert(or.len() == 0);
                    }
                    assert(self.rec_wf(f.record));
                    assert(self.frame_wf(f));
                    assert(forall|i: int| 0 <= i < or.len() ==> nr[i] == or[i]);
                    assert(forall|i: int|
                        0 <= i < old(self).stack@.len() ==> self.stack@[i] == old(self).stack@[i]);
                    assert(forall|i: int|
                        0 <= i < self.stack@.len() ==> self.frame_wf(#[trigger] self.stack@[i]));
                    assert(forall|i: int| 0 <= i < nr.len() ==> self.rec_wf(#[trigger] nr[i]));
                    assert forall|l: int| 0 <= l < self.loaded_views().len() implies path_recorded(
                        nr,
                        #[trigger] self.loaded_views()[l],
                    ) by {
                        if path_recorded(or, self.loaded_views()[l]) {
                            let i = choose|i: int|
                                0 <= i < or.len() && (#[trigger] or[i].file.spec_path())
                                    == self.loaded_views()[l];
                            assert(nr[i].file.spec_path() == self.loaded_views()[l]);
                        } else {
                            assert(self.loaded_views()[l] == nr[nr.len() - 1].file.spec_path());
                        }
                        assert(path_recorded(nr, self.loaded_views()[l]));
                    }
                    assert(self.wf_base());
                }
                self.advance()
            },
        }
    }
}

/// Appending to the resolution log keeps every note already in it.
proof fn lemma_push_keeps_contains(s: Seq<ResolutionNote>, x: ResolutionNote)
    ensures
        forall|y: ResolutionNote| s.contains(y) ==> #[trigger] s.push(x).contains(y),
        s.push(x).contains(x),
{
    assert(s.push(x)[s.len() as int] == x);
    assert forall|y: ResolutionNote| s.contains(y) implies #[trigger] s.push(x).contains(y) by {
        let l = choose|l: int| 0 <= l < s.len() && s[l] == y;
        assert(s.push(x)[l] == y);
    }
}

proof fn lemma_preserved_refl(ms: Seq<ModuleRecord>)
    ensures
        forall|i: int|
            0 <= i < ms.len() ==> record_preserved(#[trigger] ms[i], ms[i]),
{
    assert forall|i: int| 0 <= i < ms.len() implies record_preserved(
        #[trigger] ms[i],
        ms[i],
    ) by {
        assert(forall|j: int|
            0 <= j < ms[i].dependencies@.len() ==> (#[trigger] ms[i].dependencies@[j]).name
                == ms[i].dependencies@[j].name);
    }
}

/// Only an import the builtin policy recognizes can be left unresolved:
/// every other import was resolved to a concrete path, or the run failed.
pub open spec fn unresolved_only_builtins<B: Builtins>(ms: Seq<ModuleRecord>, b: B) -> bool {
    forall|i: int, j: int|
        0 <= i < ms.len() && 0 <= j < ms[i].dependencies@.len() ==> ((#[trigger] ms[
            i
        ].dependencies@[j]).resolved is None ==> b.spec_is_builtin(ms[i].dependencies@[j].name@))
}

/// Every edge of every record respects the builtin policy: an import is
/// left unresolved exactly when the policy recognizes it as a builtin and
/// either builtin inclusion is disabled or its shim mapping is the stub
/// marker. In particular a stub-mapped builtin stays unresolved even with
/// shims enabled, while a package-mapped builtin, like any ordinary
/// import, was resolved to a concrete path.
pub open spec fn builtins_respected<B: Builtins>(
    ms: Seq<ModuleRecord>,
    b: B,
    included: bool,
) -> bool {
    forall|i: int, j: int|
        0 <= i < ms.len() && 0 <= j < ms[i].dependencies@.len() ==> ((#[trigger] ms[
            i
        ].dependencies@[j]).resolved is None <==> (b.spec_is_builtin(
            ms[i].dependencies@[j].name@,
        ) && (!included || b.spec_shim(ms[i].dependencies@[j].name@) == Option::Some(
            ShimKind::Stub,
        ))))
}

impl<B: Builtins> Deps<B> {
    proof fn lemma_measure_nonneg(&self, st: Seq<Frame>)
        requires
            forall|i: int| 0 <= i < st.len() ==> self.frame_wf(#[trigger] st[i]),
        ensures
            stack_measure(st) >= 0,
        decreases st.len(),
    {
        if st.len() > 0 {
            assert(forall|i: int|
                0 <= i < st.drop_last().len() ==> self.frame_wf(#[trigger] st.drop_last()[i]));
            self.lemma_measure_nonneg(st.drop_last());
        }
    }

    /// Changing what is awaited, between two non-load states, does not
    /// touch the base invariant.
    proof fn lemma_awaiting_changed(&self, pre: Deps<B>)
        requires
            pre.wf_base(),
            self.module_map@ == pre.module_map@,
            self.stack@ == pre.stack@,
            self.loaded_files@ == pre.loaded_files@,
            self.module_id == pre.module_id,
            self.include_builtins == pre.include_builtins,
            self.builtins == pre.builtins,
            self.resolutions == pre.resolutions,
            !(self.awaiting is Load),
            !(pre.awaiting is Load),
        ensures
            self.wf_base(),
    {
        assert(self.all_records() == pre.all_records());
        assert(self.loaded_views() == pre.loaded_views());
        let recs = self.all_records();
        assert forall|i: int| 0 <= i < recs.len() implies self.rec_wf(#[trigger] recs[i]) by {
            assert(pre.rec_wf(recs[i]));
        }
        assert forall|i: int| 0 <= i < recs.len() implies self.loaded_views().contains(
            (#[trigger] recs[i]).file.spec_path(),
        ) by {
            assert(pre.loaded_views().contains(pre.all_records()[i].file.spec_path()));
            let l = choose|l: int|
                0 <= l < pre.loaded_views().len() && pre.loaded_views()[l] == pre.all_records()[
                    i
                ].file.spec_path();
            assert(self.loaded_views()[l] == recs[i].file.spec_path());
        }
        assert forall|i: int| 0 <= i < self.stack@.len() implies self.frame_wf(
            #[trigger] self.stack@[i],
        ) by {
            let f = self.stack@[i];
            assert(pre.frame_wf(pre.stack@[i]));
            assert(f == pre.stack@[i]);
            assert forall|j: int| 0 <= j < f.next_dep implies ((#[trigger] f.record.dependencies@[
                j
            ]).resolved is Some ==> self.loaded_views().contains(
                f.record.dependencies@[j].resolved->0@,
            )) by {
                if f.record.dependencies@[j].resolved is Some {
                    let q = f.record.dependencies@[j].resolved->0@;
                    assert(pre.loaded_views().contains(q));
                    let l = choose|l: int|
                        0 <= l < pre.loaded_views().len() && pre.loaded_views()[l] == q;
                    assert(self.loaded_views()[l] == q);
                }
            }
            assert(self.rec_wf(f.record));
        }
        assert forall|i: int| 0 <= i < self.module_map@.len() implies deps_loaded_upto(
            (#[trigger] self.module_map@[i]).dependencies@,
            self.module_map@[i].dependencies@.len() as int,
            self.loaded_views(),
        ) by {
            let ds = self.module_map@[i].dependencies@;
            assert(deps_loaded_upto(
                pre.module_map@[i].dependencies@,
                pre.module_map@[i].dependencies@.len() as int,
                pre.loaded_views(),
            ));
            assert forall|j: int| 0 <= j < ds.len() implies ((#[trigger] ds[j]).resolved is Some
                ==> self.loaded_views().contains(ds[j].resolved->0@)) by {
                if ds[j].resolved is Some {
                    let q = ds[j].resolved->0@;
                    assert(pre.loaded_views().contains(q));
                    let l = choose|l: int|
                        0 <= l < pre.loaded_views().len() && pre.loaded_views()[l] == q;
                    assert(self.loaded_views()[l] == q);
                }
            }
        }
        assert forall|l: int| 0 <= l < self.loaded_views().len() implies path_recorded(
            recs,
            #[trigger] self.loaded_views()[l],
        ) by {
            assert(pre.loaded_views()[l] == self.loaded_views()[l]);
            assert(path_recorded(pre.all_records(), pre.loaded_views()[l]));
        }
        assert forall|i: int, j: int|
            0 <= i < recs.len() && 0 <= j < recs.len() && i != j implies (#[trigger] recs[
            i
        ].file.spec_path()) != (#[trigger] recs[j].file.spec_path()) by {
            assert(recs[i] == pre.all_records()[i]);
            assert(recs[j] == pre.all_records()[j]);
            assert(pre.all_records()[i].file.spec_path() != pre.all_records()[
                j
            ].file.spec_path());
        }
        assert forall|i: int, j: int|
            0 <= i < recs.len() && 0 <= j < recs.len() && i != j implies (#[trigger] recs[i].id)
            != (#[trigger] recs[j].id) by {
            assert(recs[i] == pre.all_records()[i]);
            assert(recs[j] == pre.all_records()[j]);
            assert(pre.all_records()[i].id != pre.all_records()[j].id);
        }
        assert forall|i: int| 0 <= i < self.module_map@.len() implies names_covered(
            (#[trigger] self.module_map@[i]).dependencies@,
            self.module_map@[i].file.spec_dependencies(),
            self.module_map@[i].file.spec_dependencies().len() as int,
        ) by {
            assert(self.module_map@[i] == pre.module_map@[i]);
            assert(names_covered(
                (pre.module_map@[i]).dependencies@,
                pre.module_map@[i].file.spec_dependencies(),
                pre.module_map@[i].file.spec_dependencies().len() as int,
            ));
        }
        assert(self.wf_base());
    }

    /// A frame that skipped over an import name already carried by one of
    /// its edges stays well formed.
    proof fn lemma_frame_skipped(&self, f0: Frame, f: Frame)
        requires
            self.frame_wf(f0),
            f0.next_name < f0.names@.len(),
            f.record == f0.record,
            f.names == f0.names,
            f.next_dep == f0.next_dep,
            f.next_name == f0.next_name + 1,
            exists|j: int|
                0 <= j < f0.record.dependencies@.len() && (#[trigger] f0.record.dependencies@[
                    j
                ].name)@ == f0.names@[f0.next_name as int]@,
        ensures
            self.frame_wf(f),
    {
        let ds = f.record.dependencies@;
        assert forall|k: int| 0 <= k < f.next_name implies exists|j: int|
            0 <= j < ds.len() && (#[trigger] string_views(f.names@)[k]) == ds[j].name@ by {
            if k < f0.next_name {
                let j0 = choose|j: int|
                    0 <= j < ds.len() && string_views(f0.names@)[k] == ds[j].name@;
                assert(ds[j0].name@ == string_views(f.names@)[k]);
            } else {
                let j0 = choose|j: int|
                    0 <= j < f0.record.dependencies@.len() && (
                    #[trigger] f0.record.dependencies@[j].name)@ == f0.names@[
                        f0.next_name as int
                    ]@;
                assert(string_views(f.names@)[k] == f0.names@[f0.next_name as int]@);
                assert(ds[j0].name@ == string_views(f.names@)[k]);
            }
        }
        assert(names_covered(ds, string_views(f.names@), f.next_name as int));
    }

    /// Keep deciding until the next outside need: skip duplicates, apply
    /// the builtin policy, emit the next resolution or load, or finish.
    fn advance(&mut self) -> (a: Action)
        requires
            old(self).wf_base(),
            old(self).state == RunState::Running,
            old(self).awaiting is Nothing,
            old(self).module_id >= 1,
        ensures
            final(self).wf(),
            final(self).include_builtins == old(self).include_builtins,
            final(self).builtins == old(self).builtins,
            (a is Done) <==> final(self).state == RunState::Done,
            (a is Failed) <==> final(self).state == RunState::Failed,
            (a is Resolve || a is Load) <==> final(self).state == RunState::Running,
            a is Done ==> map_complete(final(self).module_map@),
            a is Done ==> builtins_respected(
                final(self).module_map@,
                old(self).builtins,
                old(self).include_builtins,
            ),
            a is Done ==> unresolved_only_builtins(final(self).module_map@, old(self).builtins),
            a is Done ==> edges_follow_resolutions(
                final(self).module_map@,
                final(self).resolutions@,
            ),
            final(self).resolutions == old(self).resolutions,
            a matches Action::Load { path } ==> !string_views(old(self).loaded_files@).contains(
                path@,
            ) && final(self).loaded_views() == old(self).loaded_views().push(path@),
            !(a is Load) ==> final(self).loaded_files@ == old(self).loaded_files@,
            a is Resolve ==> final(self).awaiting is Dep,
            a matches Action::Load { path } ==> final(self).awaiting matches Await::Load {
                path: p2,
            } && p2 == path,
            a matches Action::Failed(err) ==> err matches Error::Configuration { name }
                && old(self).builtins.spec_is_builtin(name@) && old(self).builtins.spec_shim(
                name@,
            ) is None && old(self).include_builtins,
            a matches Action::Resolve { basedir, name } ==> final(self).spec_pending() matches Pending::DepResolution { importer, dep }
                && final(self).loaded_views().contains(importer) && (if old(self).builtins.spec_is_builtin(dep) {
                &&& old(self).include_builtins
                &&& old(self).builtins.spec_shim(dep) == Option::Some(ShimKind::Package(name@))
                &&& basedir@ == old(self).builtins.spec_shim_basedir()
            } else {
                &&& name@ == dep
                &&& basedir@ == dirname_of(importer)
            }),
            a matches Action::Load { path } ==> final(self).spec_pending() == (Pending::Loading {
                path: path@,
            }),
            final(self).module_map@.len() >= old(self).module_map@.len(),
            forall|i: int|
                0 <= i < old(self).module_map@.len() ==> record_preserved(
                    #[trigger] old(self).module_map@[i],
                    final(self).module_map@[i],
                ),
            a is Done ==> edges_match_imports(final(self).module_map@),
            a is Done ==> final(self).module_map@.len() == final(self).loaded_views().len(),
            a is Done ==> final(self).module_map@.len() >= 1,
            a is Done ==> forall|i: int|
                0 <= i < final(self).module_map@.len() ==> (#[trigger] final(self).module_map@[
                    i
                ]).file.spec_path() == final(self).loaded_views()[final(self).module_map@[i].id
                    - 1],
            a is Done ==> exists|i: int|
                0 <= i < final(self).module_map@.len() && (#[trigger] final(self).module_map@[
                    i
                ].id) == 1 && final(self).module_map@[i].entry && final(self).module_map@[
                    i
                ].file.spec_path() == final(self).loaded_views()[0],
    {
        let ghost l0 = self.loaded_files@;
        loop
            invariant
                self.wf_base(),
                self.state == RunState::Running,
                self.awaiting is Nothing,
                self.loaded_files@ == l0,
                l0 == old(self).loaded_files@,
                self.include_builtins == old(self).include_builtins,
                self.builtins == old(self).builtins,
                self.resolutions == old(self).resolutions,
                self.module_id == old(self).module_id,
                self.module_id >= 1,
                self.module_map@.len() >= old(self).module_map@.len(),
                forall|i: int|
                    0 <= i < old(self).module_map@.len() ==> (#[trigger] self.module_map@[i])
                        == old(self).module_map@[i],
            decreases stack_measure(self.stack@),
        {
            proof {
                self.lemma_measure_nonneg(self.stack@);
            }
            if self.stack.len() == 0 {
                let ghost pre = *self;
                self.backfill();
                self.state = RunState::Done;
                proof {
                    self.lemma_backfilled(pre);
                    let m1 = self.module_map@;
                    assert(self.all_records() =~= m1);
                    assert(m1.len() == self.module_id);
                    assert(self.loaded_views().len() == self.module_id);
                    assert forall|i: int| 0 <= i < old(self).module_map@.len() implies
                        record_preserved(
                        #[trigger] old(self).module_map@[i],
                        m1[i],
                    ) by {
                        assert(pre.module_map@[i] == old(self).module_map@[i]);
                    }
                    assert forall|i: int| 0 <= i < m1.len() implies (#[trigger] m1[
                        i
                    ]).file.spec_path() == self.loaded_views()[m1[i].id - 1] by {
                        assert(self.rec_wf(m1[i]));
                    }
                    let i1 = choose|i: int|
                        0 <= i < self.all_records().len() && (#[trigger] self.all_records()[
                            i
                        ].id) == 1;
                    assert(m1[i1].id == 1);
                    assert(self.rec_wf(m1[i1]));
                    assert(m1[i1].entry);
                    assert(m1[i1].file.spec_path() == self.loaded_views()[0]);
                }
                return Action::Done;
            }
            let ghost pre = *self;
            let ghost st0 = self.stack@;
            let mut f = self.stack.pop().unwrap();
            proof {
                assert(f == st0.last());
                assert(pre.frame_wf(f));
                assert(stack_measure(st0) == stack_measure(st0.drop_last()) + frame_measure(
                    st0.last(),
                ));
                assert(forall|i: int|
                    0 <= i < st0.drop_last().len() ==> pre.frame_wf(
                        #[trigger] st0.drop_last()[i],
                    ));
                pre.lemma_measure_nonneg(st0.drop_last());
            }
            if f.next_name < f.names.len() {
                let name = f.names[f.next_name].clone();
                if dep_named(&f.record.dependencies, &name) {
                    let ghost f0 = st0.last();
                    f.next_name = f.next_name + 1;
                    self.stack.push(f);
                    proof {
                        lemma_measure_pop_push(st0, f);
                        assert(name@ == f0.names@[f0.next_name as int]@);
                        self.lemma_frame_skipped(f0, f);
                        self.lemma_top_swapped(pre, f);
                    }
                } else if self.builtins.is_builtin(name.as_str()) {
                    if self.include_builtins {
                        match self.builtins.plan(name.as_str()) {
                            Result::Err(e) => {
                                proof {
                                    assert(self.builtins.spec_is_builtin(name@));
                                    assert(e matches Error::Configuration { name: n } && n@
                                        == name@);
                                }
                                self.stack.push(f);
                                self.state = RunState::Failed;
                                self.awaiting = Await::Nothing;
                                return Action::Failed(e);
                            },
                            Result::Ok(BuiltinPlan::External) => {
                                let ghost f0 = st0.last();
                                let ghost name_snap = name;
                                f.record.dependencies.push(Dependency::uninitialized(name));
                                f.next_name = f.next_name + 1;
                                self.stack.push(f);
                                proof {
                                    lemma_measure_pop_push(st0, f);
                                    self.lemma_frame_extended(
                                        f0,
                                        f,
                                        Dependency { name: name_snap, resolved: None, record: None },
                                    );
                                    self.lemma_top_swapped(pre, f);
                                }
                            },
                            Result::Ok(BuiltinPlan::Shim { basedir, package }) => {
                                self.stack.push(f);
                                proof {
                                    assert(self.stack@ =~= st0);
                                    self.lemma_top_swapped(pre, f);
                                }
                                let ghost mid = *self;
                                self.awaiting = Await::Dep { name };
                                proof {
                                    self.lemma_awaiting_changed(mid);
                                    assert(self.stack@.last() == f);
                                    assert(self.wf());
                                }
                                return Action::Resolve { basedir, name: package };
                            },
                        }
                    } else {
                        let ghost f0 = st0.last();
                        let ghost name_snap = name;
                        f.record.dependencies.push(Dependency::uninitialized(name));
                        f.next_name = f.next_name + 1;
                        self.stack.push(f);
                        proof {
                            lemma_measure_pop_push(st0, f);
                            self.lemma_frame_extended(
                                f0,
                                f,
                                Dependency { name: name_snap, resolved: None, record: None },
                            );
                            self.lemma_top_swapped(pre, f);
                        }
                    }
                } else {
                    let basedir = dirname(f.record.file.path().as_str());
                    self.stack.push(f);
                    proof {
                        assert(self.stack@ =~= st0);
                        self.lemma_top_swapped(pre, f);
                    }
                    let ghost mid = *self;
                    self.awaiting = Await::Dep { name: name.clone() };
                    proof {
                        self.lemma_awaiting_changed(mid);
                        assert(self.stack@.last() == f);
                        assert(self.wf());
                        assert(self.spec_pending() matches Pending::DepResolution {
                            importer,
                            dep,
                        } && importer == f.record.file.spec_path() && dep == name@);
                        assert(basedir@ == dirname_of(f.record.file.spec_path()));
                        assert(!self.builtins.spec_is_builtin(name@));
                        let recs = self.all_records();
                        assert(recs[recs.len() - 1] == f.record);
                        assert(self.loaded_views().contains(f.record.file.spec_path()));
                    }
                    return Action::Resolve { basedir, name };
                }
            } else if f.next_dep < f.record.dependencies.len() {
                let resolved_opt: Option<String> = match &f.record.dependencies[f.next_dep]
                    .resolved {
                    Option::Some(p) => Option::Some(p.clone()),
                    Option::None => Option::None,
                };
                match resolved_opt {
                    Option::None => {
                        f.next_dep = f.next_dep + 1;
                        self.stack.push(f);
                        proof {
                            lemma_measure_pop_push(st0, f);
                            assert(self.frame_wf(f));
                            self.lemma_top_swapped(pre, f);
                        }
                    },
                    Option::Some(p) => {
                        if contains_string(&self.loaded_files, &p) {
                            f.next_dep = f.next_dep + 1;
                            self.stack.push(f);
                            proof {
                                lemma_measure_pop_push(st0, f);
                                assert(self.frame_wf(f));
                                self.lemma_top_swapped(pre, f);
                            }
                        } else {
                            let ghost f0 = st0.last();
                            self.loaded_files.push(p.clone());
                            f.next_dep = f.next_dep + 1;
                            self.stack.push(f);
                            self.awaiting = Await::Load { path: p.clone() };
                            proof {
                                lemma_measure_pop_push(st0, f);
                                assert(self.loaded_views() =~= string_views(l0).push(p@));
                                self.lemma_load_step(pre, f0, p@);
                                assert(self.wf());
                            }
                            return Action::Load { path: p };
                        }
                    },
                }
            } else {
                let ghost m0 = self.module_map@;
                self.module_map.push(f.record);
                proof {
                    self.lemma_frame_popped(pre, f);
                }
            }
        }
    }

    /// A frame that gained one more edge for its current import name and
    /// moved past that name stays well formed.
    proof fn lemma_frame_extended(&self, f0: Frame, f: Frame, d: Dependency)
        requires
            self.frame_wf(f0),
            f0.next_name < f0.names@.len(),
            f.record.file == f0.record.file,
            f.record.id == f0.record.id,
            f.record.entry == f0.record.entry,
            f.record.dependencies@ == f0.record.dependencies@.push(d),
            d.record is None,
            d.name@ == f0.names@[f0.next_name as int]@,
            f.names == f0.names,
            f.next_name == f0.next_name + 1,
            f.next_dep == f0.next_dep,
            forall|j: int|
                0 <= j < f0.record.dependencies@.len() ==> (#[trigger] f0.record.dependencies@[
                    j
                ].name)@ != d.name@,
            d.resolved is Some ==> (self.builtins.spec_is_builtin(d.name@)
                ==> self.include_builtins && (self.builtins.spec_shim(d.name@) matches Option::Some(
                ShimKind::Package(_),
            ))),
            d.resolved is None ==> self.builtins.spec_is_builtin(d.name@) && (
            !self.include_builtins || self.builtins.spec_shim(d.name@) == Option::Some(
                ShimKind::Stub,
            )),
            d.resolved is Some ==> self.resolutions@.contains(
                (f0.record.file.spec_path(), d.name@, d.resolved->0@),
            ),
        ensures
            self.frame_wf(f),
    {
        assert(f.record.dependencies@.last() == d);
        let ds = f.record.dependencies@;
        let ds0 = f0.record.dependencies@;
        assert(forall|j: int| 0 <= j < ds.len() - 1 ==> ds[j] == ds0[j]);
        assert(deps_wf(ds));
        assert(string_views(f.names@).contains(ds.last().name@)) by {
            assert(string_views(f.names@)[f0.next_name as int] == f0.names@[
                f0.next_name as int
            ]@);
        }
        assert(deps_from_names(ds, f.record.file.spec_dependencies()));
        assert(deps_loaded_upto(ds, f.next_dep as int, self.loaded_views()));
        assert forall|k: int| 0 <= k < f.next_name implies exists|j: int|
            0 <= j < ds.len() && (#[trigger] string_views(f.names@)[k]) == ds[j].name@ by {
            if k < f0.next_name {
                let j0 = choose|j: int|
                    0 <= j < ds0.len() && string_views(f0.names@)[k] == ds0[j].name@;
                assert(ds[j0].name@ == string_views(f.names@)[k]);
            } else {
                assert(k == f0.next_name);
                assert(ds[ds.len() - 1].name@ == string_views(f.names@)[k]);
            }
        }
        assert(names_covered(ds, string_views(f.names@), f.next_name as int));
        assert forall|j: int| 0 <= j < ds.len() implies ((#[trigger] ds[j]).resolved is None
            <==> (self.builtins.spec_is_builtin(ds[j].name@) && (!self.include_builtins
                || self.builtins.spec_shim(ds[j].name@) == Option::Some(ShimKind::Stub)))) by {
            if j < ds.len() - 1 {
                assert(ds[j] == ds0[j]);
                assert(self.rec_wf(f0.record));
            } else {
                assert(ds[j] == d);
            }
        }
        assert forall|j: int|
            0 <= j < ds.len() && (#[trigger] ds[j]).resolved is Some implies self.resolutions@.contains(
            (f.record.file.spec_path(), ds[j].name@, ds[j].resolved->0@),
        ) by {
            if j < ds.len() - 1 {
                assert(ds[j] == ds0[j]);
                assert(self.rec_wf(f0.record));
                assert(self.resolutions@.contains(
                    (f0.record.file.spec_path(), ds0[j].name@, ds0[j].resolved->0@),
                ));
            } else {
                assert(ds[j] == d);
            }
        }
        assert(self.rec_wf(f.record));
    }

    /// Replacing the top frame with a well-formed frame for the same
    /// module keeps the base invariant.
    proof fn lemma_top_swapped(&self, pre: Deps<B>, f: Frame)
        requires
            pre.wf_base(),
            pre.stack@.len() > 0,
            self.module_map@ == pre.module_map@,
            self.loaded_files@ == pre.loaded_files@,
            self.module_id == pre.module_id,
            self.include_builtins == pre.include_builtins,
            self.builtins == pre.builtins,
            self.awaiting is Load <==> pre.awaiting is Load,
            self.awaiting is Load ==> self.awaiting == pre.awaiting,
            forall|y: ResolutionNote| pre.resolutions@.contains(y)
                ==> #[trigger] self.resolutions@.contains(y),
            self.stack@ == pre.stack@.drop_last().push(f),
            self.frame_wf(f),
            f.record.file == pre.stack@.last().record.file,
            f.record.id == pre.stack@.last().record.id,
            f.record.entry == pre.stack@.last().record.entry,
        ensures
            self.wf_base(),
    {
        let st0 = pre.stack@;
        let or = pre.all_records();
        let nr = self.all_records();
        assert(st0.drop_last().push(f).map_values(|fr: Frame| fr.record) =~= st0.drop_last()
            .map_values(|fr: Frame| fr.record).push(f.record));
        assert(st0.map_values(|fr: Frame| fr.record) =~= st0.drop_last().map_values(
            |fr: Frame| fr.record,
        ).push(st0.last().record));
        assert(nr.len() == or.len());
        assert(forall|i: int| 0 <= i < nr.len() - 1 ==> nr[i] == or[i]);
        assert(nr[nr.len() - 1] == f.record);
        assert(or[or.len() - 1] == st0.last().record);
        assert(forall|i: int|
            0 <= i < nr.len() ==> (#[trigger] nr[i].file.spec_path()) == or[i].file.spec_path());
        assert(forall|i: int| 0 <= i < nr.len() ==> (#[trigger] nr[i].id) == or[i].id);
        assert(forall|i: int| 0 <= i < self.stack@.len() - 1 ==> self.stack@[i] == st0[i]);
        assert forall|i: int| 0 <= i < self.stack@.len() implies self.frame_wf(
            #[trigger] self.stack@[i],
        ) by {
            if i < self.stack@.len() - 1 {
                let g = self.stack@[i];
                assert(g == st0[i]);
                assert(pre.frame_wf(g));
                assert forall|j: int|
                    0 <= j < g.record.dependencies@.len() && (#[trigger] g.record.dependencies@[
                        j
                    ]).resolved is Some implies self.resolutions@.contains(
                    (g.record.file.spec_path(), g.record.dependencies@[j].name@,
                    g.record.dependencies@[j].resolved->0@),
                ) by {
                    assert(pre.resolutions@.contains(
                        (g.record.file.spec_path(), g.record.dependencies@[j].name@,
                        g.record.dependencies@[j].resolved->0@),
                    ));
                }
                assert(self.rec_wf(g.record));
            } else {
                assert(self.stack@[i] == f);
            }
        }
        assert forall|i: int| 0 <= i < nr.len() implies self.rec_wf(#[trigger] nr[i]) by {
            assert(pre.rec_wf(or[i]));
            if i < nr.len() - 1 {
                assert(nr[i] == or[i]);
                assert forall|j: int|
                    0 <= j < nr[i].dependencies@.len() && (#[trigger] nr[i].dependencies@[
                        j
                    ]).resolved is Some implies self.resolutions@.contains(
                    (nr[i].file.spec_path(), nr[i].dependencies@[j].name@, nr[i].dependencies@[
                        j
                    ].resolved->0@),
                ) by {
                    assert(pre.resolutions@.contains(
                        (or[i].file.spec_path(), or[i].dependencies@[j].name@,
                        or[i].dependencies@[j].resolved->0@),
                    ));
                }
            } else {
                assert(nr[i] == f.record);
                assert(self.rec_wf(f.record));
            }
        }
        assert forall|i: int| 0 <= i < nr.len() implies self.loaded_views().contains(
            (#[trigger] nr[i]).file.spec_path(),
        ) by {
            assert(pre.loaded_views().contains(or[i].file.spec_path()));
        }
        assert forall|l: int| 0 <= l < self.loaded_views().len() implies (path_recorded(
            nr,
            #[trigger] self.loaded_views()[l],
        ) || (self.awaiting matches Await::Load { path } && self.loaded_views()[l]
            == path@)) by {
            if path_recorded(or, pre.loaded_views()[l]) {
                let i = choose|i: int|
                    0 <= i < or.len() && (#[trigger] or[i].file.spec_path())
                        == pre.loaded_views()[l];
                assert(nr[i].file.spec_path() == self.loaded_views()[l]);
                assert(path_recorded(nr, self.loaded_views()[l]));
            }
        }
    }

    /// Marking the next dependency's path as loaded, advancing past it,
    /// and awaiting its load keeps the full invariant.
    proof fn lemma_load_step(&self, pre: Deps<B>, f0: Frame, p: Seq<char>)
        requires
            pre.wf_base(),
            pre.state == RunState::Running,
            pre.awaiting is Nothing,
            pre.stack@.len() > 0,
            f0 == pre.stack@.last(),
            f0.next_dep < f0.record.dependencies@.len(),
            f0.record.dependencies@[f0.next_dep as int].resolved is Some,
            f0.record.dependencies@[f0.next_dep as int].resolved->0@ == p,
            !pre.loaded_views().contains(p),
            self.module_map@ == pre.module_map@,
            self.stack@.len() == pre.stack@.len(),
            forall|i: int| 0 <= i < pre.stack@.len() - 1 ==> (#[trigger] self.stack@[i])
                == pre.stack@[i],
            self.stack@.last().record == f0.record,
            self.stack@.last().names == f0.names,
            self.stack@.last().next_name == f0.next_name,
            self.stack@.last().next_dep == f0.next_dep + 1,
            self.loaded_views() == pre.loaded_views().push(p),
            self.module_id == pre.module_id,
            self.include_builtins == pre.include_builtins,
            self.builtins == pre.builtins,
            self.resolutions == pre.resolutions,
            self.state == RunState::Running,
            self.awaiting matches Await::Load { path } && path@ == p,
        ensures
            self.wf(),
    {
        let recs = self.all_records();
        assert(self.stack@.map_values(|fr: Frame| fr.record) =~= pre.stack@.map_values(
            |fr: Frame| fr.record,
        ));
        assert(recs == pre.all_records());
        assert(forall|i: int|
            0 <= i < self.loaded_views().len() - 1 ==> self.loaded_views()[i]
                == pre.loaded_views()[i]);
        assert(self.loaded_views().last() == p);
        assert forall|i: int| 0 <= i < recs.len() implies self.rec_wf(#[trigger] recs[i]) by {
            assert(pre.rec_wf(pre.all_records()[i]));
        }
        assert forall|i: int| 0 <= i < recs.len() implies self.loaded_views().contains(
            (#[trigger] recs[i]).file.spec_path(),
        ) by {
            assert(pre.loaded_views().contains(pre.all_records()[i].file.spec_path()));
            let l = choose|l: int|
                0 <= l < pre.loaded_views().len() && pre.loaded_views()[l] == pre.all_records()[
                    i
                ].file.spec_path();
            assert(self.loaded_views()[l] == recs[i].file.spec_path());
        }
        assert forall|i: int| 0 <= i < self.stack@.len() implies self.frame_wf(
            #[trigger] self.stack@[i],
        ) by {
            let f = self.stack@[i];
            if i < self.stack@.len() - 1 {
                assert(f == pre.stack@[i]);
                assert(pre.frame_wf(f));
            } else {
                assert(pre.frame_wf(f0));
            }
            assert forall|j: int| 0 <= j < f.next_dep implies ((#[trigger] f.record.dependencies@[
                j
            ]).resolved is Some ==> self.loaded_views().contains(
                f.record.dependencies@[j].resolved->0@,
            )) by {
                if f.record.dependencies@[j].resolved is Some {
                    let q = f.record.dependencies@[j].resolved->0@;
                    if i == self.stack@.len() - 1 && j == f0.next_dep {
                        assert(q == p);
                        assert(self.loaded_views().last() == q);
                    } else {
                        assert(pre.loaded_views().contains(q));
                        let l = choose|l: int|
                            0 <= l < pre.loaded_views().len() && pre.loaded_views()[l] == q;
                        assert(self.loaded_views()[l] == q);
                    }
                }
            }
            assert(self.rec_wf(f.record));
        }
        assert forall|i: int| 0 <= i < self.module_map@.len() implies deps_loaded_upto(
            (#[trigger] self.module_map@[i]).dependencies@,
            self.module_map@[i].dependencies@.len() as int,
            self.loaded_views(),
        ) by {
            let ds = self.module_map@[i].dependencies@;
            assert(deps_loaded_upto(
                pre.module_map@[i].dependencies@,
                pre.module_map@[i].dependencies@.len() as int,
                pre.loaded_views(),
            ));
            assert forall|j: int| 0 <= j < ds.len() implies ((#[trigger] ds[j]).resolved is Some
                ==> self.loaded_views().contains(ds[j].resolved->0@)) by {
                if ds[j].resolved is Some {
                    let q = ds[j].resolved->0@;
                    assert(pre.loaded_views().contains(q));
                    let l = choose|l: int|
                        0 <= l < pre.loaded_views().len() && pre.loaded_views()[l] == q;
                    assert(self.loaded_views()[l] == q);
                }
            }
        }
        assert forall|i: int| 0 <= i < self.module_map@.len() implies names_covered(
            (#[trigger] self.module_map@[i]).dependencies@,
            self.module_map@[i].file.spec_dependencies(),
            self.module_map@[i].file.spec_dependencies().len() as int,
        ) by {
            assert(self.module_map@[i] == pre.module_map@[i]);
            assert(names_covered(
                (pre.module_map@[i]).dependencies@,
                pre.module_map@[i].file.spec_dependencies(),
                pre.module_map@[i].file.spec_dependencies().len() as int,
            ));
        }
        assert forall|l: int| 0 <= l < self.loaded_views().len() implies (path_recorded(
            recs,
            #[trigger] self.loaded_views()[l],
        ) || (self.awaiting matches Await::Load { path } && self.loaded_views()[l]
            == path@)) by {
            if l < self.loaded_views().len() - 1 {
                assert(self.loaded_views()[l] == pre.loaded_views()[l]);
                assert(path_recorded(pre.all_records(), pre.loaded_views()[l]));
                assert(path_recorded(recs, self.loaded_views()[l]));
            } else {
                assert(self.loaded_views()[l] == p);
            }
        }
        assert forall|i: int, j: int|
            0 <= i < recs.len() && 0 <= j < recs.len() && i != j implies (#[trigger] recs[
            i
        ].file.spec_path()) != (#[trigger] recs[j].file.spec_path()) by {
            assert(recs[i] == pre.all_records()[i]);
            assert(recs[j] == pre.all_records()[j]);
            assert(pre.all_records()[i].file.spec_path() != pre.all_records()[
                j
            ].file.spec_path());
        }
        assert forall|i: int, j: int|
            0 <= i < recs.len() && 0 <= j < recs.len() && i != j implies (#[trigger] recs[i].id)
            != (#[trigger] recs[j].id) by {
            assert(recs[i] == pre.all_records()[i]);
            assert(recs[j] == pre.all_records()[j]);
            assert(pre.all_records()[i].id != pre.all_records()[j].id);
        }
        assert forall|i: int| 0 <= i < recs.len() implies (#[trigger] recs[i].file.spec_path())
            != p by {
            if recs[i].file.spec_path() == p {
                assert(pre.loaded_views().contains(pre.all_records()[i].file.spec_path()));
                assert(pre.loaded_views().contains(p));
            }
        }
        assert(self.wf_base());
        assert(self.stack@.len() == 0 ==> self.module_map@.len() == 0);
    }

    /// Pushing the finished top frame's record into the map keeps the
    /// base invariant and shrinks the work measure.
    #[verifier::rlimit(80)]
    proof fn lemma_frame_popped(&self, pre: Deps<B>, f: Frame)
        requires
            pre.wf_base(),
            pre.stack@.len() > 0,
            f == pre.stack@.last(),
            f.next_name == f.names@.len(),
            f.next_dep == f.record.dependencies@.len(),
            self.module_map@ == pre.module_map@.push(f.record),
            self.stack@ == pre.stack@.drop_last(),
            self.loaded_files@ == pre.loaded_files@,
            self.module_id == pre.module_id,
            self.include_builtins == pre.include_builtins,
            self.builtins == pre.builtins,
            self.resolutions == pre.resolutions,
            self.awaiting == pre.awaiting,
        ensures
            self.wf_base(),
            stack_measure(self.stack@) < stack_measure(pre.stack@),
    {
        let st0 = pre.stack@;
        let m0 = pre.module_map@;
        let or = pre.all_records();
        let nr = self.all_records();
        assert(st0.map_values(|fr: Frame| fr.record) =~= st0.drop_last().map_values(
            |fr: Frame| fr.record,
        ).push(f.record));
        assert(nr =~= m0.push(f.record) + st0.drop_last().map_values(|fr: Frame| fr.record));
        assert(nr.len() == or.len());
        assert(forall|i: int|
            0 <= i < nr.len() ==> nr[i] == (if i < m0.len() {
                or[i]
            } else if i == m0.len() {
                or[or.len() - 1]
            } else {
                or[i - 1]
            }));
        assert(pre.frame_wf(f));
        assert forall|i: int| 0 <= i < nr.len() implies self.rec_wf(#[trigger] nr[i]) by {
            assert(pre.rec_wf(nr[i]));
        }
        assert forall|i: int| 0 <= i < nr.len() implies self.loaded_views().contains(
            (#[trigger] nr[i]).file.spec_path(),
        ) by {
            assert(pre.loaded_views().contains(nr[i].file.spec_path()));
        }
        assert(forall|i: int| 0 <= i < self.stack@.len() ==> self.stack@[i] == st0[i]);
        assert(forall|i: int|
            0 <= i < self.stack@.len() ==> self.frame_wf(#[trigger] self.stack@[i]));
        assert(string_views(f.names@).len() == f.record.file.spec_dependencies().len());
        assert(names_covered(
            f.record.dependencies@,
            f.record.file.spec_dependencies(),
            f.record.file.spec_dependencies().len() as int,
        ));
        assert forall|l: int| 0 <= l < self.loaded_views().len() implies (path_recorded(
            nr,
            #[trigger] self.loaded_views()[l],
        ) || (self.awaiting matches Await::Load { path } && self.loaded_views()[l]
            == path@)) by {
            if path_recorded(or, pre.loaded_views()[l]) {
                let i = choose|i: int|
                    0 <= i < or.len() && (#[trigger] or[i].file.spec_path())
                        == pre.loaded_views()[l];
                if i < m0.len() {
                    assert(nr[i].file.spec_path() == self.loaded_views()[l]);
                } else if i == or.len() - 1 {
                    assert(nr[m0.len() as int].file.spec_path() == self.loaded_views()[l]);
                } else {
                    assert(nr[i + 1].file.spec_path() == self.loaded_views()[l]);
                }
                assert(path_recorded(nr, self.loaded_views()[l]));
            }
        }
        assert(self.loaded_views() == pre.loaded_views());
        if self.module_id >= 1 {
            let i0 = choose|i: int| 0 <= i < or.len() && (#[trigger] or[i].id) == 1;
            if i0 < m0.len() {
                assert(nr[i0].id == 1);
            } else if i0 == or.len() - 1 {
                assert(nr[m0.len() as int].id == 1);
            } else {
                assert(nr[i0 + 1].id == 1);
            }
        }
        assert(stack_measure(st0) == stack_measure(st0.drop_last()) + frame_measure(st0.last()));
    }

    /// After back-filling a finished traversal the map is complete and
    /// the invariant holds of the done state.
    proof fn lemma_backfilled(&self, pre: Deps<B>)
        requires
            pre.wf_base(),
            pre.state == RunState::Running,
            pre.awaiting is Nothing,
            pre.stack@.len() == 0,
            self.stack@ == pre.stack@,
            self.loaded_files@ == pre.loaded_files@,
            self.awaiting == pre.awaiting,
            self.module_id == pre.module_id,
            self.include_builtins == pre.include_builtins,
            self.builtins == pre.builtins,
            self.resolutions == pre.resolutions,
            self.state == RunState::Done,
            self.module_map@.len() == pre.module_map@.len(),
            forall|i: int|
                0 <= i < self.module_map@.len() ==> {
                    let r = #[trigger] self.module_map@[i];
                    let r0 = pre.module_map@[i];
                    &&& r.file == r0.file
                    &&& r.id == r0.id
                    &&& r.entry == r0.entry
                    &&& r.dependencies@.len() == r0.dependencies@.len()
                },
            forall|i: int, j: int|
                0 <= i < self.module_map@.len() && 0 <= j < self.module_map@[
                    i
                ].dependencies@.len() ==> {
                    let d = #[trigger] self.module_map@[i].dependencies@[j];
                    let d0 = pre.module_map@[i].dependencies@[j];
                    &&& d.name == d0.name
                    &&& d.resolved == d0.resolved
                    &&& (d.record is Some <==> d.resolved is Some)
                    &&& (d.resolved is Some ==> exists|k: int|
                        {
                            &&& 0 <= k < self.module_map@.len()
                            &&& (#[trigger] self.module_map@[k].file.spec_path())
                                == d.resolved->0@
                            &&& self.module_map@[k].id == d.record->0
                        })
                },
        ensures
            self.wf(),
            map_complete(self.module_map@),
            builtins_respected(self.module_map@, pre.builtins, pre.include_builtins),
            unresolved_only_builtins(self.module_map@, pre.builtins),
            edges_match_imports(self.module_map@),
            edges_follow_resolutions(self.module_map@, self.resolutions@),
    {
        let m0 = pre.module_map@;
        let m1 = self.module_map@;
        assert(pre.all_records() =~= m0);
        assert(self.all_records() =~= m1);
        assert(forall|i: int|
            0 <= i < m1.len() ==> (#[trigger] m1[i]).file.spec_path() == m0[i].file.spec_path());
        assert forall|i: int| 0 <= i < m1.len() implies self.rec_wf(#[trigger] m1[i]) by {
            assert(pre.all_records()[i] == m0[i]);
            assert(pre.rec_wf(m0[i]));
            assert(forall|j: int|
                0 <= j < m1[i].dependencies@.len() ==> (#[trigger] m1[i].dependencies@[j]).name
                    == m0[i].dependencies@[j].name && m1[i].dependencies@[j].resolved == m0[
                    i
                ].dependencies@[j].resolved);
            assert forall|j: int, j2: int|
                0 <= j < m1[i].dependencies@.len() && 0 <= j2 < m1[i].dependencies@.len() && j
                    != j2 implies (#[trigger] m1[i].dependencies@[j].name)@ != (#[trigger] m1[
                i
            ].dependencies@[j2].name)@ by {
                assert(m0[i].dependencies@[j].name@ != m0[i].dependencies@[j2].name@);
            }
            assert(deps_wf(m1[i].dependencies@));
            assert forall|j: int| 0 <= j < m1[i].dependencies@.len() implies m1[
                i
            ].file.spec_dependencies().contains((#[trigger] m1[i].dependencies@[j].name)@) by {
                assert(m0[i].file.spec_dependencies().contains(m0[i].dependencies@[j].name@));
                let t = choose|t: int|
                    0 <= t < m0[i].file.spec_dependencies().len() && m0[
                        i
                    ].file.spec_dependencies()[t] == m0[i].dependencies@[j].name@;
                assert(m1[i].file.spec_dependencies()[t] == m1[i].dependencies@[j].name@);
            }
            assert(deps_from_names(m1[i].dependencies@, m1[i].file.spec_dependencies()));
            assert forall|j: int| 0 <= j < m1[i].dependencies.len() implies ((#[trigger] m1[
                i
            ].dependencies[j]).resolved is None <==> (self.builtins.spec_is_builtin(
                m1[i].dependencies[j].name@,
            ) && (!self.include_builtins || self.builtins.spec_shim(m1[i].dependencies[j].name@)
                == Option::Some(ShimKind::Stub)))) by {
                assert(m1[i].dependencies@[j].name == m0[i].dependencies@[j].name);
                assert(m1[i].dependencies@[j].resolved == m0[i].dependencies@[j].resolved);
            }
            assert forall|j: int|
                0 <= j < m1[i].dependencies.len() && (#[trigger] m1[i].dependencies[
                    j
                ]).resolved is Some implies self.resolutions@.contains(
                (m1[i].file.spec_path(), m1[i].dependencies[j].name@, m1[i].dependencies[
                    j
                ].resolved->0@),
            ) by {
                assert(m1[i].dependencies@[j].name == m0[i].dependencies@[j].name);
                assert(m1[i].dependencies@[j].resolved == m0[i].dependencies@[j].resolved);
                assert(pre.resolutions@.contains(
                    (m0[i].file.spec_path(), m0[i].dependencies@[j].name@, m0[i].dependencies@[
                        j
                    ].resolved->0@),
                ));
            }
        }
        assert forall|i: int| 0 <= i < m1.len() implies deps_loaded_upto(
            (#[trigger] m1[i]).dependencies@,
            m1[i].dependencies@.len() as int,
            self.loaded_views(),
        ) by {
            assert(deps_loaded_upto(
                m0[i].dependencies@,
                m0[i].dependencies@.len() as int,
                pre.loaded_views(),
            ));
            assert(forall|j: int|
                0 <= j < m1[i].dependencies@.len() ==> (#[trigger] m1[i].dependencies@[
                    j
                ]).resolved == m0[i].dependencies@[j].resolved);
        }
        assert forall|i: int| 0 <= i < m1.len() implies names_covered(
            (#[trigger] m1[i]).dependencies@,
            m1[i].file.spec_dependencies(),
            m1[i].file.spec_dependencies().len() as int,
        ) by {
            assert(m1[i].file == m0[i].file);
            assert(m1[i].file.spec_dependencies() == m0[i].file.spec_dependencies());
            assert(names_covered(
                m0[i].dependencies@,
                m1[i].file.spec_dependencies(),
                m1[i].file.spec_dependencies().len() as int,
            ));
            assert(forall|j: int|
                0 <= j < m0[i].dependencies@.len() ==> (#[trigger] m1[i].dependencies@[j]).name
                    == m0[i].dependencies@[j].name);
            lemma_names_covered_transfer(
                m0[i].dependencies@,
                m1[i].dependencies@,
                m1[i].file.spec_dependencies(),
                m1[i].file.spec_dependencies().len() as int,
            );
        }
        assert forall|l: int| 0 <= l < self.loaded_views().len() implies path_recorded(
            m1,
            #[trigger] self.loaded_views()[l],
        ) by {
            assert(path_recorded(pre.all_records(), pre.loaded_views()[l]));
            let i = choose|i: int|
                0 <= i < pre.all_records().len() && (#[trigger] pre.all_records()[
                    i
                ].file.spec_path()) == pre.loaded_views()[l];
            assert(m1[i].file.spec_path() == self.loaded_views()[l]);
            assert(path_recorded(m1, self.loaded_views()[l]));
        }
        assert(forall|i: int| 0 <= i < m1.len() ==> (#[trigger] m1[i]).id == m0[i].id);
        assert forall|i: int, j: int|
            0 <= i < m1.len() && 0 <= j < m1.len() && i != j implies (#[trigger] m1[
            i
        ].file.spec_path()) != (#[trigger] m1[j].file.spec_path()) by {
            assert(pre.all_records()[i] == m0[i]);
            assert(pre.all_records()[j] == m0[j]);
            assert(pre.all_records()[i].file.spec_path() != pre.all_records()[
                j
            ].file.spec_path());
        }
        assert forall|i: int, j: int|
            0 <= i < m1.len() && 0 <= j < m1.len() && i != j implies (#[trigger] m1[i].id) != (
        #[trigger] m1[j].id) by {
            assert(pre.all_records()[i] == m0[i]);
            assert(pre.all_records()[j] == m0[j]);
            assert(pre.all_records()[i].id != pre.all_records()[j].id);
        }
        assert forall|i: int| 0 <= i < m1.len() implies self.loaded_views().contains(
            (#[trigger] m1[i]).file.spec_path(),
        ) by {
            assert(pre.all_records()[i] == m0[i]);
            assert(pre.loaded_views().contains(pre.all_records()[i].file.spec_path()));
            let l = choose|l: int|
                0 <= l < pre.loaded_views().len() && pre.loaded_views()[l] == m0[
                    i
                ].file.spec_path();
            assert(self.loaded_views()[l] == m1[i].file.spec_path());
        }
        assert(self.wf_base());
        assert(map_complete(m1));
        assert(builtins_respected(m1, pre.builtins, pre.include_builtins));
        assert(unresolved_only_builtins(m1, pre.builtins));
        assert forall|i: int, j: int|
            0 <= i < m1.len() && 0 <= j < m1[i].dependencies@.len() && (#[trigger] m1[
                i
            ].dependencies@[j]).resolved is Some implies self.resolutions@.contains(
            (m1[i].file.spec_path(), m1[i].dependencies@[j].name@, m1[i].dependencies@[
                j
            ].resolved->0@),
        ) by {
            assert(self.rec_wf(m1[i]));
        }
        assert(edges_follow_resolutions(m1, self.resolutions@));
        assert forall|i: int| 0 <= i < m1.len() implies {
            let r = #[trigger] m1[i];
            &&& deps_from_names(r.dependencies@, r.file.spec_dependencies())
            &&& names_covered(
                r.dependencies@,
                r.file.spec_dependencies(),
                r.file.spec_dependencies().len() as int,
            )
        } by {
            assert(self.rec_wf(m1[i]));
        }
    }
}

impl<B: Builtins> Deps<B> {
    /// Two-phase back-fill: once every reachable module is recorded, point
    /// each resolved edge at the id of the record its path names.
    #[verifier::loop_isolation(false)]
    fn backfill(&mut self)
        requires
            old(self).wf_base(),
            old(self).state == RunState::Running,
            old(self).awaiting is Nothing,
            old(self).stack@.len() == 0,
        ensures
            final(self).stack@ == old(self).stack@,
            final(self).loaded_files@ == old(self).loaded_files@,
            final(self).awaiting == old(self).awaiting,
            final(self).state == old(self).state,
            final(self).module_id == old(self).module_id,
            final(self).include_builtins == old(self).include_builtins,
            final(self).builtins == old(self).builtins,
            final(self).resolutions == old(self).resolutions,
            final(self).module_map@.len() == old(self).module_map@.len(),
            forall|i: int|
                0 <= i < final(self).module_map@.len() ==> {
                    let r = #[trigger] final(self).module_map@[i];
                    let r0 = old(self).module_map@[i];
                    &&& r.file == r0.file
                    &&& r.id == r0.id
                    &&& r.entry == r0.entry
                    &&& r.dependencies@.len() == r0.dependencies@.len()
                },
            forall|i: int, j: int|
                0 <= i < final(self).module_map@.len() && 0 <= j < final(self).module_map@[
                    i
                ].dependencies@.len() ==> {
                    let d = #[trigger] final(self).module_map@[i].dependencies@[j];
                    let d0 = old(self).module_map@[i].dependencies@[j];
                    &&& d.name == d0.name
                    &&& d.resolved == d0.resolved
                    &&& (d.record is Some <==> d.resolved is Some)
                    &&& (d.resolved is Some ==> exists|k: int|
                        {
                            &&& 0 <= k < final(self).module_map@.len()
                            &&& (#[trigger] final(self).module_map@[k].file.spec_path())
                                == d.resolved->0@
                            &&& final(self).module_map@[k].id == d.record->0
                        })
                },
    {
        let n = self.module_map.len();
        let ghost map0 = self.module_map@;
        let mut index: Vec<(String, usize)> = Vec::new();
        let mut k: usize = 0;
        while k < n
            invariant
                k <= n,
                *self == *old(self),
                n == self.module_map@.len(),
                self.module_map@ == map0,
                index@.len() == k,
                forall|i: int|
                    0 <= i < k ==> (#[trigger] index@[i]).0@ == map0[i].file.spec_path()
                        && index@[i].1 == map0[i].id,
            decreases n - k,
        {
            let path = self.module_map[k].file.path().clone();
            let id = self.module_map[k].id;
            index.push((path, id));
            k = k + 1;
        }
        let mut k: usize = 0;
        while k < n
            invariant
                k <= n,
                n == self.module_map@.len(),
                self.stack@ == old(self).stack@,
                self.loaded_files@ == old(self).loaded_files@,
                self.awaiting == old(self).awaiting,
                self.state == old(self).state,
                self.module_id == old(self).module_id,
                self.include_builtins == old(self).include_builtins,
                self.builtins == old(self).builtins,
                self.resolutions == old(self).resolutions,
                map0 == old(self).module_map@,
                index@.len() == n,
                forall|i: int|
                    0 <= i < n ==> (#[trigger] index@[i]).0@ == map0[i].file.spec_path()
                        && index@[i].1 == map0[i].id,
                forall|i: int| k <= i < n ==> (#[trigger] self.module_map@[i]) == map0[i],
                forall|i: int|
                    0 <= i < k ==> {
                        let r = #[trigger] self.module_map@[i];
                        let r0 = map0[i];
                        &&& r.file == r0.file
                        &&& r.id == r0.id
                        &&& r.entry == r0.entry
                        &&& r.dependencies@.len() == r0.dependencies@.len()
                    },
                forall|i: int, j: int|
                    0 <= i < k && 0 <= j < self.module_map@[i].dependencies@.len() ==> {
                        let d = #[trigger] self.module_map@[i].dependencies@[j];
                        let dd = map0[i].dependencies@[j];
                        &&& d.name == dd.name
                        &&& d.resolved == dd.resolved
                        &&& (d.record is Some <==> d.resolved is Some)
                        &&& (d.resolved is Some ==> exists|t: int|
                            {
                                &&& 0 <= t < n
                                &&& (#[trigger] index@[t]).0@ == d.resolved->0@
                                &&& index@[t].1 == d.record->0
                            })
                    },
            decreases n - k,
        {
            let ghost before = self.module_map@;
            let rec = self.module_map.remove(k);
            let ghost rec0 = rec;
            let ModuleRecord { file, id, entry, dependencies } = rec;
            let mut newdeps: Vec<Dependency> = Vec::new();
            let ghost d0 = dependencies@;
            proof {
                assert(before[k as int] == map0[k as int]);
                assert(rec0 == map0[k as int]);
                assert(d0 == map0[k as int].dependencies@);
            }
            let mut j: usize = 0;
            while j < dependencies.len()
                invariant
                    j <= dependencies.len(),
                    dependencies@ == d0,
                    newdeps@.len() == j,
                    index@.len() == n,
                    k < n,
                    self.loaded_files@ == old(self).loaded_files@,
                    self.awaiting == old(self).awaiting,
                    self.resolutions == old(self).resolutions,
                    map0 == old(self).module_map@,
                    d0 == map0[k as int].dependencies@,
                    forall|i: int|
                        0 <= i < n ==> (#[trigger] index@[i]).0@ == map0[i].file.spec_path()
                            && index@[i].1 == map0[i].id,
                    forall|i: int|
                        0 <= i < j ==> {
                            let d = #[trigger] newdeps@[i];
                            let dd = d0[i];
                            &&& d.name == dd.name
                            &&& d.resolved == dd.resolved
                            &&& (d.record is Some <==> d.resolved is Some)
                            &&& (d.resolved is Some ==> exists|t: int|
                                {
                                    &&& 0 <= t < n
                                    &&& (#[trigger] index@[t]).0@ == d.resolved->0@
                                    &&& index@[t].1 == d.record->0
                                })
                        },
                decreases dependencies.len() - j,
            {
                let name = dependencies[j].name.clone();
                let resolved = clone_opt_string(&dependencies[j].resolved);
                match resolved {
                    Option::Some(p) => {
                        proof {
                            assert(d0[j as int].resolved is Some);
                            assert(p@ == d0[j as int].resolved->0@);
                            assert(old(self).wf_base());
                            assert(deps_loaded_upto(
                                old(self).module_map@[k as int].dependencies@,
                                old(self).module_map@[k as int].dependencies@.len() as int,
                                old(self).loaded_views(),
                            ));
                            assert(d0 == old(self).module_map@[k as int].dependencies@);
                            assert(old(self).loaded_views().contains(p@));
                            let l = choose|l: int|
                                0 <= l < old(self).loaded_views().len() && old(self).loaded_views()[l] == p@;
                            assert(!(old(self).awaiting is Load));
                            assert(path_recorded(
                                old(self).all_records(),
                                old(self).loaded_views()[l],
                            ));
                            let i = choose|i: int|
                                0 <= i < old(self).all_records().len() && (#[trigger] old(self).all_records()[i].file.spec_path()) == old(self).loaded_views()[
                                    l
                                ];
                            assert(old(self).all_records() =~= map0);
                            assert(map0[i] == old(self).all_records()[i]);
                            assert(index@[i].0@ == p@);
                        }
                        let target = lookup_id(&index, &p);
                        newdeps.push(Dependency { name, resolved: Some(p), record: Some(target) });
                    },
                    Option::None => {
                        newdeps.push(Dependency { name, resolved: None, record: None });
                    },
                }
                j = j + 1;
            }
            let rebuilt = ModuleRecord { file, id, entry, dependencies: newdeps };
            self.module_map.insert(k, rebuilt);
            proof {
                assert(self.module_map@ =~= before.update(k as int, rebuilt));
            }
            k = k + 1;
        }
        proof {
            assert forall|i: int, j: int|
                0 <= i < n && 0 <= j < self.module_map@[i].dependencies@.len() && (
                #[trigger] self.module_map@[i].dependencies@[j]).resolved is Some implies exists|
                k2: int,
            |
                {
                    &&& 0 <= k2 < self.module_map@.len()
                    &&& (#[trigger] self.module_map@[k2].file.spec_path())
                        == self.module_map@[i].dependencies@[j].resolved->0@
                    &&& self.module_map@[k2].id == self.module_map@[i].dependencies@[j].record->0
                } by {
                let d = self.module_map@[i].dependencies@[j];
                let t = choose|t: int|
                    0 <= t < n && (#[trigger] index@[t]).0@ == d.resolved->0@ && index@[t].1
                        == d.record->0;
                assert(self.module_map@[t].file.spec_path() == map0[t].file.spec_path());
                assert(self.module_map@[t].id == map0[t].id);
            }
        }
    }
}

/// Clone an optional string.
fn clone_opt_string(o: &Option<String>) -> (r: Option<String>)
    ensures
        r == *o,
{
    match o {
        Option::Some(s) => Option::Some(s.clone()),
        Option::None => Option::None,
    }
}

/// Find the module id recorded for a path.
fn lookup_id(index: &Vec<(String, usize)>, p: &String) -> (r: usize)
    requires
        exists|t: int| 0 <= t < index@.len() && (#[trigger] index@[t]).0@ == p@,
    ensures
        exists|t: int|
            0 <= t < index@.len() && (#[trigger] index@[t]).0@ == p@ && index@[t].1 == r,
{
    let mut i: usize = 0;
    loop
        invariant
            i <= index@.len(),
            exists|t: int| 0 <= t < index@.len() && (#[trigger] index@[t]).0@ == p@,
            forall|t: int| 0 <= t < i ==> (#[trigger] index@[t]).0@ != p@,
        decreases index@.len() - i,
    {
        if i >= index.len() {
            proof {
                assert(false);
            }
            return 0;
        }
        if index[i].0 == *p {
            return index[i].1;
        }
        i = i + 1;
    }
}

/// The default extension candidates, code before data.
fn default_extension_list() -> (r: Vec<String>)
    ensures
        string_views(r@) == default_extensions(),
{
    let mut r: Vec<String> = Vec::new();
    r.push(".js".to_owned());
    r.push(".json".to_owned());
    proof {
        assert(string_views(r@) =~= default_extensions());
    }
    r
}

/// Clone a vector of strings.
fn clone_strings(v: &Vec<String>) -> (r: Vec<String>)
    ensures
        r@.len() == v@.len(),
        string_views(r@) == string_views(v@),
{
    let mut r: Vec<String> = Vec::new();
    let mut i: usize = 0;
    while i < v.len()
        invariant
            i <= v.len(),
            r@.len() == i,
            string_views(r@) =~= string_views(v@).take(i as int),
        decreases v.len() - i,
    {
        r.push(v[i].clone());
        proof {
            assert(string_views(r@) =~= string_views(v@).take(i + 1));
        }
        i = i + 1;
    }
    proof {
        assert(string_views(v@).take(v@.len() as int) =~= string_views(v@));
    }
    r
}

/// Whether any dependency in the list already carries this name.
fn dep_named(ds: &Vec<Dependency>, name: &String) -> (r: bool)
    ensures
        r == exists|j: int| 0 <= j < ds@.len() && (#[trigger] ds@[j].name)@ == name@,
{
    let mut i: usize = 0;
    while i < ds.len()
        invariant
            i <= ds.len(),
            forall|j: int| 0 <= j < i ==> (#[trigger] ds@[j].name)@ != name@,
        decreases ds.len() - i,
    {
        if ds[i].name == *name {
            return true;
        }
        i = i + 1;
    }
    false
}

/// Whether the list holds this path.
fn contains_string(v: &Vec<String>, s: &String) -> (r: bool)
    ensures
        r == string_views(v@).contains(s@),
{
    let mut i: usize = 0;
    while i < v.len()
        invariant
            i <= v.len(),
            forall|j: int| 0 <= j < i ==> (#[trigger] v@[j])@ != s@,
        decreases v.len() - i,
    {
        if v[i] == *s {
            proof {
                assert(string_views(v@)[i as int] == s@);
            }
            return true;
        }
        i = i + 1;
    }
    proof {
        assert(forall|j: int| 0 <= j < string_views(v@).len() ==> string_views(v@)[j] != s@);
    }
    false
}

proof fn lemma_measure_pop_push(st: Seq<Frame>, f: Frame)
    requires
        st.len() > 0,
    ensures
        stack_measure(st.drop_last().push(f)) == stack_measure(st) - frame_measure(st.last())
            + frame_measure(f),
{
    assert(st.drop_last().push(f).drop_last() =~= st.drop_last());
    assert(st.drop_last().push(f).last() == f);
}

} // verus!
