//! The packer: serializes a finished module map into a single
//! self-executing bundle.
//!
//! Modules are emitted in ascending order of content hash
//! (byte-lexicographic over the digest), not discovery or id order, so the
//! bundle's bytes are stable under module reordering; each module's
//! dependency map is emitted with its literal import identifiers in
//! lexicographic order. The whole output is a function of the module map
//! alone.

use vstd::prelude::*;

use serde_json;

use crate::graph::{
    bytes_cmp, bytes_lt, lemma_bytes_lt_asymmetric, lemma_bytes_lt_connected,
    lemma_bytes_lt_transitive, Dependency, HashOrder, ModuleMap, ModuleRecord,
};
use vstd::multiset::Multiset;
use vstd::relations::sorted_by;
use crate::text::{chars_lt, dec_str_of, lemma_dec_str_nonempty, push_dec, str_lt};

verus! {

/// The fixed runtime prelude: a module cache, a per-module require shim
/// that maps literal import names through the module's dependency map,
/// fallthrough to an externally provided `require` for names absent from
/// the bundle, and a MODULE_NOT_FOUND-style failure otherwise.
pub const RUNTIME_PRELUDE: &'static str = "(function (modules, cache, entry) {\n  function newRequire(id) {\n    if (!cache[id]) {\n      if (!modules[id]) {\n        var currentRequire = typeof require === 'function' && require;\n        if (currentRequire) return currentRequire(id);\n        var err = new Error('Cannot find module \\'' + id + '\\'');\n        err.code = 'MODULE_NOT_FOUND';\n        throw err;\n      }\n      var module = cache[id] = { exports: {} };\n      modules[id][0].call(module.exports, function (name) {\n        var altId = modules[id][1][name];\n        return newRequire(altId == null ? name : altId);\n      }, module.exports, module);\n    }\n    return cache[id].exports;\n  }\n  for (var i = 0; i < entry.length; i++) newRequire(entry[i]);\n  return newRequire;\n})";

/// The JSON string form of a text: quoted and escaped.
pub uninterp spec fn json_string_of(s: Seq<char>) -> Seq<char>;

/// Relies on serde_json's `to_string` for a string value: the quoted,
/// escaped JSON form, a function of the characters alone.
#[verifier::external_body]
fn json_quote(s: &str) -> (r: String)
    ensures
        r@ == json_string_of(s@),
{
    match serde_json::to_string(s) {
        Ok(q) => q,
        Err(_) => String::new(),
    }
}

/// Stable insertion of `x` into `s`: before the first element it orders
/// strictly below, after everything it does not.
pub open spec fn spec_insert_by<T>(s: Seq<T>, x: T, lt: spec_fn(T, T) -> bool) -> Seq<T>
    decreases s.len(),
{
    if s.len() == 0 {
        seq![x]
    } else if lt(x, s.first()) {
        seq![x] + s
    } else {
        seq![s.first()] + spec_insert_by(s.drop_first(), x, lt)
    }
}

/// Stable insertion sort.
pub open spec fn spec_sort_by<T>(s: Seq<T>, lt: spec_fn(T, T) -> bool) -> Seq<T>
    decreases s.len(),
{
    if s.len() == 0 {
        Seq::empty()
    } else {
        spec_insert_by(spec_sort_by(s.drop_last(), lt), s.last(), lt)
    }
}

/// Inserting at the first position whose element orders strictly above
/// `x` is what stable insertion does.
proof fn lemma_insert_by_at<T>(s: Seq<T>, x: T, lt: spec_fn(T, T) -> bool, pos: int)
    requires
        0 <= pos <= s.len(),
        forall|i: int| 0 <= i < pos ==> !lt(x, #[trigger] s[i]),
        pos < s.len() ==> lt(x, s[pos]),
    ensures
        spec_insert_by(s, x, lt) == s.insert(pos, x),
    decreases s.len(),
{
    if s.len() == 0 {
        assert(seq![x] =~= s.insert(0, x));
    } else if lt(x, s.first()) {
        assert(pos == 0);
        assert(seq![x] + s =~= s.insert(0, x));
    } else {
        assert(pos >= 1);
        assert(forall|i: int| 0 <= i < pos - 1 ==> !lt(x, #[trigger] s.drop_first()[i]));
        lemma_insert_by_at(s.drop_first(), x, lt, pos - 1);
        assert(seq![s.first()] + s.drop_first().insert(pos - 1, x) =~= s.insert(pos, x));
    }
}

/// Records ordered by content hash.
pub open spec fn rec_lt_fn() -> spec_fn(ModuleRecord, ModuleRecord) -> bool {
    (|a: ModuleRecord, b: ModuleRecord| bytes_lt(a.file.spec_hash(), b.file.spec_hash()))
}

/// Dependencies ordered by literal import identifier.
pub open spec fn dep_lt_fn() -> spec_fn(Dependency, Dependency) -> bool {
    (|a: Dependency, b: Dependency| chars_lt(a.name@, b.name@))
}

/// One entry of a module's emitted dependency map: the quoted literal
/// name, then the id of its resolved peer, or `null` when the edge is
/// unresolved.
pub open spec fn dep_entry_str(d: Dependency) -> Seq<char> {
    json_string_of(d.name@) + ":"@ + (match d.record {
        Option::Some(id) => dec_str_of(id as nat),
        Option::None => "null"@,
    })
}

/// The comma-joined entries of a dependency map, in the given order.
pub open spec fn dep_entries_str(ds: Seq<Dependency>) -> Seq<char>
    decreases ds.len(),
{
    if ds.len() == 0 {
        Seq::empty()
    } else if ds.len() == 1 {
        dep_entry_str(ds[0])
    } else {
        dep_entries_str(ds.drop_last()) + ","@ + dep_entry_str(ds.last())
    }
}

/// A module's emitted dependency map: its edges sorted by literal name.
pub open spec fn dep_map_str(ds: Seq<Dependency>) -> Seq<char> {
    "{"@ + dep_entries_str(spec_sort_by(ds, dep_lt_fn())) + "}"@
}

/// One module-table entry: the module's id, its served source wrapped as
/// a function taking `(require, exports, module)`, and its dependency
/// map.
pub open spec fn chunk_str(r: ModuleRecord) -> Seq<char> {
    dec_str_of(r.id as nat) + ":[function(require,exports,module){\n"@
        + r.file.spec_served_source() + "\n},"@ + dep_map_str(r.dependencies@) + "]"@
}

/// The module table: all chunks, joined with `,\n`, in the given order.
pub open spec fn table_str(ms: Seq<ModuleRecord>) -> Seq<char>
    decreases ms.len(),
{
    if ms.len() == 0 {
        Seq::empty()
    } else if ms.len() == 1 {
        chunk_str(ms[0])
    } else {
        table_str(ms.drop_last()) + ",\n"@ + chunk_str(ms.last())
    }
}

/// The comma-joined ids of the entry modules, in the given order.
pub open spec fn entry_ids_str(ms: Seq<ModuleRecord>) -> Seq<char>
    decreases ms.len(),
{
    if ms.len() == 0 {
        Seq::empty()
    } else {
        let rest = entry_ids_str(ms.drop_last());
        if ms.last().entry {
            if rest.len() == 0 {
                dec_str_of(ms.last().id as nat)
            } else {
                rest + ","@ + dec_str_of(ms.last().id as nat)
            }
        } else {
            rest
        }
    }
}

/// The whole bundle, as a function of the module map: prologue, module
/// table in ascending content-hash order, empty shared cache, entry ids.
pub open spec fn spec_pack(ms: Seq<ModuleRecord>) -> Seq<char> {
    let sorted = spec_sort_by(ms, rec_lt_fn());
    "_require = "@ + RUNTIME_PRELUDE@ + "({\n"@ + table_str(sorted) + "},{},["@ + entry_ids_str(
        sorted,
    ) + "]);"@
}

struct PackItem {
    hash: Vec<u8>,
    chunk: String,
    id: usize,
    entry: bool,
}

spec fn item_matches(it: PackItem, r: ModuleRecord) -> bool {
    &&& it.hash@ == r.file.spec_hash()
    &&& it.chunk@ == chunk_str(r)
    &&& it.id == r.id
    &&& it.entry == r.entry
}

struct DepItem {
    name: String,
    text: String,
}

spec fn dep_item_matches(it: DepItem, d: Dependency) -> bool {
    &&& it.name@ == d.name@
    &&& it.text@ == dep_entry_str(d)
}

/// Copy a byte string.
fn copy_bytes(v: &Vec<u8>) -> (r: Vec<u8>)
    ensures
        r@ == v@,
{
    let mut r: Vec<u8> = Vec::new();
    let mut i: usize = 0;
    while i < v.len()
        invariant
            i <= v.len(),
            r@ =~= v@.take(i as int),
        decreases v.len() - i,
    {
        r.push(v[i]);
        proof {
            assert(r@ =~= v@.take(i + 1));
        }
        i = i + 1;
    }
    proof {
        assert(v@.take(v@.len() as int) =~= v@);
    }
    r
}

/// Build the emitted dependency map of one module.
#[verifier::loop_isolation(false)]
#[verifier::rlimit(60)]
fn dep_map_string(ds: &Vec<Dependency>) -> (r: String)
    ensures
        r@ == dep_map_str(ds@),
{
    let mut items: Vec<DepItem> = Vec::new();
    let mut k: usize = 0;
    while k < ds.len()
        invariant
            k <= ds.len(),
            items@.len() == spec_sort_by(ds@.take(k as int), dep_lt_fn()).len(),
            forall|i: int|
                0 <= i < items@.len() ==> dep_item_matches(
                    #[trigger] items@[i],
                    spec_sort_by(ds@.take(k as int), dep_lt_fn())[i],
                ),
        decreases ds.len() - k,
    {
        let ghost sorted_k = spec_sort_by(ds@.take(k as int), dep_lt_fn());
        let d = &ds[k];
        let mut text = json_quote(d.name.as_str());
        match d.record {
            Option::Some(id) => {
                text.append(":");
                push_dec(&mut text, id as u64);
                proof {
                    assert(text@ =~= json_string_of(d.name@) + ":"@ + dec_str_of(id as nat));
                }
            },
            Option::None => {
                text.append(":null");
                proof {
                    reveal_strlit(":null");
                    reveal_strlit(":");
                    reveal_strlit("null");
                    assert(":null"@ =~= ":"@ + "null"@);
                    assert(text@ =~= json_string_of(d.name@) + ":"@ + "null"@);
                }
            },
        }
        let it = DepItem { name: d.name.clone(), text };
        proof {
            assert(it.text@ == dep_entry_str(ds@[k as int]));
            assert(dep_item_matches(it, ds@[k as int]));
        }
        let mut pos: usize = 0;
        while pos < items.len() && !str_lt(it.name.as_str(), items[pos].name.as_str())
            invariant
                pos <= items.len(),
                forall|i: int|
                    0 <= i < pos ==> !chars_lt(it.name@, (#[trigger] items@[i]).name@),
            decreases items.len() - pos,
        {
            pos = pos + 1;
        }
        proof {
            assert forall|i: int| 0 <= i < pos implies !dep_lt_fn()(
                ds@[k as int],
                #[trigger] sorted_k[i],
            ) by {
                assert(dep_item_matches(items@[i], sorted_k[i]));
                assert(items@[i].name@ == sorted_k[i].name@);
                assert(it.name@ == ds@[k as int].name@);
            }
            if pos < items@.len() {
                assert(chars_lt(it.name@, items@[pos as int].name@));
                assert(dep_item_matches(items@[pos as int], sorted_k[pos as int]));
                assert(dep_lt_fn()(ds@[k as int], sorted_k[pos as int]));
            }
            lemma_insert_by_at(sorted_k, ds@[k as int], dep_lt_fn(), pos as int);
        }
        let ghost items0 = items@;
        items.insert(pos, it);
        proof {
            let sorted_k1 = spec_sort_by(ds@.take(k + 1), dep_lt_fn());
            assert(ds@.take(k + 1).drop_last() =~= ds@.take(k as int));
            assert(ds@.take(k + 1).last() == ds@[k as int]);
            assert(sorted_k1 == spec_insert_by(sorted_k, ds@[k as int], dep_lt_fn()));
            assert(sorted_k1 == sorted_k.insert(pos as int, ds@[k as int]));
            assert forall|i: int| 0 <= i < items@.len() implies dep_item_matches(
                #[trigger] items@[i],
                sorted_k1[i],
            ) by {
                if i < pos {
                    assert(items@[i] == items0[i]);
                    assert(sorted_k1[i] == sorted_k[i]);
                } else if i == pos {
                    assert(items@[i] == it);
                    assert(sorted_k1[i] == ds@[k as int]);
                } else {
                    assert(items@[i] == items0[i - 1]);
                    assert(sorted_k1[i] == sorted_k[i - 1]);
                }
            }
        }
        k = k + 1;
    }
    proof {
        assert(ds@.take(ds@.len() as int) =~= ds@);
    }
    let ghost sorted = spec_sort_by(ds@, dep_lt_fn());
    let mut out = "{".to_owned();
    let ghost out0 = out@;
    let mut i: usize = 0;
    while i < items.len()
        invariant
            i <= items.len(),
            out@ == out0 + dep_entries_str(sorted.take(i as int)),
        decreases items.len() - i,
    {
        if i > 0 {
            out.append(",");
        }
        out.append(items[i].text.as_str());
        proof {
            assert(sorted.take(i + 1).drop_last() =~= sorted.take(i as int));
            assert(sorted.take(i + 1).last() == sorted[i as int]);
            assert(items@[i as int].text@ == dep_entry_str(sorted[i as int]));
            if i == 0 {
                assert(out@ =~= out0 + dep_entries_str(sorted.take(1)));
            } else {
                assert(out@ =~= out0 + dep_entries_str(sorted.take(i + 1)));
            }
        }
        i = i + 1;
    }
    out.append("}");
    proof {
        assert(sorted.take(sorted.len() as int) =~= sorted);
        assert(out@ =~= dep_map_str(ds@));
    }
    out
}

/// Pack a [`ModuleMap`] into a self-executing bundle.
pub struct Pack<'a> {
    pub modules: &'a ModuleMap,
}

impl<'a> Pack<'a> {
    pub fn new(modules: &ModuleMap) -> (r: Pack)
        ensures
            r.modules == modules,
    {
        Pack { modules }
    }

    /// Serialize the module map. The contract makes the output a function
    /// of the map alone, so re-bundling the same map yields byte-identical
    /// output; inside one bundle, modules are emitted in ascending
    /// content-hash order, not id or discovery order.
    #[verifier::loop_isolation(false)]
    #[verifier::rlimit(60)]
    pub fn to_string(&self) -> (r: String)
        ensures
            r@ == spec_pack(self.modules@),
    {
        let ms = self.modules;
        let mut items: Vec<PackItem> = Vec::new();
        let mut k: usize = 0;
        while k < ms.len()
            invariant
                k <= ms.len(),
                items@.len() == spec_sort_by(ms@.take(k as int), rec_lt_fn()).len(),
                forall|i: int|
                    0 <= i < items@.len() ==> item_matches(
                        #[trigger] items@[i],
                        spec_sort_by(ms@.take(k as int), rec_lt_fn())[i],
                    ),
            decreases ms.len() - k,
        {
            let ghost sorted_k = spec_sort_by(ms@.take(k as int), rec_lt_fn());
            let rec = &ms[k];
            let mut chunk = String::new();
            push_dec(&mut chunk, rec.id as u64);
            chunk.append(":[function(require,exports,module){\n");
            let served = rec.file.served_source();
            chunk.append(served.as_str());
            chunk.append("\n},");
            let dm = dep_map_string(&rec.dependencies);
            chunk.append(dm.as_str());
            chunk.append("]");
            let it = PackItem {
                hash: copy_bytes(rec.file.hash()),
                chunk,
                id: rec.id,
                entry: rec.entry,
            };
            proof {
                assert(it.chunk@ =~= chunk_str(ms@[k as int]));
                assert(item_matches(it, ms@[k as int]));
            }
            let mut pos: usize = 0;
            while pos < items.len() && !matches!(
                bytes_cmp(&it.hash, &items[pos].hash),
                HashOrder::Less,
            )
                invariant
                    pos <= items.len(),
                    forall|i: int|
                        0 <= i < pos ==> !bytes_lt(it.hash@, (#[trigger] items@[i]).hash@),
                decreases items.len() - pos,
            {
                pos = pos + 1;
            }
            proof {
                assert forall|i: int| 0 <= i < pos implies !rec_lt_fn()(
                    ms@[k as int],
                    #[trigger] sorted_k[i],
                ) by {
                    assert(item_matches(items@[i], sorted_k[i]));
                    assert(items@[i].hash@ == sorted_k[i].file.spec_hash());
                    assert(it.hash@ == ms@[k as int].file.spec_hash());
                }
                if pos < items@.len() {
                    assert(bytes_lt(it.hash@, items@[pos as int].hash@));
                    assert(item_matches(items@[pos as int], sorted_k[pos as int]));
                    assert(rec_lt_fn()(ms@[k as int], sorted_k[pos as int]));
                }
                lemma_insert_by_at(sorted_k, ms@[k as int], rec_lt_fn(), pos as int);
            }
            let ghost items0 = items@;
            items.insert(pos, it);
            proof {
                let sorted_k1 = spec_sort_by(ms@.take(k + 1), rec_lt_fn());
                assert(ms@.take(k + 1).drop_last() =~= ms@.take(k as int));
                assert(ms@.take(k + 1).last() == ms@[k as int]);
                assert(sorted_k1 == spec_insert_by(sorted_k, ms@[k as int], rec_lt_fn()));
                assert(sorted_k1 == sorted_k.insert(pos as int, ms@[k as int]));
                assert forall|i: int| 0 <= i < items@.len() implies item_matches(
                    #[trigger] items@[i],
                    sorted_k1[i],
                ) by {
                    if i < pos {
                        assert(items@[i] == items0[i]);
                        assert(sorted_k1[i] == sorted_k[i]);
                    } else if i == pos {
                        assert(items@[i] == it);
                        assert(sorted_k1[i] == ms@[k as int]);
                    } else {
                        assert(items@[i] == items0[i - 1]);
                        assert(sorted_k1[i] == sorted_k[i - 1]);
                    }
                }
            }
            k = k + 1;
        }
        proof {
            assert(ms@.take(ms@.len() as int) =~= ms@);
        }
        let ghost sorted = spec_sort_by(ms@, rec_lt_fn());
        let mut out = "_require = ".to_owned();
        out.append(RUNTIME_PRELUDE);
        out.append("({\n");
        let ghost head = out@;
        let mut entries = String::new();
        let mut first_entry = true;
        let mut i: usize = 0;
        while i < items.len()
            invariant
                i <= items.len(),
                out@ == head + table_str(sorted.take(i as int)),
                entries@ == entry_ids_str(sorted.take(i as int)),
                first_entry == (entry_ids_str(sorted.take(i as int)).len() == 0),
            decreases items.len() - i,
        {
            if i > 0 {
                out.append(",\n");
            }
            out.append(items[i].chunk.as_str());
            if items[i].entry {
                if !first_entry {
                    entries.append(",");
                }
                push_dec(&mut entries, items[i].id as u64);
                first_entry = false;
            }
            proof {
                assert(sorted.take(i + 1).drop_last() =~= sorted.take(i as int));
                assert(sorted.take(i + 1).last() == sorted[i as int]);
                assert(items@[i as int].chunk@ == chunk_str(sorted[i as int]));
                if i == 0 {
                    assert(out@ =~= head + table_str(sorted.take(1)));
                } else {
                    assert(out@ =~= head + table_str(sorted.take(i + 1)));
                }
                lemma_dec_str_nonempty(sorted[i as int].id as nat);
                assert(entries@ =~= entry_ids_str(sorted.take(i + 1)));
            }
            i = i + 1;
        }
        out.append("},{},[");
        out.append(entries.as_str());
        out.append("]);");
        proof {
            assert(sorted.take(sorted.len() as int) =~= sorted);
            assert(out@ =~= spec_pack(ms@));
        }
        out
    }
}

/// Pairwise distinct content hashes across a module map.
pub open spec fn distinct_hashes(ms: Seq<ModuleRecord>) -> bool {
    forall|i: int, j: int|
        0 <= i < ms.len() && 0 <= j < ms.len() && i != j ==> (#[trigger] ms[i]).file.spec_hash()
            != (#[trigger] ms[j]).file.spec_hash()
}

/// Stable insertion adds exactly the inserted element to the contents.
proof fn lemma_insert_by_multiset<T>(s: Seq<T>, x: T, lt: spec_fn(T, T) -> bool)
    ensures
        spec_insert_by(s, x, lt).to_multiset() == s.to_multiset().insert(x),
    decreases s.len(),
{
    broadcast use vstd::seq_lib::group_to_multiset_ensures;
    broadcast use vstd::multiset::group_multiset_axioms;

    if s.len() == 0 {
        assert(s =~= Seq::<T>::empty());
        assert(seq![x] =~= s.push(x));
        assert(s.push(x).to_multiset() =~= s.to_multiset().insert(x));
    } else if lt(x, s.first()) {
        vstd::seq_lib::lemma_multiset_commutative(seq![x], s);
        assert(seq![x] =~= Seq::<T>::empty().push(x));
        assert(seq![x].to_multiset() =~= Multiset::<T>::empty().insert(x));
        assert((seq![x] + s).to_multiset() =~= s.to_multiset().insert(x));
    } else {
        let rest = spec_insert_by(s.drop_first(), x, lt);
        lemma_insert_by_multiset(s.drop_first(), x, lt);
        vstd::seq_lib::lemma_multiset_commutative(seq![s.first()], rest);
        vstd::seq_lib::lemma_multiset_commutative(seq![s.first()], s.drop_first());
        assert(seq![s.first()] + s.drop_first() =~= s);
        assert(seq![s.first()] =~= Seq::<T>::empty().push(s.first()));
        assert(seq![s.first()].to_multiset() =~= Multiset::<T>::empty().insert(s.first()));
        assert((seq![s.first()] + rest).to_multiset() =~= s.to_multiset().insert(x));
    }
}

/// Insertion sort leaves the contents unchanged.
proof fn lemma_sort_by_multiset<T>(s: Seq<T>, lt: spec_fn(T, T) -> bool)
    ensures
        spec_sort_by(s, lt).to_multiset() == s.to_multiset(),
    decreases s.len(),
{
    broadcast use vstd::seq_lib::group_to_multiset_ensures;
    broadcast use vstd::multiset::group_multiset_axioms;

    if s.len() > 0 {
        lemma_sort_by_multiset(s.drop_last(), lt);
        lemma_insert_by_multiset(spec_sort_by(s.drop_last(), lt), s.last(), lt);
        assert(s =~= s.drop_last().push(s.last()));
        assert(s.drop_last().push(s.last()).to_multiset() =~= s.drop_last().to_multiset().insert(
            s.last(),
        ));
    }
}

/// Inserting an element comparable with every element of a strictly
/// sorted sequence keeps it strictly sorted.
proof fn lemma_insert_by_strictly_sorted<T>(s: Seq<T>, x: T, lt: spec_fn(T, T) -> bool)
    requires
        sorted_by(s, lt),
        forall|y: T, z: T| #[trigger] lt(y, z) ==> !lt(z, y),
        forall|y: T, z: T, w: T| #[trigger] lt(y, z) && #[trigger] lt(z, w) ==> lt(y, w),
        forall|i: int| 0 <= i < s.len() ==> lt(x, #[trigger] s[i]) || lt(s[i], x),
    ensures
        sorted_by(spec_insert_by(s, x, lt), lt),
    decreases s.len(),
{
    broadcast use vstd::seq_lib::group_to_multiset_ensures;
    broadcast use vstd::multiset::group_multiset_axioms;

    let r = spec_insert_by(s, x, lt);
    if s.len() == 0 {
        assert(sorted_by(r, lt));
    } else if lt(x, s.first()) {
        assert forall|i: int, j: int| 0 <= i < j < r.len() implies lt(r[i], r[j]) by {
            if i == 0 {
                assert(r[j] == s[j - 1]);
                if j == 1 {
                    assert(lt(x, s[0]));
                } else {
                    assert(lt(s[0], s[j - 1]));
                    assert(lt(x, s[0]));
                }
            } else {
                assert(r[i] == s[i - 1]);
                assert(r[j] == s[j - 1]);
                assert(lt(s[i - 1], s[j - 1]));
            }
        }
    } else {
        assert(lt(x, s[0]) || lt(s[0], x));
        assert(lt(s.first(), x));
        let inner = spec_insert_by(s.drop_first(), x, lt);
        assert forall|i: int, j: int|
            0 <= i < j < s.drop_first().len() implies lt(
            #[trigger] s.drop_first()[i],
            #[trigger] s.drop_first()[j],
        ) by {
            assert(s.drop_first()[i] == s[i + 1]);
            assert(s.drop_first()[j] == s[j + 1]);
            assert(lt(s[i + 1], s[j + 1]));
        }
        assert forall|i: int| 0 <= i < s.drop_first().len() implies lt(
            x,
            #[trigger] s.drop_first()[i],
        ) || lt(s.drop_first()[i], x) by {
            assert(s.drop_first()[i] == s[i + 1]);
            assert(lt(x, s[i + 1]) || lt(s[i + 1], x));
        }
        lemma_insert_by_strictly_sorted(s.drop_first(), x, lt);
        lemma_insert_by_multiset(s.drop_first(), x, lt);
        assert forall|i: int, j: int| 0 <= i < j < r.len() implies lt(r[i], r[j]) by {
            if i == 0 {
                assert(r[0] == s.first());
                let y = inner[j - 1];
                assert(r[j] == y);
                assert(0 <= j - 1 < inner.len() && inner[j - 1] == y);
                assert(inner.contains(y));
                assert(inner.to_multiset().count(y) > 0);
                if y == x {
                    assert(lt(s.first(), x));
                } else {
                    assert(s.drop_first().to_multiset().count(y) > 0);
                    assert(s.drop_first().contains(y));
                    let k = choose|k: int|
                        0 <= k < s.drop_first().len() && s.drop_first()[k] == y;
                    assert(s[k + 1] == y);
                    assert(lt(s[0], s[k + 1]));
                }
            } else {
                assert(r[i] == inner[i - 1]);
                assert(r[j] == inner[j - 1]);
                assert(lt(inner[i - 1], inner[j - 1]));
            }
        }
    }
}

/// Insertion sort of pairwise comparable elements is strictly sorted.
proof fn lemma_sort_by_strictly_sorted<T>(s: Seq<T>, lt: spec_fn(T, T) -> bool)
    requires
        forall|y: T, z: T| #[trigger] lt(y, z) ==> !lt(z, y),
        forall|y: T, z: T, w: T| #[trigger] lt(y, z) && #[trigger] lt(z, w) ==> lt(y, w),
        forall|i: int, j: int|
            0 <= i < s.len() && 0 <= j < s.len() && i != j ==> lt(#[trigger] s[i], #[trigger] s[j])
                || lt(s[j], s[i]),
    ensures
        sorted_by(spec_sort_by(s, lt), lt),
    decreases s.len(),
{
    broadcast use vstd::seq_lib::group_to_multiset_ensures;
    broadcast use vstd::multiset::group_multiset_axioms;

    if s.len() == 0 {
        assert(sorted_by(spec_sort_by(s, lt), lt));
    } else {
        let prefix = s.drop_last();
        let sorted0 = spec_sort_by(prefix, lt);
        assert forall|i: int, j: int|
            0 <= i < prefix.len() && 0 <= j < prefix.len() && i != j implies lt(
            #[trigger] prefix[i],
            #[trigger] prefix[j],
        ) || lt(prefix[j], prefix[i]) by {
            assert(prefix[i] == s[i]);
            assert(prefix[j] == s[j]);
            assert(lt(s[i], s[j]) || lt(s[j], s[i]));
        }
        lemma_sort_by_strictly_sorted(prefix, lt);
        lemma_sort_by_multiset(prefix, lt);
        assert forall|i: int| 0 <= i < sorted0.len() implies lt(s.last(), #[trigger] sorted0[i])
            || lt(sorted0[i], s.last()) by {
            let y = sorted0[i];
            assert(0 <= i < sorted0.len() && sorted0[i] == y);
            assert(sorted0.contains(y));
            assert(sorted0.to_multiset().count(y) > 0);
            assert(prefix.contains(y));
            let k = choose|k: int| 0 <= k < prefix.len() && prefix[k] == y;
            assert(s[k] == y);
            assert(k != s.len() - 1);
            assert(lt(s[s.len() - 1], s[k]) || lt(s[k], s[s.len() - 1]));
        }
        lemma_insert_by_strictly_sorted(sorted0, s.last(), lt);
    }
}

/// Two strictly sorted sequences with the same contents are equal.
proof fn lemma_strictly_sorted_unique<T>(x: Seq<T>, y: Seq<T>, lt: spec_fn(T, T) -> bool)
    requires
        sorted_by(x, lt),
        sorted_by(y, lt),
        forall|u: T, v: T| #[trigger] lt(u, v) ==> !lt(v, u),
        x.to_multiset() == y.to_multiset(),
    ensures
        x == y,
    decreases x.len(),
{
    broadcast use vstd::seq_lib::group_to_multiset_ensures;
    broadcast use vstd::multiset::group_multiset_axioms;

    if x.len() == 0 {
        assert(y.to_multiset().len() == 0);
        assert(y.len() == y.to_multiset().len());
        assert(x =~= y);
    } else {
        assert(x.len() == x.to_multiset().len());
        assert(y.len() == y.to_multiset().len());
        assert(y.len() == x.len());
        assert(x.contains(x[0]));
        assert(y.to_multiset().count(x[0]) > 0);
        assert(y.contains(x[0]));
        let j = choose|j: int| 0 <= j < y.len() && y[j] == x[0];
        assert(y.contains(y[0]));
        assert(x.to_multiset().count(y[0]) > 0);
        assert(x.contains(y[0]));
        let i = choose|i: int| 0 <= i < x.len() && x[i] == y[0];
        if i > 0 && j > 0 {
            assert(lt(x[0], x[i]));
            assert(lt(y[0], y[j]));
            assert(false);
        }
        assert(x[0] == y[0]);
        assert(x.drop_first() =~= x.remove(0));
        assert(y.drop_first() =~= y.remove(0));
        assert(x.remove(0).to_multiset() =~= x.to_multiset().remove(x[0]));
        assert(y.remove(0).to_multiset() =~= y.to_multiset().remove(y[0]));
        assert forall|a: int, b: int|
            0 <= a < b < x.drop_first().len() implies lt(
            #[trigger] x.drop_first()[a],
            #[trigger] x.drop_first()[b],
        ) by {
            assert(x.drop_first()[a] == x[a + 1]);
            assert(x.drop_first()[b] == x[b + 1]);
            assert(lt(x[a + 1], x[b + 1]));
        }
        assert forall|a: int, b: int|
            0 <= a < b < y.drop_first().len() implies lt(
            #[trigger] y.drop_first()[a],
            #[trigger] y.drop_first()[b],
        ) by {
            assert(y.drop_first()[a] == y[a + 1]);
            assert(y.drop_first()[b] == y[b + 1]);
            assert(lt(y[a + 1], y[b + 1]));
        }
        lemma_strictly_sorted_unique(x.drop_first(), y.drop_first(), lt);
        assert forall|k: int| 0 <= k < x.len() implies x[k] == y[k] by {
            if k > 0 {
                assert(x.drop_first()[k - 1] == y.drop_first()[k - 1]);
            }
        }
        assert(x =~= y);
    }
}

/// Equal contents carry pairwise distinct hashes over from one map to the
/// other.
proof fn lemma_distinct_hashes_transfer(a: Seq<ModuleRecord>, b: Seq<ModuleRecord>)
    requires
        a.to_multiset() == b.to_multiset(),
        distinct_hashes(a),
    ensures
        distinct_hashes(b),
{
    broadcast use vstd::seq_lib::group_to_multiset_ensures;
    broadcast use vstd::multiset::group_multiset_axioms;

    assert forall|i: int, j: int|
        0 <= i < b.len() && 0 <= j < b.len() && i != j implies (#[trigger] b[i]).file.spec_hash()
        != (#[trigger] b[j]).file.spec_hash() by {
        if b[i] == b[j] {
            assert(b.remove(i).to_multiset() =~= b.to_multiset().remove(b[i]));
            let j2: int = if j < i {
                j
            } else {
                j - 1
            };
            assert(b.remove(i)[j2] == b[j]);
            assert(b.remove(i).contains(b[j]));
            assert(b.remove(i).to_multiset().count(b[j]) > 0);
            assert(b.to_multiset().count(b[i]) >= 2);
            assert(a.to_multiset().count(b[i]) >= 2);
            assert(a.contains(b[i]));
            let p = choose|p: int| 0 <= p < a.len() && a[p] == b[i];
            assert(a.remove(p).to_multiset() =~= a.to_multiset().remove(a[p]));
            assert(a.remove(p).to_multiset().count(b[i]) >= 1);
            assert(a.remove(p).contains(b[i]));
            let q0 = choose|q0: int| 0 <= q0 < a.remove(p).len() && a.remove(p)[q0] == b[i];
            let q: int = if q0 < p {
                q0
            } else {
                q0 + 1
            };
            assert(a[q] == b[i]);
            assert(p != q);
            assert(a[p].file.spec_hash() != a[q].file.spec_hash());
            assert(false);
        } else {
            assert(b.contains(b[i]));
            assert(a.to_multiset().count(b[i]) > 0);
            assert(a.contains(b[i]));
            assert(b.contains(b[j]));
            assert(a.to_multiset().count(b[j]) > 0);
            assert(a.contains(b[j]));
            let p = choose|p: int| 0 <= p < a.len() && a[p] == b[i];
            let q = choose|q: int| 0 <= q < a.len() && a[q] == b[j];
            assert(p != q);
            assert(a[p].file.spec_hash() != a[q].file.spec_hash());
        }
    }
}

/// Bundling is order independent: two module maps holding the same
/// records, in possibly different orders, with pairwise distinct content
/// hashes serialize to byte-identical bundles. The module table is
/// emitted in ascending content-hash order, which such maps share, so the
/// bundle's bytes do not depend on discovery or iteration order.
pub proof fn lemma_pack_order_independent(a: Seq<ModuleRecord>, b: Seq<ModuleRecord>)
    requires
        a.to_multiset() == b.to_multiset(),
        distinct_hashes(a),
    ensures
        spec_pack(a) == spec_pack(b),
{
    let lt = rec_lt_fn();
    lemma_distinct_hashes_transfer(a, b);
    assert forall|y: ModuleRecord, z: ModuleRecord| #[trigger] lt(y, z) implies !lt(z, y) by {
        lemma_bytes_lt_asymmetric(y.file.spec_hash(), z.file.spec_hash());
    }
    assert forall|y: ModuleRecord, z: ModuleRecord, w: ModuleRecord|
        #[trigger] lt(y, z) && #[trigger] lt(z, w) implies lt(y, w) by {
        lemma_bytes_lt_transitive(y.file.spec_hash(), z.file.spec_hash(), w.file.spec_hash());
    }
    assert forall|i: int, j: int|
        0 <= i < a.len() && 0 <= j < a.len() && i != j implies lt(#[trigger] a[i], #[trigger] a[j])
        || lt(a[j], a[i]) by {
        lemma_bytes_lt_connected(a[i].file.spec_hash(), a[j].file.spec_hash());
    }
    assert forall|i: int, j: int|
        0 <= i < b.len() && 0 <= j < b.len() && i != j implies lt(#[trigger] b[i], #[trigger] b[j])
        || lt(b[j], b[i]) by {
        lemma_bytes_lt_connected(b[i].file.spec_hash(), b[j].file.spec_hash());
    }
    lemma_sort_by_strictly_sorted(a, lt);
    lemma_sort_by_strictly_sorted(b, lt);
    lemma_sort_by_multiset(a, lt);
    lemma_sort_by_multiset(b, lt);
    lemma_strictly_sorted_unique(spec_sort_by(a, lt), spec_sort_by(b, lt), lt);
}

} // verus!
