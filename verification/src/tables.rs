//! Trusted declarations of the outside collections the store is built on:
//! insertion-ordered sets from `indexmap` for the per-variant interning
//! tables, concurrent maps from `dashmap` for the hash caches and reverse
//! maps, and a `string_interner` for symbols and strings.

use string_interner::symbol::Symbol;
use string_interner::symbol::SymbolUsize;
use vstd::prelude::*;

verus! {

#[verifier::external_type_specification]
#[verifier::external_body]
pub struct ExRandomState(ahash::RandomState);

#[verifier::external_type_specification]
#[verifier::external_body]
#[verifier::reject_recursive_types(T)]
#[verifier::reject_recursive_types(S)]
pub struct ExIndexSet<T, S>(indexmap::IndexSet<T, S>);

#[verifier::external_type_specification]
#[verifier::external_body]
#[verifier::reject_recursive_types(K)]
#[verifier::reject_recursive_types(V)]
#[verifier::reject_recursive_types(S)]
pub struct ExDashMap<K, V, S>(dashmap::DashMap<K, V, S>);

/// One interning-table entry: a variant's payload, flattened to eight words
/// (tags and raw indices in alternation, unused slots zero).
pub type Key8 = (u64, u64, u64, u64, u64, u64, u64, u64);

/// An interning table: an insertion-ordered set of payload keys whose dense
/// index is the raw pointer.
pub type Table = indexmap::IndexSet<Key8, ahash::RandomState>;

/// The entries of an interning table, in insertion order.
pub uninterp spec fn table_entries(t: Table) -> Seq<Key8>;

/// Relies on `indexmap::IndexSet::with_hasher`: a new set is empty.
#[verifier::external_body]
pub(crate) fn table_new() -> (t: Table)
    ensures
        table_entries(t) == Seq::<Key8>::empty(),
{
    indexmap::IndexSet::with_hasher(ahash::RandomState::new())
}

/// Relies on `indexmap::IndexSet::insert_full`: an equivalent entry keeps
/// the set unchanged and yields the existing entry's index; a new entry is
/// appended at index `len()`.
#[verifier::external_body]
pub(crate) fn table_insert(t: &mut Table, k: Key8) -> (r: usize)
    ensures
        table_entries(*old(t)).contains(k) ==> {
            &&& table_entries(*final(t)) == table_entries(*old(t))
            &&& 0 <= r < table_entries(*old(t)).len()
            &&& table_entries(*old(t))[r as int] == k
        },
        !table_entries(*old(t)).contains(k) ==> {
            &&& table_entries(*final(t)) == table_entries(*old(t)).push(k)
            &&& r == table_entries(*old(t)).len()
        },
{
    t.insert_full(k).0
}

/// Relies on `indexmap::IndexSet::get_index`: the entry at a dense index,
/// `None` out of range.
#[verifier::external_body]
pub(crate) fn table_get(t: &Table, i: usize) -> (r: Option<Key8>)
    ensures
        i < table_entries(*t).len() ==> r == Some(table_entries(*t)[i as int]),
        i >= table_entries(*t).len() ==> r is None,
{
    t.get_index(i).copied()
}

/// Relies on `indexmap::IndexSet::len`: the number of entries.
#[verifier::external_body]
pub(crate) fn table_len(t: &Table) -> (r: usize)
    ensures
        r == table_entries(*t).len(),
{
    t.len()
}

/// A memoization map of one Poseidon arity: preimage to digest, each field
/// element as its canonical bytes.
pub type CacheMap = dashmap::DashMap<Vec<Vec<u8>>, Vec<u8>, ahash::RandomState>;

/// The cache map's contents.
pub uninterp spec fn cache_entries(m: CacheMap) -> Map<Seq<Seq<u8>>, Seq<u8>>;

/// The contents of a cache map with nothing in it.
pub open spec fn cache_empty() -> Map<Seq<Seq<u8>>, Seq<u8>> {
    Map::empty()
}

/// Relies on `dashmap::DashMap::with_hasher`: a new map is empty.
#[verifier::external_body]
pub(crate) fn cache_new() -> (m: CacheMap)
    ensures
        cache_entries(m) == cache_empty(),
{
    dashmap::DashMap::with_hasher(ahash::RandomState::new())
}

/// Relies on `dashmap::DashMap::get`: the value stored under the key.
#[verifier::external_body]
pub(crate) fn cache_get(m: &CacheMap, k: &Vec<Vec<u8>>) -> (r: Option<Vec<u8>>)
    ensures
        match r {
            Some(v) => cache_entries(*m).contains_key(k.deep_view()) && v@ == cache_entries(
                *m,
            )[k.deep_view()],
            None => !cache_entries(*m).contains_key(k.deep_view()),
        },
{
    m.get(k).map(|v| v.value().clone())
}

/// Relies on `dashmap::DashMap::insert`: the key now maps to the value.
#[verifier::external_body]
pub(crate) fn cache_insert(m: &mut CacheMap, k: Vec<Vec<u8>>, v: Vec<u8>)
    ensures
        cache_entries(*final(m)) == cache_entries(*old(m)).insert(k.deep_view(), v@),
{
    m.insert(k, v);
}

/// A reverse map from a scalar pointer, as its two components' canonical
/// bytes, to a typed pointer, as its tag value and raw index.
pub type RevMap = dashmap::DashMap<(Vec<u8>, Vec<u8>), (u64, u64), ahash::RandomState>;

/// The reverse map's contents.
pub uninterp spec fn rev_entries(m: RevMap) -> Map<(Seq<u8>, Seq<u8>), (u64, u64)>;

/// The contents of a reverse map with nothing in it.
pub open spec fn rev_empty() -> Map<(Seq<u8>, Seq<u8>), (u64, u64)> {
    Map::empty()
}

/// Relies on `dashmap::DashMap::with_hasher`: a new map is empty.
#[verifier::external_body]
pub(crate) fn rev_new() -> (m: RevMap)
    ensures
        rev_entries(m) == rev_empty(),
{
    dashmap::DashMap::with_hasher(ahash::RandomState::new())
}

/// Relies on `dashmap::DashMap::get`: the value stored under the key.
#[verifier::external_body]
pub(crate) fn rev_get(m: &RevMap, k: &(Vec<u8>, Vec<u8>)) -> (r: Option<(u64, u64)>)
    ensures
        rev_entries(*m).contains_key((k.0@, k.1@)) ==> r == Some(
            rev_entries(*m)[(k.0@, k.1@)],
        ),
        !rev_entries(*m).contains_key((k.0@, k.1@)) ==> r is None,
{
    m.get(k).map(|v| *v.value())
}

/// Relies on `dashmap::DashMap::insert`: the key now maps to the value.
#[verifier::external_body]
pub(crate) fn rev_insert(m: &mut RevMap, k: (Vec<u8>, Vec<u8>), v: (u64, u64))
    ensures
        rev_entries(*final(m)) == rev_entries(*old(m)).insert((k.0@, k.1@), v),
{
    m.insert(k, v);
}

/// A string interner with a buffer backend: assigns each distinct string a
/// stable id (a byte offset into a growing buffer) and resolves ids back to
/// strings.  Verus sees the struct as opaque.
#[verifier::external_body]
pub struct StrTable {
    inner: string_interner::StringInterner<
        string_interner::backend::BufferBackend<string_interner::symbol::SymbolUsize>,
        ahash::RandomState,
    >,
}

/// The interner's contents: each entry's id and string, in insertion order.
pub uninterp spec fn str_entries(t: StrTable) -> Seq<(usize, Seq<char>)>;

/// The contents of an interner with nothing in it.
pub open spec fn str_entries_empty() -> Seq<(usize, Seq<char>)> {
    Seq::empty()
}

/// Whether some entry holds this string.
pub open spec fn str_entries_has_name(s: Seq<(usize, Seq<char>)>, name: Seq<char>) -> bool {
    exists|j: int| 0 <= j < s.len() && s[j].1 == name
}

/// Relies on `string_interner::StringInterner::new`: a new interner is
/// empty.
#[verifier::external_body]
pub(crate) fn str_table_new() -> (t: StrTable)
    ensures
        str_entries(t) == str_entries_empty(),
{
    StrTable { inner: string_interner::StringInterner::new() }
}

/// Relies on `StringInterner::get_or_intern`: an already interned string
/// keeps its symbol and the interner unchanged; a new string is appended
/// and its symbol, a byte offset past every earlier entry's, is strictly
/// greater than every earlier one.
#[verifier::external_body]
pub(crate) fn str_table_intern(t: &mut StrTable, name: &str) -> (r: usize)
    ensures
        str_entries_has_name(str_entries(*old(t)), name@) ==> {
            &&& str_entries(*final(t)) == str_entries(*old(t))
            &&& str_entries(*old(t)).contains((r, name@))
        },
        !str_entries_has_name(str_entries(*old(t)), name@) ==> {
            &&& str_entries(*final(t)) == str_entries(*old(t)).push((r, name@))
            &&& forall|j: int|
                0 <= j < str_entries(*old(t)).len() ==> str_entries(*old(t))[j].0 < r
        },
{
    t.inner.get_or_intern(name).to_usize()
}

/// Relies on `StringInterner::get`: the symbol of an interned string, or
/// `None` if the string was never interned.
#[verifier::external_body]
pub(crate) fn str_table_get(t: &StrTable, name: &str) -> (r: Option<usize>)
    ensures
        match r {
            Some(id) => str_entries(*t).contains((id, name@)),
            None => !str_entries_has_name(str_entries(*t), name@),
        },
{
    t.inner.get(name).map(|s| s.to_usize())
}

/// Relies on `StringInterner::resolve`: the string interned under a valid
/// id.
#[verifier::external_body]
pub(crate) fn str_table_resolve(t: &StrTable, id: usize) -> (r: String)
    requires
        exists|j: int| 0 <= j < str_entries(*t).len() && str_entries(*t)[j].0 == id,
    ensures
        str_entries(*t).contains((id, r@)),
{
    t.inner.resolve(SymbolUsize::try_from_usize(id).unwrap()).unwrap().to_string()
}

} // verus!
