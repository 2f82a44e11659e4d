//! The virtual machine's heaps: slabs of functions, arrays, tables and strings.
//!
//! A slab hands out a key for each value it stores and keeps the key until the
//! value is removed. What each slab holds is named below as a map from keys to
//! the content of the values; the functions here state what each slab operation
//! does to that map.
use vstd::prelude::*;
use slab::Slab;
use std::collections::HashSet;
use rustc_hash::FxHashMap;
use crate::bytecode::{Chunk, ChunkView};
use crate::table::{Array, Table, TableV};
use crate::value::Variable;

verus! {

#[verifier::external_type_specification]
#[verifier::external_body]
#[verifier::reject_recursive_types(T)]
pub struct ExSlab<T>(Slab<T>);

/// The functions a slab of chunks holds, by key.
pub uninterp spec fn chunk_slots(s: Slab<Chunk>) -> Map<usize, ChunkView>;

/// The arrays a slab of arrays holds, by key.
pub uninterp spec fn array_slots(s: Slab<Array>) -> Map<usize, Seq<Variable>>;

/// The key the next array stored in the slab gets (`Slab::vacant_key`).
pub uninterp spec fn array_vacant(s: Slab<Array>) -> usize;

/// The tables a slab of tables holds, by key.
pub uninterp spec fn table_slots(s: Slab<Table>) -> Map<usize, TableV>;

/// The strings a slab of strings holds, by key.
pub uninterp spec fn string_slots(s: Slab<String>) -> Map<usize, Seq<char>>;

/// An empty slab (`Slab::new`).
#[verifier::external_body]
pub(crate) fn new_chunk_slab() -> (r: Slab<Chunk>)
    ensures
        chunk_slots(r).dom().is_empty(),
{
    Slab::new()
}

/// An empty slab (`Slab::new`).
#[verifier::external_body]
pub(crate) fn new_array_slab() -> (r: Slab<Array>)
    ensures
        array_slots(r).dom().is_empty(),
        array_vacant(r) == 0,
{
    Slab::new()
}

/// An empty slab (`Slab::new`).
#[verifier::external_body]
pub(crate) fn new_table_slab() -> (r: Slab<Table>)
    ensures
        table_slots(r).dom().is_empty(),
{
    Slab::new()
}

/// An empty slab (`Slab::new`).
#[verifier::external_body]
pub(crate) fn new_string_slab() -> (r: Slab<String>)
    ensures
        string_slots(r).dom().is_empty(),
{
    Slab::new()
}

/// Stores a chunk under a key that was free (`Slab::insert`), and gives the key.
#[verifier::external_body]
pub(crate) fn insert_chunk(s: &mut Slab<Chunk>, c: Chunk) -> (k: usize)
    ensures
        !chunk_slots(*old(s)).contains_key(k),
        chunk_slots(*final(s)) == chunk_slots(*old(s)).insert(k, c.view_deep()),
{
    s.insert(c)
}

/// Stores an array under the slab's vacant key, which was free (`Slab::insert`), and gives the key.
#[verifier::external_body]
pub(crate) fn insert_array(s: &mut Slab<Array>, a: Array) -> (k: usize)
    ensures
        k == array_vacant(*old(s)),
        !array_slots(*old(s)).contains_key(k),
        array_slots(*final(s)) == array_slots(*old(s)).insert(k, a@),
{
    s.insert(a)
}

/// Stores a table under a key that was free (`Slab::insert`), and gives the key.
#[verifier::external_body]
pub(crate) fn insert_table(s: &mut Slab<Table>, t: Table) -> (k: usize)
    ensures
        !table_slots(*old(s)).contains_key(k),
        table_slots(*final(s)) == table_slots(*old(s)).insert(k, t@),
{
    s.insert(t)
}

/// Stores a string under a key that was free (`Slab::insert`), and gives the key.
#[verifier::external_body]
pub(crate) fn insert_string(s: &mut Slab<String>, t: String) -> (k: usize)
    ensures
        !string_slots(*old(s)).contains_key(k),
        string_slots(*final(s)) == string_slots(*old(s)).insert(k, t@),
{
    s.insert(t)
}

/// The chunk stored under a key, if any (`Slab::get`).
#[verifier::external_body]
pub(crate) fn get_chunk(s: &Slab<Chunk>, k: usize) -> (r: Option<&Chunk>)
    ensures
        r is Some == chunk_slots(*s).contains_key(k),
        r matches Some(c) ==> c.view_deep() == chunk_slots(*s)[k],
{
    s.get(k)
}

/// The array stored under a key, if any (`Slab::get`).
#[verifier::external_body]
pub(crate) fn get_array(s: &Slab<Array>, k: usize) -> (r: Option<&Array>)
    ensures
        r is Some == array_slots(*s).contains_key(k),
        r matches Some(a) ==> a@ == array_slots(*s)[k],
{
    s.get(k)
}

/// The table stored under a key, if any (`Slab::get`).
#[verifier::external_body]
pub(crate) fn get_table(s: &Slab<Table>, k: usize) -> (r: Option<&Table>)
    ensures
        r is Some == table_slots(*s).contains_key(k),
        r matches Some(t) ==> t@ == table_slots(*s)[k],
{
    s.get(k)
}

/// The string stored under a key, if any (`Slab::get`).
#[verifier::external_body]
pub(crate) fn get_string(s: &Slab<String>, k: usize) -> (r: Option<&String>)
    ensures
        r is Some == string_slots(*s).contains_key(k),
        r matches Some(t) ==> t@ == string_slots(*s)[k],
{
    s.get(k)
}

/// The array stored under a key, to change in place (`Slab::get_mut`); a key that
/// holds nothing gives `None` and leaves the slab as it is.
#[verifier::external_body]
pub(crate) fn get_array_mut(s: &mut Slab<Array>, k: usize) -> (r: Option<&mut Array>)
    ensures
        r is Some == array_slots(*old(s)).contains_key(k),
        r matches Some(a) ==> (*a)@ == array_slots(*old(s))[k]
            && array_slots(*final(s)) == array_slots(*old(s)).insert(k, (*final(a))@),
        r is None ==> array_slots(*final(s)) == array_slots(*old(s)),
{
    s.get_mut(k)
}

/// The table stored under a key, to change in place (`Slab::get_mut`); a key that
/// holds nothing gives `None` and leaves the slab as it is.
#[verifier::external_body]
pub(crate) fn get_table_mut(s: &mut Slab<Table>, k: usize) -> (r: Option<&mut Table>)
    ensures
        r is Some == table_slots(*old(s)).contains_key(k),
        r matches Some(t) ==> (*t)@ == table_slots(*old(s))[k]
            && table_slots(*final(s)) == table_slots(*old(s)).insert(k, (*final(t))@),
        r is None ==> table_slots(*final(s)) == table_slots(*old(s)),
{
    s.get_mut(k)
}

/// Whether key `k` is marked.
pub(crate) fn is_marked(marks: &HashSet<usize>, k: usize) -> (b: bool)
    ensures
        b == marks@.contains(k),
{
    broadcast use vstd::std_specs::hash::group_hash_axioms;
    marks.contains(&k)
}

/// Removes every array whose key is not marked (`Slab::retain`); the others stay as they are.
#[verifier::external_body]
pub(crate) fn retain_arrays(s: &mut Slab<Array>, marks: &HashSet<usize>)
    ensures
        array_slots(*final(s)) == array_slots(*old(s)).restrict(marks@),
{
    s.retain(|k, _| is_marked(marks, k))
}

/// Removes every string whose key is not marked (`Slab::retain`); the others stay as they are.
#[verifier::external_body]
pub(crate) fn retain_strings(s: &mut Slab<String>, marks: &HashSet<usize>)
    ensures
        string_slots(*final(s)) == string_slots(*old(s)).restrict(marks@),
{
    s.retain(|k, _| is_marked(marks, k))
}

/// The map from each interned text to the key of its string.
pub type InternMap = FxHashMap<String, usize>;

/// The texts an interning map holds, each with the key it maps to.
pub uninterp spec fn intern_content(m: InternMap) -> Map<Seq<char>, usize>;

/// The entries of `m` whose key `marks` holds.
pub open spec fn kept_by_marks(m: Map<Seq<char>, usize>, marks: Set<usize>) -> Map<Seq<char>, usize> {
    Map::new(|t: Seq<char>| m.contains_key(t) && marks.contains(m[t]), |t: Seq<char>| m[t])
}

/// An empty interning map (`FxHashMap::default`).
#[verifier::external_body]
pub(crate) fn intern_new() -> (m: InternMap)
    ensures
        intern_content(m).dom().is_empty(),
{
    FxHashMap::default()
}

/// The key a text is interned under, if any (`HashMap::get`, copied out).
#[verifier::external_body]
pub(crate) fn intern_get(m: &InternMap, t: &str) -> (r: Option<usize>)
    ensures
        r == (if intern_content(*m).contains_key(t@) { Some(intern_content(*m)[t@]) } else { None::<usize> }),
{
    m.get(t).copied()
}

/// Interns a text under a key, replacing what it was under (`HashMap::insert`).
#[verifier::external_body]
pub(crate) fn intern_insert(m: &mut InternMap, t: String, k: usize)
    ensures
        intern_content(*final(m)) == intern_content(*old(m)).insert(t@, k),
{
    m.insert(t, k);
}

/// Keeps only the texts whose key is marked (`HashMap::retain`).
#[verifier::external_body]
pub(crate) fn intern_retain(m: &mut InternMap, marks: &HashSet<usize>)
    ensures
        intern_content(*final(m)) == kept_by_marks(intern_content(*old(m)), marks@),
{
    m.retain(|_, k| is_marked(marks, *k))
}

} // verus!
