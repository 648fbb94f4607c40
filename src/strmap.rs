//! Insertion-ordered maps from names to strings, held in `indexmap::IndexMap`.

use indexmap::IndexMap;
use vstd::prelude::*;

verus! {

/// Declares `indexmap::IndexMap`, an insertion-ordered hash map, to the verifier.
#[verifier::external_type_specification]
#[verifier::external_body]
#[verifier::reject_recursive_types(K)]
#[verifier::reject_recursive_types(V)]
#[verifier::reject_recursive_types(S)]
pub struct ExIndexMap<K, V, S>(IndexMap<K, V, S>);

/// The entries of a map, in insertion order, as (key, value) pairs.
pub uninterp spec fn str_map_entries(m: IndexMap<String, String>) -> Seq<(Seq<char>, Seq<char>)>;

/// The value of the first entry whose key is `k`.
pub open spec fn entries_lookup(s: Seq<(Seq<char>, Seq<char>)>, k: Seq<char>) -> Option<Seq<char>>
    decreases s.len(),
{
    if s.len() == 0 {
        None
    } else if s[0].0 == k {
        Some(s[0].1)
    } else {
        entries_lookup(s.drop_first(), k)
    }
}

/// The index of the first entry whose key is `k`, if any.
pub open spec fn entries_index(s: Seq<(Seq<char>, Seq<char>)>, k: Seq<char>) -> Option<int>
    decreases s.len(),
{
    if s.len() == 0 {
        None
    } else if s[0].0 == k {
        Some(0)
    } else {
        match entries_index(s.drop_first(), k) {
            Some(i) => Some(i + 1),
            None => None,
        }
    }
}

/// What `insert` makes of the entries: the value of an existing key is
/// replaced in place, a new key goes to the end.
pub open spec fn entries_insert(
    s: Seq<(Seq<char>, Seq<char>)>,
    k: Seq<char>,
    v: Seq<char>,
) -> Seq<(Seq<char>, Seq<char>)> {
    match entries_index(s, k) {
        Some(i) => s.update(i, (k, v)),
        None => s.push((k, v)),
    }
}

/// Relies on `IndexMap::new`: a map without entries.
#[verifier::external_body]
pub(crate) fn str_map_new() -> (r: IndexMap<String, String>)
    ensures
        str_map_entries(r) == Seq::<(Seq<char>, Seq<char>)>::empty(),
{
    IndexMap::new()
}

/// Relies on `IndexMap::insert`: an existing key keeps its place and takes the
/// new value; a new key is appended.
#[verifier::external_body]
pub(crate) fn str_map_insert(m: &mut IndexMap<String, String>, k: String, v: String)
    ensures
        str_map_entries(*final(m)) == entries_insert(str_map_entries(*old(m)), k@, v@),
{
    m.insert(k, v);
}

/// Relies on `IndexMap::get`: the value stored under `k`.
#[verifier::external_body]
pub(crate) fn str_map_get<'a>(m: &'a IndexMap<String, String>, k: &str) -> (r: Option<&'a String>)
    ensures
        match r {
            Some(v) => entries_lookup(str_map_entries(*m), k@) == Some(v@),
            None => entries_lookup(str_map_entries(*m), k@) is None,
        },
{
    m.get(k)
}

/// Relies on `IndexMap::len`: the number of entries.
#[verifier::external_body]
pub(crate) fn str_map_len(m: &IndexMap<String, String>) -> (r: usize)
    ensures
        r as int == str_map_entries(*m).len(),
{
    m.len()
}

/// Relies on `IndexMap::get_index`: the entry at position `i`.
#[verifier::external_body]
pub(crate) fn str_map_get_index<'a>(m: &'a IndexMap<String, String>, i: usize) -> (r: Option<
    (&'a String, &'a String),
>)
    ensures
        match r {
            Some(e) => i < str_map_entries(*m).len() && str_map_entries(*m)[i as int] == (
                e.0@,
                e.1@,
            ),
            None => i >= str_map_entries(*m).len(),
        },
{
    m.get_index(i)
}

/// Relies on `IndexMap::clone`: a map with the same entries in the same order.
#[verifier::external_body]
pub(crate) fn str_map_clone(m: &IndexMap<String, String>) -> (r: IndexMap<String, String>)
    ensures
        str_map_entries(r) == str_map_entries(*m),
{
    m.clone()
}

proof fn lemma_lookup_update(
    s: Seq<(Seq<char>, Seq<char>)>,
    i: int,
    k2: Seq<char>,
    v2: Seq<char>,
    k: Seq<char>,
)
    requires
        entries_index(s, k2) == Some(i),
    ensures
        0 <= i < s.len(),
        entries_lookup(s.update(i, (k2, v2)), k) == if k == k2 {
            Some(v2)
        } else {
            entries_lookup(s, k)
        },
    decreases s.len(),
{
    if s[0].0 == k2 {
        assert(s.update(i, (k2, v2)).drop_first() =~= s.drop_first());
    } else {
        lemma_lookup_update(s.drop_first(), i - 1, k2, v2, k);
        assert(s.update(i, (k2, v2)).drop_first() =~= s.drop_first().update(i - 1, (k2, v2)));
    }
}

proof fn lemma_lookup_push(s: Seq<(Seq<char>, Seq<char>)>, k2: Seq<char>, v2: Seq<char>, k: Seq<char>)
    requires
        entries_index(s, k2) is None,
    ensures
        entries_lookup(s.push((k2, v2)), k) == if k == k2 {
            Some(v2)
        } else {
            entries_lookup(s, k)
        },
    decreases s.len(),
{
    if s.len() == 0 {
        assert(s.push((k2, v2))[0] == (k2, v2));
    } else {
        assert(s.push((k2, v2)).drop_first() =~= s.drop_first().push((k2, v2)));
        lemma_lookup_push(s.drop_first(), k2, v2, k);
    }
}

/// After an insert, the key gives the new value and every other key keeps its
/// value.
pub proof fn lemma_lookup_insert(
    s: Seq<(Seq<char>, Seq<char>)>,
    k2: Seq<char>,
    v2: Seq<char>,
    k: Seq<char>,
)
    ensures
        entries_lookup(entries_insert(s, k2, v2), k) == if k == k2 {
            Some(v2)
        } else {
            entries_lookup(s, k)
        },
{
    match entries_index(s, k2) {
        Some(i) => lemma_lookup_update(s, i, k2, v2, k),
        None => lemma_lookup_push(s, k2, v2, k),
    }
}

} // verus!
