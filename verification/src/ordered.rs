//! The insertion-ordered map of the `indexmap` crate, as far as the registry
//! uses it. What this file states of the map is taken from the crate's
//! documentation and is not proved here.

use indexmap::IndexMap;
use vstd::prelude::*;
use crate::buffer::Buffer;
use crate::progress::Progress;

verus! {

/// `indexmap::IndexMap`. Nothing inside a map is visible to proofs; what a
/// map holds is spoken of through `entries`.
#[verifier::external_type_specification]
#[verifier::external_body]
#[verifier::reject_recursive_types(K)]
#[verifier::reject_recursive_types(V)]
#[verifier::reject_recursive_types(S)]
pub struct ExIndexMap<K, V, S>(IndexMap<K, V, S>);

/// The pairs that an `IndexMap` holds, keys by their text, in the order in
/// which the map hands them out.
pub uninterp spec fn entries(m: IndexMap<String, Progress<Buffer>>) -> Seq<
    (Seq<char>, Progress<Buffer>),
>;

/// Whether some entry of `es` has the identifier `id`.
pub open spec fn has_id(es: Seq<(Seq<char>, Progress<Buffer>)>, id: Seq<char>) -> bool {
    exists|i: int| 0 <= i < es.len() && (#[trigger] es[i]).0 == id
}

/// `IndexMap::new`: a map that holds nothing.
#[verifier::external_body]
pub(crate) fn map_new() -> (m: IndexMap<String, Progress<Buffer>>)
    ensures
        entries(m) == Seq::<(Seq<char>, Progress<Buffer>)>::empty(),
{
    IndexMap::new()
}

/// `IndexMap::insert`: where the key is in the map already, its entry keeps
/// its place, takes the new value, and the value it had is returned; else the
/// pair is added behind all others and `None` is returned.
#[verifier::external_body]
pub(crate) fn map_insert(
    m: &mut IndexMap<String, Progress<Buffer>>,
    key: String,
    value: Progress<Buffer>,
) -> (r: Option<Progress<Buffer>>)
    ensures
        match r {
            Some(before) => exists|i: int|
                0 <= i < entries(*old(m)).len() && (#[trigger] entries(*old(m))[i]) == (key@, before)
                    && entries(*final(m)) == entries(*old(m)).update(i, (key@, value)),
            None => !has_id(entries(*old(m)), key@) && entries(*final(m)) == entries(
                *old(m),
            ).push((key@, value)),
        },
{
    m.insert(key, value)
}

/// `IndexMap::shift_remove`: where the key is in the map, its entry is taken
/// out, the entries behind it move up in their order, and its value is
/// returned; else nothing changes and `None` is returned.
#[verifier::external_body]
pub(crate) fn map_shift_remove(m: &mut IndexMap<String, Progress<Buffer>>, key: &str) -> (r: Option<
    Progress<Buffer>,
>)
    ensures
        match r {
            Some(before) => exists|i: int|
                0 <= i < entries(*old(m)).len() && (#[trigger] entries(*old(m))[i]) == (key@, before)
                    && entries(*final(m)) == entries(*old(m)).remove(i),
            None => !has_id(entries(*old(m)), key@) && entries(*final(m)) == entries(*old(m)),
        },
{
    m.shift_remove(key)
}

/// `IndexMap::len`: the number of pairs held.
#[verifier::external_body]
pub(crate) fn map_len(m: &IndexMap<String, Progress<Buffer>>) -> (r: usize)
    ensures
        r == entries(*m).len(),
{
    m.len()
}

/// `IndexMap::get_index`: the pair at a place in the order, `None` from the
/// number of pairs upward.
#[verifier::external_body]
pub(crate) fn map_get_index(m: &IndexMap<String, Progress<Buffer>>, index: usize) -> (r: Option<
    (&String, &Progress<Buffer>),
>)
    ensures
        match r {
            Some(pair) => index < entries(*m).len() && entries(*m)[index as int] == (
                pair.0@,
                *pair.1,
            ),
            None => index >= entries(*m).len(),
        },
{
    m.get_index(index)
}

/// `IndexMap::get`: the value stored under a key, `None` where the key is not
/// in the map.
#[verifier::external_body]
pub(crate) fn map_get<'a>(m: &'a IndexMap<String, Progress<Buffer>>, key: &str) -> (r: Option<
    &'a Progress<Buffer>,
>)
    ensures
        match r {
            Some(value) => exists|i: int|
                0 <= i < entries(*m).len() && (#[trigger] entries(*m)[i]) == (key@, *value),
            None => !has_id(entries(*m), key@),
        },
{
    m.get(key)
}

} // verus!
