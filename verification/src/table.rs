//! The registry of the transfers in flight: an insertion-ordered map from
//! generated identifiers to transfer handles, shared by every orchestrator
//! and every observer.

use std::sync::Arc;
use indexmap::IndexMap;
use vstd::prelude::*;
use vstd::rwlock::RwLock;
use vstd::rwlock::RwLockPredicate;
use vstd::rwlock::WriteHandle;
use crate::buffer::Buffer;
use crate::item::Item;
use crate::ordered::entries;
use crate::ordered::has_id;
use crate::ordered::map_get;
use crate::ordered::map_get_index;
use crate::ordered::map_insert;
use crate::ordered::map_len;
use crate::ordered::map_new;
use crate::ordered::map_shift_remove;
use crate::progress::Progress;

verus! {

/// Whether `s` is the text of a random identifier: 36 characters, hyphens
/// after the 8th, 12th, 16th and 20th digit, lower-case hexadecimal digits
/// elsewhere, the version digit `4` and a variant digit from `8` to `b`.
pub open spec fn is_random_id(s: Seq<char>) -> bool {
    &&& s.len() == 36
    &&& forall|i: int|
        0 <= i < 36 ==> if i == 8 || i == 13 || i == 18 || i == 23 {
            s[i] == '-'
        } else {
            is_lower_hex(#[trigger] s[i])
        }
    &&& s[14] == '4'
    &&& (s[19] == '8' || s[19] == '9' || s[19] == 'a' || s[19] == 'b')
}

/// Whether `c` is one of `0` to `9` or `a` to `f`.
pub open spec fn is_lower_hex(c: char) -> bool {
    ('0' as u32 <= c as u32 <= '9' as u32) || ('a' as u32 <= c as u32 <= 'f' as u32)
}

/// Whether no identifier occurs in two entries of `es`.
pub open spec fn distinct_ids(es: Seq<(Seq<char>, Progress<Buffer>)>) -> bool {
    forall|i: int, j: int|
        0 <= i < es.len() && 0 <= j < es.len() && (#[trigger] es[i]).0 == (#[trigger] es[j]).0
            ==> i == j
}

/// The entries after `handle` was registered under `id`: a new identifier
/// comes last; one that is there already keeps its place and gets the new
/// handle.
pub open spec fn registered(
    es: Seq<(Seq<char>, Progress<Buffer>)>,
    id: Seq<char>,
    handle: Progress<Buffer>,
) -> Seq<(Seq<char>, Progress<Buffer>)> {
    if has_id(es, id) {
        Seq::new(
            es.len(),
            |i: int|
                if es[i].0 == id {
                    (id, handle)
                } else {
                    es[i]
                },
        )
    } else {
        es.push((id, handle))
    }
}

/// The test that an entry passes where its identifier is not `id`.
pub open spec fn other_than(id: Seq<char>) -> spec_fn((Seq<char>, Progress<Buffer>)) -> bool {
    |e: (Seq<char>, Progress<Buffer>)| e.0 != id
}

/// The entries after the registration under `id` was released: those with
/// another identifier, in their order.
pub open spec fn released(es: Seq<(Seq<char>, Progress<Buffer>)>, id: Seq<char>) -> Seq<
    (Seq<char>, Progress<Buffer>),
> {
    es.filter(other_than(id))
}

/// `uuid::Uuid::new_v4` and the `Display` of `Uuid`: the hyphenated
/// lower-case text of a random identifier of version 4. Which identifier it
/// is depends on the system's random number generator.
#[verifier::external_body]
fn random_id() -> (r: String)
    ensures
        is_random_id(r@),
{
    uuid::Uuid::new_v4().to_string()
}

/// A filter that every element passes changes nothing.
proof fn lemma_filter_keeps_all<A>(s: Seq<A>, keep: spec_fn(A) -> bool)
    requires
        forall|i: int| 0 <= i < s.len() ==> keep(#[trigger] s[i]),
    ensures
        s.filter(keep) == s,
    decreases s.len(),
{
    reveal(Seq::filter);
    if s.len() > 0 {
        lemma_filter_keeps_all(s.drop_last(), keep);
        assert(s.drop_last().push(s.last()) =~= s);
    }
}

/// Where identifiers are distinct, taking out the entry of an identifier
/// leaves the entries of all others, in their order.
proof fn lemma_remove_is_release(es: Seq<(Seq<char>, Progress<Buffer>)>, i: int)
    requires
        distinct_ids(es),
        0 <= i < es.len(),
    ensures
        es.remove(i) == released(es, es[i].0),
    decreases es.len(),
{
    let id = es[i].0;
    let keep = other_than(id);
    let front = es.drop_last();
    reveal(Seq::filter);
    if i == es.len() - 1 {
        assert forall|k: int| 0 <= k < front.len() implies keep(#[trigger] front[k]) by {
            assert(front[k] == es[k]);
        }
        lemma_filter_keeps_all(front, keep);
        assert(es.remove(i) =~= front);
    } else {
        assert(front[i] == es[i]);
        assert(distinct_ids(front)) by {
            assert forall|a: int, b: int|
                0 <= a < front.len() && 0 <= b < front.len() && (#[trigger] front[a]).0 == (
                #[trigger] front[b]).0 implies a == b by {
                assert(front[a] == es[a]);
                assert(front[b] == es[b]);
            }
        }
        lemma_remove_is_release(front, i);
        assert(keep(es.last()));
        assert(es.remove(i) =~= front.remove(i).push(es.last()));
    }
}

/// Registration keeps identifiers distinct and lists the handle under its
/// identifier; under a new identifier it comes last and nothing else changes.
pub proof fn law_registered_is_listed(
    es: Seq<(Seq<char>, Progress<Buffer>)>,
    id: Seq<char>,
    handle: Progress<Buffer>,
)
    requires
        distinct_ids(es),
    ensures
        distinct_ids(registered(es, id, handle)),
        registered(es, id, handle).contains((id, handle)),
        has_id(registered(es, id, handle), id),
        !has_id(es, id) ==> registered(es, id, handle) == es.push((id, handle)),
        forall|e: (Seq<char>, Progress<Buffer>)|
            e.0 != id ==> (registered(es, id, handle).contains(e) <==> es.contains(e)),
{
    let r = registered(es, id, handle);
    if has_id(es, id) {
        let i = choose|i: int| 0 <= i < es.len() && (#[trigger] es[i]).0 == id;
        assert(r[i] == (id, handle));
        assert forall|e: (Seq<char>, Progress<Buffer>)| e.0 != id implies (r.contains(e)
            <==> es.contains(e)) by {
            if r.contains(e) {
                let k = choose|k: int| 0 <= k < r.len() && r[k] == e;
                assert(es[k] == e);
            }
            if es.contains(e) {
                let k = choose|k: int| 0 <= k < es.len() && es[k] == e;
                assert(r[k] == e);
            }
        }
    } else {
        assert(r[es.len() as int] == (id, handle));
        assert forall|e: (Seq<char>, Progress<Buffer>)| e.0 != id implies (r.contains(e)
            <==> es.contains(e)) by {
            if r.contains(e) {
                let k = choose|k: int| 0 <= k < r.len() && r[k] == e;
                assert(es[k] == e);
            }
            if es.contains(e) {
                let k = choose|k: int| 0 <= k < es.len() && es[k] == e;
                assert(r[k] == e);
            }
        }
    }
}

/// Release removes the registration and nothing else: no entry with the
/// identifier is left, every other entry stays, identifiers stay distinct,
/// and releasing an identifier that is not registered changes nothing.
pub proof fn law_released_is_gone(es: Seq<(Seq<char>, Progress<Buffer>)>, id: Seq<char>)
    requires
        distinct_ids(es),
    ensures
        !has_id(released(es, id), id),
        distinct_ids(released(es, id)),
        forall|e: (Seq<char>, Progress<Buffer>)|
            e.0 != id ==> (released(es, id).contains(e) <==> es.contains(e)),
        !has_id(es, id) ==> released(es, id) == es,
        released(released(es, id), id) == released(es, id),
{
    let keep = other_than(id);
    let r = released(es, id);
    if has_id(es, id) {
        let i = choose|i: int| 0 <= i < es.len() && (#[trigger] es[i]).0 == id;
        lemma_remove_is_release(es, i);
        assert(r == es.remove(i));
        assert forall|k: int| 0 <= k < r.len() implies (#[trigger] r[k]).0 != id by {
            if k < i {
                assert(r[k] == es[k]);
            } else {
                assert(r[k] == es[k + 1]);
            }
        }
        assert(distinct_ids(r)) by {
            assert forall|a: int, b: int|
                0 <= a < r.len() && 0 <= b < r.len() && (#[trigger] r[a]).0 == (#[trigger] r[b]).0
                implies a == b by {
                let a2 = if a < i {
                    a
                } else {
                    a + 1
                };
                let b2 = if b < i {
                    b
                } else {
                    b + 1
                };
                assert(r[a] == es[a2]);
                assert(r[b] == es[b2]);
            }
        }
        assert forall|e: (Seq<char>, Progress<Buffer>)| e.0 != id implies (r.contains(e)
            <==> es.contains(e)) by {
            if r.contains(e) {
                let k = choose|k: int| 0 <= k < r.len() && r[k] == e;
                let k2 = if k < i {
                    k
                } else {
                    k + 1
                };
                assert(es[k2] == e);
            }
            if es.contains(e) {
                let k = choose|k: int| 0 <= k < es.len() && es[k] == e;
                let k2 = if k < i {
                    k
                } else {
                    k - 1
                };
                assert(r[k2] == e);
            }
        }
    } else {
        assert forall|k: int| 0 <= k < es.len() implies keep(#[trigger] es[k]) by {}
        lemma_filter_keeps_all(es, keep);
    }
    assert forall|k: int| 0 <= k < r.len() implies keep(#[trigger] r[k]) by {}
    lemma_filter_keeps_all(r, keep);
}

/// A registration under a new identifier followed by its release leaves the
/// registry as it was.
pub proof fn law_release_undoes_registration(
    es: Seq<(Seq<char>, Progress<Buffer>)>,
    id: Seq<char>,
    handle: Progress<Buffer>,
)
    requires
        distinct_ids(es),
        !has_id(es, id),
    ensures
        released(registered(es, id, handle), id) == es,
{
    let r = registered(es, id, handle);
    law_registered_is_listed(es, id, handle);
    lemma_remove_is_release(r, es.len() as int);
    assert(r.remove(es.len() as int) =~= es);
}

/// One change to a registry.
pub enum Change {
    Register(Seq<char>, Progress<Buffer>),
    Release(Seq<char>),
}

impl Change {
    /// The identifier that the change is about.
    pub open spec fn id(self) -> Seq<char> {
        match self {
            Change::Register(id, _) => id,
            Change::Release(id) => id,
        }
    }
}

/// The entries after one change.
pub open spec fn changed(es: Seq<(Seq<char>, Progress<Buffer>)>, change: Change) -> Seq<
    (Seq<char>, Progress<Buffer>),
> {
    match change {
        Change::Register(id, handle) => registered(es, id, handle),
        Change::Release(id) => released(es, id),
    }
}

/// The entries after `changes`, made in order.
pub open spec fn changed_by_all(es: Seq<(Seq<char>, Progress<Buffer>)>, changes: Seq<Change>) -> Seq<
    (Seq<char>, Progress<Buffer>),
>
    decreases changes.len(),
{
    if changes.len() == 0 {
        es
    } else {
        changed(changed_by_all(es, changes.drop_last()), changes.last())
    }
}

/// A registration lasts until it is released: whatever is registered and
/// released under other identifiers in the meantime, the entry is there, and
/// no identifier ever occurs twice.
pub proof fn law_registration_lasts(
    es: Seq<(Seq<char>, Progress<Buffer>)>,
    id: Seq<char>,
    handle: Progress<Buffer>,
    changes: Seq<Change>,
)
    requires
        distinct_ids(es),
        forall|i: int| 0 <= i < changes.len() ==> (#[trigger] changes[i]).id() != id,
    ensures
        distinct_ids(changed_by_all(registered(es, id, handle), changes)),
        changed_by_all(registered(es, id, handle), changes).contains((id, handle)),
        !has_id(released(changed_by_all(registered(es, id, handle), changes), id), id),
    decreases changes.len(),
{
    let start = registered(es, id, handle);
    law_registered_is_listed(es, id, handle);
    if changes.len() > 0 {
        let before = changed_by_all(start, changes.drop_last());
        law_registration_lasts(es, id, handle, changes.drop_last());
        match changes.last() {
            Change::Register(other, h) => {
                law_registered_is_listed(before, other, h);
            },
            Change::Release(other) => {
                law_released_is_gone(before, other);
            },
        }
    }
    law_released_is_gone(changed_by_all(start, changes), id);
}

/// The entries of a registry: identifiers and handles in the order of
/// registration.
pub struct Entries {
    map: IndexMap<String, Progress<Buffer>>,
}

impl View for Entries {
    type V = Seq<(Seq<char>, Progress<Buffer>)>;

    closed spec fn view(&self) -> Seq<(Seq<char>, Progress<Buffer>)> {
        entries(self.map)
    }
}

impl Entries {
    /// Whether no identifier occurs in two entries. A new registry is so,
    /// and registration and release keep it so.
    pub open spec fn wf(&self) -> bool {
        distinct_ids(self@)
    }

    /// A registry without entries.
    pub fn new() -> (r: Entries)
        ensures
            r@ == Seq::<(Seq<char>, Progress<Buffer>)>::empty(),
            r.wf(),
    {
        Entries { map: map_new() }
    }

    /// Registers `handle` under `id`.
    pub fn insert(&mut self, id: String, handle: Progress<Buffer>)
        requires
            old(self).wf(),
        ensures
            final(self)@ == registered(old(self)@, id@, handle),
            final(self).wf(),
    {
        proof {
            law_registered_is_listed(self@, id@, handle);
        }
        let ghost before = self@;
        let replaced = map_insert(&mut self.map, id, handle);
        proof {
            let after = entries(self.map);
            if replaced is Some {
                let i = choose|i: int|
                    0 <= i < before.len() && (#[trigger] before[i]) == (id@, replaced->Some_0)
                        && after == before.update(i, (id@, handle));
                assert(after =~= registered(before, id@, handle));
            }
        }
    }

    /// Releases the registration under `id`. Where there is none, nothing
    /// changes.
    pub fn remove(&mut self, id: &str)
        requires
            old(self).wf(),
        ensures
            final(self)@ == released(old(self)@, id@),
            final(self).wf(),
    {
        proof {
            law_released_is_gone(self@, id@);
        }
        let ghost before = self@;
        let removed = map_shift_remove(&mut self.map, id);
        proof {
            if removed is Some {
                let i = choose|i: int|
                    0 <= i < before.len() && (#[trigger] before[i]) == (id@, removed->Some_0)
                        && entries(self.map) == before.remove(i);
                lemma_remove_is_release(before, i);
            }
        }
    }

    /// The handle registered under `id`, if there is one.
    pub fn get(&self, id: &str) -> (r: Option<Progress<Buffer>>)
        ensures
            match r {
                Some(handle) => self@.contains((id@, handle)),
                None => !has_id(self@, id@),
            },
    {
        match map_get(&self.map, id) {
            Some(handle) => Some(handle.clone()),
            None => None,
        }
    }

    /// A copy of the entries, in the order of registration.
    pub fn to_vec(&self) -> (r: Vec<(String, Progress<Buffer>)>)
        ensures
            r@.len() == self@.len(),
            forall|i: int| 0 <= i < r@.len() ==> (#[trigger] r@[i]).0@ == self@[i].0 && r@[i].1 == self@[i].1,
    {
        let n = map_len(&self.map);
        let mut out: Vec<(String, Progress<Buffer>)> = Vec::new();
        let mut i: usize = 0;
        while i < n
            invariant
                i <= n,
                n == self@.len(),
                out@.len() == i,
                forall|k: int| 0 <= k < i ==> (#[trigger] out@[k]).0@ == self@[k].0 && out@[k].1 == self@[k].1,
            decreases n - i,
        {
            match map_get_index(&self.map, i) {
                Some(pair) => {
                    out.push((pair.0.clone(), pair.1.clone()));
                },
                None => {},
            }
            i += 1;
        }
        out
    }
}

/// What the lock of a `Table` keeps true of the entries under it.
pub struct Distinct;

impl RwLockPredicate<Entries> for Distinct {
    open spec fn inv(self, v: Entries) -> bool {
        v.wf()
    }
}

/// The registry, shared by all who hold a clone of it. Every operation takes
/// the one lock that guards the entries, for as long as it reads or changes
/// them and no longer.
///
/// What registration and release do to the entries is stated on `Entries`.
pub struct Table(Arc<RwLock<Entries, Distinct>>);

impl Clone for Table {
    /// Another handle to the same registry.
    fn clone(&self) -> (r: Self)
        ensures
            r == *self,
    {
        Table(self.0.clone())
    }
}

/// The token of one registration. Releasing it removes the registration; it
/// is to be released when the scope that registered ends, however it ends.
pub struct AddDrop<'a> {
    id: String,
    table: &'a Table,
}

impl Table {
    /// A registry without entries.
    pub fn new() -> (r: Self) {
        Table(Arc::new(RwLock::new(Entries::new(), Ghost(Distinct))))
    }

    fn lock(&self) -> (r: (Entries, WriteHandle<'_, Entries, Distinct>))
        ensures
            r.0.wf(),
            r.1.rwlock() == *self.0,
    {
        self.0.acquire_write()
    }

    /// Registers `v` under a newly generated identifier. The entry is in the
    /// registry when the call returns, and stays until the token is released.
    pub fn add(&self, v: Progress<Buffer>) -> (r: AddDrop<'_>)
        ensures
            is_random_id(r.id()),
            r.table() == *self,
    {
        let id = random_id();
        let (mut held, guard) = self.lock();
        held.insert(id.clone(), v);
        guard.release_write(held);
        AddDrop { id, table: self }
    }

    /// A copy of the entries, in the order of registration. No identifier
    /// occurs twice in it.
    pub fn to_vec(&self) -> (r: Vec<(String, Progress<Buffer>)>)
        ensures
            forall|i: int, j: int|
                0 <= i < r@.len() && 0 <= j < r@.len() && (#[trigger] r@[i]).0@ == (#[trigger] r@[j]).0@
                    ==> i == j,
    {
        let (held, guard) = self.lock();
        let out = held.to_vec();
        proof {
            assert forall|i: int, j: int|
                0 <= i < out@.len() && 0 <= j < out@.len() && (#[trigger] out@[i]).0@ == (
                #[trigger] out@[j]).0@ implies i == j by {
                assert(held@[i].0 == held@[j].0);
            }
        }
        guard.release_write(held);
        out
    }

    /// The status of every registered transfer, in the order of
    /// registration. Each transfer's lock is taken in turn, after the
    /// registry's own lock was given back. No identifier occurs twice.
    pub fn list_transfers(&self) -> (r: Vec<Item>)
        ensures
            forall|i: int, j: int|
                0 <= i < r@.len() && 0 <= j < r@.len() && (#[trigger] r@[i]).id@ == (#[trigger] r@[j]).id@
                    ==> i == j,
                {
        let pairs = self.to_vec();
        let mut out: Vec<Item> = Vec::new();
        let mut i: usize = 0;
        while i < pairs.len()
            invariant
                i <= pairs@.len(),
                out@.len() == i,
                forall|k: int| 0 <= k < i ==> (#[trigger] out@[k]).id@ == pairs@[k].0@,
            decreases pairs@.len() - i,
        {
            out.push(Item::from(&pairs[i]));
            i += 1;
        }
        proof {
            assert forall|a: int, b: int|
                0 <= a < out@.len() && 0 <= b < out@.len() && (#[trigger] out@[a]).id@ == (
                #[trigger] out@[b]).id@ implies a == b by {
                assert(pairs@[a].0@ == pairs@[b].0@);
            }
        }
        out
    }

    /// Cancels the transfer registered under `id`. Where there is none,
    /// nothing happens.
    pub fn cancel(&self, id: &str) {
        let (held, guard) = self.lock();
        let found = held.get(id);
        guard.release_write(held);
        match found {
            Some(handle) => handle.cancel(),
            None => {},
        }
    }

    fn delete(&self, id: &str) {
        let (mut held, guard) = self.lock();
        held.remove(id);
        guard.release_write(held);
    }
}

impl<'a> AddDrop<'a> {
    /// The identifier of the registration.
    pub closed spec fn id(&self) -> Seq<char> {
        self.id@
    }

    /// The registry that holds the registration.
    pub closed spec fn table(&self) -> Table {
        *self.table
    }

    /// The identifier under which the transfer is registered.
    pub fn get_id(&self) -> (r: &String)
        ensures
            r@ == self.id(),
    {
        &self.id
    }

    /// Removes the registration from the registry. Where it is gone already,
    /// nothing happens.
    pub fn release(self) {
        self.table.delete(self.id.as_str());
    }
}

} // verus!
