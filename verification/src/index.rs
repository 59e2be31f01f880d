//! The chunk index: where each chunk of a container lies.

use crate::error::{BeamFileError, Failure};
use crate::id::Id;
use fxhash::FxHashMap;
use vstd::prelude::*;

verus! {

/// `fxhash::FxHasher`, the hasher of the index's map. It is named in the
/// map's type and never touched.
#[verifier::external_type_specification]
#[verifier::external_body]
pub struct ExFxHasher(fxhash::FxHasher);

/// `std::hash::BuildHasherDefault`, which makes the hashers of the index's
/// map. It is named in the map's type and never touched.
#[verifier::external_type_specification]
#[verifier::external_body]
#[verifier::reject_recursive_types(H)]
pub struct ExBuildHasherDefault<H>(std::hash::BuildHasherDefault<H>);

/// Where the payload of a chunk lies in the container.
#[derive(Clone, Copy, PartialEq, Eq, Debug, Structural)]
pub struct IndexEntry {
    /// The offset of the payload's first byte from the start of the
    /// container.
    pub position: u64,
    /// The length of the payload in bytes, without its padding.
    pub len: u64,
}

/// `insert` of `fxhash::FxHashMap`, a `std::collections::HashMap` that
/// hashes with `fxhash::FxHasher`. It is claimed that the map afterwards
/// holds `entry` under `key` and is otherwise as before.
#[verifier::external_body]
fn map_insert(map: &mut FxHashMap<[u8; 4], IndexEntry>, key: [u8; 4], entry: IndexEntry)
    ensures
        final(map)@ == old(map)@.insert(key, entry),
{
    map.insert(key, entry);
}

/// `get` of `fxhash::FxHashMap`. It is claimed to return the entry that the
/// map holds under `key`, and `None` where it holds none.
#[verifier::external_body]
fn map_get(map: &FxHashMap<[u8; 4], IndexEntry>, key: [u8; 4]) -> (found: Option<IndexEntry>)
    ensures
        found == (if map@.contains_key(key) {
            Some(map@[key])
        } else {
            None
        }),
{
    map.get(&key).copied()
}

/// `keys` of `fxhash::FxHashMap`. It is claimed to hand out every key of the
/// map once; nothing is claimed of their order.
#[verifier::external_body]
fn map_keys(map: &FxHashMap<[u8; 4], IndexEntry>) -> (keys: Vec<[u8; 4]>)
    ensures
        keys@.no_duplicates(),
        keys@.to_set() == map@.dom(),
{
    map.keys().copied().collect()
}

/// The identifier of the atom table whose names are UTF-8 text: `AtU8`.
pub const ATOMS_UTF8: [u8; 4] = [65, 116, 85, 56];

/// The identifier of the atom table of older containers: `Atom`.
pub const ATOMS: [u8; 4] = [65, 116, 111, 109];

/// Where the chunk `id` lies by the index `chunks`, or `MissingChunk` with
/// `id` where the index has no such chunk.
pub open spec fn located(chunks: Map<Id, IndexEntry>, id: Id) -> Result<IndexEntry, Failure> {
    if chunks.contains_key(id) {
        Ok(chunks[id])
    } else {
        Err(Failure::MissingChunk(id))
    }
}

/// Where the atom table lies by the index `chunks`: the chunk `AtU8`, or
/// the chunk `Atom` where the index has no `AtU8`.
pub open spec fn located_atoms(chunks: Map<Id, IndexEntry>) -> Result<IndexEntry, Failure> {
    if chunks.contains_key(Id(ATOMS_UTF8)) {
        Ok(chunks[Id(ATOMS_UTF8)])
    } else {
        located(chunks, Id(ATOMS))
    }
}

/// The chunks of a container by identifier: one entry for each identifier
/// that occurs, the entry of its last occurrence.
#[derive(Clone, Debug)]
pub struct ChunkIndex {
    map: FxHashMap<[u8; 4], IndexEntry>,
}

impl View for ChunkIndex {
    type V = Map<Id, IndexEntry>;

    closed spec fn view(&self) -> Map<Id, IndexEntry> {
        Map::new(|id: Id| self.map@.contains_key(id.0), |id: Id| self.map@[id.0])
    }
}

impl ChunkIndex {
    /// An index without entries.
    pub fn new() -> (index: ChunkIndex)
        ensures
            index@ == Map::<Id, IndexEntry>::empty(),
    {
        let index = ChunkIndex { map: FxHashMap::default() };
        assert(index@ =~= Map::<Id, IndexEntry>::empty());
        index
    }

    /// Records `entry` for `id`, in place of an earlier entry for it.
    pub fn insert(&mut self, id: Id, entry: IndexEntry)
        ensures
            final(self)@ == old(self)@.insert(id, entry),
    {
        map_insert(&mut self.map, id.0, entry);
        assert(self@ =~= old(self)@.insert(id, entry));
    }

    /// The entry of the chunk `id`, if the index has one.
    pub fn get(&self, id: Id) -> (found: Option<IndexEntry>)
        ensures
            found == (if self@.contains_key(id) {
                Some(self@[id])
            } else {
                None
            }),
    {
        map_get(&self.map, id.0)
    }

    /// Where the chunk `id` lies, or `MissingChunk` with `id`.
    pub fn locate(&self, id: Id) -> (found: Result<IndexEntry, BeamFileError>)
        ensures
            match found {
                Ok(entry) => located(self@, id) == Ok::<IndexEntry, Failure>(entry),
                Err(error) => located(self@, id) == Err::<IndexEntry, Failure>(error@),
            },
    {
        match self.get(id) {
            Some(entry) => Ok(entry),
            None => Err(BeamFileError::MissingChunk(id)),
        }
    }

    /// Where the atom table lies: the chunk `AtU8`, or the chunk `Atom`
    /// where the index has no `AtU8`; `MissingChunk` where it has neither.
    pub fn locate_atoms(&self) -> (found: Result<IndexEntry, BeamFileError>)
        ensures
            match found {
                Ok(entry) => located_atoms(self@) == Ok::<IndexEntry, Failure>(entry),
                Err(error) => located_atoms(self@) == Err::<IndexEntry, Failure>(error@),
            },
    {
        match self.get(Id(ATOMS_UTF8)) {
            Some(entry) => Ok(entry),
            None => self.locate(Id(ATOMS)),
        }
    }

    /// The identifiers of the indexed chunks, each once, in no particular
    /// order.
    pub fn ids(&self) -> (ids: Vec<Id>)
        ensures
            ids@.no_duplicates(),
            ids@.to_set() == self@.dom(),
            self@.dom().finite(),
            ids@.len() == self@.dom().len(),
    {
        let keys = map_keys(&self.map);
        let mut ids: Vec<Id> = Vec::new();
        let mut i: usize = 0;
        while i < keys.len()
            invariant
                i <= keys.len(),
                ids@.len() == i,
                forall|j: int| 0 <= j < i ==> (#[trigger] ids@[j]).0 == keys@[j],
            decreases keys.len() - i,
        {
            ids.push(Id(keys[i]));
            i += 1;
        }
        proof {
            assert forall|id: Id| ids@.to_set().contains(id) <==> self@.dom().contains(id) by {
                if ids@.to_set().contains(id) {
                    let j = choose|j: int| 0 <= j < ids@.len() && ids@[j] == id;
                    assert(keys@.contains(keys@[j]));
                    assert(keys@.to_set().contains(id.0));
                }
                if self@.dom().contains(id) {
                    assert(keys@.to_set().contains(id.0));
                    let j = choose|j: int| 0 <= j < keys@.len() && keys@[j] == id.0;
                    assert(ids@[j] == id);
                }
            }
            assert(ids@.to_set() =~= self@.dom());
            ids@.unique_seq_to_set();
        }
        ids
    }
}

} // verus!
