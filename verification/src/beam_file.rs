//! The reader of a container: its bytes, the index of its chunks and, once
//! it was asked for, its atom table.

use crate::atoms::{atom_names, decode_atoms};
use crate::chunk::{decode_chunk, Chunk};
use crate::envelope::{directory, index_chunks, payload, read_entry, read_view};
use crate::error::{BeamFileError, Failure};
use crate::id::Id;
use crate::index::{ChunkIndex, IndexEntry, ATOMS, ATOMS_UTF8};
use crate::interner::{names_of, Interner};
use vstd::prelude::*;

verus! {

/// A container that is open for reading.
///
/// It holds every byte of the container, the index of its chunks and, once
/// it was asked for, the atom table. Opening it looks at the envelope and
/// the chunk headers only; the payload of a chunk is copied out of the
/// bytes when the chunk is asked for, and no decoded chunk but the atom
/// table is kept.
pub struct BeamFile<I: Interner> {
    reader: Vec<u8>,
    index: ChunkIndex,
    atom_index: Option<Vec<I::Atom>>,
}

impl<I: Interner> BeamFile<I> {
    /// The index is the one that the bytes of the container spell.
    #[verifier::type_invariant]
    spec fn indexed(self) -> bool {
        directory(self.reader@) == Ok::<Map<Id, IndexEntry>, Failure>(self.index@)
    }

    /// The bytes of the container.
    pub closed spec fn bytes(&self) -> Seq<u8> {
        self.reader@
    }

    /// The chunk index: where the payload of each chunk lies.
    pub closed spec fn chunks(&self) -> Map<Id, IndexEntry> {
        self.index@
    }

    /// The atom table, once it was decoded.
    pub closed spec fn atoms(&self) -> Option<Seq<I::Atom>> {
        match self.atom_index {
            Some(atoms) => Some(atoms@),
            None => None,
        }
    }

    /// What reading the chunk `id` gives: its payload, or the failure to
    /// find or to read it.
    pub open spec fn raw(&self, id: Id) -> Result<Seq<u8>, Failure> {
        if self.chunks().contains_key(id) {
            payload(self.bytes(), self.chunks()[id])
        } else {
            Err(Failure::MissingChunk(id))
        }
    }

    /// What reading the atom table gives: the chunk `AtU8`, or the chunk
    /// `Atom` where the container has no `AtU8`.
    pub open spec fn raw_atoms(&self) -> Result<Seq<u8>, Failure> {
        if self.chunks().contains_key(Id(ATOMS_UTF8)) {
            self.raw(Id(ATOMS_UTF8))
        } else {
            self.raw(Id(ATOMS))
        }
    }

    /// The names in the atom table of the container, or the failure to read
    /// them.
    pub open spec fn atom_table(&self) -> Result<Seq<Seq<char>>, Failure> {
        match self.raw_atoms() {
            Ok(raw) => atom_names(raw),
            Err(failure) => Err(failure),
        }
    }

    /// Opens the container that `reader` holds: checks its envelope and
    /// indexes its chunks. The atom table is not decoded yet.
    pub fn from_reader(reader: Vec<u8>) -> (opened: Result<Self, BeamFileError>)
        ensures
            match opened {
                Ok(file) => {
                    &&& directory(reader@) == Ok::<Map<Id, IndexEntry>, Failure>(file.chunks())
                    &&& file.bytes() == reader@
                    &&& file.atoms() is None
                },
                Err(error) => directory(reader@) == Err::<Map<Id, IndexEntry>, Failure>(error@),
            },
    {
        let index = match index_chunks(reader.as_slice()) {
            Ok(index) => index,
            Err(error) => return Err(error),
        };
        Ok(BeamFile { reader, index, atom_index: None })
    }

    /// Reads the payload of the chunk `id`, without its padding. The index
    /// that tells where it lies is the one that the bytes of the container
    /// spell.
    pub fn read_raw(&self, id: Id) -> (read: Result<Vec<u8>, BeamFileError>)
        ensures
            read_view(read) == self.raw(id),
            directory(self.bytes()) == Ok::<Map<Id, IndexEntry>, Failure>(self.chunks()),
    {
        proof {
            use_type_invariant(self);
        }
        match self.index.locate(id) {
            Ok(entry) => read_entry(self.reader.as_slice(), &entry),
            Err(error) => Err(error),
        }
    }

    /// The identifiers of the chunks of the container, each once, in no
    /// particular order.
    pub fn chunk_ids(&self) -> (ids: Vec<Id>)
        ensures
            ids@.no_duplicates(),
            ids@.to_set() == self.chunks().dom(),
            self.chunks().dom().finite(),
            ids@.len() == self.chunks().dom().len(),
    {
        self.index.ids()
    }

    /// Reads every chunk of the index: each identifier once, in no
    /// particular order, with what `read_raw` returns for it. A chunk that
    /// cannot be read does not keep the others from being read.
    pub fn iter_raw(&self) -> (items: Vec<(Id, Result<Vec<u8>, BeamFileError>)>)
        ensures
            items@.len() == self.chunks().dom().len(),
            self.chunks().dom().finite(),
            forall|id: Id|
                self.chunks().contains_key(id) <==> exists|i: int|
                    0 <= i < items@.len() && (#[trigger] items@[i]).0 == id,
            forall|i: int, j: int|
                0 <= i < j < items@.len() ==> (#[trigger] items@[i]).0 != (#[trigger] items@[j]).0,
            forall|i: int|
                0 <= i < items@.len() ==> read_view((#[trigger] items@[i]).1) == self.raw(
                    items@[i].0,
                ),
            directory(self.bytes()) == Ok::<Map<Id, IndexEntry>, Failure>(self.chunks()),
    {
        proof {
            use_type_invariant(self);
        }
        let ids = self.index.ids();
        let mut items: Vec<(Id, Result<Vec<u8>, BeamFileError>)> = Vec::new();
        let mut i: usize = 0;
        while i < ids.len()
            invariant
                i <= ids@.len(),
                items@.len() == i,
                forall|j: int| 0 <= j < i ==> (#[trigger] items@[j]).0 == ids@[j],
                forall|j: int|
                    0 <= j < i ==> read_view((#[trigger] items@[j]).1) == self.raw(ids@[j]),
            decreases ids@.len() - i,
        {
            let id = ids[i];
            let read = self.read_raw(id);
            items.push((id, read));
            i += 1;
        }
        proof {
            assert forall|id: Id| self.chunks().contains_key(id) implies exists|i: int|
                0 <= i < items@.len() && (#[trigger] items@[i]).0 == id by {
                assert(ids@.to_set().contains(id));
                let i = choose|i: int| 0 <= i < ids@.len() && ids@[i] == id;
                assert(items@[i].0 == id);
            }
            assert forall|id: Id|
                (exists|i: int|
                    0 <= i < items@.len() && (#[trigger] items@[i]).0
                        == id) implies self.chunks().contains_key(id) by {
                let i = choose|i: int| 0 <= i < items@.len() && (#[trigger] items@[i]).0 == id;
                assert(ids@.contains(ids@[i]));
                assert(ids@.to_set().contains(id));
            }
        }
        items
    }

    /// Decodes the atom table and keeps it, in place of an earlier one. The
    /// chunk `AtU8` is read, or the chunk `Atom` where the container has no
    /// `AtU8`; each name is interned by `interner`, in the order of the
    /// table. Where this fails the container is left as it was.
    pub fn index_atoms(&mut self, interner: I) -> (indexed: Result<(), BeamFileError>)
        ensures
            final(self).bytes() == old(self).bytes(),
            final(self).chunks() == old(self).chunks(),
            match indexed {
                Ok(_) => final(self).atoms() matches Some(atoms) && old(self).atom_table() == Ok::<
                    Seq<Seq<char>>,
                    Failure,
                >(names_of(&interner, atoms)),
                Err(error) => final(self).atoms() == old(self).atoms() && old(self).atom_table()
                    == Err::<Seq<Seq<char>>, Failure>(error@),
            },
    {
        let entry = match self.index.locate_atoms() {
            Ok(entry) => entry,
            Err(error) => return Err(error),
        };
        let raw = match read_entry(self.reader.as_slice(), &entry) {
            Ok(raw) => raw,
            Err(error) => return Err(error),
        };
        let atoms = match decode_atoms(raw.as_slice(), &interner) {
            Ok(atoms) => atoms,
            Err(error) => return Err(error),
        };
        proof {
            use_type_invariant(&*self);
        }
        self.atom_index = Some(atoms);
        Ok(())
    }

    /// Reads the chunk that `C` decodes and decodes it against the atom
    /// table. A container without that chunk gives `MissingChunk`; one
    /// whose atoms were not indexed with `index_atoms` gives
    /// `AtomsNotIndexed`.
    pub fn read<C: Chunk<Atom = I::Atom>>(&self) -> (decoded: Result<C, BeamFileError>)
        ensures
            match self.raw(Id(C::ID)) {
                Ok(raw) => match self.atoms() {
                    Some(atoms) => C::decodes(raw, atoms, decoded),
                    None => decoded matches Err(error) && error@ == Failure::AtomsNotIndexed,
                },
                Err(failure) => decoded matches Err(error) && error@ == failure,
            },
            !self.chunks().contains_key(Id(C::ID)) ==> (decoded matches Err(error) && error@
                == Failure::MissingChunk(Id(C::ID))),
    {
        let raw = match self.read_raw(Id(C::ID)) {
            Ok(raw) => raw,
            Err(error) => return Err(error),
        };
        decode_chunk::<C>(raw.as_slice(), self.atom_index())
    }

    /// Returns the module name: the first atom of the atom table.
    ///
    /// Returns `None` if atoms weren't indexed yet, or if the table is
    /// empty.
    pub fn name(&self) -> (name: Option<&I::Atom>)
        ensures
            match self.atoms() {
                Some(atoms) if atoms.len() > 0 => name == Some(&atoms[0]),
                _ => name is None,
            },
    {
        match &self.atom_index {
            Some(atoms) => if atoms.len() > 0 {
                Some(&atoms[0])
            } else {
                None
            },
            None => None,
        }
    }

    /// The atom table, if atoms were indexed.
    pub fn atom_index(&self) -> (atom_index: Option<&[I::Atom]>)
        ensures
            match atom_index {
                Some(atoms) => self.atoms() == Some(atoms@),
                None => self.atoms() is None,
            },
    {
        match &self.atom_index {
            Some(atoms) => Some(atoms.as_slice()),
            None => None,
        }
    }
}

/// What a chunk reads as depends on the bytes of the container and on its
/// index alone: not on the chunks that were read before it, nor on whether
/// the atoms were indexed. So reading the chunks in any order, one by one
/// or all at once, gives the same bytes for the same identifier.
pub proof fn lemma_reads_do_not_depend_on_order<I: Interner>(
    before: BeamFile<I>,
    after: BeamFile<I>,
    id: Id,
)
    requires
        before.bytes() == after.bytes(),
        before.chunks() == after.chunks(),
    ensures
        before.raw(id) == after.raw(id),
        before.atom_table() == after.atom_table(),
{
}

} // verus!
