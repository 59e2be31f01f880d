//! Chunks that decode into records, and the two tables that name the
//! functions a module imports and exports.
//!
//! Both tables hold a count and then that many records of three big-endian
//! words. In an import the first two words refer to atoms, in an export the
//! first one does. Atoms are numbered from 1.

use crate::error::{BeamFileError, Failure};
use crate::wire::{be_u32, read_u32_at, readable};
use vstd::pervasive::cloned;
use vstd::prelude::*;

verus! {

/// A chunk that decodes into a value of its own type.
pub trait Chunk: Sized {
    /// The identifier of the chunks that this type decodes.
    const ID: [u8; 4];

    /// What stands for an atom in the decoded value.
    type Atom: Clone;

    /// Whether `decoded` is what the payload `raw` decodes to against the
    /// atom table `atoms`.
    spec fn decodes(
        raw: Seq<u8>,
        atoms: Seq<Self::Atom>,
        decoded: Result<Self, BeamFileError>,
    ) -> bool;

    /// Decodes the payload `raw` of a chunk. References to atoms are
    /// resolved against `atom_index`.
    fn decode(raw: &[u8], atom_index: &[Self::Atom]) -> (decoded: Result<Self, BeamFileError>)
        ensures
            Self::decodes(raw@, atom_index@, decoded),
    ;
}

/// Decodes the payload `raw` as a `C` against the atom table `atom_index`,
/// or fails with `AtomsNotIndexed` where no atom table was decoded yet.
pub fn decode_chunk<C: Chunk>(raw: &[u8], atom_index: Option<&[C::Atom]>) -> (decoded: Result<
    C,
    BeamFileError,
>)
    ensures
        match atom_index {
            Some(atoms) => C::decodes(raw@, atoms@, decoded),
            None => decoded matches Err(error) && error@ == Failure::AtomsNotIndexed,
        },
{
    match atom_index {
        Some(atoms) => C::decode(raw, atoms),
        None => Err(BeamFileError::AtomsNotIndexed),
    }
}

/// Whether `n` refers to one of `atoms` atoms: the first atom is number 1.
pub open spec fn refers(n: int, atoms: int) -> bool {
    1 <= n <= atoms
}

/// The atom that `n` refers to.
pub open spec fn referred<A>(atoms: Seq<A>, n: int) -> A
    recommends
        refers(n, atoms.len() as int),
{
    atoms[n - 1]
}

/// The word `k` of a table, counted from 0 after the count.
pub open spec fn word(raw: Seq<u8>, k: int) -> int {
    be_u32(raw, 4 + 4 * k)
}

/// What is wrong with word `k` of a table whose records refer to an atom in
/// each of their first `refs` words: the table ends before it, or it is to
/// refer to one of `atoms` atoms and does not.
pub open spec fn word_fault(raw: Seq<u8>, k: int, refs: int, atoms: int) -> Option<Failure> {
    if !readable(raw, 4 + 4 * k, 4) {
        Some(Failure::Io)
    } else if k % 3 < refs && !refers(word(raw, k), atoms) {
        Some(Failure::InvalidAtomReference(word(raw, k) as u32))
    } else {
        None
    }
}

/// The fault of the first word from `k` on, and before `end`, that has one.
pub open spec fn first_fault(raw: Seq<u8>, k: int, end: int, refs: int, atoms: int) -> Option<
    Failure,
>
    decreases end - k,
{
    if k >= end {
        None
    } else if word_fault(raw, k, refs, atoms) is Some {
        word_fault(raw, k, refs, atoms)
    } else {
        first_fault(raw, k + 1, end, refs, atoms)
    }
}

/// The records of the table `raw`, or the fault of its first faulty word.
pub open spec fn records(raw: Seq<u8>, refs: int, atoms: int) -> Result<
    Seq<(u32, u32, u32)>,
    Failure,
> {
    if !readable(raw, 0, 4) {
        Err(Failure::Io)
    } else {
        match first_fault(raw, 0, 3 * be_u32(raw, 0), refs, atoms) {
            Some(failure) => Err(failure),
            None => Ok(
                Seq::new(
                    be_u32(raw, 0) as nat,
                    |i: int|
                        (
                            word(raw, 3 * i) as u32,
                            word(raw, 3 * i + 1) as u32,
                            word(raw, 3 * i + 2) as u32,
                        ),
                ),
            ),
        }
    }
}

/// Reads word `k` of a table, which starts at `pos`.
fn read_word(raw: &[u8], pos: usize, refs: usize, atoms: usize, Ghost(k): Ghost<int>) -> (read:
    Result<u32, BeamFileError>)
    requires
        0 <= k,
        pos == 4 + 4 * k,
    ensures
        match read {
            Ok(value) => word_fault(raw@, k, refs as int, atoms as int) is None && value == word(
                raw@,
                k,
            ) && pos + 4 <= raw@.len(),
            Err(error) => word_fault(raw@, k, refs as int, atoms as int) == Some(error@),
        },
{
    let value = match read_u32_at(raw, pos) {
        Ok(value) => value,
        Err(error) => return Err(BeamFileError::Io(error)),
    };
    let is_ref = (pos / 4 - 1) % 3 < refs;
    if is_ref && (value < 1 || value as u64 > atoms as u64) {
        return Err(BeamFileError::InvalidAtomReference(value));
    }
    Ok(value)
}

/// Reads the table `raw`, whose records refer to an atom in each of their
/// first `refs` words, for a table of `atoms` atoms. Reading stops at the
/// first word that is missing or refers to no atom.
pub fn read_records(raw: &[u8], refs: usize, atoms: usize) -> (read: Result<
    Vec<(u32, u32, u32)>,
    BeamFileError,
>)
    ensures
        match read {
            Ok(table) => records(raw@, refs as int, atoms as int) == Ok::<
                Seq<(u32, u32, u32)>,
                Failure,
            >(table@),
            Err(error) => records(raw@, refs as int, atoms as int) == Err::<
                Seq<(u32, u32, u32)>,
                Failure,
            >(error@),
        },
{
    let count = match read_u32_at(raw, 0) {
        Ok(count) => count,
        Err(error) => return Err(BeamFileError::Io(error)),
    };
    let ghost end = 3 * count;
    let total = raw.len();
    let mut table: Vec<(u32, u32, u32)> = Vec::new();
    let mut pos: usize = 4;
    let mut i: u32 = 0;
    while i < count
        invariant
            i <= count,
            end == 3 * count,
            count == be_u32(raw@, 0),
            pos == 4 + 12 * i,
            pos <= raw@.len() == total,
            first_fault(raw@, 0, end, refs as int, atoms as int) == first_fault(
                raw@,
                3 * i,
                end,
                refs as int,
                atoms as int,
            ),
            table@.len() == i,
            forall|j: int|
                0 <= j < i ==> #[trigger] table@[j] == (
                    word(raw@, 3 * j) as u32,
                    word(raw@, 3 * j + 1) as u32,
                    word(raw@, 3 * j + 2) as u32,
                ),
        decreases count - i,
    {
        let first = match read_word(raw, pos, refs, atoms, Ghost(3 * i)) {
            Ok(value) => value,
            Err(error) => return Err(error),
        };
        let second = match read_word(raw, pos + 4, refs, atoms, Ghost(3 * i + 1)) {
            Ok(value) => value,
            Err(error) => return Err(error),
        };
        let third = match read_word(raw, pos + 8, refs, atoms, Ghost(3 * i + 2)) {
            Ok(value) => value,
            Err(error) => return Err(error),
        };
        proof {
            assert(first_fault(raw@, 3 * i + 1, end, refs as int, atoms as int) == first_fault(
                raw@,
                3 * i + 2,
                end,
                refs as int,
                atoms as int,
            ));
        }
        table.push((first, second, third));
        pos = pos + 12;
        i += 1;
    }
    proof {
        assert(table@ =~= Seq::new(
            count as nat,
            |i: int|
                (
                    word(raw@, 3 * i) as u32,
                    word(raw@, 3 * i + 1) as u32,
                    word(raw@, 3 * i + 2) as u32,
                ),
        ));
    }
    Ok(table)
}

/// Resolves the reference `n`: a copy of the atom that it refers to, or
/// `InvalidAtomReference` where it refers to none.
pub fn resolve<A: Clone>(atom_index: &[A], n: u32) -> (resolved: Result<A, BeamFileError>)
    ensures
        match resolved {
            Ok(atom) => refers(n as int, atom_index@.len() as int) && cloned(
                referred(atom_index@, n as int),
                atom,
            ),
            Err(error) => !refers(n as int, atom_index@.len() as int) && error@
                == Failure::InvalidAtomReference(n),
        },
{
    if n < 1 || n as u64 > atom_index.len() as u64 {
        Err(BeamFileError::InvalidAtomReference(n))
    } else {
        Ok(atom_index[(n - 1) as usize].clone())
    }
}

/// An imported function: `module:function/arity`.
#[derive(PartialEq, Eq, PartialOrd, Ord, Hash, Debug)]
pub struct Import<A> {
    pub module: A,
    pub function: A,
    pub arity: u32,
}

/// The import table, chunk `ImpT`: see `lemma_table_ids` for its
/// identifier.
pub struct ImpTChunk<A> {
    pub imports: Vec<Import<A>>,
}

/// Whether `import` is what the record `record` decodes to.
pub open spec fn import_of<A: Clone>(
    atoms: Seq<A>,
    record: (u32, u32, u32),
    import: Import<A>,
) -> bool {
    &&& cloned(referred(atoms, record.0 as int), import.module)
    &&& cloned(referred(atoms, record.1 as int), import.function)
    &&& import.arity == record.2
}

impl<A: Clone> Chunk for ImpTChunk<A> {
    const ID: [u8; 4] = [73, 109, 112, 84];

    type Atom = A;

    open spec fn decodes(raw: Seq<u8>, atoms: Seq<A>, decoded: Result<Self, BeamFileError>) -> bool {
        match records(raw, 2, atoms.len() as int) {
            Ok(table) => decoded matches Ok(chunk) && chunk.imports@.len() == table.len()
                && forall|i: int|
                0 <= i < table.len() ==> import_of(atoms, table[i], #[trigger] chunk.imports@[i]),
            Err(failure) => decoded matches Err(error) && error@ == failure,
        }
    }

    fn decode(raw: &[u8], atom_index: &[A]) -> (decoded: Result<Self, BeamFileError>) {
        let table = match read_records(raw, 2, atom_index.len()) {
            Ok(table) => table,
            Err(error) => return Err(error),
        };
        let mut imports: Vec<Import<A>> = Vec::new();
        let mut i: usize = 0;
        while i < table.len()
            invariant
                i <= table@.len(),
                records(raw@, 2, atom_index@.len() as int) == Ok::<Seq<(u32, u32, u32)>, Failure>(
                    table@,
                ),
                imports@.len() == i,
                forall|j: int|
                    0 <= j < i ==> import_of(atom_index@, table@[j], #[trigger] imports@[j]),
            decreases table@.len() - i,
        {
            let (module, function, arity) = table[i];
            proof {
                lemma_records_refer(raw@, 2, atom_index@.len() as int, i as int);
            }
            let module = match resolve(atom_index, module) {
                Ok(atom) => atom,
                Err(error) => return Err(error),
            };
            let function = match resolve(atom_index, function) {
                Ok(atom) => atom,
                Err(error) => return Err(error),
            };
            imports.push(Import { module, function, arity });
            i += 1;
        }
        Ok(ImpTChunk { imports })
    }
}

/// An exported function: `function/arity`, and the label of its code.
#[derive(PartialEq, Eq, PartialOrd, Ord, Hash, Debug)]
pub struct Export<A> {
    pub function: A,
    pub arity: u32,
    pub label: u32,
}

/// The export table, chunk `ExpT`: see `lemma_table_ids` for its
/// identifier.
pub struct ExpTChunk<A> {
    pub exports: Vec<Export<A>>,
}

/// Whether `export` is what the record `record` decodes to.
pub open spec fn export_of<A: Clone>(
    atoms: Seq<A>,
    record: (u32, u32, u32),
    export: Export<A>,
) -> bool {
    &&& cloned(referred(atoms, record.0 as int), export.function)
    &&& export.arity == record.1
    &&& export.label == record.2
}

impl<A: Clone> Chunk for ExpTChunk<A> {
    const ID: [u8; 4] = [69, 120, 112, 84];

    type Atom = A;

    open spec fn decodes(raw: Seq<u8>, atoms: Seq<A>, decoded: Result<Self, BeamFileError>) -> bool {
        match records(raw, 1, atoms.len() as int) {
            Ok(table) => decoded matches Ok(chunk) && chunk.exports@.len() == table.len()
                && forall|i: int|
                0 <= i < table.len() ==> export_of(atoms, table[i], #[trigger] chunk.exports@[i]),
            Err(failure) => decoded matches Err(error) && error@ == failure,
        }
    }

    fn decode(raw: &[u8], atom_index: &[A]) -> (decoded: Result<Self, BeamFileError>) {
        let table = match read_records(raw, 1, atom_index.len()) {
            Ok(table) => table,
            Err(error) => return Err(error),
        };
        let mut exports: Vec<Export<A>> = Vec::new();
        let mut i: usize = 0;
        while i < table.len()
            invariant
                i <= table@.len(),
                records(raw@, 1, atom_index@.len() as int) == Ok::<Seq<(u32, u32, u32)>, Failure>(
                    table@,
                ),
                exports@.len() == i,
                forall|j: int|
                    0 <= j < i ==> export_of(atom_index@, table@[j], #[trigger] exports@[j]),
            decreases table@.len() - i,
        {
            let (function, arity, label) = table[i];
            proof {
                lemma_records_refer(raw@, 1, atom_index@.len() as int, i as int);
            }
            let function = match resolve(atom_index, function) {
                Ok(atom) => atom,
                Err(error) => return Err(error),
            };
            exports.push(Export { function, arity, label });
            i += 1;
        }
        Ok(ExpTChunk { exports })
    }
}

/// No word before `end` has a fault where the first fault from `k` on is
/// none.
proof fn lemma_no_fault(raw: Seq<u8>, k: int, end: int, refs: int, atoms: int, at: int)
    requires
        first_fault(raw, k, end, refs, atoms) is None,
        k <= at < end,
    ensures
        word_fault(raw, at, refs, atoms) is None,
    decreases end - k,
{
    if k < at {
        lemma_no_fault(raw, k + 1, end, refs, atoms, at);
    }
}

/// In a table that was read without a fault, each of the first `refs` words
/// of every record refers to an atom.
pub proof fn lemma_records_refer(raw: Seq<u8>, refs: int, atoms: int, i: int)
    requires
        records(raw, refs, atoms) is Ok,
        0 <= i < records(raw, refs, atoms).unwrap().len(),
    ensures
        refs > 0 ==> refers(records(raw, refs, atoms).unwrap()[i].0 as int, atoms),
        refs > 1 ==> refers(records(raw, refs, atoms).unwrap()[i].1 as int, atoms),
        refs > 2 ==> refers(records(raw, refs, atoms).unwrap()[i].2 as int, atoms),
{
    let end = 3 * be_u32(raw, 0);
    lemma_no_fault(raw, 0, end, refs, atoms, 3 * i);
    lemma_no_fault(raw, 0, end, refs, atoms, 3 * i + 1);
    lemma_no_fault(raw, 0, end, refs, atoms, 3 * i + 2);
}

/// References to atoms count from 1: in a table that has an atom, the
/// number 1 refers to the first of them, and the number 0 to none.
pub proof fn lemma_references_count_from_one<A>(atoms: Seq<A>)
    requires
        atoms.len() > 0,
    ensures
        refers(1, atoms.len() as int),
        referred(atoms, 1) == atoms.first(),
        referred(atoms, atoms.len() as int) == atoms.last(),
        !refers(0, atoms.len() as int),
        !refers(atoms.len() as int + 1, atoms.len() as int),
{
}

/// The identifiers of the two tables: `ImpT` for the import table and
/// `ExpT` for the export table, whatever stands for an atom.
pub proof fn lemma_table_ids<A: Clone>()
    ensures
        ImpTChunk::<A>::ID@ == seq![73u8, 109u8, 112u8, 84u8],
        ExpTChunk::<A>::ID@ == seq![69u8, 120u8, 112u8, 84u8],
        ImpTChunk::<A>::ID == [73u8, 109u8, 112u8, 84u8],
        ExpTChunk::<A>::ID == [69u8, 120u8, 112u8, 84u8],
{
    assert(ImpTChunk::<A>::ID@ =~= seq![73u8, 109u8, 112u8, 84u8]);
    assert(ExpTChunk::<A>::ID@ =~= seq![69u8, 120u8, 112u8, 84u8]);
    assert(ImpTChunk::<A>::ID =~= [73u8, 109u8, 112u8, 84u8]);
    assert(ExpTChunk::<A>::ID =~= [69u8, 120u8, 112u8, 84u8]);
}

} // verus!
