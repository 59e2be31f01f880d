//! The envelope of a container and the scan of its chunk directory.
//!
//! A container starts with the marker `FOR1`, the size of its payload as a
//! big-endian integer, and the form type `BEAM`. The chunks follow: for
//! each one its identifier, the length of its payload as a big-endian
//! integer, the payload, and padding up to the next multiple of four bytes.

use crate::error::{BeamFileError, Failure};
use crate::id::Id;
use crate::index::{ChunkIndex, IndexEntry};
use crate::scan::{completes, fields_left, lemma_scan_is_directory, Scan};
use crate::wire::{be_u32, read_span, readable, run};
use vstd::prelude::*;

verus! {

/// The marker that a container starts with: `FOR1`.
pub const MAGIC: [u8; 4] = [70, 79, 82, 49];

/// The form type of a container: `BEAM`.
pub const FORM_TYPE: [u8; 4] = [66, 69, 65, 77];

/// The space that a payload of `len` bytes takes with its padding: the next
/// multiple of four.
pub open spec fn padded(len: int) -> int {
    4 * ((len + 3) / 4)
}

/// How far a scan at `pos` is from `limit`: nothing, once it has reached it.
pub open spec fn to_go(pos: int, limit: int) -> nat {
    if pos < limit {
        (limit - pos) as nat
    } else {
        0
    }
}

/// The index that a scan of `data` arrives at when it stands at `pos` with
/// the entries `found` and stops at the first position that is not below
/// `limit`. A header that `data` does not hold in full fails the scan.
pub open spec fn scan(data: Seq<u8>, pos: int, limit: int, found: Map<Id, IndexEntry>) -> Result<
    Map<Id, IndexEntry>,
    Failure,
>
    decreases to_go(pos, limit),
{
    if pos >= limit {
        Ok(found)
    } else if !readable(data, pos, 8) {
        Err(Failure::Io)
    } else {
        let len = be_u32(data, pos + 4);
        let entry = IndexEntry { position: (pos + 8) as u64, len: len as u64 };
        scan(data, pos + 8 + padded(len), limit, found.insert(Id::at(data, pos), entry))
    }
}

/// The chunk index of the container `data`, or the failure that reading its
/// envelope and chunk headers in order meets first.
pub open spec fn directory(data: Seq<u8>) -> Result<Map<Id, IndexEntry>, Failure> {
    if !readable(data, 0, 4) {
        Err(Failure::Io)
    } else if Id::at(data, 0) != Id(MAGIC) {
        Err(Failure::UnexpectedMagicNumber(Id::at(data, 0)))
    } else if !readable(data, 4, 4) || !readable(data, 8, 4) {
        Err(Failure::Io)
    } else if Id::at(data, 8) != Id(FORM_TYPE) {
        Err(Failure::UnexpectedFormType(Id::at(data, 8)))
    } else {
        scan(data, 12, be_u32(data, 4), Map::empty())
    }
}

/// The payload that `entry` points at in `data`. It fails where `data` ends
/// before the payload does.
pub open spec fn payload(data: Seq<u8>, entry: IndexEntry) -> Result<Seq<u8>, Failure> {
    if readable(data, entry.position as int, entry.len as int) {
        Ok(run(data, entry.position as int, entry.len as int))
    } else {
        Err(Failure::Io)
    }
}

/// A buffer that was read, or the failure to read it, as contracts speak
/// of the two.
pub open spec fn read_view(read: Result<Vec<u8>, BeamFileError>) -> Result<Seq<u8>, Failure> {
    match read {
        Ok(bytes) => Ok(bytes@),
        Err(error) => Err(error@),
    }
}

/// Reads the envelope of `data` and scans its chunk headers into an index:
/// runs a `Scan` and answers each of its requests from `data`. No payload
/// is read.
pub fn index_chunks(data: &[u8]) -> (indexed: Result<ChunkIndex, BeamFileError>)
    ensures
        match indexed {
            Ok(index) => directory(data@) == Ok::<Map<Id, IndexEntry>, Failure>(index@),
            Err(error) => directory(data@) == Err::<Map<Id, IndexEntry>, Failure>(error@),
        },
{
    proof {
        lemma_scan_is_directory(data@);
    }
    let mut scan = Scan::new();
    loop
        invariant
            completes(data@, scan@) == directory(data@),
        decreases fields_left(scan@.stage), to_go(scan@.position, scan@.payload_size),
    {
        let want = match scan.request() {
            Some(want) => want,
            None => return Ok(scan.into_index()),
        };
        let read = read_span(data, want.position, want.len);
        scan = match scan.advance(read) {
            Ok(next) => next,
            Err(error) => return Err(error),
        };
    }
}

/// Reads the payload that `entry` points at in `data`, without its padding.
pub fn read_entry(data: &[u8], entry: &IndexEntry) -> (read: Result<Vec<u8>, BeamFileError>)
    ensures
        read_view(read) == payload(data@, *entry),
{
    match read_span(data, entry.position, entry.len) {
        Ok(bytes) => Ok(bytes),
        Err(error) => Err(BeamFileError::Io(error)),
    }
}

/// A container that starts with other bytes than the marker fails with
/// `UnexpectedMagicNumber` and the bytes found, whatever follows them.
pub proof fn lemma_wrong_marker(data: Seq<u8>)
    requires
        data.len() >= 4,
        Id::at(data, 0) != Id(MAGIC),
    ensures
        directory(data) == Err::<Map<Id, IndexEntry>, Failure>(
            Failure::UnexpectedMagicNumber(Id::at(data, 0)),
        ),
{
}

/// A container with the marker, a payload size and other bytes than the
/// form type fails with `UnexpectedFormType` and the bytes found, whatever
/// follows them.
pub proof fn lemma_wrong_form_type(data: Seq<u8>)
    requires
        data.len() >= 12,
        Id::at(data, 0) == Id(MAGIC),
        Id::at(data, 8) != Id(FORM_TYPE),
    ensures
        directory(data) == Err::<Map<Id, IndexEntry>, Failure>(
            Failure::UnexpectedFormType(Id::at(data, 8)),
        ),
{
}

/// A failure with `Io` hides no wrong marker: in a container that fails so,
/// the marker is right if its four bytes are there, and so is the form type
/// if the envelope is complete.
pub proof fn lemma_io_hides_no_marker(data: Seq<u8>)
    requires
        directory(data) == Err::<Map<Id, IndexEntry>, Failure>(Failure::Io),
    ensures
        data.len() >= 4 ==> Id::at(data, 0) == Id(MAGIC),
        data.len() >= 12 ==> Id::at(data, 8) == Id(FORM_TYPE),
        data.len() >= 12 ==> 12 < be_u32(data, 4),
{
}

/// Whether `chunks`, each an identifier and a payload, lie in `data` from
/// `pos` to its end, one after the other: each with its header, its payload
/// and padding up to the next multiple of four bytes.
pub open spec fn chunks_at(data: Seq<u8>, pos: int, chunks: Seq<(Id, Seq<u8>)>) -> bool
    decreases chunks.len(),
{
    if chunks.len() == 0 {
        pos == data.len()
    } else {
        &&& readable(data, pos, 8 + padded(chunks[0].1.len() as int))
        &&& Id::at(data, pos) == chunks[0].0
        &&& be_u32(data, pos + 4) == chunks[0].1.len()
        &&& run(data, pos + 8, chunks[0].1.len() as int) == chunks[0].1
        &&& chunks_at(data, pos + 8 + padded(chunks[0].1.len() as int), chunks.drop_first())
    }
}

/// Whether `data` is a well-formed container that holds `chunks` and
/// nothing else: the envelope, with the number of bytes that follow the
/// payload size as the payload size, and then the chunks.
pub open spec fn well_formed(data: Seq<u8>, chunks: Seq<(Id, Seq<u8>)>) -> bool {
    &&& data.len() >= 12
    &&& Id::at(data, 0) == Id(MAGIC)
    &&& be_u32(data, 4) == data.len() - 8
    &&& Id::at(data, 8) == Id(FORM_TYPE)
    &&& chunks_at(data, 12, chunks)
}

/// The identifiers of `chunks`, in their order.
pub open spec fn ids_of(chunks: Seq<(Id, Seq<u8>)>) -> Seq<Id> {
    Seq::new(chunks.len(), |i: int| chunks[i].0)
}

/// `found` with an entry for each of `chunks`, which lie from `pos` on.
pub open spec fn placed(found: Map<Id, IndexEntry>, pos: int, chunks: Seq<(Id, Seq<u8>)>) -> Map<
    Id,
    IndexEntry,
>
    decreases chunks.len(),
{
    if chunks.len() == 0 {
        found
    } else {
        placed(
            found.insert(
                chunks[0].0,
                IndexEntry { position: (pos + 8) as u64, len: chunks[0].1.len() as u64 },
            ),
            pos + 8 + padded(chunks[0].1.len() as int),
            chunks.drop_first(),
        )
    }
}

/// A scan that stops eight bytes before the end of `data` finds every chunk
/// that lies in it, unless the last one is empty.
proof fn lemma_scan_places(
    data: Seq<u8>,
    pos: int,
    found: Map<Id, IndexEntry>,
    chunks: Seq<(Id, Seq<u8>)>,
)
    requires
        0 <= pos,
        chunks_at(data, pos, chunks),
        chunks.len() > 0 ==> chunks.last().1.len() > 0,
    ensures
        scan(data, pos, data.len() - 8, found) == Ok::<Map<Id, IndexEntry>, Failure>(
            placed(found, pos, chunks),
        ),
    decreases chunks.len(),
{
    if chunks.len() > 0 {
        let len = chunks[0].1.len() as int;
        let next = pos + 8 + padded(len);
        let more = chunks.drop_first();
        assert(chunks_at(data, next, more));
        if more.len() > 0 {
            assert(more.last() == chunks.last());
            assert(readable(data, next, 8 + padded(more[0].1.len() as int)));
        } else {
            assert(chunks.last() == chunks[0]);
            assert(padded(len) >= 4);
        }
        assert(pos < data.len() - 8);
        let entry = IndexEntry { position: (pos + 8) as u64, len: len as u64 };
        lemma_scan_places(data, next, found.insert(chunks[0].0, entry), more);
    }
}

/// What `placed` holds: the entries of `found` for the identifiers that no
/// chunk has, and for each chunk the entry that points at its payload.
proof fn lemma_placed(
    data: Seq<u8>,
    pos: int,
    found: Map<Id, IndexEntry>,
    chunks: Seq<(Id, Seq<u8>)>,
)
    requires
        0 <= pos,
        data.len() <= u64::MAX,
        chunks_at(data, pos, chunks),
        ids_of(chunks).no_duplicates(),
    ensures
        forall|id: Id|
            placed(found, pos, chunks).contains_key(id) <==> found.contains_key(id) || ids_of(
                chunks,
            ).contains(id),
        forall|id: Id|
            !ids_of(chunks).contains(id) ==> #[trigger] placed(found, pos, chunks)[id] == found[id],
        forall|i: int|
            0 <= i < chunks.len() ==> payload(
                data,
                placed(found, pos, chunks)[(#[trigger] chunks[i]).0],
            ) == Ok::<Seq<u8>, Failure>(chunks[i].1),
    decreases chunks.len(),
{
    if chunks.len() > 0 {
        let len = chunks[0].1.len() as int;
        let next = pos + 8 + padded(len);
        let more = chunks.drop_first();
        let entry = IndexEntry { position: (pos + 8) as u64, len: len as u64 };
        let first = found.insert(chunks[0].0, entry);
        assert(ids_of(more) =~= ids_of(chunks).drop_first());
        assert(ids_of(more).no_duplicates()) by {
            assert forall|i: int, j: int|
                0 <= i < ids_of(more).len() && 0 <= j < ids_of(more).len() && i
                    != j implies ids_of(more)[i] != ids_of(more)[j] by {
                assert(ids_of(more)[i] == ids_of(chunks)[i + 1]);
                assert(ids_of(more)[j] == ids_of(chunks)[j + 1]);
            }
        }
        lemma_placed(data, next, first, more);
        let all = placed(found, pos, chunks);
        assert(all == placed(first, next, more));
        assert(!ids_of(more).contains(chunks[0].0)) by {
            if ids_of(more).contains(chunks[0].0) {
                let j = choose|j: int| 0 <= j < ids_of(more).len() && ids_of(more)[j] == chunks[0].0;
                assert(ids_of(chunks)[j + 1] == ids_of(chunks)[0]);
            }
        }
        assert forall|id: Id| all.contains_key(id) <==> found.contains_key(id) || ids_of(
            chunks,
        ).contains(id) by {
            if ids_of(more).contains(id) {
                let j = choose|j: int| 0 <= j < ids_of(more).len() && ids_of(more)[j] == id;
                assert(ids_of(chunks)[j + 1] == id);
            }
            if ids_of(chunks).contains(id) {
                let j = choose|j: int| 0 <= j < ids_of(chunks).len() && ids_of(chunks)[j] == id;
                if j > 0 {
                    assert(ids_of(more)[j - 1] == id);
                }
            }
            assert(ids_of(chunks)[0] == chunks[0].0);
        }
        assert forall|id: Id| !ids_of(chunks).contains(id) implies #[trigger] all[id]
            == found[id] by {
            if ids_of(more).contains(id) {
                let j = choose|j: int| 0 <= j < ids_of(more).len() && ids_of(more)[j] == id;
                assert(ids_of(chunks)[j + 1] == id);
            }
            assert(ids_of(chunks)[0] == chunks[0].0);
        }
        assert forall|i: int| 0 <= i < chunks.len() implies payload(
            data,
            all[(#[trigger] chunks[i]).0],
        ) == Ok::<Seq<u8>, Failure>(chunks[i].1) by {
            if i == 0 {
                assert(all[chunks[0].0] == entry);
                assert(readable(data, pos + 8, len));
            } else {
                assert(more[i - 1] == chunks[i]);
            }
        }
    }
}

/// The index of a well-formed container has one entry for each chunk that
/// lies in it, and the entry of a chunk points at its payload: reading the
/// entry gives the payload and no byte of a header or of padding.
///
/// This holds where no two chunks share an identifier and the last chunk
/// is not empty: of two chunks with one identifier the index keeps the
/// later one, and the scan stops before a header that starts in the last
/// eight bytes.
pub proof fn lemma_index_of_well_formed(data: Seq<u8>, chunks: Seq<(Id, Seq<u8>)>)
    requires
        well_formed(data, chunks),
        ids_of(chunks).no_duplicates(),
        chunks.len() > 0 ==> chunks.last().1.len() > 0,
    ensures
        directory(data) is Ok,
        directory(data).unwrap().dom() == ids_of(chunks).to_set(),
        directory(data).unwrap().dom().finite(),
        directory(data).unwrap().dom().len() == chunks.len(),
        forall|i: int|
            0 <= i < chunks.len() ==> payload(
                data,
                directory(data).unwrap()[(#[trigger] chunks[i]).0],
            ) == Ok::<Seq<u8>, Failure>(chunks[i].1),
{
    let empty = Map::<Id, IndexEntry>::empty();
    lemma_scan_places(data, 12, empty, chunks);
    lemma_placed(data, 12, empty, chunks);
    let index = placed(empty, 12, chunks);
    assert(directory(data) == Ok::<Map<Id, IndexEntry>, Failure>(index));
    assert(index.dom() =~= ids_of(chunks).to_set());
    ids_of(chunks).unique_seq_to_set();
}

} // verus!
