//! The scan of a container as a dialogue with the stream that holds it.
//!
//! The scan says which bytes it wants next, is handed what a read of them
//! gave, and decides from that what it wants after. It asks for the twelve
//! bytes of the envelope, four at a time, and then for the eight bytes of
//! each chunk header: no payload is asked for. Whoever holds the stream
//! runs the loop, and the scan never touches it.

use crate::envelope::{directory, padded, scan, to_go, FORM_TYPE, MAGIC};
use crate::error::{BeamFileError, Failure};
use crate::id::Id;
use crate::index::{ChunkIndex, IndexEntry};
use crate::wire::{be_u32, read_id_at, read_u32_at, readable, run, unexpected_eof};
use vstd::prelude::*;

verus! {

/// What a scan asks of the stream: exactly `len` bytes from `position` on.
#[derive(Clone, Copy, PartialEq, Eq, Debug, Structural)]
pub struct Request {
    pub position: u64,
    pub len: u64,
}

/// What a scan is about to read.
#[derive(Clone, Copy, PartialEq, Eq, Debug, Structural)]
pub enum Stage {
    /// The marker `FOR1`.
    Marker,
    /// The payload size.
    Size,
    /// The form type `BEAM`.
    FormType,
    /// The header of the chunk at the scan's position, if that lies below
    /// the payload size; nothing more, if it does not.
    Chunks,
}

/// A scan between two reads, as contracts speak of it.
pub struct ScanState {
    pub stage: Stage,
    /// Where the next chunk header starts.
    pub position: int,
    /// The payload size that the envelope declares.
    pub payload_size: int,
    /// The entries of the chunk headers read so far.
    pub index: Map<Id, IndexEntry>,
}

/// A scan that has read nothing yet.
pub open spec fn initial() -> ScanState {
    ScanState { stage: Stage::Marker, position: 0, payload_size: 0, index: Map::empty() }
}

/// The scan that stands before the chunk header at `position`.
pub open spec fn at_chunk(position: int, payload_size: int, index: Map<Id, IndexEntry>) -> ScanState {
    ScanState { stage: Stage::Chunks, position, payload_size, index }
}

/// The position and the length of the bytes that the scan wants next, or
/// `None` where it is done.
pub open spec fn wanted(state: ScanState) -> Option<(int, int)> {
    match state.stage {
        Stage::Marker => Some((0, 4)),
        Stage::Size => Some((4, 4)),
        Stage::FormType => Some((8, 4)),
        Stage::Chunks => if state.position < state.payload_size {
            Some((state.position, 8))
        } else {
            None
        },
    }
}

/// The scan after it was handed `read` for what it wanted: the bytes, or
/// `None` for a read that failed. Fewer bytes than it wanted are a failed
/// read too; more are not looked at. A scan that is done stays as it is.
pub open spec fn step(state: ScanState, read: Option<Seq<u8>>) -> Result<ScanState, Failure> {
    if wanted(state) is None {
        Ok(state)
    } else if read is None || read.unwrap().len() < wanted(state).unwrap().1 {
        Err(Failure::Io)
    } else {
        let bytes = read.unwrap();
        match state.stage {
            Stage::Marker => if Id::at(bytes, 0) != Id(MAGIC) {
                Err(Failure::UnexpectedMagicNumber(Id::at(bytes, 0)))
            } else {
                Ok(
                    ScanState {
                        stage: Stage::Size,
                        position: state.position,
                        payload_size: state.payload_size,
                        index: state.index,
                    },
                )
            },
            Stage::Size => Ok(
                ScanState {
                    stage: Stage::FormType,
                    position: state.position,
                    payload_size: be_u32(bytes, 0),
                    index: state.index,
                },
            ),
            Stage::FormType => if Id::at(bytes, 0) != Id(FORM_TYPE) {
                Err(Failure::UnexpectedFormType(Id::at(bytes, 0)))
            } else {
                Ok(at_chunk(12, state.payload_size, state.index))
            },
            Stage::Chunks => Ok(
                at_chunk(
                    state.position + 8 + padded(be_u32(bytes, 4)),
                    state.payload_size,
                    state.index.insert(
                        Id::at(bytes, 0),
                        IndexEntry {
                            position: (state.position + 8) as u64,
                            len: be_u32(bytes, 4) as u64,
                        },
                    ),
                ),
            ),
        }
    }
}

/// What a stream that holds `data` gives for a request.
pub open spec fn answer(data: Seq<u8>, want: (int, int)) -> Option<Seq<u8>> {
    if readable(data, want.0, want.1) {
        Some(run(data, want.0, want.1))
    } else {
        None
    }
}

/// How many of the envelope's three fields a scan has yet to read.
pub open spec fn fields_left(stage: Stage) -> nat {
    match stage {
        Stage::Marker => 3,
        Stage::Size => 2,
        Stage::FormType => 1,
        Stage::Chunks => 0,
    }
}

/// What a scan ends in when a stream that holds `data` answers each of its
/// requests: the index, or the failure that stops it.
pub open spec fn completes(data: Seq<u8>, state: ScanState) -> Result<Map<Id, IndexEntry>, Failure>
    decreases fields_left(state.stage), to_go(state.position, state.payload_size),
{
    if wanted(state) is None {
        Ok(state.index)
    } else {
        match step(state, answer(data, wanted(state).unwrap())) {
            Ok(next) => completes(data, next),
            Err(failure) => Err(failure),
        }
    }
}

/// What was read for a request, as contracts speak of it.
pub open spec fn delivered(read: Result<Vec<u8>, std::io::Error>) -> Option<Seq<u8>> {
    match read {
        Ok(bytes) => Some(bytes@),
        Err(_) => None,
    }
}

/// The scan of a container's envelope and chunk headers, between two reads.
pub struct Scan {
    stage: Stage,
    position: u64,
    payload_size: u64,
    index: ChunkIndex,
}

impl View for Scan {
    type V = ScanState;

    closed spec fn view(&self) -> ScanState {
        ScanState {
            stage: self.stage,
            position: self.position as int,
            payload_size: self.payload_size as int,
            index: self.index@,
        }
    }
}

impl Scan {
    /// A payload size is an integer of 32 bits, and the scan goes no
    /// further beyond it than one chunk.
    #[verifier::type_invariant]
    spec fn bounded(self) -> bool {
        self.payload_size <= u32::MAX && self.position <= 3 * 0x1_0000_0000
    }

    /// A scan that has read nothing yet.
    pub fn new() -> (scan: Scan)
        ensures
            scan@ == initial(),
    {
        Scan { stage: Stage::Marker, position: 0, payload_size: 0, index: ChunkIndex::new() }
    }

    /// The bytes to read next and to hand to `advance`, or `None` where the
    /// scan is done.
    pub fn request(&self) -> (request: Option<Request>)
        ensures
            match request {
                Some(want) => wanted(self@) == Some((want.position as int, want.len as int)),
                None => wanted(self@) is None,
            },
    {
        match self.stage {
            Stage::Marker => Some(Request { position: 0, len: 4 }),
            Stage::Size => Some(Request { position: 4, len: 4 }),
            Stage::FormType => Some(Request { position: 8, len: 4 }),
            Stage::Chunks => if self.position < self.payload_size {
                Some(Request { position: self.position, len: 8 })
            } else {
                None
            },
        }
    }

    /// Takes what the read of the last request gave and moves on: to the
    /// scan that asks for the next bytes, or to the failure that ends it.
    pub fn advance(self, read: Result<Vec<u8>, std::io::Error>) -> (advanced: Result<
        Scan,
        BeamFileError,
    >)
        ensures
            match advanced {
                Ok(next) => step(self@, delivered(read)) == Ok::<ScanState, Failure>(next@),
                Err(error) => step(self@, delivered(read)) == Err::<ScanState, Failure>(error@),
            },
    {
        proof {
            use_type_invariant(&self);
        }
        let want = match self.request() {
            Some(want) => want,
            None => return Ok(self),
        };
        let bytes = match read {
            Ok(bytes) => bytes,
            Err(error) => return Err(BeamFileError::Io(error)),
        };
        if (bytes.len() as u64) < want.len {
            return Err(BeamFileError::Io(unexpected_eof()));
        }
        let bytes = bytes.as_slice();
        match self.stage {
            Stage::Marker => {
                let marker = match read_id_at(bytes, 0) {
                    Ok(id) => id,
                    Err(error) => return Err(BeamFileError::Io(error)),
                };
                proof {
                    crate::id::lemma_id_is_its_bytes(marker, Id(MAGIC));
                }
                if marker != Id(MAGIC) {
                    return Err(BeamFileError::UnexpectedMagicNumber(marker));
                }
                Ok(
                    Scan {
                        stage: Stage::Size,
                        position: self.position,
                        payload_size: self.payload_size,
                        index: self.index,
                    },
                )
            },
            Stage::Size => {
                let payload_size = match read_u32_at(bytes, 0) {
                    Ok(size) => size as u64,
                    Err(error) => return Err(BeamFileError::Io(error)),
                };
                Ok(
                    Scan {
                        stage: Stage::FormType,
                        position: self.position,
                        payload_size,
                        index: self.index,
                    },
                )
            },
            Stage::FormType => {
                let form_type = match read_id_at(bytes, 0) {
                    Ok(id) => id,
                    Err(error) => return Err(BeamFileError::Io(error)),
                };
                proof {
                    crate::id::lemma_id_is_its_bytes(form_type, Id(FORM_TYPE));
                }
                if form_type != Id(FORM_TYPE) {
                    return Err(BeamFileError::UnexpectedFormType(form_type));
                }
                Ok(
                    Scan {
                        stage: Stage::Chunks,
                        position: 12,
                        payload_size: self.payload_size,
                        index: self.index,
                    },
                )
            },
            Stage::Chunks => {
                let chunk_id = match read_id_at(bytes, 0) {
                    Ok(id) => id,
                    Err(error) => return Err(BeamFileError::Io(error)),
                };
                let chunk_len = match read_u32_at(bytes, 4) {
                    Ok(len) => len as u64,
                    Err(error) => return Err(BeamFileError::Io(error)),
                };
                let mut index = self.index;
                index.insert(chunk_id, IndexEntry { position: self.position + 8, len: chunk_len });
                Ok(
                    Scan {
                        stage: Stage::Chunks,
                        position: self.position + 8 + 4 * ((chunk_len + 4 - 1) / 4),
                        payload_size: self.payload_size,
                        index,
                    },
                )
            },
        }
    }

    /// The index of the chunk headers read so far: the index of the
    /// container, where the scan is done.
    pub fn into_index(self) -> (index: ChunkIndex)
        ensures
            index@ == self@.index,
    {
        self.index
    }
}

/// A scan that stands before a chunk header ends as the scan of the bytes
/// from there does.
proof fn lemma_chunks_complete(
    data: Seq<u8>,
    position: int,
    payload_size: int,
    index: Map<Id, IndexEntry>,
)
    requires
        0 <= position,
    ensures
        completes(data, at_chunk(position, payload_size, index)) == scan(
            data,
            position,
            payload_size,
            index,
        ),
    decreases to_go(position, payload_size),
{
    if position < payload_size && readable(data, position, 8) {
        let bytes = run(data, position, 8);
        assert(Id::at(bytes, 0).0 =~= Id::at(data, position).0);
        assert(be_u32(bytes, 4) == be_u32(data, position + 4));
        let len = be_u32(data, position + 4);
        let entry = IndexEntry { position: (position + 8) as u64, len: len as u64 };
        lemma_chunks_complete(
            data,
            position + 8 + padded(len),
            payload_size,
            index.insert(Id::at(data, position), entry),
        );
    }
}

/// A scan whose requests are answered by a stream that holds `data` ends in
/// the chunk index of `data`, or in the failure that reading `data` meets:
/// whoever runs the loop, the result is that of the container's bytes.
pub proof fn lemma_scan_is_directory(data: Seq<u8>)
    ensures
        completes(data, initial()) == directory(data),
{
    reveal_with_fuel(completes, 4);
    if readable(data, 0, 4) {
        assert(Id::at(run(data, 0, 4), 0).0 =~= Id::at(data, 0).0);
        if Id::at(data, 0) == Id(MAGIC) && readable(data, 4, 4) {
            assert(be_u32(run(data, 4, 4), 0) == be_u32(data, 4));
            if readable(data, 8, 4) {
                assert(Id::at(run(data, 8, 4), 0).0 =~= Id::at(data, 8).0);
                lemma_chunks_complete(data, 12, be_u32(data, 4), Map::empty());
            }
        }
    }
}

} // verus!
