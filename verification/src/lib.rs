//! A reader for chunk-based BEAM containers: an envelope that holds named,
//! length-prefixed chunks, one of which is the atom table that the other
//! chunks refer to by position.
//!
//! `BeamFile` reads a container whose bytes it holds. `Scan` indexes a
//! container that lies in a stream, by the envelope and the chunk headers
//! alone: it says which bytes to read and is handed them, and ends in the
//! same index as `BeamFile` has for these bytes.

pub mod atoms;
pub mod beam_file;
pub mod chunk;
pub mod envelope;
pub mod error;
pub mod id;
pub mod index;
pub mod interner;
pub mod scan;
pub mod wire;

pub use beam_file::BeamFile;
pub use chunk::{Chunk, ExpTChunk, Export, ImpTChunk, Import};
pub use error::{BeamFileError, Failure};
pub use id::Id;
pub use index::{ChunkIndex, IndexEntry};
pub use interner::{Interner, NaiveInterner};
pub use scan::{Request, Scan};
