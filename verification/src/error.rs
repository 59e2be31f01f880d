//! The ways in which reading a container fails.

use crate::id::Id;
use vstd::prelude::*;

verus! {

/// `std::io::Error`, the error of a read that the buffer could not serve. It
/// is carried through unopened: nothing is claimed of what it holds.
#[verifier::external_type_specification]
#[verifier::external_body]
pub struct ExIoError(std::io::Error);

/// `core::str::Utf8Error`, the error that `core::str::from_utf8` returns for
/// bytes that are no UTF-8 text. It is carried through unopened.
#[verifier::external_type_specification]
#[verifier::external_body]
pub struct ExUtf8Error(core::str::Utf8Error);

/// Why a container, or one of its chunks, could not be read.
#[derive(Debug)]
pub enum BeamFileError {
    /// The container does not start with `FOR1`; holds the bytes found.
    UnexpectedMagicNumber(Id),
    /// The form type is not `BEAM`; holds the bytes found.
    UnexpectedFormType(Id),
    /// The chunk directory has no chunk with this identifier.
    MissingChunk(Id),
    /// The name of an atom is not UTF-8 text.
    InvalidAtom(core::str::Utf8Error),
    /// A chunk refers to an atom by a number that the atom table does not
    /// have; holds that number.
    InvalidAtomReference(u32),
    /// A chunk that refers to atoms was asked for before the atom table was
    /// decoded.
    AtomsNotIndexed,
    /// The bytes end before the value that was to be read.
    Io(std::io::Error),
}

/// What a `BeamFileError` says, without the values of `std` that it carries.
/// This is the error's view, and the type that contracts speak of.
#[derive(Clone, Copy, PartialEq, Eq, Debug)]
pub enum Failure {
    /// The container does not start with `FOR1`; holds the bytes found.
    UnexpectedMagicNumber(Id),
    /// The form type is not `BEAM`; holds the bytes found.
    UnexpectedFormType(Id),
    /// The chunk directory has no chunk with this identifier.
    MissingChunk(Id),
    /// The name of an atom is not UTF-8 text.
    InvalidAtom,
    /// A chunk refers to an atom by a number that the atom table does not
    /// have; holds that number.
    InvalidAtomReference(u32),
    /// A chunk that refers to atoms was asked for before the atom table was
    /// decoded.
    AtomsNotIndexed,
    /// The bytes end before the value that was to be read.
    Io,
}

impl View for BeamFileError {
    type V = Failure;

    open spec fn view(&self) -> Failure {
        match *self {
            BeamFileError::UnexpectedMagicNumber(id) => Failure::UnexpectedMagicNumber(id),
            BeamFileError::UnexpectedFormType(id) => Failure::UnexpectedFormType(id),
            BeamFileError::MissingChunk(id) => Failure::MissingChunk(id),
            BeamFileError::InvalidAtom(_) => Failure::InvalidAtom,
            BeamFileError::InvalidAtomReference(n) => Failure::InvalidAtomReference(n),
            BeamFileError::AtomsNotIndexed => Failure::AtomsNotIndexed,
            BeamFileError::Io(_) => Failure::Io,
        }
    }
}

impl BeamFileError {
    /// The failure that this error reports.
    pub fn failure(&self) -> (failure: Failure)
        ensures
            failure == self@,
    {
        match self {
            BeamFileError::UnexpectedMagicNumber(id) => Failure::UnexpectedMagicNumber(*id),
            BeamFileError::UnexpectedFormType(id) => Failure::UnexpectedFormType(*id),
            BeamFileError::MissingChunk(id) => Failure::MissingChunk(*id),
            BeamFileError::InvalidAtom(_) => Failure::InvalidAtom,
            BeamFileError::InvalidAtomReference(n) => Failure::InvalidAtomReference(*n),
            BeamFileError::AtomsNotIndexed => Failure::AtomsNotIndexed,
            BeamFileError::Io(_) => Failure::Io,
        }
    }
}

} // verus!
