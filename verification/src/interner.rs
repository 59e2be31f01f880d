//! Interning: how the name of an atom becomes the value that stands for it.

use vstd::prelude::*;

verus! {

/// String interner used for reading atoms. The container's logic hands it
/// names and keeps what it returns; it never looks into an atom.
pub trait Interner {
    /// What stands for a name: an owned string, or a handle into a table.
    type Atom;

    /// The name that `atom` stands for.
    spec fn name_of(&self, atom: &Self::Atom) -> Seq<char>;

    /// Interns an atom.
    fn intern(&self, name: &str) -> (atom: Self::Atom)
        ensures
            self.name_of(&atom) == name@,
    ;

    /// Interns many atoms at once, in their order.
    ///
    /// An interner that locks a shared table can do so once for all of them.
    fn intern_many(&self, names: &[&str]) -> (atoms: Vec<Self::Atom>)
        ensures
            atoms@.len() == names@.len(),
            forall|i: int|
                0 <= i < names@.len() ==> self.name_of(&#[trigger] atoms@[i]) == names@[i]@,
    {
        let mut atoms: Vec<Self::Atom> = Vec::new();
        let mut i: usize = 0;
        while i < names.len()
            invariant
                i <= names@.len(),
                atoms@.len() == i,
                forall|j: int| 0 <= j < i ==> self.name_of(&#[trigger] atoms@[j]) == names@[j]@,
            decreases names@.len() - i,
        {
            atoms.push(self.intern(names[i]));
            i += 1;
        }
        atoms
    }
}

/// The names that `atoms` stand for, in their order.
pub open spec fn names_of<I: Interner + ?Sized>(interner: &I, atoms: Seq<I::Atom>) -> Seq<
    Seq<char>,
> {
    Seq::new(atoms.len(), |i: int| interner.name_of(&atoms[i]))
}

/// A "naive" interner that just allocates the string.
#[derive(Default)]
pub struct NaiveInterner;

impl Interner for NaiveInterner {
    type Atom = String;

    open spec fn name_of(&self, atom: &String) -> Seq<char> {
        atom@
    }

    fn intern(&self, name: &str) -> (atom: String) {
        name.to_string()
    }
}

} // verus!
