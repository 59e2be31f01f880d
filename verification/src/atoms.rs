//! The atom table: a count, then for each atom one byte for the length of
//! its name and the name as UTF-8 text.

use crate::error::{BeamFileError, Failure};
use crate::interner::{names_of, Interner};
use crate::wire::{
    be_bytes, be_u32, from_utf8, lemma_be_bytes_of_u32, lemma_be_u32_of_bytes, lemma_run_split,
    read_slice_at, read_u32_at, read_u8_at, readable, run,
};
use vstd::prelude::*;
use vstd::string::StringSliceAdditionalSpecFns;
use vstd::utf8::{decode_utf8, encode_utf8, valid_utf8};

verus! {

/// `names` before what `tail` holds, or the failure of `tail`.
pub open spec fn after(names: Seq<Seq<char>>, tail: Result<Seq<Seq<char>>, Failure>) -> Result<
    Seq<Seq<char>>,
    Failure,
> {
    match tail {
        Ok(more) => Ok(names + more),
        Err(failure) => Err(failure),
    }
}

/// The names of the `count` atoms whose entries start at `pos` in `raw`, or
/// the failure that reading them in order meets first.
pub open spec fn names_from(raw: Seq<u8>, pos: int, count: nat) -> Result<Seq<Seq<char>>, Failure>
    decreases count,
{
    if count == 0 {
        Ok(Seq::empty())
    } else if !readable(raw, pos, 1) {
        Err(Failure::Io)
    } else if !readable(raw, pos + 1, raw[pos] as int) {
        Err(Failure::Io)
    } else if !valid_utf8(run(raw, pos + 1, raw[pos] as int)) {
        Err(Failure::InvalidAtom)
    } else {
        after(
            seq![decode_utf8(run(raw, pos + 1, raw[pos] as int))],
            names_from(raw, pos + 1 + raw[pos], (count - 1) as nat),
        )
    }
}

/// The names in the atom table `raw`, in the order of the table, or the
/// failure that reading the table meets first. Bytes after the last entry
/// are not looked at.
pub open spec fn atom_names(raw: Seq<u8>) -> Result<Seq<Seq<char>>, Failure> {
    if !readable(raw, 0, 4) {
        Err(Failure::Io)
    } else {
        names_from(raw, 4, be_u32(raw, 0) as nat)
    }
}

/// Decodes the atom table `raw` and interns each name, in the order of the
/// table.
pub fn decode_atoms<I: Interner>(raw: &[u8], interner: &I) -> (decoded: Result<
    Vec<I::Atom>,
    BeamFileError,
>)
    ensures
        match decoded {
            Ok(atoms) => atom_names(raw@) == Ok::<Seq<Seq<char>>, Failure>(
                names_of(interner, atoms@),
            ),
            Err(error) => atom_names(raw@) == Err::<Seq<Seq<char>>, Failure>(error@),
        },
{
    let count = match read_u32_at(raw, 0) {
        Ok(count) => count,
        Err(error) => return Err(BeamFileError::Io(error)),
    };
    let total = raw.len();
    let mut atoms: Vec<I::Atom> = Vec::new();
    let mut pos: usize = 4;
    let mut i: u32 = 0;
    while i < count
        invariant
            i <= count,
            pos <= raw@.len() == total,
            atom_names(raw@) == after(
                names_of(interner, atoms@),
                names_from(raw@, pos as int, (count - i) as nat),
            ),
        decreases count - i,
    {
        let len = match read_u8_at(raw, pos) {
            Ok(len) => len as usize,
            Err(error) => return Err(BeamFileError::Io(error)),
        };
        let bytes = match read_slice_at(raw, pos + 1, len) {
            Ok(bytes) => bytes,
            Err(error) => return Err(BeamFileError::Io(error)),
        };
        let name = match from_utf8(bytes) {
            Ok(name) => name,
            Err(error) => return Err(BeamFileError::InvalidAtom(error)),
        };
        let ghost before = names_of(interner, atoms@);
        let ghost tail = names_from(raw@, pos + 1 + len, (count - i - 1) as nat);
        atoms.push(interner.intern(name));
        proof {
            vstd::utf8::encode_utf8_decode_utf8(name@);
            assert(names_of(interner, atoms@) =~= before + seq![name@]);
            match tail {
                Ok(more) => {
                    assert(before + (seq![name@] + more) =~= (before + seq![name@]) + more);
                },
                Err(_) => {},
            }
        }
        pos = pos + 1 + len;
        i += 1;
    }
    proof {
        assert(names_of(interner, atoms@) + Seq::<Seq<char>>::empty() =~= names_of(
            interner,
            atoms@,
        ));
    }
    Ok(atoms)
}

/// The entries that spell `names` in an atom table: for each name one byte
/// for the length of its text, and the text as UTF-8.
pub open spec fn entries(names: Seq<Seq<char>>) -> Seq<u8>
    decreases names.len(),
{
    if names.len() == 0 {
        Seq::empty()
    } else {
        seq![encode_utf8(names[0]).len() as u8] + encode_utf8(names[0]) + entries(
            names.drop_first(),
        )
    }
}

/// The atom table that spells `names`: their count, then their entries.
pub open spec fn atom_table_bytes(names: Seq<Seq<char>>) -> Seq<u8> {
    be_bytes(names.len() as int) + entries(names)
}

/// Whether the text of each of `names` fits in the 255 bytes that an entry
/// can hold.
pub open spec fn short(names: Seq<Seq<char>>) -> bool {
    forall|i: int| 0 <= i < names.len() ==> (#[trigger] encode_utf8(names[i])).len() <= 255
}

/// Whether an atom table can spell `names`: their count fits in 32 bits,
/// and the text of each in an entry.
pub open spec fn spellable(names: Seq<Seq<char>>) -> bool {
    names.len() <= u32::MAX && short(names)
}

/// The entries that were decoded spell the names again, byte for byte and
/// in their order: where `count` entries at `pos` decode to `names`, the
/// bytes at `pos` are the entries of `names`.
pub proof fn lemma_entries_reencode(raw: Seq<u8>, pos: int, count: nat)
    requires
        0 <= pos,
        names_from(raw, pos, count) is Ok,
    ensures
        names_from(raw, pos, count).unwrap().len() == count,
        short(names_from(raw, pos, count).unwrap()),
        readable(raw, pos, entries(names_from(raw, pos, count).unwrap()).len() as int),
        run(raw, pos, entries(names_from(raw, pos, count).unwrap()).len() as int) == entries(
            names_from(raw, pos, count).unwrap(),
        ),
    decreases count,
{
    let names = names_from(raw, pos, count).unwrap();
    if count == 0 {
        assert(run(raw, pos, 0) =~= Seq::<u8>::empty());
    } else {
        let len = raw[pos] as int;
        let text = run(raw, pos + 1, len);
        let next = pos + 1 + len;
        let more = names_from(raw, next, (count - 1) as nat).unwrap();
        let tail = entries(more);
        lemma_entries_reencode(raw, next, (count - 1) as nat);
        assert(names == seq![decode_utf8(text)] + more);
        assert(names.drop_first() =~= more);
        assert(encode_utf8(names[0]) == text) by {
            vstd::utf8::decode_utf8_encode_utf8(text);
        }
        assert(entries(names) == seq![len as u8] + text + tail);
        assert(run(raw, pos, 1) =~= seq![len as u8]);
        lemma_run_split(raw, pos + 1, len, tail.len() as int);
        lemma_run_split(raw, pos, 1, len + tail.len());
        assert(seq![len as u8] + (text + tail) =~= seq![len as u8] + text + tail);
        assert forall|i: int| 0 <= i < names.len() implies (#[trigger] encode_utf8(
            names[i],
        )).len() <= 255 by {
            if i > 0 {
                assert(names[i] == more[i - 1]);
            }
        }
    }
}

/// Decoding an atom table and spelling the names again gives back the
/// table, byte for byte: the names keep their order and their text. What
/// follows the last entry in `raw` is no part of the table.
pub proof fn lemma_atom_table_reencodes(raw: Seq<u8>)
    requires
        atom_names(raw) is Ok,
    ensures
        spellable(atom_names(raw).unwrap()),
        readable(raw, 0, atom_table_bytes(atom_names(raw).unwrap()).len() as int),
        run(raw, 0, atom_table_bytes(atom_names(raw).unwrap()).len() as int) == atom_table_bytes(
            atom_names(raw).unwrap(),
        ),
{
    let names = atom_names(raw).unwrap();
    let count = be_u32(raw, 0);
    lemma_be_u32_of_bytes(raw, 0);
    lemma_entries_reencode(raw, 4, count as nat);
    lemma_run_split(raw, 0, 4, entries(names).len() as int);
    assert(run(raw, 0, 4) =~= raw.subrange(0, 4));
}

/// Entries that spell `names` decode to `names`, whatever follows them.
pub proof fn lemma_entries_decode(raw: Seq<u8>, pos: int, names: Seq<Seq<char>>)
    requires
        0 <= pos,
        short(names),
        readable(raw, pos, entries(names).len() as int),
        run(raw, pos, entries(names).len() as int) == entries(names),
    ensures
        names_from(raw, pos, names.len()) == Ok::<Seq<Seq<char>>, Failure>(names),
    decreases names.len(),
{
    if names.len() == 0 {
        assert(names =~= Seq::<Seq<char>>::empty());
    } else {
        let text = encode_utf8(names[0]);
        let len = text.len() as int;
        let more = names.drop_first();
        let tail = entries(more);
        let next = pos + 1 + len;
        assert(entries(names) == seq![len as u8] + text + tail);
        assert(seq![len as u8] + (text + tail) =~= seq![len as u8] + text + tail);
        lemma_run_split(raw, pos, 1, len + tail.len());
        lemma_run_split(raw, pos + 1, len, tail.len() as int);
        let head = run(raw, pos, 1);
        let rest_run = run(raw, pos + 1, len + tail.len());
        assert(head + rest_run == seq![len as u8] + (text + tail));
        assert(head =~= seq![len as u8] && rest_run =~= text + tail) by {
            assert(head.len() == 1);
            assert(head[0] == (head + rest_run)[0]);
            assert forall|i: int| 0 <= i < rest_run.len() implies rest_run[i] == (text + tail)[i] by {
                assert(rest_run[i] == (head + rest_run)[i + 1]);
            }
        }
        assert(raw[pos] == head[0]);
        assert(run(raw, pos + 1, len) =~= text && run(raw, next, tail.len() as int) =~= tail) by {
            let a = run(raw, pos + 1, len);
            let b = run(raw, next, tail.len() as int);
            assert(a + b == text + tail);
            assert forall|i: int| 0 <= i < len implies a[i] == text[i] by {
                assert(a[i] == (a + b)[i]);
            }
            assert forall|i: int| 0 <= i < tail.len() implies b[i] == tail[i] by {
                assert(b[i] == (a + b)[i + len]);
            }
        }
        vstd::utf8::encode_utf8_valid_utf8(names[0]);
        vstd::utf8::encode_utf8_decode_utf8(names[0]);
        assert(short(more)) by {
            assert forall|i: int| 0 <= i < more.len() implies (#[trigger] encode_utf8(
                more[i],
            )).len() <= 255 by {
                assert(more[i] == names[i + 1]);
            }
        }
        lemma_entries_decode(raw, next, more);
        assert(seq![names[0]] + more =~= names);
    }
}

/// The atom table that spells `names` decodes to `names`: no name is lost,
/// changed or moved.
pub proof fn lemma_atom_table_decodes(names: Seq<Seq<char>>)
    requires
        spellable(names),
    ensures
        atom_names(atom_table_bytes(names)) == Ok::<Seq<Seq<char>>, Failure>(names),
{
    let raw = atom_table_bytes(names);
    let body = entries(names);
    lemma_be_bytes_of_u32(names.len() as int);
    assert(be_u32(raw, 0) == names.len()) by {
        assert(raw[0] == be_bytes(names.len() as int)[0]);
        assert(raw[1] == be_bytes(names.len() as int)[1]);
        assert(raw[2] == be_bytes(names.len() as int)[2]);
        assert(raw[3] == be_bytes(names.len() as int)[3]);
    }
    assert(run(raw, 4, body.len() as int) =~= body);
    lemma_entries_decode(raw, 4, names);
}

} // verus!
