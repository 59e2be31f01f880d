//! Chunk identifiers.

use crate::wire::from_utf8;
use vstd::prelude::*;
use vstd::std_specs::cmp::PartialEqSpecImpl;
use vstd::std_specs::convert::FromSpecImpl;
use vstd::utf8::{decode_utf8, valid_utf8};

verus! {

/// The identifier which indicates the type of a chunk: four raw bytes, used
/// as an opaque key.
#[derive(Eq, PartialOrd, Ord, Hash, Clone, Copy, Debug)]
pub struct Id(pub [u8; 4]);

impl View for Id {
    type V = Seq<u8>;

    open spec fn view(&self) -> Seq<u8> {
        self.0@
    }
}

impl PartialEq for Id {
    fn eq(&self, other: &Id) -> (same: bool) {
        self.0[0] == other.0[0] && self.0[1] == other.0[1] && self.0[2] == other.0[2]
            && self.0[3] == other.0[3]
    }
}

impl PartialEqSpecImpl for Id {
    open spec fn obeys_eq_spec() -> bool {
        true
    }

    open spec fn eq_spec(&self, other: &Id) -> bool {
        self.same_bytes(*other)
    }
}

impl From<[u8; 4]> for Id {
    fn from(data: [u8; 4]) -> (id: Id) {
        Id(data)
    }
}

impl FromSpecImpl<[u8; 4]> for Id {
    open spec fn obeys_from_spec() -> bool {
        true
    }

    open spec fn from_spec(data: [u8; 4]) -> Id {
        Id(data)
    }
}

/// The text that `std` writes for a string with `{:?}`: the string between
/// double quotes, with escapes for what would not show.
pub uninterp spec fn debug_of_text(text: Seq<char>) -> Seq<char>;

/// The decimal digit `d` as a character.
pub open spec fn digit(d: int) -> char
    recommends
        0 <= d < 10,
{
    seq!['0', '1', '2', '3', '4', '5', '6', '7', '8', '9'][d]
}

/// The number `byte` in decimal digits, without leading zeros.
pub open spec fn decimal(byte: u8) -> Seq<char> {
    if byte < 10 {
        seq![digit(byte as int)]
    } else if byte < 100 {
        seq![digit((byte / 10) as int), digit((byte % 10) as int)]
    } else {
        seq![
            digit((byte / 100) as int),
            digit((byte / 10 % 10) as int),
            digit((byte % 10) as int),
        ]
    }
}

/// The numbers of `bytes` in decimal digits, with a comma and a space
/// between each two.
pub open spec fn numbers(bytes: Seq<u8>) -> Seq<char>
    decreases bytes.len(),
{
    if bytes.len() == 0 {
        Seq::empty()
    } else if bytes.len() == 1 {
        decimal(bytes[0])
    } else {
        decimal(bytes[0]) + seq![',', ' '] + numbers(bytes.drop_first())
    }
}

/// The text that `std` writes for a slice of bytes with `{:?}`: their
/// numbers between square brackets, `[255, 0, 1, 2]`.
pub open spec fn debug_of_bytes(bytes: Seq<u8>) -> Seq<char> {
    seq!['['] + numbers(bytes) + seq![']']
}

/// `std`'s `format!` with `{:?}` on a string. Its result is named, not
/// stated: `debug_of_text` of the string.
#[verifier::external_body]
fn debug_text(text: &str) -> (shown: String)
    ensures
        shown@ == debug_of_text(text@),
{
    format!("{:?}", text)
}

/// `std`'s `format!` with `{:?}` on a slice of bytes. It is claimed to
/// write an opening square bracket, the number of each byte in decimal
/// digits with a comma and a space between each two, and a closing square
/// bracket.
#[verifier::external_body]
fn debug_bytes(bytes: &[u8]) -> (shown: String)
    ensures
        shown@ == debug_of_bytes(bytes@),
{
    format!("{:?}", bytes)
}

impl Id {
    /// How an identifier is shown: as a byte string literal where its bytes
    /// are UTF-8 text, as a list of numbers where they are not.
    pub open spec fn description(self) -> Seq<char> {
        if valid_utf8(self@) {
            seq!['b'] + debug_of_text(decode_utf8(self@))
        } else {
            debug_of_bytes(self@)
        }
    }

    /// Shows the identifier: `b"Code"` for the bytes of `Code`.
    pub fn describe(&self) -> (text: String)
        ensures
            text@ == self.description(),
    {
        match from_utf8(self.0.as_slice()) {
            Ok(name) => {
                proof {
                    vstd::utf8::encode_utf8_decode_utf8(name@);
                    reveal_strlit("b");
                    assert("b"@ =~= seq!['b']);
                }
                "b".to_string().concat(debug_text(name).as_str())
            },
            Err(_) => debug_bytes(self.0.as_slice()),
        }
    }

    /// What `==` computes: the four bytes agree, one by one.
    pub open spec fn same_bytes(self, other: Id) -> bool {
        self.0[0] == other.0[0] && self.0[1] == other.0[1] && self.0[2] == other.0[2]
            && self.0[3] == other.0[3]
    }

    /// The identifier made of the four bytes of `data` that start at `pos`.
    pub open spec fn at(data: Seq<u8>, pos: int) -> Id
        recommends
            0 <= pos,
            pos + 4 <= data.len(),
    {
        Id([data[pos], data[pos + 1], data[pos + 2], data[pos + 3]])
    }

    /// The four bytes of the identifier.
    pub fn bytes(&self) -> (bytes: [u8; 4])
        ensures
            bytes == self.0,
    {
        self.0
    }
}

/// An identifier is its four bytes and nothing more: two identifiers are the
/// same value exactly when `==` finds their bytes equal.
pub proof fn lemma_id_is_its_bytes(a: Id, b: Id)
    ensures
        a@.len() == 4,
        (a == b) <==> a.same_bytes(b),
        (a == b) <==> (a@ == b@),
{
    if a.same_bytes(b) {
        assert(a.0 =~= b.0);
    }
    if a@ == b@ {
        assert(a.0 =~= b.0);
    }
}

} // verus!
