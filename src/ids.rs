//! Object identities of the two stores, and hex decoding of foreign ids.

use vstd::prelude::*;

verus! {

/// A foreign object id: the 20-byte SHA-1 digest of a Git object.
#[derive(Clone, Copy, PartialEq, Eq, PartialOrd, Ord, Hash, Debug)]
pub struct ObjectId {
    pub bytes: [u8; 20],
}

impl ObjectId {
    /// Whether two ids are the same digest.
    pub fn same_as(&self, other: &ObjectId) -> (r: bool)
        ensures
            r == (*self == *other),
    {
        let mut i: usize = 0;
        while i < 20
            invariant
                i <= 20,
                forall|j: int| 0 <= j < i ==> self.bytes[j] == other.bytes[j],
            decreases 20 - i,
        {
            if self.bytes[i] != other.bytes[i] {
                return false;
            }
            i = i + 1;
        }
        proof {
            assert(self.bytes =~= other.bytes);
        }
        true
    }
}

/// A changeset id assigned by the target store.
#[derive(Clone, Copy, PartialEq, Eq, Hash, Debug)]
pub struct ChangesetId {
    pub bytes: [u8; 32],
}

/// Value of one hexadecimal digit, of either case.
pub open spec fn hex_digit_value(c: u8) -> Option<int> {
    if 0x30 <= c <= 0x39 {
        Some(c - 0x30)
    } else if 0x61 <= c <= 0x66 {
        Some(c - 0x61 + 10)
    } else if 0x41 <= c <= 0x46 {
        Some(c - 0x41 + 10)
    } else {
        None
    }
}

/// The 20 bytes that a 40-digit hexadecimal text stands for, if it is one.
pub open spec fn decode_hex_id(text: Seq<u8>) -> Option<Seq<u8>> {
    if text.len() == 40 && forall|i: int| 0 <= i < 40 ==> #[trigger] hex_digit_value(text[i]) is Some {
        Some(
            Seq::new(
                20,
                |i: int|
                    (hex_digit_value(text[2 * i])->0 * 16 + hex_digit_value(text[2 * i + 1])->0) as u8,
            ),
        )
    } else {
        None
    }
}

#[verifier::external_type_specification]
#[verifier::external_body]
pub struct ExHexDecodeError(git_hash::decode::Error);

/// Relies on git_hash::ObjectId::from_hex: a buffer of exactly 40 hexadecimal
/// digits (either case) decodes to the 20 bytes it spells, two digits per byte,
/// high digit first; any other buffer is an error.
#[verifier::external_body]
fn object_id_from_hex(text: &[u8]) -> (r: Result<ObjectId, git_hash::decode::Error>)
    ensures
        match r {
            Ok(id) => decode_hex_id(text@) == Some(id.bytes@),
            Err(_) => decode_hex_id(text@) is None,
        },
{
    match git_hash::ObjectId::from_hex(text) {
        Ok(git_hash::ObjectId::Sha1(bytes)) => Ok(ObjectId { bytes }),
        Err(e) => Err(e),
    }
}

/// Why a text is not an object id.
#[derive(Clone, Copy, PartialEq, Eq, Debug)]
pub enum IdParseError {
    /// The text is not 40 hexadecimal digits.
    NotHexId,
}

/// Parses a foreign object id written as 40 hexadecimal digits.
pub fn parse_object_id(text: &[u8]) -> (r: Result<ObjectId, IdParseError>)
    ensures
        match r {
            Ok(id) => decode_hex_id(text@) == Some(id.bytes@),
            Err(e) => decode_hex_id(text@) is None && e == IdParseError::NotHexId,
        },
{
    match object_id_from_hex(text) {
        Ok(id) => Ok(id),
        Err(_) => Err(IdParseError::NotHexId),
    }
}

} // verus!
