//! The pattern databases as bytes, for keeping them between runs: a table is
//! stored as the number of its entries, in eight bytes with the lowest
//! first, followed by the entries.
use super::LookupTable;
use bincode::ErrorKind;
use vstd::prelude::*;

verus! {

/// Why bytes could not be turned into a table, or a table into bytes.
#[derive(Clone, Copy, PartialEq, Eq, Structural, Debug)]
pub enum TableError {
    /// The encoder or the decoder gave an error.
    Codec,
    /// The bytes hold a table of another length than the one asked for.
    Length,
}

/// The error of the `bincode` crate. Nothing is read from it.
#[verifier::external_type_specification]
#[verifier::external_body]
pub struct ExErrorKind(ErrorKind);

/// What `bincode::serialize` returns for a vector of the given bytes: the
/// encoding, or `None` where it returns an error.
pub uninterp spec fn bincode_encoding(bytes: Seq<u8>) -> Option<Seq<u8>>;

/// What `bincode::deserialize` into a vector of bytes returns for the given
/// data: the vector, or `None` where it returns an error.
pub uninterp spec fn bincode_decoding(data: Seq<u8>) -> Option<Seq<u8>>;

/// 256 to the power `i`.
pub open spec fn byte_weight(i: nat) -> nat
    decreases i,
{
    if i == 0 {
        1
    } else {
        256 * byte_weight((i - 1) as nat)
    }
}

/// The number `n` in eight bytes, the lowest first.
pub open spec fn length_prefix(n: nat) -> Seq<u8> {
    Seq::new(8, |i: int| ((n / byte_weight(i as nat)) % 256) as u8)
}

/// The bytes with their number in front.
pub open spec fn framed(bytes: Seq<u8>) -> Seq<u8> {
    length_prefix(bytes.len()) + bytes
}

/// Calls `bincode::serialize` on a vector of bytes. The crate documents
/// that its functions write integers with a fixed width and the lowest byte
/// first, and a sequence as its length in eight bytes followed by its
/// elements; so where bytes come back they are the vector's bytes with their
/// number in front. When an error comes back instead is not stated.
#[verifier::external_body]
fn serialize_bytes(bytes: &Vec<u8>) -> (r: Result<Vec<u8>, Box<ErrorKind>>)
    ensures
        (match r {
            Ok(out) => Some(out@),
            Err(_) => None,
        }) == bincode_encoding(bytes@),
        r matches Ok(out) ==> out@ == framed(bytes@),
{
    bincode::serialize(bytes)
}

/// Calls `bincode::deserialize` for a vector of bytes. By what the crate
/// documents of its encoding, data from which a vector comes back start
/// with that vector's bytes with their number in front; bytes after them
/// are allowed. When an error comes back instead is not stated.
#[verifier::external_body]
fn deserialize_bytes(data: &[u8]) -> (r: Result<Vec<u8>, Box<ErrorKind>>)
    ensures
        (match r {
            Ok(bytes) => Some(bytes@),
            Err(_) => None,
        }) == bincode_decoding(data@),
        r matches Ok(bytes) ==> framed(bytes@).is_prefix_of(data@),
{
    bincode::deserialize(data)
}

/// What becomes of an encoder's result: its bytes, or a codec error.
pub fn bytes_from_encoded(encoded: Result<Vec<u8>, Box<ErrorKind>>) -> (r: Result<
    Vec<u8>,
    TableError,
>)
    ensures
        match encoded {
            Ok(out) => r == Ok::<Vec<u8>, TableError>(out),
            Err(_) => r == Err::<Vec<u8>, TableError>(TableError::Codec),
        },
{
    match encoded {
        Ok(out) => Ok(out),
        Err(_) => Err(TableError::Codec),
    }
}

/// What becomes of a decoder's result where a table of `len` entries is
/// asked for: the table, where the decoder gave a vector of that length; a
/// length error, where it gave a vector of another length; a codec error,
/// where it gave an error.
pub fn table_from_decoded(decoded: Result<Vec<u8>, Box<ErrorKind>>, len: usize) -> (r: Result<
    LookupTable,
    TableError,
>)
    ensures
        match decoded {
            Ok(bytes) => if bytes@.len() == len {
                r matches Ok(table) && table@ == bytes@
            } else {
                r matches Err(e) && e == TableError::Length
            },
            Err(_) => r matches Err(e) && e == TableError::Codec,
        },
{
    match decoded {
        Ok(bytes) => {
            if bytes.len() == len {
                Ok(LookupTable(bytes))
            } else {
                Err(TableError::Length)
            }
        },
        Err(_) => Err(TableError::Codec),
    }
}

/// The table as bytes: its entries with their number in front.
pub fn encode_table(table: &LookupTable) -> (r: Result<Vec<u8>, TableError>)
    ensures
        match r {
            Ok(out) => bincode_encoding(table@) == Some(out@) && out@ == framed(table@),
            Err(e) => bincode_encoding(table@) is None && e == TableError::Codec,
        },
{
    bytes_from_encoded(serialize_bytes(&table.0))
}

/// The table of `len` entries that the data hold. Data that give a table
/// start with the table's entries with their number in front.
pub fn decode_table(data: &[u8], len: usize) -> (r: Result<LookupTable, TableError>)
    ensures
        match r {
            Ok(table) => {
                &&& bincode_decoding(data@) == Some(table@)
                &&& table@.len() == len
                &&& framed(table@).is_prefix_of(data@)
            },
            Err(TableError::Length) => bincode_decoding(data@) matches Some(bytes) && bytes.len()
                != len,
            Err(TableError::Codec) => bincode_decoding(data@) is None,
        },
{
    table_from_decoded(deserialize_bytes(data), len)
}

/// Bytes that start with a table's entries and their number in front hold
/// no other table: what is read back from what was written is what was
/// written.
pub proof fn lemma_framed_is_unique(a: Seq<u8>, b: Seq<u8>, data: Seq<u8>)
    requires
        framed(a).is_prefix_of(data),
        framed(b).is_prefix_of(data),
        a.len() == b.len(),
    ensures
        a == b,
{
    assert forall|i: int| 0 <= i < a.len() implies a[i] == b[i] by {
        assert(framed(a)[8 + i] == a[i]);
        assert(framed(b)[8 + i] == b[i]);
        assert(framed(a)[8 + i] == data[8 + i]);
        assert(framed(b)[8 + i] == data[8 + i]);
    }
    assert(a =~= b);
}

} // verus!
