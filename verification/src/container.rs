//! The container around a property stream: a signature, two sizes, the kind
//! of compression, and the payload.

use vstd::prelude::*;
use crate::cursor::Cursor;
use crate::error::{ErrorModel, FormatError};
use crate::le::{le_bytes, le_value, lemma_le_value_of_bytes, lemma_pow256_values, write_le};

verus! {

/// The four bytes at the start of a container, read as one little-endian
/// number: the letters `GVAS`.
pub const CONTAINER_MAGIC: u32 = 0x5341_5647;

/// The number of bytes in front of the payload.
pub const CONTAINER_HEADER: usize = 13;

/// What `miniz_oxide::inflate::decompress_to_vec_with_limit` makes of a raw
/// deflate stream that may grow to `limit` bytes, if it accepts the stream.
pub uninterp spec fn inflated(stream: Seq<u8>, limit: nat) -> Option<Seq<u8>>;

/// `decompress_to_vec_with_limit` of miniz_oxide: whether it accepts a stream
/// within a limit, and the bytes it then gives, are a matter of the stream and
/// the limit alone.
#[verifier::external_body]
fn inflate(stream: &[u8], limit: usize) -> (r: Option<Vec<u8>>)
    ensures
        match r {
            Some(bytes) => inflated(stream@, limit as nat) == Some(bytes@),
            None => inflated(stream@, limit as nat) is None,
        },
{
    match miniz_oxide::inflate::decompress_to_vec_with_limit(stream, limit) {
        Ok(bytes) => Some(bytes),
        Err(_) => None,
    }
}

/// What a payload holds under a kind of compression: itself, the content of
/// the deflate stream that it is, or the content of the deflate stream that
/// the content of the deflate stream that it is holds.
pub open spec fn unpacked(kind: u8, payload: Seq<u8>, size: nat) -> Option<Seq<u8>> {
    if kind == 0 {
        Some(payload)
    } else if kind == 1 {
        inflated(payload, size)
    } else {
        match inflated(payload, usize::MAX as nat) {
            Some(inner) => inflated(inner, size),
            None => None,
        }
    }
}

/// The bytes that were unpacked, if there are any and they are as many as
/// were declared.
pub open spec fn sized(content: Option<Seq<u8>>, declared: nat) -> Result<Seq<u8>, ErrorModel> {
    match content {
        Some(bytes) => if bytes.len() == declared {
            Ok(bytes)
        } else {
            Err(ErrorModel::SizeMismatch)
        },
        None => Err(ErrorModel::SizeMismatch),
    }
}

/// The property stream that a container holds.
pub open spec fn container_payload(file: Seq<u8>) -> Result<Seq<u8>, ErrorModel> {
    if file.len() < 4 {
        Err(ErrorModel::Truncated)
    } else if le_value(file.subrange(0, 4)) != CONTAINER_MAGIC {
        Err(ErrorModel::BadMagic)
    } else if file.len() < 13 {
        Err(ErrorModel::Truncated)
    } else if file[12] > 2 {
        Err(ErrorModel::BadMagic)
    } else if file.len() - 13 < le_value(file.subrange(8, 12)) {
        Err(ErrorModel::Truncated)
    } else if file.len() - 13 > le_value(file.subrange(8, 12)) {
        Err(ErrorModel::SizeMismatch)
    } else {
        sized(
            unpacked(file[12], file.subrange(13, file.len() as int), le_value(file.subrange(4, 8))),
            le_value(file.subrange(4, 8)),
        )
    }
}

/// The container that holds a property stream without compression.
pub open spec fn plain_container(stream: Seq<u8>) -> Seq<u8> {
    le_bytes(CONTAINER_MAGIC as nat, 4) + le_bytes(stream.len(), 4) + le_bytes(stream.len(), 4)
        + seq![0u8] + stream
}

/// What an unpacked payload, or the failure to unpack one, holds.
pub open spec fn bytes_outcome(r: Result<Vec<u8>, FormatError>) -> Result<Seq<u8>, ErrorModel> {
    match r {
        Ok(bytes) => Ok(bytes@),
        Err(e) => Err(e@),
    }
}

/// The view of optional bytes.
pub open spec fn optional_bytes(bytes: Option<Vec<u8>>) -> Option<Seq<u8>> {
    match bytes {
        Some(b) => Some(b@),
        None => None,
    }
}

/// Holds what was unpacked against the declared size.
pub fn check_size(content: Option<Vec<u8>>, declared: u32) -> (r: Result<Vec<u8>, FormatError>)
    ensures
        bytes_outcome(r) == sized(optional_bytes(content), declared as nat),
{
    match content {
        Some(bytes) => {
            if bytes.len() == declared as usize {
                Ok(bytes)
            } else {
                Err(FormatError::SizeMismatch)
            }
        },
        None => Err(FormatError::SizeMismatch),
    }
}

/// Unpacks a payload by its kind of compression.
pub fn unpack(kind: u8, payload: &[u8], size: u32) -> (r: Option<Vec<u8>>)
    ensures
        optional_bytes(r) == unpacked(kind, payload@, size as nat),
{
    if kind == 0 {
        Some(vstd::slice::slice_to_vec(payload))
    } else if kind == 1 {
        inflate(payload, size as usize)
    } else {
        match inflate(payload, usize::MAX) {
            Some(inner) => inflate(inner.as_slice(), size as usize),
            None => None,
        }
    }
}

/// Strips the container from the bytes of a file and gives the property
/// stream inside.
pub fn open_container(file: &[u8]) -> (r: Result<Vec<u8>, FormatError>)
    ensures
        bytes_outcome(r) == container_payload(file@),
{
    proof {
        lemma_pow256_values();
    }
    let mut cursor = Cursor::new(file);
    let magic = match cursor.read_u32() {
        Err(e) => {
            return Err(e);
        },
        Ok(v) => v,
    };
    if magic != CONTAINER_MAGIC {
        return Err(FormatError::BadMagic);
    }
    let uncompressed_size = match cursor.read_u32() {
        Err(e) => {
            return Err(e);
        },
        Ok(v) => v,
    };
    let compressed_size = match cursor.read_u32() {
        Err(e) => {
            return Err(e);
        },
        Ok(v) => v,
    };
    let kind = match cursor.read_u8() {
        Err(e) => {
            return Err(e);
        },
        Ok(v) => v,
    };
    proof {
        reveal_with_fuel(le_value, 2);
        assert(file@.subrange(12, 13).drop_first() =~= Seq::<u8>::empty());
        assert(le_value(file@.subrange(12, 13)) == file@[12]);
    }
    if kind > 2 {
        return Err(FormatError::BadMagic);
    }
    let rest: usize = cursor.remaining();
    if rest < compressed_size as usize {
        return Err(FormatError::Truncated);
    }
    if rest > compressed_size as usize {
        return Err(FormatError::SizeMismatch);
    }
    let payload = vstd::slice::slice_subrange(file, CONTAINER_HEADER, file.len());
    check_size(unpack(kind, payload, uncompressed_size), uncompressed_size)
}

/// Wraps a property stream in a container without compression; none where
/// the stream is too long for the size fields.
pub fn pack_container(stream: &[u8]) -> (r: Option<Vec<u8>>)
    ensures
        r is Some == (stream@.len() <= u32::MAX),
        r matches Some(file) ==> file@ == plain_container(stream@),
{
    if stream.len() > 0xffff_ffff {
        return None;
    }
    let mut file: Vec<u8> = Vec::new();
    write_le(&mut file, CONTAINER_MAGIC as u64, 4);
    write_le(&mut file, stream.len() as u64, 4);
    write_le(&mut file, stream.len() as u64, 4);
    file.push(0u8);
    file.extend_from_slice(stream);
    assert(file@ =~= plain_container(stream@));
    Some(file)
}

/// A stream that was packed without compression is what opening the
/// container gives.
pub proof fn law_pack_then_open(stream: Seq<u8>)
    requires
        stream.len() <= u32::MAX,
    ensures
        container_payload(plain_container(stream)) == Ok::<Seq<u8>, ErrorModel>(stream),
{
    lemma_pow256_values();
    let file = plain_container(stream);
    let magic = le_bytes(CONTAINER_MAGIC as nat, 4);
    let size = le_bytes(stream.len(), 4);
    crate::le::lemma_le_bytes_len(CONTAINER_MAGIC as nat, 4);
    crate::le::lemma_le_bytes_len(stream.len(), 4);
    lemma_le_value_of_bytes(CONTAINER_MAGIC as nat, 4);
    lemma_le_value_of_bytes(stream.len(), 4);
    assert(file.subrange(0, 4) =~= magic);
    assert(file.subrange(4, 8) =~= size);
    assert(file.subrange(8, 12) =~= size);
    assert(file[12] == 0u8);
    assert(file.subrange(13, file.len() as int) =~= stream);
}

} // verus!
