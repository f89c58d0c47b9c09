use vstd::prelude::*;

use crate::cursor::{le16, le32, u16_at, u32_at};
use crate::types::{DecodeError, MbType2Pointer};

verus! {

/// Length of the descriptor that closes the inline bytes of a blob field.
pub const BLOB_DESCRIPTOR_LEN: usize = 10;

/// Length of the header of a type-2 side-file block.
pub const TYPE2_HEADER_LEN: usize = 9;

/// The trailer of an oversized field's inline bytes.
#[derive(Debug, Clone, Copy, PartialEq, Eq, Structural)]
pub struct BlobDescriptor {
    /// Offset of the payload's block in the side file, low byte cleared.
    pub offset: u32,
    /// Length of the payload.
    pub length: u32,
    /// 0: NULL; 0xff: a block of its own; other: a slot of a shared block.
    pub index: u8,
    pub mod_number: u16,
}

/// What a blob field resolves to.
#[derive(Debug, PartialEq, Eq)]
pub enum BlobValue {
    Null,
    Resolved(Vec<u8>),
    /// The payload shares a side-file block with others; that layout is not
    /// decoded.
    Unresolved,
}

/// Where the descriptor starts in inline bytes `b`.
pub open spec fn desc_start(b: Seq<u8>) -> int {
    b.len() - 10
}

pub open spec fn desc_index(b: Seq<u8>) -> u8 {
    b[desc_start(b)]
}

pub open spec fn desc_offset(b: Seq<u8>) -> int {
    le32(b, desc_start(b)) - le32(b, desc_start(b)) % 256
}

pub open spec fn desc_length(b: Seq<u8>) -> int {
    le32(b, b.len() - 6)
}

/// The descriptor held by the last ten bytes of `b`.
pub open spec fn descriptor_matches(d: BlobDescriptor, b: Seq<u8>) -> bool {
    &&& d.offset == desc_offset(b)
    &&& d.length == desc_length(b)
    &&& d.index == desc_index(b)
    &&& d.mod_number == le16(b, b.len() - 2)
}

/// The header of a type-2 block held by the nine bytes of `s` at `i`.
pub open spec fn type2_matches(p: MbType2Pointer, s: Seq<u8>, i: int) -> bool {
    &&& p.type_ == s[i]
    &&& p.size_div_4k == le16(s, i + 1)
    &&& p.length == le32(s, i + 3)
    &&& p.mod_count == le16(s, i + 7)
}

/// Reads the descriptor that closes the inline bytes `blob`; `None` when
/// `blob` is shorter than a descriptor.
pub fn parse_blob_descriptor(blob: &[u8]) -> (r: Option<BlobDescriptor>)
    ensures
        blob@.len() < 10 ==> r is None,
        blob@.len() >= 10 ==> (r matches Some(d) && descriptor_matches(d, blob@)),
{
    let len = blob.len();
    if len < BLOB_DESCRIPTOR_LEN {
        return None;
    }
    let start = len - BLOB_DESCRIPTOR_LEN;
    let raw_offset = u32_at(blob, start);
    let offset = raw_offset & 0xffff_ff00;
    assert(offset == raw_offset - raw_offset % 256) by (bit_vector)
        requires
            offset == raw_offset & 0xffff_ff00,
    ;
    Some(
        BlobDescriptor {
            offset,
            length: u32_at(blob, len - 6),
            index: blob[start],
            mod_number: u16_at(blob, len - 2),
        },
    )
}

/// Reads the header of a type-2 side-file block at `i`.
pub fn parse_type2_header(s: &[u8], i: usize) -> (r: MbType2Pointer)
    requires
        i + 9 <= s@.len(),
    ensures
        type2_matches(r, s@, i as int),
{
    MbType2Pointer {
        type_: s[i],
        size_div_4k: u16_at(s, i + 1),
        length: u32_at(s, i + 3),
        mod_count: u16_at(s, i + 7),
    }
}

/// Resolves a memo, blob or graphic field from its inline bytes `blob` and
/// the side file's bytes, if there is a side file. The inline bytes end in a
/// descriptor; with index 0xff it names a type-2 block in the side file whose
/// nine-byte header must carry type 2 and the descriptor's length, and whose
/// payload follows the header.
pub fn resolve_blob(blob: &[u8], side: Option<&[u8]>) -> (r: Result<BlobValue, DecodeError>)
    ensures
        blob@.len() < 10 ==> r == Ok::<BlobValue, DecodeError>(BlobValue::Null),
        blob@.len() >= 10 && desc_index(blob@) == 0 ==> r == Ok::<BlobValue, DecodeError>(
            BlobValue::Null,
        ),
        blob@.len() >= 10 && desc_index(blob@) != 0 && desc_index(blob@) != 0xff ==> r
            == Ok::<BlobValue, DecodeError>(BlobValue::Unresolved),
        blob@.len() >= 10 && desc_index(blob@) == 0xff && side is None ==> r == Ok::<
            BlobValue,
            DecodeError,
        >(BlobValue::Null),
        blob@.len() >= 10 && desc_index(blob@) == 0xff && side is Some ==> ({
            let s = side.unwrap()@;
            let off = desc_offset(blob@);
            let len = desc_length(blob@);
            if off > s.len() {
                r == Err::<BlobValue, DecodeError>(DecodeError::OutOfRange)
            } else if off + 9 > s.len() {
                r == Err::<BlobValue, DecodeError>(DecodeError::Truncated)
            } else if s[off] != 2 {
                r == Err::<BlobValue, DecodeError>(DecodeError::BlobTypeMismatch)
            } else if le32(s, off + 3) != len {
                r == Err::<BlobValue, DecodeError>(DecodeError::BlobLengthMismatch)
            } else if off + 9 + len > s.len() {
                r == Err::<BlobValue, DecodeError>(DecodeError::Truncated)
            } else {
                r matches Ok(BlobValue::Resolved(v)) && v@ == s.subrange(off + 9, off + 9 + len)
            }
        }),
{
    let d = match parse_blob_descriptor(blob) {
        None => return Ok(BlobValue::Null),
        Some(d) => d,
    };
    if d.index == 0 {
        return Ok(BlobValue::Null);
    }
    if d.index != 0xff {
        return Ok(BlobValue::Unresolved);
    }
    let s = match side {
        None => return Ok(BlobValue::Null),
        Some(s) => s,
    };
    let off = d.offset as usize;
    if off > s.len() {
        return Err(DecodeError::OutOfRange);
    }
    if TYPE2_HEADER_LEN > s.len() - off {
        return Err(DecodeError::Truncated);
    }
    let head = parse_type2_header(s, off);
    if head.type_ != 2 {
        return Err(DecodeError::BlobTypeMismatch);
    }
    if head.length != d.length {
        return Err(DecodeError::BlobLengthMismatch);
    }
    let start = off + TYPE2_HEADER_LEN;
    let n = d.length as usize;
    if n > s.len() - start {
        return Err(DecodeError::Truncated);
    }
    let mut v: Vec<u8> = Vec::with_capacity(n);
    let slen = s.len();
    let mut i: usize = 0;
    while i < n
        invariant
            slen == s@.len(),
            start + n <= s@.len(),
            i <= n,
            v@ == s@.subrange(start as int, start + i),
        decreases n - i,
    {
        v.push(s[start + i]);
        i = i + 1;
        assert(v@ =~= s@.subrange(start as int, start + i));
    }
    Ok(BlobValue::Resolved(v))
}

} // verus!
