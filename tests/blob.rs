use pxinfo::blob::{parse_blob_descriptor, resolve_blob, BlobValue};
use pxinfo::types::DecodeError;

fn inline(index: u8, offset_hi: [u8; 3], length: u32) -> Vec<u8> {
    let mut v = vec![b'x', b'y'];
    v.push(index);
    v.extend_from_slice(&offset_hi);
    v.extend_from_slice(&length.to_le_bytes());
    v.extend_from_slice(&[0x07, 0x00]);
    v
}

fn side_file(type_tag: u8, length: u32, payload: &[u8]) -> Vec<u8> {
    let mut v = vec![0u8; 0x100];
    v.push(type_tag);
    v.extend_from_slice(&[0x01, 0x00]);
    v.extend_from_slice(&length.to_le_bytes());
    v.extend_from_slice(&[0x03, 0x00]);
    v.extend_from_slice(payload);
    v
}

#[test]
fn descriptor_fields() {
    let d = parse_blob_descriptor(&inline(0xff, [0x01, 0, 0], 5)).unwrap();
    assert_eq!(d.offset, 0x100);
    assert_eq!(d.length, 5);
    assert_eq!(d.index, 0xff);
    assert_eq!(d.mod_number, 7);
    assert_eq!(parse_blob_descriptor(&[0xff; 9]), None);
}

#[test]
fn short_inline_is_null() {
    let side = side_file(2, 5, b"hello");
    assert_eq!(resolve_blob(&[0xff; 9], Some(&side)), Ok(BlobValue::Null));
}

#[test]
fn zero_index_is_null() {
    let side = side_file(2, 5, b"hello");
    assert_eq!(resolve_blob(&inline(0, [0x01, 0, 0], 5), Some(&side)), Ok(BlobValue::Null));
}

#[test]
fn standalone_block_resolves() {
    let side = side_file(2, 5, b"hello");
    assert_eq!(
        resolve_blob(&inline(0xff, [0x01, 0, 0], 5), Some(&side)),
        Ok(BlobValue::Resolved(b"hello".to_vec()))
    );
}

#[test]
fn length_mismatch_returns_no_bytes() {
    let side = side_file(2, 6, b"hello!");
    assert_eq!(
        resolve_blob(&inline(0xff, [0x01, 0, 0], 5), Some(&side)),
        Err(DecodeError::BlobLengthMismatch)
    );
}

#[test]
fn type_mismatch() {
    let side = side_file(3, 5, b"hello");
    assert_eq!(
        resolve_blob(&inline(0xff, [0x01, 0, 0], 5), Some(&side)),
        Err(DecodeError::BlobTypeMismatch)
    );
}

#[test]
fn shared_block_is_unresolved() {
    let side = side_file(2, 5, b"hello");
    assert_eq!(
        resolve_blob(&inline(0x01, [0x01, 0, 0], 5), Some(&side)),
        Ok(BlobValue::Unresolved)
    );
}

#[test]
fn missing_side_file_is_null() {
    assert_eq!(resolve_blob(&inline(0xff, [0x01, 0, 0], 5), None), Ok(BlobValue::Null));
}

#[test]
fn side_file_too_short() {
    let side = side_file(2, 5, b"hel");
    assert_eq!(
        resolve_blob(&inline(0xff, [0x01, 0, 0], 5), Some(&side)),
        Err(DecodeError::Truncated)
    );
    assert_eq!(
        resolve_blob(&inline(0xff, [0x00, 0x10, 0], 5), Some(&side)),
        Err(DecodeError::OutOfRange)
    );
    assert_eq!(
        resolve_blob(&inline(0xff, [0x01, 0, 0], 5), Some(&side[..0x104])),
        Err(DecodeError::Truncated)
    );
}
