use pxinfo::cursor::ByteCursor;
use pxinfo::parse::{parse_blocks, parse_complete_header, parse_header, record_width_consistent};
use pxinfo::types::{DecodeError, PxHeader};

fn table(version: u8, file_type: u8, with_extension: bool) -> Vec<u8> {
    let mut v = vec![0u8; 0x58];
    v[0x00] = 15;
    v[0x02] = 0x00;
    v[0x03] = 0x08;
    v[0x04] = file_type;
    v[0x05] = 2;
    v[0x06..0x0a].copy_from_slice(&3u32.to_le_bytes());
    v[0x0e] = 1;
    v[0x21] = 2;
    v[0x29] = 0xb7;
    v[0x39] = version;
    if with_extension {
        let mut ext = vec![0u8; 0x20];
        ext[0x12] = 0xb5;
        ext[0x13] = 0x01;
        v.extend_from_slice(&ext);
    }
    v.extend_from_slice(&[0x01, 10, 0x04, 4]);
    v.extend_from_slice(b"ID\0Name\0");
    let mut name = vec![0u8; 79];
    name[..9].copy_from_slice(b"customers");
    v.extend_from_slice(&name);
    v
}

#[test]
fn decodes_full_header() {
    let mut cur = ByteCursor::new(table(0x0c, 0x02, true));
    let (h, fields) = parse_complete_header(&mut cur).unwrap();
    assert_eq!(h.record_size, 15);
    assert_eq!(h.header_size, 0x0800);
    assert_eq!(h.file_type, 2);
    assert_eq!(h.max_table_size, 2);
    assert_eq!(h.num_records, 3);
    assert_eq!(h.first_block, 1);
    assert_eq!(h.num_fields, 2);
    assert_eq!(h.sort_order, 0xb7);
    assert_eq!(h.file_version_id.0, 0x0c);
    assert_eq!(h.dos_global_code_page, 0x01b5);
    assert_eq!(h.table_name, b"customers".to_vec());
    assert!(!h.first_block_mismatch());
    assert_eq!(fields.len(), 2);
    assert_eq!((fields[0].field_type, fields[0].size), (1, 10));
    assert_eq!((fields[1].field_type, fields[1].size), (4, 4));
    assert_eq!(fields[0].name, b"ID".to_vec());
    assert_eq!(fields[1].name, b"Name".to_vec());
    assert_eq!(cur.remaining(), 0);
}

#[test]
fn index_file_has_no_extension() {
    let mut cur = ByteCursor::new(table(0x0c, 0x01, false));
    let (h, _) = parse_complete_header(&mut cur).unwrap();
    assert_eq!(h.dos_global_code_page, 0);
    assert_eq!(h.table_name, b"customers".to_vec());
}

#[test]
fn old_version_has_no_extension() {
    let mut cur = ByteCursor::new(table(0x04, 0x02, false));
    let (h, fields) = parse_complete_header(&mut cur).unwrap();
    assert_eq!(h.file_version_id.0, 4);
    assert_eq!(fields.len(), 2);
}

#[test]
fn every_supported_version_and_type_decodes() {
    for version in 0x03u8..=0x0c {
        for file_type in 0x00u8..=0x08 {
            let ext = version >= 0x05 && file_type != 1 && file_type != 4 && file_type != 7;
            let mut cur = ByteCursor::new(table(version, file_type, ext));
            assert!(parse_complete_header(&mut cur).is_ok(), "{} {}", version, file_type);
        }
    }
}

#[test]
fn unsupported_version_and_type() {
    let mut cur = ByteCursor::new(table(0x00, 0x02, false));
    assert_eq!(parse_complete_header(&mut cur).err(), Some(DecodeError::UnsupportedVersion));
    let mut cur = ByteCursor::new(table(0x0c, 0xff, true));
    assert_eq!(parse_complete_header(&mut cur).err(), Some(DecodeError::UnsupportedFileType));
}

#[test]
fn short_sources_are_truncated() {
    let mut cur = ByteCursor::new(vec![0u8; 0x57]);
    assert_eq!(parse_complete_header(&mut cur).err(), Some(DecodeError::Truncated));
    let mut full = table(0x0c, 0x02, true);
    full.truncate(full.len() - 1);
    let mut cur = ByteCursor::new(full);
    assert_eq!(parse_complete_header(&mut cur).err(), Some(DecodeError::Truncated));
}

#[test]
fn unterminated_field_name_is_truncated() {
    let mut v = table(0x0c, 0x02, true);
    let names = 0x78 + 4;
    v.truncate(names);
    v.extend_from_slice(b"ID\0Name");
    let mut cur = ByteCursor::new(v);
    assert_eq!(parse_complete_header(&mut cur).err(), Some(DecodeError::Truncated));
}

#[test]
fn from_reader_gives_header() {
    let mut cur = ByteCursor::new(table(0x0c, 0x02, true));
    let h = PxHeader::from_reader(&mut cur).unwrap();
    assert_eq!(h.num_records, 3);
}

#[test]
fn first_block_warning() {
    let mut v = table(0x0c, 0x02, true);
    v[0x0e] = 2;
    let mut cur = ByteCursor::new(v);
    let (h, _) = parse_complete_header(&mut cur).unwrap();
    assert!(h.first_block_mismatch());
}

fn block_header() -> PxHeader {
    let mut v = vec![0u8; 0x58];
    v[0x05] = 1;
    parse_header(&v)
}

fn blocks_source(len: usize) -> Vec<u8> {
    let mut data = vec![0u8; len];
    for (i, chunk) in data.chunks_mut(1024).enumerate() {
        if chunk.len() >= 4 {
            chunk[0] = (i + 2) as u8;
            chunk[2] = i as u8;
        }
    }
    data
}

#[test]
fn three_whole_blocks() {
    let blocks = parse_blocks(&blocks_source(3 * 1024), &block_header());
    assert_eq!(blocks.len(), 3);
    assert_eq!(blocks[1].next_block, 3);
    assert_eq!(blocks[1].prev_block, 1);
    assert_eq!(blocks[2].records, 2 * 1024 + 4);
}

#[test]
fn trailing_partial_block_is_dropped() {
    let blocks = parse_blocks(&blocks_source(3 * 1024 + 500), &block_header());
    assert_eq!(blocks.len(), 3);
    assert_eq!(parse_blocks(&blocks_source(1023), &block_header()).len(), 0);
}

#[test]
fn zero_block_size_gives_no_blocks() {
    let h = parse_header(&[0u8; 0x58]);
    assert_eq!(parse_blocks(&[0u8; 4096], &h).len(), 0);
}

#[test]
fn cursor_reads_and_seeks() {
    let mut cur = ByteCursor::new(b"ab\0cd".to_vec());
    assert_eq!(cur.read_until_nul(), Ok(b"ab".to_vec()));
    assert_eq!(cur.read(2), Ok(b"cd".to_vec()));
    assert_eq!(cur.read(1), Err(DecodeError::Truncated));
    assert_eq!(cur.seek(6), Err(DecodeError::OutOfRange));
    assert_eq!(cur.seek(3), Ok(()));
    assert_eq!(cur.read_until_nul(), Err(DecodeError::Truncated));
    assert_eq!(cur.remaining(), 2);
}

#[test]
fn record_width_against_fields() {
    let mut cur = ByteCursor::new(table(0x0c, 0x02, true));
    let (h, fields) = parse_complete_header(&mut cur).unwrap();
    assert!(record_width_consistent(&h, &fields));
    let mut v = table(0x0c, 0x02, true);
    v[0x00] = 13;
    let mut cur = ByteCursor::new(v);
    let (h, fields) = parse_complete_header(&mut cur).unwrap();
    assert!(!record_width_consistent(&h, &fields));
}
