use vstd::prelude::*;

use crate::cursor::{le16, le32, le_i16};

verus! {

/// What can go wrong while decoding a table or one of its values.
#[derive(Debug, Clone, Copy, PartialEq, Eq, Structural)]
pub enum DecodeError {
    /// The source ended before a fixed region was read whole.
    Truncated,
    /// A seek past the end of the source.
    OutOfRange,
    /// The header's format version is not one this decoder reads.
    UnsupportedVersion,
    /// The header's file type is not one this decoder reads.
    UnsupportedFileType,
    /// The side-file block named by a blob descriptor is not of type 2.
    BlobTypeMismatch,
    /// The side-file block's payload length differs from the descriptor's.
    BlobLengthMismatch,
    /// The field type has no value decoding of this kind.
    Unsupported,
    /// A time or timestamp value below zero, which has no clock reading.
    Negative,
}

} // verus!

verus! {

/// True when a table's format version tag is one this decoder reads.
pub open spec fn version_supported(v: u8) -> bool {
    0x03 <= v && v <= 0x0c
}

/// True when a file type tag is one this decoder reads.
pub open spec fn file_type_supported(t: u8) -> bool {
    t <= 0x08
}

/// Index file types, whose header has no extension region.
pub open spec fn is_index_type(t: u8) -> bool {
    t == PX_FILETYPE_PX || t == PX_FILETYPE_YNN || t == PX_FILETYPE_YGN
}

/// The header has an extension region: version at least 0x05 and not an
/// index file.
pub open spec fn has_extension_spec(version: u8, file_type: u8) -> bool {
    version >= 0x05 && !is_index_type(file_type)
}

/// A table's format version tag.
#[derive(Debug, Clone, Copy, PartialEq, Eq, Structural)]
pub struct Version(pub u8);

impl Version {
    /// Whether this decoder reads tables of this version.
    pub fn is_supported(&self) -> (r: bool)
        ensures
            r == version_supported(self.0),
    {
        0x03 <= self.0 && self.0 <= 0x0c
    }
}

/// The table header: a fixed 0x58-byte region, then for some versions and
/// file types a 0x20-byte extension, and the table name.
#[derive(Debug)]
pub struct PxHeader {
    pub record_size: i16,
    pub header_size: i16,
    pub file_type: u8,
    pub max_table_size: u8,
    pub num_records: u32,
    pub used_blocks: u16,
    pub file_blocks: u16,
    pub first_block: u16,
    pub last_block: u16,
    pub dummy_1: u16,
    pub modified_flags1: u8,
    pub index_field_number: u8,
    pub primary_index_workspace: u32,
    pub dummy_2: u32,
    pub index_root_block: u16,
    pub index_levels: u8,
    pub num_fields: i16,
    pub primary_key_fields: i16,
    pub encryption1: u32,
    pub sort_order: u8,
    pub modified_flags2: u8,
    pub dummy_5: u16,
    pub change_count1: u8,
    pub change_count2: u8,
    pub dummy_6: u8,
    pub table_name_ptr: u32,
    pub field_info: u32,
    pub write_protected: u8,
    pub file_version_id: Version,
    pub max_blocks: u16,
    pub dummy_7: u8,
    pub aux_passwords: u8,
    pub dummy_8: u16,
    pub crypt_info_start: u32,
    pub crypt_info_end: u32,
    pub dummy_9: u8,
    pub auto_inc: u32,
    pub dummy_a: u16,
    pub index_update_required: u8,
    pub dummy_b: u32,
    pub dummy_c: u8,
    pub ref_integrity: u8,
    pub dummy_d: u16,
    pub file_version_id2: u16,
    pub file_version_id3: u16,
    pub encryption2: u32,
    pub file_update_time: u32,
    pub hi_field_id: u16,
    pub hi_field_id_info: u16,
    pub sometimes_num_fields: u16,
    pub dos_global_code_page: u16,
    pub dummy_e: u32,
    pub change_count4: u16,
    pub dummy_f: u32,
    pub dummy_10: u16,
    /// The table name's bytes, up to its terminating NUL.
    pub table_name: Vec<u8>,
}

/// `h` holds the fields of the primary region `b`, little-endian, in
/// layout order.
pub open spec fn primary_matches(h: PxHeader, b: Seq<u8>) -> bool {
    &&& h.record_size == le_i16(b, 0x00)
    &&& h.header_size == le_i16(b, 0x02)
    &&& h.file_type == b[0x04]
    &&& h.max_table_size == b[0x05]
    &&& h.num_records == le32(b, 0x06)
    &&& h.used_blocks == le16(b, 0x0a)
    &&& h.file_blocks == le16(b, 0x0c)
    &&& h.first_block == le16(b, 0x0e)
    &&& h.last_block == le16(b, 0x10)
    &&& h.dummy_1 == le16(b, 0x12)
    &&& h.modified_flags1 == b[0x14]
    &&& h.index_field_number == b[0x15]
    &&& h.primary_index_workspace == le32(b, 0x16)
    &&& h.dummy_2 == le32(b, 0x1a)
    &&& h.index_root_block == le16(b, 0x1e)
    &&& h.index_levels == b[0x20]
    &&& h.num_fields == le_i16(b, 0x21)
    &&& h.primary_key_fields == le_i16(b, 0x23)
    &&& h.encryption1 == le32(b, 0x25)
    &&& h.sort_order == b[0x29]
    &&& h.modified_flags2 == b[0x2a]
    &&& h.dummy_5 == le16(b, 0x2b)
    &&& h.change_count1 == b[0x2d]
    &&& h.change_count2 == b[0x2e]
    &&& h.dummy_6 == b[0x2f]
    &&& h.table_name_ptr == le32(b, 0x30)
    &&& h.field_info == le32(b, 0x34)
    &&& h.write_protected == b[0x38]
    &&& h.file_version_id.0 == b[0x39]
    &&& h.max_blocks == le16(b, 0x3a)
    &&& h.dummy_7 == b[0x3c]
    &&& h.aux_passwords == b[0x3d]
    &&& h.dummy_8 == le16(b, 0x3e)
    &&& h.crypt_info_start == le32(b, 0x40)
    &&& h.crypt_info_end == le32(b, 0x44)
    &&& h.dummy_9 == b[0x48]
    &&& h.auto_inc == le32(b, 0x49)
    &&& h.dummy_a == le16(b, 0x4d)
    &&& h.index_update_required == b[0x4f]
    &&& h.dummy_b == le32(b, 0x50)
    &&& h.dummy_c == b[0x54]
    &&& h.ref_integrity == b[0x55]
    &&& h.dummy_d == le16(b, 0x56)
}

/// `h` holds the fields of the extension region `b`.
pub open spec fn extension_matches(h: PxHeader, b: Seq<u8>) -> bool {
    &&& h.file_version_id2 == le16(b, 0x00)
    &&& h.file_version_id3 == le16(b, 0x02)
    &&& h.encryption2 == le32(b, 0x04)
    &&& h.file_update_time == le32(b, 0x08)
    &&& h.hi_field_id == le16(b, 0x0c)
    &&& h.hi_field_id_info == le16(b, 0x0e)
    &&& h.sometimes_num_fields == le16(b, 0x10)
    &&& h.dos_global_code_page == le16(b, 0x12)
    &&& h.dummy_e == le32(b, 0x14)
    &&& h.change_count4 == le16(b, 0x18)
    &&& h.dummy_f == le32(b, 0x1a)
    &&& h.dummy_10 == le16(b, 0x1e)
}

/// The extension fields of `h` are all zero.
pub open spec fn extension_zero(h: PxHeader) -> bool {
    &&& h.file_version_id2 == 0
    &&& h.file_version_id3 == 0
    &&& h.encryption2 == 0
    &&& h.file_update_time == 0
    &&& h.hi_field_id == 0
    &&& h.hi_field_id_info == 0
    &&& h.sometimes_num_fields == 0
    &&& h.dos_global_code_page == 0
    &&& h.dummy_e == 0
    &&& h.change_count4 == 0
    &&& h.dummy_f == 0
    &&& h.dummy_10 == 0
}

/// `a` and `b` agree on every field of the primary region.
pub open spec fn same_primary(a: PxHeader, b: PxHeader) -> bool {
    &&& a.record_size == b.record_size
    &&& a.header_size == b.header_size
    &&& a.file_type == b.file_type
    &&& a.max_table_size == b.max_table_size
    &&& a.num_records == b.num_records
    &&& a.used_blocks == b.used_blocks
    &&& a.file_blocks == b.file_blocks
    &&& a.first_block == b.first_block
    &&& a.last_block == b.last_block
    &&& a.dummy_1 == b.dummy_1
    &&& a.modified_flags1 == b.modified_flags1
    &&& a.index_field_number == b.index_field_number
    &&& a.primary_index_workspace == b.primary_index_workspace
    &&& a.dummy_2 == b.dummy_2
    &&& a.index_root_block == b.index_root_block
    &&& a.index_levels == b.index_levels
    &&& a.num_fields == b.num_fields
    &&& a.primary_key_fields == b.primary_key_fields
    &&& a.encryption1 == b.encryption1
    &&& a.sort_order == b.sort_order
    &&& a.modified_flags2 == b.modified_flags2
    &&& a.dummy_5 == b.dummy_5
    &&& a.change_count1 == b.change_count1
    &&& a.change_count2 == b.change_count2
    &&& a.dummy_6 == b.dummy_6
    &&& a.table_name_ptr == b.table_name_ptr
    &&& a.field_info == b.field_info
    &&& a.write_protected == b.write_protected
    &&& a.file_version_id == b.file_version_id
    &&& a.max_blocks == b.max_blocks
    &&& a.dummy_7 == b.dummy_7
    &&& a.aux_passwords == b.aux_passwords
    &&& a.dummy_8 == b.dummy_8
    &&& a.crypt_info_start == b.crypt_info_start
    &&& a.crypt_info_end == b.crypt_info_end
    &&& a.dummy_9 == b.dummy_9
    &&& a.auto_inc == b.auto_inc
    &&& a.dummy_a == b.dummy_a
    &&& a.index_update_required == b.index_update_required
    &&& a.dummy_b == b.dummy_b
    &&& a.dummy_c == b.dummy_c
    &&& a.ref_integrity == b.ref_integrity
    &&& a.dummy_d == b.dummy_d
}

impl PxHeader {
    /// Whether the header carries the extension region.
    pub fn has_extension(&self) -> (r: bool)
        ensures
            r == has_extension_spec(self.file_version_id.0, self.file_type),
    {
        self.file_version_id.0 >= 0x05 && self.file_type != PX_FILETYPE_PX && self.file_type
            != PX_FILETYPE_YNN && self.file_type != PX_FILETYPE_YGN
    }

    /// The non-fatal anomaly of a table with records whose first block is
    /// not block 1.
    pub fn first_block_mismatch(&self) -> (r: bool)
        ensures
            r == (self.num_records > 0 && self.first_block != 1),
    {
        self.num_records > 0 && self.first_block != 1
    }

    /// Size in bytes of one data block.
    pub fn block_size(&self) -> (r: usize)
        ensures
            r == self.max_table_size as int * 1024,
    {
        self.max_table_size as usize * 1024
    }
}

/// One column: its name, type tag and stored width.
#[derive(Debug)]
pub struct PxFieldInfo {
    pub name: Vec<u8>,
    pub field_type: i32,
    pub size: i32,
}

/// One data block: its chain pointers and where its record slots start in
/// the source.
#[derive(Debug, Clone, Copy, PartialEq, Eq, Structural)]
pub struct PxBlocks {
    pub prev_block: i32,
    pub next_block: i32,
    /// Not stored in the block's leading bytes that are read here; 0.
    pub num_recs_in_block: i32,
    /// Offset of the block's record slots in the data region.
    pub records: usize,
}

/// Header of a type-2 side-file block: a type tag, the block's size in 4K
/// units, the payload's length and a modification count.
#[derive(Debug, Clone, Copy, PartialEq, Eq, Structural)]
pub struct MbType2Pointer {
    pub type_: u8,
    pub size_div_4k: u16,
    pub length: u32,
    pub mod_count: u16,
}

pub const PX_FIELD_TYPE_ALPHA: u8 = 0x01;
pub const PX_FIELD_TYPE_DATE: u8 = 0x02;
pub const PX_FIELD_TYPE_SHORT_INT: u8 = 0x03;
pub const PX_FIELD_TYPE_LONG_INT: u8 = 0x04;
pub const PX_FIELD_TYPE_CURRENCY: u8 = 0x05;
pub const PX_FIELD_TYPE_NUMBER: u8 = 0x06;
pub const PX_FIELD_TYPE_LOGICAL: u8 = 0x09;
pub const PX_FIELD_TYPE_MEMO_BLOB: u8 = 0x0c;
pub const PX_FIELD_TYPE_BIN_BLOB: u8 = 0x0d;
pub const PX_FIELD_TYPE_DUNNO: u8 = 0x0e;
pub const PX_FIELD_TYPE_GRAPHIC: u8 = 0x10;
pub const PX_FIELD_TYPE_TIME: u8 = 0x14;
pub const PX_FIELD_TYPE_TIMESTAMP: u8 = 0x15;
pub const PX_FIELD_TYPE_INCREMENTAL: u8 = 0x16;
pub const PX_FIELD_TYPE_BCD: u8 = 0x17;

pub const PX_FILETYPE_DB_INDEXED: u8 = 0x00;
pub const PX_FILETYPE_PX: u8 = 0x01;
pub const PX_FILETYPE_DB_NOT_INDEXED: u8 = 0x02;
pub const PX_FILETYPE_XNN_NON_INC: u8 = 0x03;
pub const PX_FILETYPE_YNN: u8 = 0x04;
pub const PX_FILETYPE_XNN_INC: u8 = 0x05;
pub const PX_FILETYPE_XGN_NON_INC: u8 = 0x06;
pub const PX_FILETYPE_YGN: u8 = 0x07;
pub const PX_FILETYPE_XGN_INC: u8 = 0x08;

} // verus!
