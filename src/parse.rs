use vstd::prelude::*;

use byte::BytesExt;

use crate::cursor::{first_nul_from, i16_at, le16, le_i16, u16_at, u32_at, ByteCursor};
use crate::types::{
    extension_matches, extension_zero, file_type_supported, PxBlocks, has_extension_spec, primary_matches,
    same_primary, version_supported, DecodeError, PxFieldInfo, PxHeader, Version,
};

verus! {

/// Maps the primary header region `b` (0x58 bytes) field by field.
pub fn parse_header(b: &[u8]) -> (r: PxHeader)
    requires
        b@.len() >= 0x58,
    ensures
        primary_matches(r, b@),
        extension_zero(r),
        r.table_name@.len() == 0,
{
    PxHeader {
        record_size: i16_at(b, 0x00),
        header_size: i16_at(b, 0x02),
        file_type: b[0x04],
        max_table_size: b[0x05],
        num_records: u32_at(b, 0x06),
        used_blocks: u16_at(b, 0x0a),
        file_blocks: u16_at(b, 0x0c),
        first_block: u16_at(b, 0x0e),
        last_block: u16_at(b, 0x10),
        dummy_1: u16_at(b, 0x12),
        modified_flags1: b[0x14],
        index_field_number: b[0x15],
        primary_index_workspace: u32_at(b, 0x16),
        dummy_2: u32_at(b, 0x1a),
        index_root_block: u16_at(b, 0x1e),
        index_levels: b[0x20],
        num_fields: i16_at(b, 0x21),
        primary_key_fields: i16_at(b, 0x23),
        encryption1: u32_at(b, 0x25),
        sort_order: b[0x29],
        modified_flags2: b[0x2a],
        dummy_5: u16_at(b, 0x2b),
        change_count1: b[0x2d],
        change_count2: b[0x2e],
        dummy_6: b[0x2f],
        table_name_ptr: u32_at(b, 0x30),
        field_info: u32_at(b, 0x34),
        write_protected: b[0x38],
        file_version_id: Version(b[0x39]),
        max_blocks: u16_at(b, 0x3a),
        dummy_7: b[0x3c],
        aux_passwords: b[0x3d],
        dummy_8: u16_at(b, 0x3e),
        crypt_info_start: u32_at(b, 0x40),
        crypt_info_end: u32_at(b, 0x44),
        dummy_9: b[0x48],
        auto_inc: u32_at(b, 0x49),
        dummy_a: u16_at(b, 0x4d),
        index_update_required: b[0x4f],
        dummy_b: u32_at(b, 0x50),
        dummy_c: b[0x54],
        ref_integrity: b[0x55],
        dummy_d: u16_at(b, 0x56),
        file_version_id2: 0,
        file_version_id3: 0,
        encryption2: 0,
        file_update_time: 0,
        hi_field_id: 0,
        hi_field_id_info: 0,
        sometimes_num_fields: 0,
        dos_global_code_page: 0,
        dummy_e: 0,
        change_count4: 0,
        dummy_f: 0,
        dummy_10: 0,
        table_name: Vec::new(),
    }
}

/// Merges the extension region `b` (0x20 bytes) into `header`.
pub fn parse_header_v4(b: &[u8], header: &mut PxHeader)
    requires
        b@.len() >= 0x20,
    ensures
        extension_matches(*final(header), b@),
        same_primary(*final(header), *old(header)),
        final(header).table_name@ == old(header).table_name@,
{
    header.file_version_id2 = u16_at(b, 0x00);
    header.file_version_id3 = u16_at(b, 0x02);
    header.encryption2 = u32_at(b, 0x04);
    header.file_update_time = u32_at(b, 0x08);
    header.hi_field_id = u16_at(b, 0x0c);
    header.hi_field_id_info = u16_at(b, 0x0e);
    header.sometimes_num_fields = u16_at(b, 0x10);
    header.dos_global_code_page = u16_at(b, 0x12);
    header.dummy_e = u32_at(b, 0x14);
    header.change_count4 = u16_at(b, 0x18);
    header.dummy_f = u32_at(b, 0x1a);
    header.dummy_10 = u16_at(b, 0x1e);
}

/// Length of the primary header region.
pub const HEADER_LEN: usize = 0x58;

/// Length of the header's extension region.
pub const EXTENSION_LEN: usize = 0x20;

/// Length of the table-name region.
pub const TABLE_NAME_LEN: usize = 79;

/// The format version tag of a header at `p`.
pub open spec fn version_at(s: Seq<u8>, p: int) -> u8 {
    s[p + 0x39]
}

/// The file type tag of a header at `p`.
pub open spec fn file_type_at(s: Seq<u8>, p: int) -> u8 {
    s[p + 4]
}

/// Bytes of header regions before the field descriptors, for a header at `p`.
pub open spec fn fixed_len(s: Seq<u8>, p: int) -> int {
    if has_extension_spec(version_at(s, p), file_type_at(s, p)) {
        0x78
    } else {
        0x58
    }
}

/// The number of fields; a negative count means none.
pub open spec fn field_count(s: Seq<u8>, p: int) -> int {
    if le_i16(s, p + 0x21) > 0 {
        le_i16(s, p + 0x21)
    } else {
        0
    }
}

/// Where the field descriptors start.
pub open spec fn descriptors_at(s: Seq<u8>, p: int) -> int {
    p + fixed_len(s, p)
}

/// Where the field names start.
pub open spec fn names_at(s: Seq<u8>, p: int) -> int {
    descriptors_at(s, p) + 2 * field_count(s, p)
}

/// Where the `k` NUL-terminated names that start at `i` end (past the last
/// NUL), or -1 when the source runs out first.
pub open spec fn names_end(s: Seq<u8>, i: int, k: nat) -> int
    decreases k,
{
    if k == 0 {
        i
    } else {
        let e = names_end(s, i, (k - 1) as nat);
        if e == -1 || first_nul_from(s, e) >= s.len() {
            -1
        } else {
            first_nul_from(s, e) + 1
        }
    }
}

/// Where the table-name region starts, or -1 when the names run out.
pub open spec fn table_name_at(s: Seq<u8>, p: int) -> int {
    names_end(s, names_at(s, p), field_count(s, p) as nat)
}

/// A header starting at `p` of `s` decodes: the version and file type are
/// supported and the source holds every region.
pub open spec fn header_decodes(s: Seq<u8>, p: int) -> bool {
    &&& s.len() - p >= 0x58
    &&& version_supported(version_at(s, p))
    &&& file_type_supported(file_type_at(s, p))
    &&& names_at(s, p) <= s.len()
    &&& table_name_at(s, p) != -1
    &&& table_name_at(s, p) + 79 <= s.len()
}

/// The fixed-layout fields of `h` are those of the header regions at `p`.
pub open spec fn header_regions_match(h: PxHeader, s: Seq<u8>, p: int) -> bool {
    &&& primary_matches(h, s.subrange(p, p + 0x58))
    &&& has_extension_spec(version_at(s, p), file_type_at(s, p)) ==> extension_matches(
        h,
        s.subrange(p + 0x58, p + 0x78),
    )
    &&& !has_extension_spec(version_at(s, p), file_type_at(s, p)) ==> extension_zero(h)
}

/// The table name of `h` is the text before the first NUL of the
/// table-name region, or empty where that text could not be read.
pub open spec fn table_name_matches(h: PxHeader, s: Seq<u8>, p: int) -> bool {
    let tn = table_name_at(s, p);
    h.table_name@.len() == 0 || h.table_name@ == s.subrange(
        tn,
        first_nul_from(s.subrange(tn, tn + 79), 0) + tn,
    )
}

/// `h` and `f` are the header and field table held by `s` from `p`.
pub open spec fn decoded_as(h: PxHeader, f: Seq<PxFieldInfo>, s: Seq<u8>, p: int) -> bool {
    let ds = descriptors_at(s, p);
    let ns = names_at(s, p);
    &&& header_regions_match(h, s, p)
    &&& f.len() == field_count(s, p)
    &&& forall|k: int|
        0 <= k < f.len() ==> {
            &&& #[trigger] f[k].field_type == s[ds + 2 * k] as i32
            &&& f[k].size == s[ds + 2 * k + 1] as i32
            &&& f[k].name@ == s.subrange(
                names_end(s, ns, k as nat),
                first_nul_from(s, names_end(s, ns, k as nat)),
            )
        }
    &&& table_name_matches(h, s, p)
}

proof fn lemma_names_end_fails_on(s: Seq<u8>, i: int, k: nat, m: nat)
    requires
        k <= m,
        names_end(s, i, k) == -1,
    ensures
        names_end(s, i, m) == -1,
    decreases m,
{
    if k < m {
        lemma_names_end_fails_on(s, i, k, (m - 1) as nat);
    }
}

proof fn lemma_names_end_ge(s: Seq<u8>, i: int, k: nat)
    requires
        names_end(s, i, k) != -1,
    ensures
        i <= names_end(s, i, k),
        k > 0 ==> i <= s.len(),
    decreases k,
{
    if k > 0 {
        lemma_names_end_ge(s, i, (k - 1) as nat);
        let e = names_end(s, i, (k - 1) as nat);
        if e >= 0 {
            lemma_first_nul_bound(s, e);
        }
    }
}

/// For every supported version and file type, a source that holds each
/// header region in full (NUL-terminated field names included) and ends
/// with the table-name region decodes.
pub proof fn lemma_supported_header_decodes(s: Seq<u8>, p: int)
    requires
        0 <= p <= s.len(),
        version_supported(version_at(s, p)),
        file_type_supported(file_type_at(s, p)),
        table_name_at(s, p) != -1,
        s.len() == table_name_at(s, p) + 79,
    ensures
        header_decodes(s, p),
{
    lemma_names_end_ge(s, names_at(s, p), field_count(s, p) as nat);
}

proof fn lemma_first_nul_bound(s: Seq<u8>, i: int)
    requires
        0 <= i,
    ensures
        i <= s.len() ==> i <= first_nul_from(s, i) <= s.len(),
        first_nul_from(s, i) < s.len() ==> s[first_nul_from(s, i)] == 0,
    decreases s.len() - i,
{
    if 0 <= i < s.len() && s[i] != 0 {
        lemma_first_nul_bound(s, i + 1);
    }
}

/// Relies on byte's `BytesExt::read_with` with `Str::Delimiter(NULL)`: it
/// gives the bytes before the first NUL when there is one and they are
/// valid UTF-8, and an error when there is no NUL.
#[verifier::external_body]
fn read_cstr(b: &[u8]) -> (r: Option<Vec<u8>>)
    ensures
        r matches Some(v) ==> v@ == b@.subrange(0, first_nul_from(b@, 0)),
        first_nul_from(b@, 0) >= b@.len() ==> r is None,
{
    let mut offset: usize = 0;
    match b.read_with::<&str>(&mut offset, byte::ctx::Str::Delimiter(byte::ctx::NULL)) {
        Ok(text) => Some(text.as_bytes().to_vec()),
        Err(_) => None,
    }
}

/// Why a primary header is refused: an unsupported version first, then an
/// unsupported file type.
pub fn check_header(h: &PxHeader) -> (r: Result<(), DecodeError>)
    ensures
        !version_supported(h.file_version_id.0) ==> r == Err::<(), DecodeError>(
            DecodeError::UnsupportedVersion,
        ),
        version_supported(h.file_version_id.0) && !file_type_supported(h.file_type) ==> r == Err::<
            (),
            DecodeError,
        >(DecodeError::UnsupportedFileType),
        version_supported(h.file_version_id.0) && file_type_supported(h.file_type) ==> r is Ok,
{
    if !h.file_version_id.is_supported() {
        return Err(DecodeError::UnsupportedVersion);
    }
    if h.file_type > 0x08 {
        return Err(DecodeError::UnsupportedFileType);
    }
    Ok(())
}

/// The error a header at `p` of `s` fails with, when it fails.
pub open spec fn header_error(s: Seq<u8>, p: int) -> DecodeError {
    if s.len() - p < 0x58 {
        DecodeError::Truncated
    } else if !version_supported(version_at(s, p)) {
        DecodeError::UnsupportedVersion
    } else if !file_type_supported(file_type_at(s, p)) {
        DecodeError::UnsupportedFileType
    } else {
        DecodeError::Truncated
    }
}

/// A decoded header with its field table.
pub type HeaderAndFields = (PxHeader, Vec<PxFieldInfo>);

/// Decodes the header, the field table and the table name from the cursor's
/// position: the primary region, its checks, the extension region where the
/// version and file type call for it, `num_fields` descriptor pairs, as many
/// NUL-terminated field names, and the 79-byte table-name region.
pub fn parse_complete_header(cur: &mut ByteCursor) -> (r: Result<HeaderAndFields, DecodeError>)
    requires
        old(cur).wf(),
    ensures
        final(cur).wf(),
        final(cur).data@ == old(cur).data@,
        r is Ok <==> header_decodes(old(cur).data@, old(cur).pos as int),
        r matches Err(e) ==> e == header_error(old(cur).data@, old(cur).pos as int),
        r matches Ok(v) ==> decoded_as(v.0, v.1@, old(cur).data@, old(cur).pos as int),
        r is Ok ==> final(cur).pos == table_name_at(old(cur).data@, old(cur).pos as int) + 79,
{
    let ghost s = cur.data@;
    let ghost p = cur.pos as int;
    let prim = match cur.read(HEADER_LEN) {
        Ok(b) => b,
        Err(e) => return Err(e),
    };
    let mut h = parse_header(prim.as_slice());
    assert(prim@ == s.subrange(p, p + 0x58));
    assert(h.file_version_id.0 == version_at(s, p));
    assert(h.file_type == file_type_at(s, p));
    match check_header(&h) {
        Ok(()) => {},
        Err(e) => return Err(e),
    }
    assert(h.num_fields == le_i16(s, p + 0x21));
    if h.has_extension() {
        let ext = match cur.read(EXTENSION_LEN) {
            Ok(b) => b,
            Err(e) => {
                proof {
                    assert(names_at(s, p) > s.len());
                }
                return Err(e);
            },
        };
        parse_header_v4(ext.as_slice(), &mut h);
    }
    assert(header_regions_match(h, s, p));
    let nf: usize = if h.num_fields > 0 {
        h.num_fields as usize
    } else {
        0
    };
    let ghost ds = descriptors_at(s, p);
    assert(cur.pos == ds);
    let mut types: Vec<u8> = Vec::new();
    let mut sizes: Vec<u8> = Vec::new();
    let mut k: usize = 0;
    while k < nf
        invariant
            cur.wf(),
            cur.data@ == s,
            s == old(cur).data@,
            p == old(cur).pos,
            s.len() - p >= 0x58,
            version_supported(version_at(s, p)),
            file_type_supported(file_type_at(s, p)),
            header_regions_match(h, s, p),
            0 <= p,
            nf == field_count(s, p),
            ds == descriptors_at(s, p),
            0 <= k <= nf,
            cur.pos == ds + 2 * k,
            ds + 2 * k <= s.len(),
            types@.len() == k,
            sizes@.len() == k,
            forall|j: int| 0 <= j < k ==> #[trigger] types@[j] == s[ds + 2 * j],
            forall|j: int| 0 <= j < k ==> #[trigger] sizes@[j] == s[ds + 2 * j + 1],
        decreases nf - k,
    {
        let d = match cur.read(2) {
            Ok(b) => b,
            Err(e) => return Err(e),
        };
        types.push(d[0]);
        sizes.push(d[1]);
        k = k + 1;
    }
    let ghost ns = names_at(s, p);
    assert(cur.pos == ns);
    let mut fields: Vec<PxFieldInfo> = Vec::new();
    k = 0;
    while k < nf
        invariant
            cur.wf(),
            cur.data@ == s,
            s == old(cur).data@,
            p == old(cur).pos,
            s.len() - p >= 0x58,
            version_supported(version_at(s, p)),
            file_type_supported(file_type_at(s, p)),
            header_regions_match(h, s, p),
            0 <= ns <= s.len(),
            ns == ds + 2 * nf,
            nf == field_count(s, p),
            ns == names_at(s, p),
            ds == descriptors_at(s, p),
            0 <= k <= nf,
            types@.len() == nf,
            sizes@.len() == nf,
            forall|j: int| 0 <= j < nf ==> #[trigger] types@[j] == s[ds + 2 * j],
            forall|j: int| 0 <= j < nf ==> #[trigger] sizes@[j] == s[ds + 2 * j + 1],
            names_end(s, ns, k as nat) != -1,
            cur.pos == names_end(s, ns, k as nat),
            fields@.len() == k,
            forall|j: int|
                0 <= j < k ==> {
                    &&& #[trigger] fields@[j].field_type == s[ds + 2 * j] as i32
                    &&& fields@[j].size == s[ds + 2 * j + 1] as i32
                    &&& fields@[j].name@ == s.subrange(
                        names_end(s, ns, j as nat),
                        first_nul_from(s, names_end(s, ns, j as nat)),
                    )
                },
        decreases nf - k,
    {
        let name = match cur.read_until_nul() {
            Ok(v) => v,
            Err(e) => {
                proof {
                    lemma_names_end_fails_on(s, ns, (k + 1) as nat, nf as nat);
                }
                return Err(e);
            },
        };
        fields.push(PxFieldInfo { name, field_type: types[k] as i32, size: sizes[k] as i32 });
        k = k + 1;
    }
    let ghost tn = table_name_at(s, p);
    let table = match cur.read(TABLE_NAME_LEN) {
        Ok(b) => b,
        Err(e) => return Err(e),
    };
    h.table_name = match read_cstr(table.as_slice()) {
        Some(v) => v,
        None => Vec::new(),
    };
    proof {
        lemma_first_nul_bound(table@, 0);
        let j = first_nul_from(table@, 0);
        assert(table@ == s.subrange(tn, tn + 79));
        assert(h.table_name@.len() == 0 || h.table_name@ =~= s.subrange(tn, j + tn));
        assert(decoded_as(h, fields@, s, p));
    }
    Ok((h, fields))
}

impl PxHeader {
    /// Decodes a table's header (field table and table name included, as
    /// `parse_complete_header` does) and returns the header.
    pub fn from_reader(cur: &mut ByteCursor) -> (r: Result<PxHeader, DecodeError>)
        requires
            old(cur).wf(),
        ensures
            final(cur).wf(),
            final(cur).data@ == old(cur).data@,
            r is Ok <==> header_decodes(old(cur).data@, old(cur).pos as int),
            r matches Err(e) ==> e == header_error(old(cur).data@, old(cur).pos as int),
            r matches Ok(h) ==> header_regions_match(h, old(cur).data@, old(cur).pos as int)
                && table_name_matches(h, old(cur).data@, old(cur).pos as int),
    {
        let ghost s = cur.data@;
        let ghost p = cur.pos as int;
        match parse_complete_header(cur) {
            Ok((h, f)) => {
                assert(decoded_as(h, f@, s, p));
                Ok(h)
            },
            Err(e) => Err(e),
        }
    }
}

/// The number of whole blocks of `block_size` bytes in `len` bytes.
pub open spec fn block_count(len: int, block_size: int) -> int {
    if block_size == 0 {
        0
    } else {
        len / block_size
    }
}

/// `b` is block `i` of `data`: its leading 16-bit words are the next and
/// previous block numbers, and its record slots follow them.
pub open spec fn block_matches(b: PxBlocks, data: Seq<u8>, block_size: int, i: int) -> bool {
    &&& b.next_block == le16(data, i * block_size)
    &&& b.prev_block == le16(data, i * block_size + 2)
    &&& b.num_recs_in_block == 0
    &&& b.records == i * block_size + 4
}

/// A source of exactly `k` blocks, followed by fewer than a block of
/// trailing bytes, holds `k` whole blocks: the trailing bytes are no block.
pub proof fn lemma_whole_blocks_only(len: int, block_size: int, k: int, extra: int)
    requires
        block_size > 0,
        k >= 0,
        0 <= extra < block_size,
        len == k * block_size + extra,
    ensures
        block_count(len, block_size) == k,
{
    vstd::arithmetic::div_mod::lemma_div_multiples_vanish_fancy(k, extra, block_size);
    assert(k * block_size == block_size * k) by (nonlinear_arith);
}

/// Walks the data region `data` block by block, in stored order: blocks of
/// `max_table_size * 1024` bytes, as many as fit whole; trailing bytes that
/// do not fill a block are left out.
pub fn parse_blocks(data: &[u8], header: &PxHeader) -> (r: Vec<PxBlocks>)
    ensures
        r@.len() == block_count(data@.len() as int, header.max_table_size * 1024),
        forall|i: int|
            0 <= i < r@.len() ==> block_matches(
                #[trigger] r@[i],
                data@,
                header.max_table_size * 1024,
                i,
            ),
{
    let bs = header.block_size();
    let mut blocks: Vec<PxBlocks> = Vec::new();
    if bs == 0 {
        return blocks;
    }
    let len = data.len();
    let n = len / bs;
    proof {
        vstd::arithmetic::div_mod::lemma_fundamental_div_mod(len as int, bs as int);
        vstd::arithmetic::div_mod::lemma_mod_bound(len as int, bs as int);
        assert(n * bs <= len) by (nonlinear_arith)
            requires
                len == bs * (len / bs) + len % bs,
                len % bs >= 0,
                n == len / bs,
        ;
    }
    let mut i: usize = 0;
    let mut off: usize = 0;
    while i < n
        invariant
            bs >= 1024,
            bs == header.max_table_size * 1024,
            len == data@.len(),
            n == len / bs,
            n * bs <= len,
            i <= n,
            off == i * bs,
            blocks@.len() == i,
            forall|j: int| 0 <= j < i ==> block_matches(#[trigger] blocks@[j], data@, bs as int, j),
        decreases n - i,
    {
        assert(off + bs <= len) by (nonlinear_arith)
            requires
                off == i * bs,
                i < n,
                n * bs <= len,
                bs > 0,
        ;
        let b = PxBlocks {
            prev_block: u16_at(data, off + 2) as i32,
            next_block: u16_at(data, off) as i32,
            num_recs_in_block: 0,
            records: off + 4,
        };
        blocks.push(b);
        assert(off + bs == (i + 1) * bs) by (nonlinear_arith)
            requires
                off == i * bs,
        ;
        off = off + bs;
        i = i + 1;
    }
    blocks
}

/// Sum of the stored widths of the fields `f`.
pub open spec fn fields_width(f: Seq<PxFieldInfo>) -> int
    decreases f.len(),
{
    if f.len() == 0 {
        0
    } else {
        fields_width(f.drop_last()) + f.last().size
    }
}

/// The consistency check of a field table against its header: the fields'
/// widths add up to no more than the record size. A table that fails it is
/// still decoded; the result is for reporting.
pub fn record_width_consistent(header: &PxHeader, fields: &Vec<PxFieldInfo>) -> (r: bool)
    requires
        fields@.len() <= 0x7fff_ffff,
    ensures
        r == (fields_width(fields@) <= header.record_size),
{
    let mut total: i64 = 0;
    let mut k: usize = 0;
    while k < fields.len()
        invariant
            fields@.len() <= 0x7fff_ffff,
            k <= fields@.len(),
            total == fields_width(fields@.subrange(0, k as int)),
            -0x8000_0000 * k <= total <= 0x8000_0000 * k,
        decreases fields@.len() - k,
    {
        assert(fields@.subrange(0, k + 1).drop_last() =~= fields@.subrange(0, k as int));
        total = total + fields[k].size as i64;
        k = k + 1;
    }
    assert(fields@.subrange(0, k as int) =~= fields@);
    total <= header.record_size as i64
}

} // verus!
