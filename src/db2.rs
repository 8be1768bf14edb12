use crate::bits::{bits_value, bitslice_to_u32, read_bit_window, window_bytes};
use crate::bytes::{lemma_slice_len, le_u16, le_u32, le_u64, read_i16_le, read_u16_le, read_u32_le, read_u64_le, u32_bytes};
use crate::error::DecodeError;
use vstd::prelude::*;

verus! {

/// The fixed header that follows the `WDC4` magic.
#[derive(Debug, Clone, Copy)]
pub struct Wdc4Db2Header {
    pub record_count: u32,
    pub field_count: u32,
    pub record_size: u32,
    pub string_table_size: u32,
    pub table_hash: u32,
    pub layout_hash: u32,
    pub min_id: u32,
    pub max_id: u32,
    pub locale: u32,
    pub flags: u16,
    pub id_index: u16,
    pub total_field_count: u32,
    pub bitpacked_data_offset: u32,
    pub lookup_column_count: u32,
    pub field_storage_info_size: u32,
    pub common_data_size: u32,
    pub palette_data_size: u32,
    pub section_count: u32,
}

/// One section's header: where its record block starts and how large its
/// parts are.
#[derive(Debug, Clone, Copy)]
pub struct Wdc4Db2SectionHeader {
    pub tact_key_hash: u64,
    pub file_offset: u32,
    pub record_count: u32,
    pub string_table_size: u32,
    pub offset_records_end: u32,
    pub id_list_size: u32,
    pub relationship_data_size: u32,
    pub offset_map_id_count: u32,
    pub copy_table_count: u32,
}

/// How a field's value is stored; the tag on disk is the variant's position
/// in this list. `Unpacked` is the kind that the format itself calls "none":
/// the field's bits are the value as it is.
#[derive(Debug, Clone, Copy)]
pub enum StorageType {
    Unpacked { unk1: u32, unk2: u32, unk3: u32 },
    Bitpacked { offset_bits: u32, size_bits: u32, flags: u32 },
    CommonData { default_value: u32, unk1: u32, unk2: u32 },
    BitpackedIndexed { offset_bits: u32, size_bits: u32, unk1: u32 },
    BitpackedIndexedArray { offset_bits: u32, size_bits: u32, unk1: u32 },
    BitpackedSigned { offset_bits: u32, size_bits: u32, flags: u32 },
}

/// Legacy size/position entry of a field, kept but not needed to decode.
#[derive(Debug, Clone, Copy)]
pub struct Wdc4Db2FieldStruct {
    pub size: i16,
    pub position: u16,
}

/// Where a field lies in a record and how it is stored.
#[derive(Debug, Clone, Copy)]
pub struct Wdc4Db2FieldInfo {
    pub field_offset_bits: u16,
    pub field_size_bits: u16,
    pub additional_data_size: u32,
    pub storage_type: StorageType,
}

/// A decoded table file: its header, section headers, field descriptors and
/// the palette and common-data blobs.
#[derive(Debug)]
pub struct Wdc4Db2File {
    pub header: Wdc4Db2Header,
    pub section_headers: Vec<Wdc4Db2SectionHeader>,
    pub field_structs: Vec<Wdc4Db2FieldStruct>,
    pub field_storage_info: Vec<Wdc4Db2FieldInfo>,
    pub palette_data: Vec<u8>,
    pub common_data: Vec<u8>,
}

/// The mathematical view of a table file.
pub struct Db2View {
    pub header: Wdc4Db2Header,
    pub section_headers: Seq<Wdc4Db2SectionHeader>,
    pub field_structs: Seq<Wdc4Db2FieldStruct>,
    pub field_storage_info: Seq<Wdc4Db2FieldInfo>,
    pub palette_data: Seq<u8>,
    pub common_data: Seq<u8>,
}

impl View for Wdc4Db2File {
    type V = Db2View;

    open spec fn view(&self) -> Db2View {
        Db2View {
            header: self.header,
            section_headers: self.section_headers@,
            field_structs: self.field_structs@,
            field_storage_info: self.field_storage_info@,
            palette_data: self.palette_data@,
            common_data: self.common_data@,
        }
    }
}

/// The bytes start with the magic `WDC4`.
pub open spec fn has_magic(b: Seq<u8>) -> bool {
    &&& b[0] == 0x57u8
    &&& b[1] == 0x44u8
    &&& b[2] == 0x43u8
    &&& b[3] == 0x34u8
}

pub open spec fn header_at(b: Seq<u8>) -> Wdc4Db2Header {
    Wdc4Db2Header {
        record_count: le_u32(b, 4) as u32,
        field_count: le_u32(b, 8) as u32,
        record_size: le_u32(b, 12) as u32,
        string_table_size: le_u32(b, 16) as u32,
        table_hash: le_u32(b, 20) as u32,
        layout_hash: le_u32(b, 24) as u32,
        min_id: le_u32(b, 28) as u32,
        max_id: le_u32(b, 32) as u32,
        locale: le_u32(b, 36) as u32,
        flags: le_u16(b, 40) as u16,
        id_index: le_u16(b, 42) as u16,
        total_field_count: le_u32(b, 44) as u32,
        bitpacked_data_offset: le_u32(b, 48) as u32,
        lookup_column_count: le_u32(b, 52) as u32,
        field_storage_info_size: le_u32(b, 56) as u32,
        common_data_size: le_u32(b, 60) as u32,
        palette_data_size: le_u32(b, 64) as u32,
        section_count: le_u32(b, 68) as u32,
    }
}

pub open spec fn section_at(b: Seq<u8>, pos: int) -> Wdc4Db2SectionHeader {
    Wdc4Db2SectionHeader {
        tact_key_hash: le_u64(b, pos) as u64,
        file_offset: le_u32(b, pos + 8) as u32,
        record_count: le_u32(b, pos + 12) as u32,
        string_table_size: le_u32(b, pos + 16) as u32,
        offset_records_end: le_u32(b, pos + 20) as u32,
        id_list_size: le_u32(b, pos + 24) as u32,
        relationship_data_size: le_u32(b, pos + 28) as u32,
        offset_map_id_count: le_u32(b, pos + 32) as u32,
        copy_table_count: le_u32(b, pos + 36) as u32,
    }
}

pub open spec fn field_struct_at(b: Seq<u8>, pos: int) -> Wdc4Db2FieldStruct {
    let u = le_u16(b, pos);
    Wdc4Db2FieldStruct {
        size: (if u < 32768 { u } else { u - 65536 }) as i16,
        position: le_u16(b, pos + 2) as u16,
    }
}

/// The storage tag at `pos` names one of the six known kinds.
pub open spec fn storage_tag_known(b: Seq<u8>, pos: int) -> bool {
    le_u32(b, pos) <= 5
}

/// The storage kind whose tag stands at `pos`, with its three payload words.
pub open spec fn storage_at(b: Seq<u8>, pos: int) -> StorageType {
    let tag = le_u32(b, pos);
    let x = le_u32(b, pos + 4) as u32;
    let y = le_u32(b, pos + 8) as u32;
    let z = le_u32(b, pos + 12) as u32;
    if tag == 1 {
        StorageType::Bitpacked { offset_bits: x, size_bits: y, flags: z }
    } else if tag == 2 {
        StorageType::CommonData { default_value: x, unk1: y, unk2: z }
    } else if tag == 3 {
        StorageType::BitpackedIndexed { offset_bits: x, size_bits: y, unk1: z }
    } else if tag == 4 {
        StorageType::BitpackedIndexedArray { offset_bits: x, size_bits: y, unk1: z }
    } else if tag == 5 {
        StorageType::BitpackedSigned { offset_bits: x, size_bits: y, flags: z }
    } else {
        StorageType::Unpacked { unk1: x, unk2: y, unk3: z }
    }
}

pub open spec fn field_info_at(b: Seq<u8>, pos: int) -> Wdc4Db2FieldInfo {
    Wdc4Db2FieldInfo {
        field_offset_bits: le_u16(b, pos) as u16,
        field_size_bits: le_u16(b, pos + 2) as u16,
        additional_data_size: le_u32(b, pos + 4) as u32,
        storage_type: storage_at(b, pos + 8),
    }
}

/// Where the legacy field entries start.
pub open spec fn fields_start(h: Wdc4Db2Header) -> int {
    72 + 40 * h.section_count
}

/// Where the field storage descriptors start.
pub open spec fn infos_start(h: Wdc4Db2Header) -> int {
    fields_start(h) + 4 * h.total_field_count
}

/// Where the palette blob starts.
pub open spec fn palette_start(h: Wdc4Db2Header) -> int {
    infos_start(h) + h.field_storage_info_size
}

/// Where the common-data blob starts.
pub open spec fn common_start(h: Wdc4Db2Header) -> int {
    palette_start(h) + h.palette_data_size
}

/// Where the common-data blob, and with it the file's metadata, ends.
pub open spec fn metadata_end(h: Wdc4Db2Header) -> int {
    common_start(h) + h.common_data_size
}

/// Number of field storage descriptors.
pub open spec fn info_count(h: Wdc4Db2Header) -> int {
    h.field_storage_info_size as int / 24
}

/// Why the bytes do not hold a table file, if they do not.
pub open spec fn parse_error(b: Seq<u8>) -> Option<DecodeError> {
    let h = header_at(b);
    if b.len() < 4 {
        Some(DecodeError::TruncatedInput)
    } else if !has_magic(b) {
        Some(DecodeError::MagicMismatch)
    } else if b.len() < 72 || metadata_end(h) > b.len() || h.field_storage_info_size % 24 != 0 {
        Some(DecodeError::TruncatedInput)
    } else if exists|i: int|
        0 <= i < info_count(h) && !#[trigger] storage_tag_known(b, infos_start(h) + 24 * i + 8) {
        Some(DecodeError::UnsupportedEncoding)
    } else {
        None
    }
}

/// The table file that the bytes hold, where `parse_error` finds none.
pub open spec fn db2_view_of(b: Seq<u8>) -> Db2View {
    let h = header_at(b);
    Db2View {
        header: h,
        section_headers: Seq::new(h.section_count as nat, |i: int| section_at(b, 72 + 40 * i)),
        field_structs: Seq::new(
            h.total_field_count as nat,
            |i: int| field_struct_at(b, fields_start(h) + 4 * i),
        ),
        field_storage_info: Seq::new(
            info_count(h) as nat,
            |i: int| field_info_at(b, infos_start(h) + 24 * i),
        ),
        palette_data: b.subrange(palette_start(h), common_start(h)),
        common_data: b.subrange(common_start(h), metadata_end(h)),
    }
}

/// The kind stores its values in the palette blob.
pub open spec fn uses_palette(s: StorageType) -> bool {
    match s {
        StorageType::BitpackedIndexed { .. } => true,
        StorageType::BitpackedIndexedArray { .. } => true,
        _ => false,
    }
}

/// Offset in the palette blob of the slice of field `field`: the palette
/// sizes of all palette-indexed fields before it, added up.
pub open spec fn palette_offset(infos: Seq<Wdc4Db2FieldInfo>, field: int) -> int
    decreases field,
{
    if field <= 0 {
        0
    } else {
        palette_offset(infos, field - 1) + if uses_palette(infos[field - 1].storage_type) {
            infos[field - 1].additional_data_size as int
        } else {
            0
        }
    }
}

/// The `index`-th little-endian word of field `field`'s palette slice.
pub open spec fn palette_value(v: Db2View, field: int, index: int) -> Result<u32, DecodeError> {
    let start = palette_offset(v.field_storage_info, field) + 4 * index;
    if start + 4 > v.palette_data.len() {
        Err(DecodeError::OutOfBounds)
    } else {
        Ok(le_u32(v.palette_data, start) as u32)
    }
}

/// The native bytes of field `field` of a record: the whole bytes of its bit
/// window for unpacked fields, and otherwise the four little-endian bytes of
/// the 32-bit value that its storage kind yields. Only the kinds that read the
/// record need their bit window inside it; a common-data field may be absent
/// from the record.
pub open spec fn field_bytes(v: Db2View, rec: Seq<u8>, field: int) -> Result<
    Seq<u8>,
    DecodeError,
> {
    if field < 0 || field >= v.field_storage_info.len() {
        Err(DecodeError::OutOfBounds)
    } else {
        let info = v.field_storage_info[field];
        let off = info.field_offset_bits as int;
        let size = info.field_size_bits as int;
        let outside = off + size > rec.len() * 8;
        match info.storage_type {
            StorageType::Unpacked { .. } => if outside {
                Err(DecodeError::OutOfBounds)
            } else {
                Ok(window_bytes(rec, off, (size / 8) as nat))
            },
            StorageType::Bitpacked { size_bits, .. } => if outside {
                Err(DecodeError::OutOfBounds)
            } else {
                packed_bytes(rec, off, size_bits as int)
            },
            StorageType::BitpackedSigned { size_bits, .. } => if outside {
                Err(DecodeError::OutOfBounds)
            } else {
                packed_bytes(rec, off, size_bits as int)
            },
            StorageType::CommonData { default_value, .. } => {
                if info.additional_data_size > 0 {
                    Err(DecodeError::UnsupportedEncoding)
                } else {
                    Ok(u32_bytes(default_value))
                }
            },
            StorageType::BitpackedIndexed { .. } => if outside {
                Err(DecodeError::OutOfBounds)
            } else if size > 32 {
                Err(DecodeError::UnsupportedEncoding)
            } else {
                match palette_value(v, field, bits_value(rec, off, size as nat) as int) {
                    Ok(w) => Ok(u32_bytes(w)),
                    Err(e) => Err(e),
                }
            },
            StorageType::BitpackedIndexedArray { .. } => Err(DecodeError::UnsupportedEncoding),
        }
    }
}

/// The bytes of a `width`-bit unsigned value packed at bit `off`.
pub open spec fn packed_bytes(rec: Seq<u8>, off: int, width: int) -> Result<Seq<u8>, DecodeError> {
    if width > 32 {
        Err(DecodeError::UnsupportedEncoding)
    } else if off + width > rec.len() * 8 {
        Err(DecodeError::OutOfBounds)
    } else {
        Ok(u32_bytes(bits_value(rec, off, width as nat) as u32))
    }
}

/// A field read as a 32-bit word: the first four of its native bytes.
pub open spec fn field_word(v: Db2View, rec: Seq<u8>, field: int) -> Result<u32, DecodeError> {
    match field_bytes(v, rec, field) {
        Err(e) => Err(e),
        Ok(s) => if s.len() < 4 {
            Err(DecodeError::TruncatedInput)
        } else {
            Ok(le_u32(s, 0) as u32)
        },
    }
}

/// A field read as a flag: its first native byte, which must be 0 or 1.
pub open spec fn field_flag(v: Db2View, rec: Seq<u8>, field: int) -> Result<bool, DecodeError> {
    match field_bytes(v, rec, field) {
        Err(e) => Err(e),
        Ok(s) => if s.len() < 1 {
            Err(DecodeError::TruncatedInput)
        } else if s[0] == 0 {
            Ok(false)
        } else if s[0] == 1 {
            Ok(true)
        } else {
            Err(DecodeError::InvalidValue)
        },
    }
}

/// A field read as three consecutive 32-bit words.
pub open spec fn field_words3(v: Db2View, rec: Seq<u8>, field: int) -> Result<[u32; 3], DecodeError> {
    match field_bytes(v, rec, field) {
        Err(e) => Err(e),
        Ok(s) => if s.len() < 12 {
            Err(DecodeError::TruncatedInput)
        } else {
            Ok([le_u32(s, 0) as u32, le_u32(s, 4) as u32, le_u32(s, 8) as u32])
        },
    }
}

/// Fields `lo .. lo + n` read as 32-bit words, in order; the first field
/// that cannot be read decides the error.
pub open spec fn field_words(v: Db2View, rec: Seq<u8>, lo: int, n: nat) -> Result<
    Seq<u32>,
    DecodeError,
>
    decreases n,
{
    if n == 0 {
        Ok(Seq::empty())
    } else {
        match field_words(v, rec, lo, (n - 1) as nat) {
            Err(e) => Err(e),
            Ok(ws) => match field_word(v, rec, lo + n - 1) {
                Err(e) => Err(e),
                Ok(w) => Ok(ws.push(w)),
            },
        }
    }
}

/// Bit position right after field `field`, relative to the record start.
pub open spec fn field_end(v: Db2View, field: int) -> int {
    v.field_storage_info[field].field_offset_bits as int
        + v.field_storage_info[field].field_size_bits as int
}

/// The bytes result with the vector replaced by its contents.
pub open spec fn bytes_result(r: Result<Vec<u8>, DecodeError>) -> Result<Seq<u8>, DecodeError> {
    match r {
        Ok(v) => Ok(v@),
        Err(e) => Err(e),
    }
}

fn u32_to_le_bytes(v: u32) -> (r: Vec<u8>)
    ensures
        r@ == u32_bytes(v),
{
    let mut out: Vec<u8> = Vec::new();
    out.push((v % 256) as u8);
    out.push(((v / 256) % 256) as u8);
    out.push(((v / 65536) % 256) as u8);
    out.push((v / 16777216) as u8);
    assert(out@ =~= u32_bytes(v));
    out
}

fn parse_header(data: &[u8]) -> (h: Wdc4Db2Header)
    requires
        data@.len() >= 72,
    ensures
        h == header_at(data@),
{
    Wdc4Db2Header {
        record_count: read_u32_le(data, 4),
        field_count: read_u32_le(data, 8),
        record_size: read_u32_le(data, 12),
        string_table_size: read_u32_le(data, 16),
        table_hash: read_u32_le(data, 20),
        layout_hash: read_u32_le(data, 24),
        min_id: read_u32_le(data, 28),
        max_id: read_u32_le(data, 32),
        locale: read_u32_le(data, 36),
        flags: read_u16_le(data, 40),
        id_index: read_u16_le(data, 42),
        total_field_count: read_u32_le(data, 44),
        bitpacked_data_offset: read_u32_le(data, 48),
        lookup_column_count: read_u32_le(data, 52),
        field_storage_info_size: read_u32_le(data, 56),
        common_data_size: read_u32_le(data, 60),
        palette_data_size: read_u32_le(data, 64),
        section_count: read_u32_le(data, 68),
    }
}

fn parse_section_header(data: &[u8], pos: usize) -> (s: Wdc4Db2SectionHeader)
    requires
        pos + 40 <= data@.len(),
    ensures
        s == section_at(data@, pos as int),
{
    proof {
        lemma_slice_len(data);
    }
    Wdc4Db2SectionHeader {
        tact_key_hash: read_u64_le(data, pos),
        file_offset: read_u32_le(data, pos + 8),
        record_count: read_u32_le(data, pos + 12),
        string_table_size: read_u32_le(data, pos + 16),
        offset_records_end: read_u32_le(data, pos + 20),
        id_list_size: read_u32_le(data, pos + 24),
        relationship_data_size: read_u32_le(data, pos + 28),
        offset_map_id_count: read_u32_le(data, pos + 32),
        copy_table_count: read_u32_le(data, pos + 36),
    }
}

fn parse_field_struct(data: &[u8], pos: usize) -> (s: Wdc4Db2FieldStruct)
    requires
        pos + 4 <= data@.len(),
    ensures
        s == field_struct_at(data@, pos as int),
{
    proof {
        lemma_slice_len(data);
    }
    Wdc4Db2FieldStruct { size: read_i16_le(data, pos), position: read_u16_le(data, pos + 2) }
}

fn parse_storage_type(data: &[u8], pos: usize) -> (r: Option<StorageType>)
    requires
        pos + 16 <= data@.len(),
    ensures
        r is Some <==> storage_tag_known(data@, pos as int),
        r is Some ==> r->0 == storage_at(data@, pos as int),
{
    proof {
        lemma_slice_len(data);
    }
    let tag = read_u32_le(data, pos);
    let x = read_u32_le(data, pos + 4);
    let y = read_u32_le(data, pos + 8);
    let z = read_u32_le(data, pos + 12);
    if tag == 0 {
        Some(StorageType::Unpacked { unk1: x, unk2: y, unk3: z })
    } else if tag == 1 {
        Some(StorageType::Bitpacked { offset_bits: x, size_bits: y, flags: z })
    } else if tag == 2 {
        Some(StorageType::CommonData { default_value: x, unk1: y, unk2: z })
    } else if tag == 3 {
        Some(StorageType::BitpackedIndexed { offset_bits: x, size_bits: y, unk1: z })
    } else if tag == 4 {
        Some(StorageType::BitpackedIndexedArray { offset_bits: x, size_bits: y, unk1: z })
    } else if tag == 5 {
        Some(StorageType::BitpackedSigned { offset_bits: x, size_bits: y, flags: z })
    } else {
        None
    }
}

fn parse_field_info(data: &[u8], pos: usize) -> (r: Option<Wdc4Db2FieldInfo>)
    requires
        pos + 24 <= data@.len(),
    ensures
        r is Some <==> storage_tag_known(data@, pos + 8),
        r is Some ==> r->0 == field_info_at(data@, pos as int),
{
    proof {
        lemma_slice_len(data);
    }
    match parse_storage_type(data, pos + 8) {
        Some(storage_type) => Some(
            Wdc4Db2FieldInfo {
                field_offset_bits: read_u16_le(data, pos),
                field_size_bits: read_u16_le(data, pos + 2),
                additional_data_size: read_u32_le(data, pos + 4),
                storage_type,
            },
        ),
        None => None,
    }
}

fn copy_range(data: &[u8], start: usize, end: usize) -> (r: Vec<u8>)
    requires
        start <= end <= data@.len(),
    ensures
        r@ == data@.subrange(start as int, end as int),
{
    let mut out: Vec<u8> = Vec::new();
    let mut i: usize = start;
    while i < end
        invariant
            start <= i <= end <= data@.len(),
            out@ == data@.subrange(start as int, i as int),
        decreases end - i,
    {
        out.push(data[i]);
        i = i + 1;
        assert(out@ =~= data@.subrange(start as int, i as int));
    }
    out
}

impl Wdc4Db2File {
    /// Decodes the header, section headers, legacy field entries, field
    /// storage descriptors, palette blob and common-data blob at the start of
    /// `data`.
    pub fn parse(data: &[u8]) -> (r: Result<Wdc4Db2File, DecodeError>)
        ensures
            match r {
                Ok(f) => parse_error(data@) is None && f@ == db2_view_of(data@),
                Err(e) => parse_error(data@) == Some(e),
            },
    {
        let len = data.len();
        if len < 4 {
            return Err(DecodeError::TruncatedInput);
        }
        if !(data[0] == 0x57u8 && data[1] == 0x44u8 && data[2] == 0x43u8 && data[3] == 0x34u8) {
            return Err(DecodeError::MagicMismatch);
        }
        if len < 72 {
            return Err(DecodeError::TruncatedInput);
        }
        let header = parse_header(data);
        let ghost h = header_at(data@);
        let fields_at: u64 = 72 + 40 * header.section_count as u64;
        let infos_at: u64 = fields_at + 4 * header.total_field_count as u64;
        let palette_at: u64 = infos_at + header.field_storage_info_size as u64;
        let common_at: u64 = palette_at + header.palette_data_size as u64;
        let end: u64 = common_at + header.common_data_size as u64;
        if end > len as u64 || header.field_storage_info_size % 24 != 0 {
            return Err(DecodeError::TruncatedInput);
        }
        let mut section_headers: Vec<Wdc4Db2SectionHeader> = Vec::new();
        let mut i: u32 = 0;
        while i < header.section_count
            invariant
                h == header,
                header == header_at(data@),
                end == metadata_end(h),
                common_at == common_start(h),
                palette_at == palette_start(h),
                infos_at == infos_start(h),
                data@.len() >= 72,
                has_magic(data@),
                header.field_storage_info_size % 24 == 0,
                fields_at == fields_start(h),
                fields_at <= end <= data@.len() <= usize::MAX,
                i <= header.section_count,
                section_headers@ =~= Seq::new(i as nat, |k: int| section_at(data@, 72 + 40 * k)),
            decreases header.section_count - i,
        {
            let s = parse_section_header(data, (72 + 40 * i as u64) as usize);
            section_headers.push(s);
            i = i + 1;
            assert(section_headers@ =~= Seq::new(i as nat, |k: int| section_at(data@, 72 + 40 * k)));
        }
        let mut field_structs: Vec<Wdc4Db2FieldStruct> = Vec::new();
        let mut i: u32 = 0;
        while i < header.total_field_count
            invariant
                h == header,
                header == header_at(data@),
                end == metadata_end(h),
                common_at == common_start(h),
                palette_at == palette_start(h),
                infos_at == infos_start(h),
                data@.len() >= 72,
                has_magic(data@),
                header.field_storage_info_size % 24 == 0,
                fields_at == fields_start(h),
                infos_at <= end <= data@.len() <= usize::MAX,
                i <= header.total_field_count,
                field_structs@ =~= Seq::new(
                    i as nat,
                    |k: int| field_struct_at(data@, fields_start(h) + 4 * k),
                ),
            decreases header.total_field_count - i,
        {
            let s = parse_field_struct(data, (fields_at + 4 * i as u64) as usize);
            field_structs.push(s);
            i = i + 1;
            assert(field_structs@ =~= Seq::new(
                i as nat,
                |k: int| field_struct_at(data@, fields_start(h) + 4 * k),
            ));
        }
        let count: u32 = header.field_storage_info_size / 24;
        let mut field_storage_info: Vec<Wdc4Db2FieldInfo> = Vec::new();
        let mut i: u32 = 0;
        while i < count
            invariant
                h == header,
                header == header_at(data@),
                end == metadata_end(h),
                common_at == common_start(h),
                palette_at == palette_start(h),
                infos_at == infos_start(h),
                data@.len() >= 72,
                has_magic(data@),
                header.field_storage_info_size % 24 == 0,
                palette_at <= end <= data@.len() <= usize::MAX,
                count == info_count(h),
                i <= count,
                field_storage_info@ =~= Seq::new(
                    i as nat,
                    |k: int| field_info_at(data@, infos_start(h) + 24 * k),
                ),
                forall|k: int| 0 <= k < i ==> #[trigger] storage_tag_known(data@, infos_start(h) + 24 * k + 8),
            decreases count - i,
        {
            let pos = (infos_at + 24 * i as u64) as usize;
            match parse_field_info(data, pos) {
                Some(info) => field_storage_info.push(info),
                None => {
                    assert(!storage_tag_known(data@, infos_start(h) + 24 * i + 8));
                    return Err(DecodeError::UnsupportedEncoding);
                },
            }
            i = i + 1;
            assert(field_storage_info@ =~= Seq::new(
                i as nat,
                |k: int| field_info_at(data@, infos_start(h) + 24 * k),
            ));
        }
        let palette_data = copy_range(data, palette_at as usize, common_at as usize);
        let common_data = copy_range(data, common_at as usize, end as usize);
        let f = Wdc4Db2File {
            header,
            section_headers,
            field_structs,
            field_storage_info,
            palette_data,
            common_data,
        };
        assert(f@.field_storage_info =~= db2_view_of(data@).field_storage_info);
        Ok(f)
    }

    /// The word at `palette_index` in the palette slice of field
    /// `field_number`. The slices of palette-indexed fields lie one after the
    /// other in field order.
    pub fn get_palette_data(&self, field_number: usize, palette_index: usize) -> (r: Result<
        u32,
        DecodeError,
    >)
        requires
            field_number <= self.field_storage_info@.len(),
        ensures
            r == palette_value(self@, field_number as int, palette_index as int),
    {
        let mut offset: u128 = 0;
        let mut i: usize = 0;
        while i < field_number
            invariant
                i <= field_number <= self.field_storage_info@.len(),
                offset == palette_offset(self.field_storage_info@, i as int),
                offset <= i * 0xffff_ffffu128,
            decreases field_number - i,
        {
            let info = &self.field_storage_info[i];
            match info.storage_type {
                StorageType::BitpackedIndexed { .. } | StorageType::BitpackedIndexedArray { .. } => {
                    offset = offset + info.additional_data_size as u128;
                },
                _ => {},
            }
            i = i + 1;
        }
        let start: u128 = offset + 4 * palette_index as u128;
        if start + 4 > self.palette_data.len() as u128 {
            return Err(DecodeError::OutOfBounds);
        }
        Ok(read_u32_le(self.palette_data.as_slice(), start as usize))
    }

    /// Reads field `field_number` of `record` and returns its native bytes:
    /// the whole bytes of the field's bit window for an unpacked field, or the
    /// four little-endian bytes of the value its storage kind yields.
    pub fn read_field(&self, record: &[u8], field_number: usize) -> (r: Result<Vec<u8>, DecodeError>)
        ensures
            bytes_result(r) == field_bytes(self@, record@, field_number as int),
    {
        if field_number >= self.field_storage_info.len() {
            return Err(DecodeError::OutOfBounds);
        }
        let info = &self.field_storage_info[field_number];
        let field_offset = info.field_offset_bits as usize;
        let field_size = info.field_size_bits as usize;
        let len = record.len();
        let outside = len < 16384 && field_offset + field_size > len * 8;
        match info.storage_type {
            StorageType::Unpacked { .. } => {
                if outside {
                    return Err(DecodeError::OutOfBounds);
                }
                Ok(read_bit_window(record, field_offset, field_size / 8))
            },
            StorageType::Bitpacked { size_bits, .. } => {
                if outside {
                    return Err(DecodeError::OutOfBounds);
                }
                read_packed(record, field_offset, size_bits)
            },
            StorageType::BitpackedSigned { size_bits, .. } => {
                if outside {
                    return Err(DecodeError::OutOfBounds);
                }
                read_packed(record, field_offset, size_bits)
            },
            StorageType::CommonData { default_value, .. } => {
                if info.additional_data_size > 0 {
                    Err(DecodeError::UnsupportedEncoding)
                } else {
                    Ok(u32_to_le_bytes(default_value))
                }
            },
            StorageType::BitpackedIndexed { .. } => {
                if outside {
                    return Err(DecodeError::OutOfBounds);
                }
                if field_size > 32 {
                    return Err(DecodeError::UnsupportedEncoding);
                }
                let index = bitslice_to_u32(record, field_offset, field_size);
                match self.get_palette_data(field_number, index as usize) {
                    Ok(w) => Ok(u32_to_le_bytes(w)),
                    Err(e) => Err(e),
                }
            },
            StorageType::BitpackedIndexedArray { .. } => Err(DecodeError::UnsupportedEncoding),
        }
    }

    /// Field `field_number` of `record` as a 32-bit word.
    pub fn read_u32_field(&self, record: &[u8], field_number: usize) -> (r: Result<u32, DecodeError>)
        ensures
            r == field_word(self@, record@, field_number as int),
    {
        let bytes = self.read_field(record, field_number)?;
        if bytes.len() < 4 {
            return Err(DecodeError::TruncatedInput);
        }
        Ok(read_u32_le(bytes.as_slice(), 0))
    }

    /// Field `field_number` of `record` as a flag.
    pub fn read_bool_field(&self, record: &[u8], field_number: usize) -> (r: Result<bool, DecodeError>)
        ensures
            r == field_flag(self@, record@, field_number as int),
    {
        let bytes = self.read_field(record, field_number)?;
        if bytes.len() < 1 {
            return Err(DecodeError::TruncatedInput);
        }
        if bytes[0] == 0 {
            Ok(false)
        } else if bytes[0] == 1 {
            Ok(true)
        } else {
            Err(DecodeError::InvalidValue)
        }
    }

    /// Field `field_number` of `record` as three consecutive 32-bit words.
    pub fn read_u32x3_field(&self, record: &[u8], field_number: usize) -> (r: Result<
        [u32; 3],
        DecodeError,
    >)
        ensures
            r == field_words3(self@, record@, field_number as int),
    {
        let bytes = self.read_field(record, field_number)?;
        if bytes.len() < 12 {
            return Err(DecodeError::TruncatedInput);
        }
        let s = bytes.as_slice();
        Ok([read_u32_le(s, 0), read_u32_le(s, 4), read_u32_le(s, 8)])
    }

    /// Fields `first .. first + count` of `record` as 32-bit words.
    pub fn read_u32_fields(&self, record: &[u8], first: usize, count: usize) -> (r: Result<
        Vec<u32>,
        DecodeError,
    >)
        requires
            first + count <= usize::MAX,
        ensures
            match r {
                Ok(ws) => field_words(self@, record@, first as int, count as nat) == Ok::<
                    Seq<u32>,
                    DecodeError,
                >(ws@),
                Err(e) => field_words(self@, record@, first as int, count as nat) == Err::<
                    Seq<u32>,
                    DecodeError,
                >(e),
            },
    {
        let mut out: Vec<u32> = Vec::new();
        let mut k: usize = 0;
        while k < count
            invariant
                k <= count,
                first + count <= usize::MAX,
                field_words(self@, record@, first as int, k as nat) == Ok::<Seq<u32>, DecodeError>(
                    out@,
                ),
            decreases count - k,
        {
            let w = match self.read_u32_field(record, first + k) {
                Ok(w) => w,
                Err(e) => {
                    proof {
                        lemma_field_words_error_sticks(
                            self@,
                            record@,
                            first as int,
                            (k + 1) as nat,
                            count as nat,
                        );
                    }
                    return Err(e);
                },
            };
            out.push(w);
            k = k + 1;
        }
        Ok(out)
    }

    /// Bit position right after field `field_number`, relative to the start
    /// of the record.
    pub fn field_end_bits(&self, field_number: usize) -> (r: u32)
        requires
            field_number < self.field_storage_info@.len(),
        ensures
            r == field_end(self@, field_number as int),
    {
        let info = &self.field_storage_info[field_number];
        info.field_offset_bits as u32 + info.field_size_bits as u32
    }
}

proof fn lemma_field_words_error_sticks(v: Db2View, rec: Seq<u8>, lo: int, m: nat, n: nat)
    requires
        m <= n,
        field_words(v, rec, lo, m) is Err,
    ensures
        field_words(v, rec, lo, n) == field_words(v, rec, lo, m),
    decreases n,
{
    if n > m {
        lemma_field_words_error_sticks(v, rec, lo, m, (n - 1) as nat);
    }
}

fn read_packed(record: &[u8], field_offset: usize, size_bits: u32) -> (r: Result<Vec<u8>, DecodeError>)
    requires
        field_offset < 65536,
    ensures
        bytes_result(r) == packed_bytes(record@, field_offset as int, size_bits as int),
{
    if size_bits > 32 {
        return Err(DecodeError::UnsupportedEncoding);
    }
    let len = record.len();
    if len < 16384 && field_offset + size_bits as usize > len * 8 {
        return Err(DecodeError::OutOfBounds);
    }
    Ok(u32_to_le_bytes(bitslice_to_u32(record, field_offset, size_bits as usize)))
}

} // verus!
