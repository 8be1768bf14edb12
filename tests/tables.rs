use asset_decode::database::Database;
use asset_decode::db2::Wdc4Db2File;
use asset_decode::error::DecodeError;
use asset_decode::light::{DistanceResult, LightDataRecord, LightDatabase, LightParamsRecord, LightRecord};

/// A field descriptor: bit offset, bit size, palette/common size, storage tag and its three words.
#[derive(Clone, Copy)]
struct Field {
    offset: u16,
    size: u16,
    additional: u32,
    tag: u32,
    words: [u32; 3],
}

fn field(offset: u16, size: u16, tag: u32) -> Field {
    let words = if tag == 1 || tag == 3 || tag == 4 || tag == 5 { [offset as u32, size as u32, 0] } else { [0, 0, 0] };
    Field { offset, size, additional: 0, tag, words }
}

fn push_u16(out: &mut Vec<u8>, v: u16) {
    out.extend_from_slice(&v.to_le_bytes());
}

fn push_u32(out: &mut Vec<u8>, v: u32) {
    out.extend_from_slice(&v.to_le_bytes());
}

/// A table file with one section whose records follow the metadata directly.
fn build_table(min_id: u32, record_size: u32, fields: &[Field], palette: &[u8], common: &[u8], records: &[Vec<u8>]) -> Vec<u8> {
    let metadata_len = 72 + 40 + 4 * fields.len() + 24 * fields.len() + palette.len() + common.len();
    let mut out = Vec::new();
    out.extend_from_slice(b"WDC4");
    push_u32(&mut out, records.len() as u32);
    push_u32(&mut out, fields.len() as u32);
    push_u32(&mut out, record_size);
    push_u32(&mut out, 0);
    push_u32(&mut out, 0x1111);
    push_u32(&mut out, 0x2222);
    push_u32(&mut out, min_id);
    push_u32(&mut out, min_id + records.len() as u32);
    push_u32(&mut out, 0);
    push_u16(&mut out, 0);
    push_u16(&mut out, 0);
    push_u32(&mut out, fields.len() as u32);
    push_u32(&mut out, 0);
    push_u32(&mut out, 0);
    push_u32(&mut out, 24 * fields.len() as u32);
    push_u32(&mut out, common.len() as u32);
    push_u32(&mut out, palette.len() as u32);
    push_u32(&mut out, 1);
    out.extend_from_slice(&0u64.to_le_bytes());
    push_u32(&mut out, metadata_len as u32);
    push_u32(&mut out, records.len() as u32);
    for _ in 0..6 {
        push_u32(&mut out, 0);
    }
    for f in fields {
        push_u16(&mut out, 32u16.wrapping_sub(f.size));
        push_u16(&mut out, f.offset / 8);
    }
    for f in fields {
        push_u16(&mut out, f.offset);
        push_u16(&mut out, f.size);
        push_u32(&mut out, f.additional);
        push_u32(&mut out, f.tag);
        for w in f.words {
            push_u32(&mut out, w);
        }
    }
    out.extend_from_slice(palette);
    out.extend_from_slice(common);
    assert_eq!(out.len(), metadata_len);
    for r in records {
        assert_eq!(r.len(), record_size as usize);
        out.extend_from_slice(r);
    }
    out
}

/// Writes `width` bits of `value` from bit `offset` on, least significant bit first.
fn put_bits(record: &mut [u8], offset: usize, width: usize, value: u64) {
    for j in 0..width {
        let bit = (value >> j) & 1;
        let i = offset + j;
        if bit == 1 {
            record[i / 8] |= 1 << (i % 8);
        } else {
            record[i / 8] &= !(1 << (i % 8));
        }
    }
}

fn only_record(bytes: &[u8]) -> (Wdc4Db2File, Vec<u8>) {
    let db2 = Wdc4Db2File::parse(bytes).unwrap();
    let start = db2.section_headers[0].file_offset as usize;
    let size = db2.header.record_size as usize;
    let record = bytes[start..start + size].to_vec();
    (db2, record)
}

#[test]
fn parses_header_sections_and_fields() {
    let mut f = field(0, 32, 2);
    f.words = [7, 0, 0];
    let bytes = build_table(5, 4, &[f, field(0, 8, 0)], &[1, 2, 3, 4], &[9, 9], &[vec![0, 0, 0, 0]]);
    let db2 = Wdc4Db2File::parse(&bytes).unwrap();
    assert_eq!(db2.header.record_count, 1);
    assert_eq!(db2.header.min_id, 5);
    assert_eq!(db2.header.field_count, 2);
    assert_eq!(db2.section_headers.len(), 1);
    assert_eq!(db2.section_headers[0].file_offset as usize, bytes.len() - 4);
    assert_eq!(db2.field_structs.len(), 2);
    assert_eq!(db2.field_structs[1].size, 24);
    assert_eq!(db2.field_storage_info.len(), 2);
    assert_eq!(db2.field_storage_info[1].field_size_bits, 8);
    assert_eq!(db2.palette_data, vec![1, 2, 3, 4]);
    assert_eq!(db2.common_data, vec![9, 9]);
}

#[test]
fn rejects_bad_magic_and_truncation() {
    let bytes = build_table(1, 4, &[field(0, 32, 0)], &[], &[], &[vec![0; 4]]);
    let mut bad = bytes.clone();
    bad[3] = b'3';
    assert_eq!(Wdc4Db2File::parse(&bad).err(), Some(DecodeError::MagicMismatch));
    assert_eq!(Wdc4Db2File::parse(&bytes[..3]).err(), Some(DecodeError::TruncatedInput));
    assert_eq!(Wdc4Db2File::parse(&bytes[..100]).err(), Some(DecodeError::TruncatedInput));
    let mut unknown = bytes.clone();
    let tag_at = 72 + 40 + 4 + 8;
    unknown[tag_at] = 9;
    assert_eq!(Wdc4Db2File::parse(&unknown).err(), Some(DecodeError::UnsupportedEncoding));
}

#[test]
fn storage_kind_unpacked() {
    let bytes = build_table(1, 4, &[field(0, 32, 0)], &[], &[], &[vec![0x78, 0x56, 0x34, 0x12]]);
    let (db2, record) = only_record(&bytes);
    assert_eq!(db2.read_field(&record, 0), Ok(vec![0x78, 0x56, 0x34, 0x12]));
    assert_eq!(db2.read_u32_field(&record, 0), Ok(0x1234_5678));
}

#[test]
fn storage_kind_bitpacked() {
    let bytes = build_table(1, 4, &[field(3, 10, 1)], &[], &[], &[vec![0b1010_1000, 0b0000_0011, 0, 0]]);
    let (db2, record) = only_record(&bytes);
    assert_eq!(db2.read_u32_field(&record, 0), Ok(117));
    assert_eq!(db2.read_field(&record, 0), Ok(vec![117, 0, 0, 0]));
}

#[test]
fn storage_kind_bitpacked_signed() {
    let mut record = vec![0u8; 4];
    put_bits(&mut record, 5, 10, 0x3ff);
    let bytes = build_table(1, 4, &[field(5, 10, 5)], &[], &[], &[record]);
    let (db2, record) = only_record(&bytes);
    assert_eq!(db2.read_u32_field(&record, 0), Ok(0x3ff));
}

#[test]
fn storage_kind_bitpacked_indexed() {
    let mut first = field(0, 2, 3);
    first.additional = 8;
    let mut second = field(2, 2, 3);
    second.additional = 12;
    let palette: Vec<u8> = vec![1, 0, 0, 0, 2, 0, 0, 0, 10, 0, 0, 0, 20, 0, 0, 0, 30, 0, 0, 0];
    let mut record = vec![0u8; 4];
    put_bits(&mut record, 0, 2, 1);
    put_bits(&mut record, 2, 2, 2);
    let bytes = build_table(1, 4, &[first, second], &palette, &[], &[record]);
    let (db2, record) = only_record(&bytes);
    assert_eq!(db2.read_u32_field(&record, 0), Ok(2));
    assert_eq!(db2.read_u32_field(&record, 1), Ok(30));
    assert_eq!(db2.get_palette_data(1, 0), Ok(10));
    assert_eq!(db2.get_palette_data(1, 3), Err(DecodeError::OutOfBounds));
}

#[test]
fn storage_kind_common_data() {
    let mut f = field(0, 0, 2);
    f.words = [0xdead_beef, 0, 0];
    let bytes = build_table(1, 4, &[f], &[], &[], &[vec![0; 4]]);
    let (db2, record) = only_record(&bytes);
    assert_eq!(db2.read_u32_field(&record, 0), Ok(0xdead_beef));

    let mut overridden = f;
    overridden.additional = 8;
    let bytes = build_table(1, 4, &[overridden], &[], &[0; 8], &[vec![0; 4]]);
    let (db2, record) = only_record(&bytes);
    assert_eq!(db2.read_field(&record, 0), Err(DecodeError::UnsupportedEncoding));
}

#[test]
fn storage_kind_indexed_array_is_unsupported() {
    let bytes = build_table(1, 4, &[field(0, 8, 4)], &[], &[], &[vec![0; 4]]);
    let (db2, record) = only_record(&bytes);
    assert_eq!(db2.read_field(&record, 0), Err(DecodeError::UnsupportedEncoding));
}

#[test]
fn field_outside_record_or_table() {
    let bytes = build_table(1, 4, &[field(16, 32, 0)], &[], &[], &[vec![0; 4]]);
    let (db2, record) = only_record(&bytes);
    assert_eq!(db2.read_field(&record, 0), Err(DecodeError::OutOfBounds));
    assert_eq!(db2.read_field(&record, 1), Err(DecodeError::OutOfBounds));
    let bytes = build_table(1, 4, &[field(0, 8, 0)], &[], &[], &[vec![2, 0, 0, 0]]);
    let (db2, record) = only_record(&bytes);
    assert_eq!(db2.read_u32_field(&record, 0), Err(DecodeError::TruncatedInput));
    assert_eq!(db2.read_bool_field(&record, 0), Err(DecodeError::InvalidValue));
    assert_eq!(db2.field_end_bits(0), 8);
}

// Light table: plain 40-byte rows.
fn light_row(x: f32, y: f32, z: f32, start: f32, end: f32, map_id: u16, param: u16) -> Vec<u8> {
    let mut r = Vec::new();
    for v in [x, y, z, start, end] {
        r.extend_from_slice(&v.to_bits().to_le_bytes());
    }
    push_u16(&mut r, map_id);
    push_u16(&mut r, param);
    for _ in 0..7 {
        push_u16(&mut r, 0);
    }
    push_u16(&mut r, 0);
    r
}

fn light_table(rows: &[Vec<u8>]) -> Vec<u8> {
    build_table(1, 40, &[], &[], &[], rows)
}

// Parameter table: fields 0..9, ending three bits before a byte boundary.
fn params_fields() -> Vec<Field> {
    let mut fs = vec![field(0, 96, 0), field(96, 32, 0), field(128, 3, 1)];
    let mut off = 131;
    for _ in 3..10 {
        fs.push(field(off, 32, 1));
        off += 32;
    }
    fs
}

fn params_row(light_data_id: u32, highlight: bool, glow: f32) -> Vec<u8> {
    let mut r = vec![0u8; 45];
    put_bits(&mut r, 96, 32, light_data_id as u64);
    put_bits(&mut r, 128, 3, highlight as u64);
    put_bits(&mut r, 131, 32, 77);
    put_bits(&mut r, 131 + 2 * 32, 32, glow.to_bits() as u64);
    r
}

fn params_table(rows: &[Vec<u8>]) -> Vec<u8> {
    build_table(1, 45, &params_fields(), &[], &[], rows)
}

// Palette table: twenty-two unpacked words and thirty-two padding bits.
fn data_fields() -> Vec<Field> {
    (0..22).map(|k| field(32 * k, 32, 0)).collect()
}

fn data_row(param: u32, time: u32, color: u32) -> Vec<u8> {
    let mut r = Vec::new();
    push_u32(&mut r, param);
    push_u32(&mut r, time);
    for k in 0..18 {
        push_u32(&mut r, color + k);
    }
    push_u32(&mut r, 100f32.to_bits());
    push_u32(&mut r, 0.5f32.to_bits());
    push_u32(&mut r, 0);
    r
}

fn data_table(rows: &[Vec<u8>]) -> Vec<u8> {
    build_table(1, 92, &data_fields(), &[], &[], rows)
}

fn fixture() -> LightDatabase {
    let lights = light_table(&[
        light_row(10.0, 10.0, 0.0, 5.0, 10.0, 1, 1),
        light_row(100.0, 0.0, 0.0, 5.0, 20.0, 1, 2),
        light_row(100.0, 30.0, 0.0, 5.0, 20.0, 1, 3),
        light_row(0.0, -0.0, 0.0, 1.0, 2.0, 2, 2),
    ]);
    let params = params_table(&[params_row(1, true, 0.25), params_row(2, false, 0.5), params_row(3, false, 0.75)]);
    let data = data_table(&[
        data_row(1, 0, 0x100),
        data_row(1, 2000, 0x300),
        data_row(1, 1000, 0x200),
        data_row(2, 0, 0x400),
        data_row(3, 500, 0x500),
        data_row(3, 1500, 0x600),
    ]);
    LightDatabase::new(&lights, &data, &params).unwrap()
}

#[test]
fn decodes_typed_rows() {
    let db = fixture();
    let lights = db.lights.records();
    assert_eq!(lights.len(), 4);
    assert_eq!(db.lights.ids(), &vec![1, 2, 3, 4]);
    assert_eq!(f32::from_bits(lights[1].coords[0]), 100.0);
    assert_eq!(f32::from_bits(lights[1].falloff_end), 20.0);
    assert_eq!(lights[2].light_param_ids[0], 3);
    let params = db.light_params.get_record(1).unwrap();
    assert_eq!(params.light_data_id, 1);
    assert!(params.highlight_sky);
    assert_eq!(params.skybox_id, 77);
    assert_eq!(f32::from_bits(params.glow), 0.25);
    let row = &db.light_data.records()[2];
    assert_eq!(row.time, 1000);
    assert_eq!(row.ambient_color, 0x201);
    assert_eq!(f32::from_bits(row.fog_scaler), 0.5);
    assert!(db.light_params.get_record(9).is_none());
}

#[test]
fn decoding_twice_gives_equal_rows() {
    let data = data_table(&[data_row(1, 0, 0x100), data_row(2, 5, 0x200)]);
    let a = Database::<LightDataRecord>::new(&data).unwrap();
    let b = Database::<LightDataRecord>::new(&data).unwrap();
    assert_eq!(format!("{:?}", a.records()), format!("{:?}", b.records()));
    assert_eq!(a.ids(), b.ids());
}

#[test]
fn record_size_mismatch_is_reported() {
    let lights = build_table(1, 44, &[], &[], &[], &[vec![0; 44]]);
    assert_eq!(Database::<LightRecord>::new(&lights).err(), Some(DecodeError::RecordSizeMismatch));
    let data = build_table(1, 96, &data_fields(), &[], &[], &[vec![0; 96]]);
    assert_eq!(Database::<LightDataRecord>::new(&data).err(), Some(DecodeError::RecordSizeMismatch));
    let short = light_table(&[light_row(0.0, 0.0, 0.0, 1.0, 2.0, 1, 1)]);
    assert_eq!(Database::<LightRecord>::new(&short[..short.len() - 1]).err(), Some(DecodeError::TruncatedInput));
    let params = build_table(1, 45, &params_fields()[..5], &[], &[], &[vec![0; 45]]);
    assert_eq!(Database::<LightParamsRecord>::new(&params).err(), Some(DecodeError::OutOfBounds));
}

#[test]
fn position_inside_inner_radius_selects_that_light() {
    let db = fixture();
    let classes = vec![DistanceResult::Inner, DistanceResult::Excluded, DistanceResult::Excluded, DistanceResult::Excluded];
    let q = db.get_lighting_data(1, &classes, 1000).unwrap();
    let inner = q.inner.unwrap();
    assert_eq!(inner.light, 0);
    assert!(q.outer.is_empty());
    assert_eq!(inner.descriptor.current.time, 1000);
    assert_eq!(inner.descriptor.current.direct_color, 0x200);
    assert_eq!(inner.descriptor.current.shadow_opacity, 0x200 + 17);
    assert_eq!(inner.descriptor.next.unwrap().time, 2000);
    assert_eq!(f32::from_bits(inner.descriptor.params.glow), 0.25);
}

#[test]
fn position_between_two_bands_selects_both_as_outer() {
    let db = fixture();
    let classes = vec![DistanceResult::Excluded, DistanceResult::Outer, DistanceResult::Outer, DistanceResult::Inner];
    let q = db.get_lighting_data(1, &classes, 1000).unwrap();
    assert!(q.inner.is_none());
    assert_eq!(q.outer.len(), 2);
    assert_eq!(q.outer[0].light, 1);
    assert_eq!(q.outer[1].light, 2);
    assert_eq!(q.outer[0].descriptor.current.time, 0);
    assert!(q.outer[0].descriptor.next.is_none());
    assert_eq!(q.outer[1].descriptor.current.time, 500);
    assert_eq!(q.outer[1].descriptor.next.unwrap().time, 1500);
}

#[test]
fn selection_reports_first_inner_or_all_outer() {
    let db = fixture();
    let classes = vec![DistanceResult::Outer, DistanceResult::Inner, DistanceResult::Inner, DistanceResult::Outer];
    let (inner, outer) = db.select_lights(1, &classes);
    assert_eq!(inner, Some(1));
    assert!(outer.is_empty());
    let classes = vec![DistanceResult::Outer, DistanceResult::Excluded, DistanceResult::Outer, DistanceResult::Outer];
    let (inner, outer) = db.select_lights(1, &classes);
    assert_eq!(inner, None);
    assert_eq!(outer, vec![0, 2]);
}

#[test]
fn no_match_falls_back_to_origin_light_or_id_one() {
    let db = fixture();
    let none = vec![DistanceResult::Excluded; 4];
    assert_eq!(db.default_light_index(2), Some(3));
    assert_eq!(db.default_light_index(1), Some(0));
    let q = db.get_lighting_data(2, &none, 0).unwrap();
    assert_eq!(q.inner.unwrap().light, 3);
    let q = db.get_lighting_data(7, &none, 0).unwrap();
    assert_eq!(q.inner.unwrap().light, 0);
    assert_eq!(q.inner.unwrap().descriptor.current.time, 0);
}

#[test]
fn keyframes_around_a_time() {
    let db = fixture();
    assert_eq!(db.find_keyframes(1, 1500), (Some(2), Some(1)));
    assert_eq!(db.find_keyframes(1, 3000), (Some(1), None));
    assert_eq!(db.find_keyframes(3, 100), (None, Some(4)));
    let light = db.lights.records()[2];
    assert_eq!(db.get_light_result(&light, 100).err(), Some(DecodeError::MissingRequiredSection));
}

#[test]
fn kinds_that_do_not_read_the_record_ignore_its_extent() {
    let mut common = field(64, 32, 2);
    common.words = [42, 0, 0];
    let array = field(64, 32, 4);
    let bytes = build_table(1, 4, &[common, array], &[], &[], &[vec![0; 4]]);
    let (db2, record) = only_record(&bytes);
    assert_eq!(db2.read_u32_field(&record, 0), Ok(42));
    assert_eq!(db2.read_field(&record, 1), Err(DecodeError::UnsupportedEncoding));
}
