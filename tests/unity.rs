use asset_decode::asset::{
    AssetHeader, AssetInfo, AssetMetadata, Endianness, UnityVersion, VersionType,
};
use asset_decode::error::DecodeError;
use asset_decode::game_object::{AssetReader, MeshFilter, MeshRenderer, ObjectPtr};

fn info(endianness: Endianness, major: u32, minor: u32, version_type: VersionType) -> AssetInfo {
    AssetInfo {
        header: AssetHeader { metadata_size: 0, file_size: 0, version: 22, data_offset: 0, endianness },
        metadata: AssetMetadata {
            unity_version: UnityVersion { major, minor, build: 1, version_type, type_number: 1 },
            target_platform: 0,
            enable_type_tree: false,
            types: Vec::new(),
        },
    }
}

fn ptr_le(file_index: u32, path_id: i64) -> Vec<u8> {
    let mut out = file_index.to_le_bytes().to_vec();
    out.extend_from_slice(&path_id.to_le_bytes());
    out
}

#[test]
fn mesh_filter_little_endian() {
    let mut data = ptr_le(0, 42);
    data.extend(ptr_le(1, -5));
    let m = MeshFilter::from_bytes(data, &info(Endianness::Little, 2019, 4, VersionType::Final), 7).unwrap();
    assert_eq!(m.path_id, Some(7));
    assert_eq!(m.game_object.file_index, 0);
    assert_eq!(m.game_object.path_id, 42);
    assert_eq!(m.mesh_ptr.file_index, 1);
    assert_eq!(m.mesh_ptr.path_id, -5);
}

#[test]
fn mesh_filter_big_endian_and_short_input() {
    let mut data = vec![0, 0, 0, 3];
    data.extend_from_slice(&0x1_0000_0009i64.to_be_bytes());
    data.extend_from_slice(&[0, 0, 0, 0]);
    data.extend_from_slice(&(-1i64).to_be_bytes());
    let m = MeshFilter::from_bytes(data.clone(), &info(Endianness::Big, 2019, 4, VersionType::Final), 1).unwrap();
    assert_eq!(m.game_object.file_index, 3);
    assert_eq!(m.game_object.path_id, 9);
    assert_eq!(m.mesh_ptr.path_id, -1);
    data.pop();
    let short = MeshFilter::from_bytes(data, &info(Endianness::Big, 2019, 4, VersionType::Final), 1);
    assert_eq!(short.err(), Some(DecodeError::TruncatedInput));
}

fn renderer_bytes(materials: &[(u32, i64)]) -> Vec<u8> {
    // 2019.4 final: flags end at 20, then mask, priority and lightmap data up to 64.
    let mut d = ptr_le(0, 11);
    d.push(1);
    d.extend_from_slice(&[0; 7]);
    assert_eq!(d.len(), 20);
    d.extend_from_slice(&[0; 44]);
    d.extend_from_slice(&(materials.len() as i32).to_le_bytes());
    for (f, p) in materials {
        d.extend(ptr_le(*f, *p));
    }
    d.extend_from_slice(&3u16.to_le_bytes());
    d.extend_from_slice(&4u16.to_le_bytes());
    d.extend_from_slice(&[0; 36]);
    while d.len() % 4 != 0 {
        d.push(0);
    }
    d.extend_from_slice(&[0; 6]);
    while d.len() % 4 != 0 {
        d.push(0);
    }
    d
}

#[test]
fn mesh_renderer_fields() {
    let data = renderer_bytes(&[(0, 100), (0, 200)]);
    let r = MeshRenderer::from_bytes(data, &info(Endianness::Little, 2019, 4, VersionType::Final), 5).unwrap();
    assert_eq!(r.path_id, Some(5));
    assert_eq!(r.game_object.path_id, 11);
    assert!(r.enabled);
    assert_eq!(r.materials.len(), 2);
    assert_eq!(r.materials[1].path_id, 200);
    assert_eq!(r.static_batch_info.first_submesh, 3);
    assert_eq!(r.static_batch_info.submesh_count, 4);
}

#[test]
fn mesh_renderer_errors() {
    let data = renderer_bytes(&[(0, 100)]);
    let v = info(Endianness::Little, 2019, 4, VersionType::Final);
    let short = MeshRenderer::from_bytes(data[..data.len() - 1].to_vec(), &v, 1);
    assert_eq!(short.err(), Some(DecodeError::TruncatedInput));
    let mut negative = data.clone();
    negative[64..68].copy_from_slice(&(-1i32).to_le_bytes());
    assert_eq!(MeshRenderer::from_bytes(negative, &v, 1).err(), Some(DecodeError::InvalidValue));
    assert_eq!(MeshRenderer::from_bytes(data[..60].to_vec(), &v, 1).err(), Some(DecodeError::TruncatedInput));
}

#[test]
fn reader_values_and_alignment() {
    let mut r = AssetReader::new(vec![1, 0x80, 0x00, 0, 0, 0, 0, 0xff, 0xff, 0xff, 0xff]);
    r.set_endianness(Endianness::Big);
    assert_eq!(r.read_bool(), Ok(true));
    assert_eq!(r.read_i16(), Ok(-32768));
    assert_eq!(r.align(), Ok(()));
    assert_eq!(r.pos, 4);
    assert_eq!(r.read_u8(), Ok(0));
    assert_eq!(r.skip(2), Ok(()));
    assert_eq!(r.read_i32(), Ok(-1));
    assert_eq!(r.read_u8(), Err(DecodeError::TruncatedInput));
    let p = ObjectPtr { file_index: 1, path_id: 2 };
    assert_eq!(p.path_id, 2);
}

#[test]
fn version_comparison() {
    let v = UnityVersion { major: 2019, minor: 4, build: 0, version_type: VersionType::Final, type_number: 0 };
    assert!(v.at_least(2019, 3));
    assert!(v.at_least(2018, 9));
    assert!(!v.at_least(2020, 0));
}
