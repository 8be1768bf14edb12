use crate::asset::{AssetInfo, Endianness, UnityVersion, VersionType};
use crate::bytes::{
    be_u16, be_u32, be_u64, le_u16, le_u32, le_u64, read_u16_be, read_u16_le, read_u32_be,
    read_u32_le, read_u64_be, read_u64_le,
};
use crate::error::DecodeError;
use vstd::prelude::*;

verus! {

/// The unsigned value of the two bytes at `p` in byte order `e`.
pub open spec fn u16_at(d: Seq<u8>, p: int, e: Endianness) -> int {
    match e {
        Endianness::Little => le_u16(d, p),
        Endianness::Big => be_u16(d, p),
    }
}

/// The unsigned value of the four bytes at `p` in byte order `e`.
pub open spec fn u32_at(d: Seq<u8>, p: int, e: Endianness) -> int {
    match e {
        Endianness::Little => le_u32(d, p),
        Endianness::Big => be_u32(d, p),
    }
}

/// The unsigned value of the eight bytes at `p` in byte order `e`.
pub open spec fn u64_at(d: Seq<u8>, p: int, e: Endianness) -> int {
    match e {
        Endianness::Little => le_u64(d, p),
        Endianness::Big => be_u64(d, p),
    }
}

/// The two's-complement reading of a 16-bit pattern.
pub open spec fn i16_of(x: int) -> int {
    if x < 0x8000 {
        x
    } else {
        x - 0x1_0000
    }
}

/// The two's-complement reading of a 32-bit pattern.
pub open spec fn i32_of(x: int) -> int {
    if x < 0x8000_0000 {
        x
    } else {
        x - 0x1_0000_0000
    }
}

/// `p` rounded up to a multiple of four.
pub open spec fn align4(p: int) -> int {
    p + (4 - p % 4) % 4
}

/// A reader over the bytes of one serialized object.
pub struct AssetReader {
    pub data: Vec<u8>,
    pub pos: usize,
    pub endianness: Endianness,
}

impl AssetReader {
    pub fn new(data: Vec<u8>) -> (r: AssetReader)
        ensures
            r.data@ == data@,
            r.pos == 0,
            r.endianness == Endianness::Little,
    {
        AssetReader { data, pos: 0, endianness: Endianness::Little }
    }

    pub fn set_endianness(&mut self, endianness: Endianness)
        ensures
            final(self).data@ == old(self).data@,
            final(self).pos == old(self).pos,
            final(self).endianness == endianness,
    {
        self.endianness = endianness;
    }

    /// Claims the next `n` bytes and returns where they start.
    fn take(&mut self, n: usize) -> (r: Result<usize, DecodeError>)
        requires
            old(self).pos <= old(self).data@.len(),
        ensures
            final(self).data@ == old(self).data@,
            final(self).endianness == old(self).endianness,
            final(self).pos <= final(self).data@.len(),
            match r {
                Ok(start) => start == old(self).pos && old(self).pos + n <= old(self).data@.len()
                    && final(self).pos == old(self).pos + n,
                Err(e) => e == DecodeError::TruncatedInput && old(self).pos + n
                    > old(self).data@.len(),
            },
    {
        if n > self.data.len() - self.pos {
            return Err(DecodeError::TruncatedInput);
        }
        let start = self.pos;
        self.pos = self.pos + n;
        Ok(start)
    }

    pub fn read_u8(&mut self) -> (r: Result<u8, DecodeError>)
        requires
            old(self).pos <= old(self).data@.len(),
        ensures
            final(self).data@ == old(self).data@,
            final(self).endianness == old(self).endianness,
            final(self).pos <= final(self).data@.len(),
            match r {
                Ok(v) => old(self).pos + 1 <= old(self).data@.len() && v == old(self).data@[old(
                    self,
                ).pos as int] && final(self).pos == old(self).pos + 1,
                Err(e) => e == DecodeError::TruncatedInput && old(self).pos + 1
                    > old(self).data@.len(),
            },
    {
        let start = self.take(1)?;
        Ok(self.data[start])
    }

    /// A byte read as a flag: any non-zero byte is true.
    pub fn read_bool(&mut self) -> (r: Result<bool, DecodeError>)
        requires
            old(self).pos <= old(self).data@.len(),
        ensures
            final(self).data@ == old(self).data@,
            final(self).endianness == old(self).endianness,
            final(self).pos <= final(self).data@.len(),
            match r {
                Ok(v) => old(self).pos + 1 <= old(self).data@.len() && v == (old(self).data@[old(
                    self,
                ).pos as int] != 0) && final(self).pos == old(self).pos + 1,
                Err(e) => e == DecodeError::TruncatedInput && old(self).pos + 1
                    > old(self).data@.len(),
            },
    {
        let b = self.read_u8()?;
        Ok(b != 0)
    }

    pub fn read_u16(&mut self) -> (r: Result<u16, DecodeError>)
        requires
            old(self).pos <= old(self).data@.len(),
        ensures
            final(self).data@ == old(self).data@,
            final(self).endianness == old(self).endianness,
            final(self).pos <= final(self).data@.len(),
            match r {
                Ok(v) => old(self).pos + 2 <= old(self).data@.len() && v == u16_at(
                    old(self).data@,
                    old(self).pos as int,
                    old(self).endianness,
                ) && final(self).pos == old(self).pos + 2,
                Err(e) => e == DecodeError::TruncatedInput && old(self).pos + 2
                    > old(self).data@.len(),
            },
    {
        let start = self.take(2)?;
        match self.endianness {
            Endianness::Little => Ok(read_u16_le(self.data.as_slice(), start)),
            Endianness::Big => Ok(read_u16_be(self.data.as_slice(), start)),
        }
    }

    pub fn read_i16(&mut self) -> (r: Result<i16, DecodeError>)
        requires
            old(self).pos <= old(self).data@.len(),
        ensures
            final(self).data@ == old(self).data@,
            final(self).endianness == old(self).endianness,
            final(self).pos <= final(self).data@.len(),
            match r {
                Ok(v) => old(self).pos + 2 <= old(self).data@.len() && v == i16_of(
                    u16_at(old(self).data@, old(self).pos as int, old(self).endianness),
                ) && final(self).pos == old(self).pos + 2,
                Err(e) => e == DecodeError::TruncatedInput && old(self).pos + 2
                    > old(self).data@.len(),
            },
    {
        let u = self.read_u16()?;
        if u < 0x8000 {
            Ok(u as i16)
        } else {
            Ok((u as i32 - 0x1_0000) as i16)
        }
    }

    pub fn read_u32(&mut self) -> (r: Result<u32, DecodeError>)
        requires
            old(self).pos <= old(self).data@.len(),
        ensures
            final(self).data@ == old(self).data@,
            final(self).endianness == old(self).endianness,
            final(self).pos <= final(self).data@.len(),
            match r {
                Ok(v) => old(self).pos + 4 <= old(self).data@.len() && v == u32_at(
                    old(self).data@,
                    old(self).pos as int,
                    old(self).endianness,
                ) && final(self).pos == old(self).pos + 4,
                Err(e) => e == DecodeError::TruncatedInput && old(self).pos + 4
                    > old(self).data@.len(),
            },
    {
        let start = self.take(4)?;
        match self.endianness {
            Endianness::Little => Ok(read_u32_le(self.data.as_slice(), start)),
            Endianness::Big => Ok(read_u32_be(self.data.as_slice(), start)),
        }
    }

    pub fn read_i32(&mut self) -> (r: Result<i32, DecodeError>)
        requires
            old(self).pos <= old(self).data@.len(),
        ensures
            final(self).data@ == old(self).data@,
            final(self).endianness == old(self).endianness,
            final(self).pos <= final(self).data@.len(),
            match r {
                Ok(v) => old(self).pos + 4 <= old(self).data@.len() && v == i32_of(
                    u32_at(old(self).data@, old(self).pos as int, old(self).endianness),
                ) && final(self).pos == old(self).pos + 4,
                Err(e) => e == DecodeError::TruncatedInput && old(self).pos + 4
                    > old(self).data@.len(),
            },
    {
        let u = self.read_u32()?;
        Ok(i32_from_bits(u))
    }

    pub fn read_u64(&mut self) -> (r: Result<u64, DecodeError>)
        requires
            old(self).pos <= old(self).data@.len(),
        ensures
            final(self).data@ == old(self).data@,
            final(self).endianness == old(self).endianness,
            final(self).pos <= final(self).data@.len(),
            match r {
                Ok(v) => old(self).pos + 8 <= old(self).data@.len() && v == u64_at(
                    old(self).data@,
                    old(self).pos as int,
                    old(self).endianness,
                ) && final(self).pos == old(self).pos + 8,
                Err(e) => e == DecodeError::TruncatedInput && old(self).pos + 8
                    > old(self).data@.len(),
            },
    {
        let start = self.take(8)?;
        match self.endianness {
            Endianness::Little => Ok(read_u64_le(self.data.as_slice(), start)),
            Endianness::Big => Ok(read_u64_be(self.data.as_slice(), start)),
        }
    }

    /// Skips `n` bytes.
    pub fn skip(&mut self, n: usize) -> (r: Result<(), DecodeError>)
        requires
            old(self).pos <= old(self).data@.len(),
        ensures
            final(self).data@ == old(self).data@,
            final(self).endianness == old(self).endianness,
            final(self).pos <= final(self).data@.len(),
            match r {
                Ok(_) => old(self).pos + n <= old(self).data@.len() && final(self).pos == old(
                    self,
                ).pos + n,
                Err(e) => e == DecodeError::TruncatedInput && old(self).pos + n
                    > old(self).data@.len(),
            },
    {
        self.take(n)?;
        Ok(())
    }

    /// Moves to the next multiple of four; the padding must lie within the
    /// data.
    pub fn align(&mut self) -> (r: Result<(), DecodeError>)
        requires
            old(self).pos <= old(self).data@.len(),
        ensures
            final(self).data@ == old(self).data@,
            final(self).endianness == old(self).endianness,
            final(self).pos <= final(self).data@.len(),
            match r {
                Ok(_) => align4(old(self).pos as int) <= old(self).data@.len() && final(self).pos
                    == align4(old(self).pos as int),
                Err(e) => e == DecodeError::TruncatedInput && align4(old(self).pos as int) > old(
                    self,
                ).data@.len(),
            },
    {
        let pad = (4 - self.pos % 4) % 4;
        self.skip(pad)
    }
}

fn i32_from_bits(u: u32) -> (r: i32)
    ensures
        r as int == i32_of(u as int),
{
    if u < 0x8000_0000 {
        u as i32
    } else {
        (u as i64 - 0x1_0000_0000) as i32
    }
}

/// A reference to an object: the file it lives in (0: this one) and its
/// path id.
#[derive(Debug, Clone, Copy)]
pub struct ObjectPtr {
    pub file_index: u32,
    pub path_id: i32,
}

/// The reference stored at `p`: a 32-bit file index, then a 64-bit path id of
/// which the low 32 bits are kept.
pub open spec fn pptr_at(d: Seq<u8>, p: int, e: Endianness) -> ObjectPtr {
    ObjectPtr {
        file_index: u32_at(d, p, e) as u32,
        path_id: i32_of(u64_at(d, p + 4, e) % 0x1_0000_0000) as i32,
    }
}

/// The references stored one after the other from `p`.
pub open spec fn pptrs_at(d: Seq<u8>, p: int, count: nat, e: Endianness) -> Seq<ObjectPtr> {
    Seq::new(count, |k: int| pptr_at(d, p + 12 * k, e))
}

impl ObjectPtr {
    pub fn deserialize(reader: &mut AssetReader, _asset: &AssetInfo) -> (r: Result<ObjectPtr, DecodeError>)
        requires
            old(reader).pos <= old(reader).data@.len(),
        ensures
            final(reader).data@ == old(reader).data@,
            final(reader).endianness == old(reader).endianness,
            final(reader).pos <= final(reader).data@.len(),
            match r {
                Ok(p) => old(reader).pos + 12 <= old(reader).data@.len() && p == pptr_at(
                    old(reader).data@,
                    old(reader).pos as int,
                    old(reader).endianness,
                ) && final(reader).pos == old(reader).pos + 12,
                Err(e) => e == DecodeError::TruncatedInput && old(reader).pos + 12 > old(
                    reader,
                ).data@.len(),
            },
    {
        let file_index = reader.read_u32()?;
        let path_id = i32_from_bits((reader.read_u64()? % 0x1_0000_0000) as u32);
        Ok(ObjectPtr { file_index, path_id })
    }

    /// A 32-bit count, then that many references.
    pub fn deserialize_array(reader: &mut AssetReader, asset: &AssetInfo) -> (r: Result<
        Vec<ObjectPtr>,
        DecodeError,
    >)
        requires
            old(reader).pos <= old(reader).data@.len(),
        ensures
            final(reader).data@ == old(reader).data@,
            final(reader).endianness == old(reader).endianness,
            final(reader).pos <= final(reader).data@.len(),
            ({
                let d = old(reader).data@;
                let p = old(reader).pos as int;
                let e = old(reader).endianness;
                let count = i32_of(u32_at(d, p, e));
                match r {
                    Ok(v) => p + 4 <= d.len() && count >= 0 && p + 4 + 12 * count <= d.len()
                        && v@ == pptrs_at(d, p + 4, count as nat, e) && final(reader).pos == p + 4
                        + 12 * count,
                    Err(e) => if p + 4 > d.len() {
                        e == DecodeError::TruncatedInput
                    } else if count < 0 {
                        e == DecodeError::InvalidValue
                    } else {
                        e == DecodeError::TruncatedInput && p + 4 + 12 * count > d.len()
                    },
                }
            }),
    {
        let ghost d = reader.data@;
        let ghost e = reader.endianness;
        let ghost p = reader.pos as int;
        let count = reader.read_i32()?;
        if count < 0 {
            return Err(DecodeError::InvalidValue);
        }
        let mut out: Vec<ObjectPtr> = Vec::new();
        let mut k: i32 = 0;
        while k < count
            invariant
                d == old(reader).data@,
                e == old(reader).endianness,
                p == old(reader).pos,
                reader.data@ == d,
                reader.endianness == e,
                reader.pos <= reader.data@.len(),
                p + 4 <= d.len(),
                count == i32_of(u32_at(d, p, e)),
                0 <= k <= count,
                reader.pos == p + 4 + 12 * k,
                out@ =~= pptrs_at(d, p + 4, k as nat, e),
            decreases count - k,
        {
            let item = match ObjectPtr::deserialize(reader, asset) {
                Ok(item) => item,
                Err(err) => {
                    assert(p + 4 + 12 * count >= p + 4 + 12 * (k + 1));
                    return Err(err);
                },
            };
            out.push(item);
            k = k + 1;
            assert(out@ =~= pptrs_at(d, p + 4, k as nat, e));
        }
        Ok(out)
    }
}

/// The component that names the mesh of a game object.
#[derive(Debug)]
pub struct MeshFilter {
    pub path_id: Option<i32>,
    pub game_object: ObjectPtr,
    pub mesh_ptr: ObjectPtr,
}

impl MeshFilter {
    pub fn deserialize(reader: &mut AssetReader, asset: &AssetInfo) -> (r: Result<
        MeshFilter,
        DecodeError,
    >)
        requires
            old(reader).pos <= old(reader).data@.len(),
        ensures
            final(reader).data@ == old(reader).data@,
            final(reader).endianness == old(reader).endianness,
            final(reader).pos <= final(reader).data@.len(),
            ({
                let d = old(reader).data@;
                let p = old(reader).pos as int;
                let e = old(reader).endianness;
                match r {
                    Ok(m) => p + 24 <= d.len() && m.path_id is None && m.game_object == pptr_at(
                        d,
                        p,
                        e,
                    ) && m.mesh_ptr == pptr_at(d, p + 12, e) && final(reader).pos == p + 24,
                    Err(err) => err == DecodeError::TruncatedInput && p + 24 > d.len(),
                }
            }),
    {
        let game_object = ObjectPtr::deserialize(reader, asset)?;
        let mesh_ptr = ObjectPtr::deserialize(reader, asset)?;
        Ok(MeshFilter { path_id: None, game_object, mesh_ptr })
    }

    /// Decodes a mesh filter from the bytes of one object, in the byte order
    /// of its file, and gives it the object's path id.
    pub fn from_bytes(data: Vec<u8>, asset: &AssetInfo, path_id: i32) -> (r: Result<
        MeshFilter,
        DecodeError,
    >)
        ensures
            ({
                let e = asset.header.endianness;
                match r {
                    Ok(m) => data@.len() >= 24 && m.path_id == Some(path_id) && m.game_object
                        == pptr_at(data@, 0, e) && m.mesh_ptr == pptr_at(data@, 12, e),
                    Err(err) => err == DecodeError::TruncatedInput && data@.len() < 24,
                }
            }),
    {
        let mut reader = AssetReader::new(data);
        reader.set_endianness(asset.header.endianness);
        let mut obj = MeshFilter::deserialize(&mut reader, asset)?;
        obj.path_id = Some(path_id);
        Ok(obj)
    }
}

/// Which submeshes of a statically batched mesh belong to a renderer.
#[derive(Debug, Clone, Copy)]
pub struct StaticBatchInfo {
    pub first_submesh: u16,
    pub submesh_count: u16,
}

impl StaticBatchInfo {
    pub fn deserialize(reader: &mut AssetReader, _asset: &AssetInfo) -> (r: Result<
        StaticBatchInfo,
        DecodeError,
    >)
        requires
            old(reader).pos <= old(reader).data@.len(),
        ensures
            final(reader).data@ == old(reader).data@,
            final(reader).endianness == old(reader).endianness,
            final(reader).pos <= final(reader).data@.len(),
            ({
                let d = old(reader).data@;
                let p = old(reader).pos as int;
                let e = old(reader).endianness;
                match r {
                    Ok(s) => p + 4 <= d.len() && s == batch_info_at(d, p, e) && final(reader).pos
                        == p + 4,
                    Err(err) => err == DecodeError::TruncatedInput && p + 4 > d.len(),
                }
            }),
    {
        let first_submesh = reader.read_u16()?;
        let submesh_count = reader.read_u16()?;
        Ok(StaticBatchInfo { first_submesh, submesh_count })
    }
}

/// The batch information stored at `p`.
pub open spec fn batch_info_at(d: Seq<u8>, p: int, e: Endianness) -> StaticBatchInfo {
    StaticBatchInfo {
        first_submesh: u16_at(d, p, e) as u16,
        submesh_count: u16_at(d, p + 2, e) as u16,
    }
}

/// The component that draws a mesh: its game object, whether it is enabled,
/// its materials and its static batch.
#[derive(Debug)]
pub struct MeshRenderer {
    pub path_id: Option<i32>,
    pub game_object: ObjectPtr,
    pub enabled: bool,
    pub materials: Vec<ObjectPtr>,
    pub static_batch_info: StaticBatchInfo,
}

/// One byte where the version has the field, none where it does not.
pub open spec fn byte_if(present: bool) -> int {
    if present {
        1
    } else {
        0
    }
}

/// Where a renderer serialized from `s` on, by version `v`, stores its
/// material count: after the game object, the enabled flag and the shadow,
/// occlusion, motion, probe and ray-tracing settings that `v` has, padded to
/// four bytes, then the rendering layer mask and renderer priority where `v`
/// has them, and the lightmap indices and tiling of a final release.
pub open spec fn renderer_materials_pos(v: UnityVersion, s: int) -> int {
    align4(renderer_flags_end(v, s)) + 4 * byte_if(v.spec_at_least(2018, 0)) + 4 * byte_if(
        v.spec_at_least(2018, 3),
    ) + 36 * byte_if(v.version_type == VersionType::Final)
}

/// Where a renderer that stores `count` materials from `m` on stores its
/// static batch information.
pub open spec fn renderer_batch_pos(m: int, count: int) -> int {
    m + 4 + 12 * count
}

/// Where a renderer whose static batch information stands at `b` ends: the
/// batch information, three references, padding, three sorting values, and
/// padding again.
pub open spec fn renderer_end(b: int) -> int {
    align4(align4(b + 4 + 36) + 6)
}

/// Where the flag bytes of a renderer serialized from `s` on, by version
/// `v`, end.
pub open spec fn renderer_flags_end(v: UnityVersion, s: int) -> int {
    s + 12 + 1 + 2 + byte_if(v.spec_at_least(2017, 2)) + byte_if(v.spec_at_least(2021, 0)) + 3
        + byte_if(v.spec_at_least(2019, 3)) + byte_if(v.spec_at_least(2020, 0))
}

/// Reads a renderer's game object and flag bytes.
fn read_renderer_flags(reader: &mut AssetReader, asset: &AssetInfo) -> (r: Result<
    (ObjectPtr, bool),
    DecodeError,
>)
    requires
        old(reader).pos <= old(reader).data@.len(),
    ensures
        final(reader).data@ == old(reader).data@,
        final(reader).endianness == old(reader).endianness,
        final(reader).pos <= final(reader).data@.len(),
        ({
            let d = old(reader).data@;
            let s = old(reader).pos as int;
            let f = renderer_flags_end(asset.metadata.unity_version, s);
            match r {
                Ok((g, enabled)) => f <= d.len() && final(reader).pos == f && g == pptr_at(
                    d,
                    s,
                    old(reader).endianness,
                ) && enabled == (d[s + 12] != 0),
                Err(err) => err == DecodeError::TruncatedInput && f > d.len(),
            }
        }),
{
    let v = &asset.metadata.unity_version;
    let game_object = ObjectPtr::deserialize(reader, asset)?;
    let enabled = reader.read_bool()?;
    let _cast_shadows = reader.read_u8()?;
    let _receive_shadows = reader.read_u8()?;
    if v.at_least(2017, 2) {
        let _dynamic_occludee = reader.read_u8()?;
    }
    if v.at_least(2021, 0) {
        let _static_shadow_caster = reader.read_u8()?;
    }
    let _motion_vectors = reader.read_u8()?;
    let _light_probe_usage = reader.read_u8()?;
    let _reflection_probe_usage = reader.read_u8()?;
    if v.at_least(2019, 3) {
        let _ray_tracing_mode = reader.read_u8()?;
    }
    if v.at_least(2020, 0) {
        let _ray_trace_procedural = reader.read_u8()?;
    }
    Ok((game_object, enabled))
}

/// Reads a renderer's game object and settings, up to its material list.
fn read_renderer_head(reader: &mut AssetReader, asset: &AssetInfo) -> (r: Result<
    (ObjectPtr, bool),
    DecodeError,
>)
    requires
        old(reader).pos <= old(reader).data@.len(),
    ensures
        final(reader).data@ == old(reader).data@,
        final(reader).endianness == old(reader).endianness,
        final(reader).pos <= final(reader).data@.len(),
        ({
            let d = old(reader).data@;
            let s = old(reader).pos as int;
            let m = renderer_materials_pos(asset.metadata.unity_version, s);
            match r {
                Ok((g, enabled)) => m <= d.len() && final(reader).pos == m && g == pptr_at(
                    d,
                    s,
                    old(reader).endianness,
                ) && enabled == (d[s + 12] != 0),
                Err(err) => err == DecodeError::TruncatedInput && m > d.len(),
            }
        }),
{
    let v = &asset.metadata.unity_version;
    let head = read_renderer_flags(reader, asset)?;
    reader.align()?;
    if v.at_least(2018, 0) {
        let _rendering_layer_mask = reader.read_u32()?;
    }
    if v.at_least(2018, 3) {
        let _renderer_priority = reader.read_u32()?;
    }
    if v.version_type == VersionType::Final {
        let _lightmap_index = reader.read_u16()?;
        let _lightmap_index_dynamic = reader.read_u16()?;
        let _lightmap_tiling_offset = reader.skip(16)?;
        let _lightmap_tiling_offset_dynamic = reader.skip(16)?;
    }
    Ok(head)
}

/// Skips what follows a renderer's static batch information: three
/// references, padding, three sorting values and padding again.
fn read_renderer_tail(reader: &mut AssetReader, asset: &AssetInfo) -> (r: Result<(), DecodeError>)
    requires
        old(reader).pos <= old(reader).data@.len(),
    ensures
        final(reader).data@ == old(reader).data@,
        final(reader).endianness == old(reader).endianness,
        final(reader).pos <= final(reader).data@.len(),
        ({
            let t = align4(align4(old(reader).pos + 36) + 6);
            match r {
                Ok(_) => t <= old(reader).data@.len() && final(reader).pos == t,
                Err(err) => err == DecodeError::TruncatedInput && t > old(reader).data@.len(),
            }
        }),
{
    let _static_batch_root = ObjectPtr::deserialize(reader, asset)?;
    let _probe_anchor = ObjectPtr::deserialize(reader, asset)?;
    let _light_probe_volume_override = ObjectPtr::deserialize(reader, asset)?;
    reader.align()?;
    let _sorting_layer_id = reader.read_i16()?;
    let _sorting_layer = reader.read_i16()?;
    let _sorting_order = reader.read_i16()?;
    reader.align()?;
    Ok(())
}

impl MeshRenderer {
    pub fn deserialize(reader: &mut AssetReader, asset: &AssetInfo) -> (r: Result<
        MeshRenderer,
        DecodeError,
    >)
        requires
            old(reader).pos <= old(reader).data@.len(),
        ensures
            final(reader).data@ == old(reader).data@,
            final(reader).endianness == old(reader).endianness,
            final(reader).pos <= final(reader).data@.len(),
            ({
                let d = old(reader).data@;
                let s = old(reader).pos as int;
                let e = old(reader).endianness;
                let m = renderer_materials_pos(asset.metadata.unity_version, s);
                let count = i32_of(u32_at(d, m, e));
                let b = renderer_batch_pos(m, count);
                match r {
                    Ok(x) => {
                        &&& m + 4 <= d.len()
                        &&& count >= 0
                        &&& renderer_end(b) <= d.len()
                        &&& final(reader).pos == renderer_end(b)
                        &&& x.path_id is None
                        &&& x.game_object == pptr_at(d, s, e)
                        &&& x.enabled == (d[s + 12] != 0)
                        &&& x.materials@ == pptrs_at(d, m + 4, count as nat, e)
                        &&& x.static_batch_info == batch_info_at(d, b, e)
                    },
                    Err(err) => if m + 4 > d.len() {
                        err == DecodeError::TruncatedInput
                    } else if count < 0 {
                        err == DecodeError::InvalidValue
                    } else {
                        err == DecodeError::TruncatedInput && renderer_end(b) > d.len()
                    },
                }
            }),
    {
        let ghost d = reader.data@;
        let ghost s = reader.pos as int;
        let ghost e = reader.endianness;
        let (game_object, enabled) = read_renderer_head(reader, asset)?;
        let materials = ObjectPtr::deserialize_array(reader, asset)?;
        let static_batch_info = StaticBatchInfo::deserialize(reader, asset)?;
        read_renderer_tail(reader, asset)?;
        Ok(MeshRenderer { path_id: None, game_object, enabled, materials, static_batch_info })
    }

    /// Decodes a mesh renderer from the bytes of one object, in the byte
    /// order and the layout of its file's engine version, and gives it the
    /// object's path id.
    pub fn from_bytes(data: Vec<u8>, asset: &AssetInfo, path_id: i32) -> (r: Result<
        MeshRenderer,
        DecodeError,
    >)
        ensures
            ({
                let d = data@;
                let e = asset.header.endianness;
                let m = renderer_materials_pos(asset.metadata.unity_version, 0);
                let count = i32_of(u32_at(d, m, e));
                let b = renderer_batch_pos(m, count);
                match r {
                    Ok(x) => {
                        &&& m + 4 <= d.len()
                        &&& count >= 0
                        &&& renderer_end(b) <= d.len()
                        &&& x.path_id == Some(path_id)
                        &&& x.game_object == pptr_at(d, 0, e)
                        &&& x.enabled == (d[12] != 0)
                        &&& x.materials@ == pptrs_at(d, m + 4, count as nat, e)
                        &&& x.static_batch_info == batch_info_at(d, b, e)
                    },
                    Err(err) => if m + 4 > d.len() {
                        err == DecodeError::TruncatedInput
                    } else if count < 0 {
                        err == DecodeError::InvalidValue
                    } else {
                        err == DecodeError::TruncatedInput && renderer_end(b) > d.len()
                    },
                }
            }),
    {
        let mut reader = AssetReader::new(data);
        reader.set_endianness(asset.header.endianness);
        let mut obj = MeshRenderer::deserialize(&mut reader, asset)?;
        obj.path_id = Some(path_id);
        Ok(obj)
    }
}

} // verus!
