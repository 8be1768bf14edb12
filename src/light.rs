use crate::bytes::{le_u16, le_u32, read_u16_le, read_u32_le};
use crate::database::{Database, TableRecord, first_position, table_of};
use crate::db2::{Db2View, Wdc4Db2File, field_end, field_flag, field_word, field_words, field_words3};
use crate::error::DecodeError;
use vstd::prelude::*;

verus! {

/// Size in bytes of one row of the light table.
pub const LIGHT_RECORD_SIZE: usize = 40;

/// A light: where it stands, how far it reaches, on which map, and which
/// parameter rows it uses. Coordinates and radii are the bit patterns of
/// IEEE-754 single-precision numbers.
#[derive(Debug, Clone, Copy)]
pub struct LightRecord {
    pub coords: [u32; 3],
    pub falloff_start: u32,
    pub falloff_end: u32,
    pub map_id: u16,
    pub light_param_ids: [u16; 8],
    pub unk: u16,
}

/// Scalar settings of a light parameter row. The celestial overrides, the
/// glow and the alpha levels are bit patterns of IEEE-754 single-precision
/// numbers.
#[derive(Debug, Clone, Copy)]
pub struct LightParamsRecord {
    pub celestial_overrides: [u32; 3],
    pub light_data_id: u32,
    pub highlight_sky: bool,
    pub skybox_id: u32,
    pub glow: u32,
    pub water_shallow_alpha: u32,
    pub water_deep_alpha: u32,
    pub ocean_shallow_alpha: u32,
    pub ocean_deep_alpha: u32,
}

/// The colour palette of a parameter row at one time of day. Colours are
/// packed `0x00BBGGRR`; the two fog values are bit patterns of IEEE-754
/// single-precision numbers. A `time` of `u32::MAX` marks a row that holds
/// for the whole day.
#[derive(Debug, Clone, Copy)]
pub struct LightDataRecord {
    pub light_param_id: u32,
    pub time: u32,
    pub direct_color: u32,
    pub ambient_color: u32,
    pub sky_top_color: u32,
    pub sky_middle_color: u32,
    pub sky_band1_color: u32,
    pub sky_band2_color: u32,
    pub sky_smog_color: u32,
    pub sky_fog_color: u32,
    pub sun_color: u32,
    pub cloud_sun_color: u32,
    pub cloud_emissive_color: u32,
    pub cloud_layer1_ambient_color: u32,
    pub cloud_layer2_ambient_color: u32,
    pub ocean_close_color: u32,
    pub ocean_far_color: u32,
    pub river_close_color: u32,
    pub river_far_color: u32,
    pub shadow_opacity: u32,
    pub fog_end: u32,
    pub fog_scaler: u32,
}

/// The light row that the first forty bytes of `b` hold.
pub open spec fn light_record_at(b: Seq<u8>) -> LightRecord {
    LightRecord {
        coords: [le_u32(b, 0) as u32, le_u32(b, 4) as u32, le_u32(b, 8) as u32],
        falloff_start: le_u32(b, 12) as u32,
        falloff_end: le_u32(b, 16) as u32,
        map_id: le_u16(b, 20) as u16,
        light_param_ids: [
            le_u16(b, 22) as u16,
            le_u16(b, 24) as u16,
            le_u16(b, 26) as u16,
            le_u16(b, 28) as u16,
            le_u16(b, 30) as u16,
            le_u16(b, 32) as u16,
            le_u16(b, 34) as u16,
            le_u16(b, 36) as u16,
        ],
        unk: le_u16(b, 38) as u16,
    }
}

impl TableRecord for LightRecord {
    /// A light row is laid out as plain little-endian values and takes
    /// forty bytes.
    open spec fn spec_decode(db2: Db2View, record: Seq<u8>) -> Result<(Self, u64), DecodeError> {
        if record.len() < 40 {
            Err(DecodeError::TruncatedInput)
        } else {
            Ok((light_record_at(record), 320))
        }
    }

    fn decode(db2: &Wdc4Db2File, record: &[u8]) -> (r: Result<(Self, u64), DecodeError>) {
        if record.len() < LIGHT_RECORD_SIZE {
            return Err(DecodeError::TruncatedInput);
        }
        let light = LightRecord {
            coords: [read_u32_le(record, 0), read_u32_le(record, 4), read_u32_le(record, 8)],
            falloff_start: read_u32_le(record, 12),
            falloff_end: read_u32_le(record, 16),
            map_id: read_u16_le(record, 20),
            light_param_ids: [
                read_u16_le(record, 22),
                read_u16_le(record, 24),
                read_u16_le(record, 26),
                read_u16_le(record, 28),
                read_u16_le(record, 30),
                read_u16_le(record, 32),
                read_u16_le(record, 34),
                read_u16_le(record, 36),
            ],
            unk: read_u16_le(record, 38),
        };
        Ok((light, 320))
    }
}

/// The parameter row built from the values of its fields.
pub open spec fn light_params_from(
    overrides: [u32; 3],
    light_data_id: u32,
    highlight_sky: bool,
    skybox_id: u32,
    w: Seq<u32>,
) -> LightParamsRecord {
    LightParamsRecord {
        celestial_overrides: overrides,
        light_data_id,
        highlight_sky,
        skybox_id,
        glow: w[0],
        water_shallow_alpha: w[1],
        water_deep_alpha: w[2],
        ocean_shallow_alpha: w[3],
        ocean_deep_alpha: w[4],
    }
}

impl TableRecord for LightParamsRecord {
    /// A parameter row reads fields 0 to 3 and 5 to 9, in order; five
    /// padding bits follow the last one.
    open spec fn spec_decode(db2: Db2View, record: Seq<u8>) -> Result<(Self, u64), DecodeError> {
        match field_words3(db2, record, 0) {
            Err(e) => Err(e),
            Ok(overrides) => match field_word(db2, record, 1) {
                Err(e) => Err(e),
                Ok(light_data_id) => match field_flag(db2, record, 2) {
                    Err(e) => Err(e),
                    Ok(highlight_sky) => match field_word(db2, record, 3) {
                        Err(e) => Err(e),
                        Ok(skybox_id) => match field_words(db2, record, 5, 5) {
                            Err(e) => Err(e),
                            Ok(w) => Ok(
                                (
                                    light_params_from(
                                        overrides,
                                        light_data_id,
                                        highlight_sky,
                                        skybox_id,
                                        w,
                                    ),
                                    (field_end(db2, 9) + 5) as u64,
                                ),
                            ),
                        },
                    },
                },
            },
        }
    }

    fn decode(db2: &Wdc4Db2File, record: &[u8]) -> (r: Result<(Self, u64), DecodeError>) {
        let overrides = db2.read_u32x3_field(record, 0)?;
        let light_data_id = db2.read_u32_field(record, 1)?;
        let highlight_sky = db2.read_bool_field(record, 2)?;
        let skybox_id = db2.read_u32_field(record, 3)?;
        let w = db2.read_u32_fields(record, 5, 5)?;
        proof {
            lemma_field_words_len(db2@, record@, 5, 5);
        }
        let params = LightParamsRecord {
            celestial_overrides: overrides,
            light_data_id,
            highlight_sky,
            skybox_id,
            glow: w[0],
            water_shallow_alpha: w[1],
            water_deep_alpha: w[2],
            ocean_shallow_alpha: w[3],
            ocean_deep_alpha: w[4],
        };
        let bits = db2.field_end_bits(9) as u64 + 5;
        Ok((params, bits))
    }
}

/// The palette row built from the values of its twenty-two fields.
pub open spec fn light_data_from(w: Seq<u32>) -> LightDataRecord {
    LightDataRecord {
        light_param_id: w[0],
        time: w[1],
        direct_color: w[2],
        ambient_color: w[3],
        sky_top_color: w[4],
        sky_middle_color: w[5],
        sky_band1_color: w[6],
        sky_band2_color: w[7],
        sky_smog_color: w[8],
        sky_fog_color: w[9],
        sun_color: w[10],
        cloud_sun_color: w[11],
        cloud_emissive_color: w[12],
        cloud_layer1_ambient_color: w[13],
        cloud_layer2_ambient_color: w[14],
        ocean_close_color: w[15],
        ocean_far_color: w[16],
        river_close_color: w[17],
        river_far_color: w[18],
        shadow_opacity: w[19],
        fog_end: w[20],
        fog_scaler: w[21],
    }
}

impl TableRecord for LightDataRecord {
    /// A palette row reads fields 0 to 21, in order; thirty-two padding bits
    /// follow the last one.
    open spec fn spec_decode(db2: Db2View, record: Seq<u8>) -> Result<(Self, u64), DecodeError> {
        match field_words(db2, record, 0, 22) {
            Err(e) => Err(e),
            Ok(w) => Ok((light_data_from(w), (field_end(db2, 21) + 32) as u64)),
        }
    }

    fn decode(db2: &Wdc4Db2File, record: &[u8]) -> (r: Result<(Self, u64), DecodeError>) {
        let w = db2.read_u32_fields(record, 0, 22)?;
        proof {
            lemma_field_words_len(db2@, record@, 0, 22);
        }
        let row = LightDataRecord {
            light_param_id: w[0],
            time: w[1],
            direct_color: w[2],
            ambient_color: w[3],
            sky_top_color: w[4],
            sky_middle_color: w[5],
            sky_band1_color: w[6],
            sky_band2_color: w[7],
            sky_smog_color: w[8],
            sky_fog_color: w[9],
            sun_color: w[10],
            cloud_sun_color: w[11],
            cloud_emissive_color: w[12],
            cloud_layer1_ambient_color: w[13],
            cloud_layer2_ambient_color: w[14],
            ocean_close_color: w[15],
            ocean_far_color: w[16],
            river_close_color: w[17],
            river_far_color: w[18],
            shadow_opacity: w[19],
            fog_end: w[20],
            fog_scaler: w[21],
        };
        assert(row == light_data_from(w@));
        let bits = db2.field_end_bits(21) as u64 + 32;
        Ok((row, bits))
    }
}

/// Reading `n` fields as words gives `n` words, and every field read exists.
proof fn lemma_field_words_len(v: Db2View, rec: Seq<u8>, lo: int, n: nat)
    requires
        field_words(v, rec, lo, n) is Ok,
        0 <= lo,
    ensures
        field_words(v, rec, lo, n)->Ok_0.len() == n,
        n > 0 ==> lo + n - 1 < v.field_storage_info.len(),
    decreases n,
{
    if n > 0 {
        lemma_field_words_len(v, rec, lo, (n - 1) as nat);
    }
}

/// Where a query position stands relative to a light's falloff radii, as
/// the caller measured it.
#[derive(Debug, Clone, Copy, PartialEq, Eq, Structural)]
pub enum DistanceResult {
    /// Closer than the falloff start.
    Inner,
    /// At or beyond the falloff start, and closer than the falloff end.
    Outer,
    /// At or beyond the falloff end.
    Excluded,
}

/// The parameter and palette rows that describe one light at one time: the
/// palette row in force (`current`) and, where the caller is to blend
/// towards it, the next one in time.
#[derive(Debug, Clone, Copy)]
pub struct LightDescriptor {
    pub params: LightParamsRecord,
    pub current: LightDataRecord,
    pub next: Option<LightDataRecord>,
}

/// A light that a query selected: its position among the light rows and its
/// description.
#[derive(Debug, Clone, Copy)]
pub struct LightMatch {
    pub light: usize,
    pub descriptor: LightDescriptor,
}

/// The lights that a query selected: the one whose inner radius holds the
/// position (or the map's fallback light), or else those whose falloff band
/// holds it.
#[derive(Debug)]
pub struct LightQuery {
    pub inner: Option<LightMatch>,
    pub outer: Vec<LightMatch>,
}

/// Position `i` among `n` rows is a palette row of parameter `id` at or
/// before `time`, none of those rows is later, and none before `i` is as late.
pub open spec fn is_current(rows: Seq<LightDataRecord>, n: int, id: u32, time: u32, i: int) -> bool {
    &&& 0 <= i < n
    &&& rows[i].light_param_id == id
    &&& rows[i].time <= time
    &&& forall|j: int|
        0 <= j < n && #[trigger] rows[j].light_param_id == id && rows[j].time <= time ==> rows[j].time
            <= rows[i].time
    &&& forall|j: int|
        0 <= j < i && #[trigger] rows[j].light_param_id == id && rows[j].time <= time ==> rows[j].time
            < rows[i].time
}

/// Position `i` among `n` rows is a palette row of parameter `id` after
/// `time`, none of those rows is earlier, and none before `i` is as early.
pub open spec fn is_next(rows: Seq<LightDataRecord>, n: int, id: u32, time: u32, i: int) -> bool {
    &&& 0 <= i < n
    &&& rows[i].light_param_id == id
    &&& rows[i].time > time
    &&& forall|j: int|
        0 <= j < n && #[trigger] rows[j].light_param_id == id && rows[j].time > time ==> rows[j].time
            >= rows[i].time
    &&& forall|j: int|
        0 <= j < i && #[trigger] rows[j].light_param_id == id && rows[j].time > time ==> rows[j].time
            > rows[i].time
}

/// None of the first `n` rows is a palette row of parameter `id` at or
/// before `time`.
pub open spec fn no_current(rows: Seq<LightDataRecord>, n: int, id: u32, time: u32) -> bool {
    forall|j: int| 0 <= j < n && #[trigger] rows[j].light_param_id == id ==> rows[j].time > time
}

/// None of the first `n` rows is a palette row of parameter `id` after
/// `time`.
pub open spec fn no_next(rows: Seq<LightDataRecord>, n: int, id: u32, time: u32) -> bool {
    forall|j: int| 0 <= j < n && #[trigger] rows[j].light_param_id == id ==> rows[j].time <= time
}

/// Light `i` lies on map `map_id` and the position is inside its inner radius.
pub open spec fn is_inner(lights: Seq<LightRecord>, classes: Seq<DistanceResult>, map_id: u16, i: int) -> bool {
    lights[i].map_id == map_id && classes[i] == DistanceResult::Inner
}

/// Light `i` lies on map `map_id` and the position is inside its falloff band.
pub open spec fn is_outer(lights: Seq<LightRecord>, classes: Seq<DistanceResult>, map_id: u16, i: int) -> bool {
    lights[i].map_id == map_id && classes[i] == DistanceResult::Outer
}

/// The coordinates are all zero (of either sign).
pub open spec fn is_origin(c: [u32; 3]) -> bool {
    c[0] % 0x8000_0000 == 0 && c[1] % 0x8000_0000 == 0 && c[2] % 0x8000_0000 == 0
}

/// Light `i` is the first light of map `map_id` that stands at the origin.
pub open spec fn is_origin_light(lights: Seq<LightRecord>, map_id: u16, i: int) -> bool {
    &&& 0 <= i < lights.len()
    &&& lights[i].map_id == map_id
    &&& is_origin(lights[i].coords)
    &&& forall|j: int|
        0 <= j < i ==> !(#[trigger] lights[j].map_id == map_id && is_origin(lights[j].coords))
}

/// `s` lists, in increasing order, exactly the positions among the first `n`
/// lights that lie on map `map_id` with the position inside their falloff band.
pub open spec fn lists_outer(
    s: Seq<usize>,
    lights: Seq<LightRecord>,
    classes: Seq<DistanceResult>,
    map_id: u16,
    n: int,
) -> bool {
    &&& forall|a: int, b: int| 0 <= a < b < s.len() ==> #[trigger] s[a] < #[trigger] s[b]
    &&& forall|a: int| 0 <= a < s.len() ==> #[trigger] s[a] < n && is_outer(lights, classes, map_id, s[a] as int)
    &&& forall|i: int| 0 <= i < n && #[trigger] is_outer(lights, classes, map_id, i) ==> s.contains(i as usize)
}

/// No light of map `map_id` stands at the origin.
pub open spec fn no_origin_light(lights: Seq<LightRecord>, map_id: u16) -> bool {
    forall|j: int|
        0 <= j < lights.len() ==> !(#[trigger] lights[j].map_id == map_id && is_origin(lights[j].coords))
}

/// Light `i` is the first one of map `map_id` inside whose inner radius the
/// position lies.
pub open spec fn is_first_inner(
    lights: Seq<LightRecord>,
    classes: Seq<DistanceResult>,
    map_id: u16,
    i: int,
) -> bool {
    &&& 0 <= i < lights.len()
    &&& is_inner(lights, classes, map_id, i)
    &&& forall|j: int| 0 <= j < i ==> !#[trigger] is_inner(lights, classes, map_id, j)
}

/// No light of map `map_id` holds the position inside its inner radius.
pub open spec fn no_inner(lights: Seq<LightRecord>, classes: Seq<DistanceResult>, map_id: u16) -> bool {
    forall|j: int| 0 <= j < lights.len() ==> !#[trigger] is_inner(lights, classes, map_id, j)
}

/// No light of map `map_id` holds the position inside its falloff band.
pub open spec fn no_outer(lights: Seq<LightRecord>, classes: Seq<DistanceResult>, map_id: u16) -> bool {
    forall|j: int| 0 <= j < lights.len() ==> !#[trigger] is_outer(lights, classes, map_id, j)
}

/// The three tables of the lighting model.
pub struct LightDatabase {
    pub lights: Database<LightRecord>,
    pub light_data: Database<LightDataRecord>,
    pub light_params: Database<LightParamsRecord>,
}

impl LightDatabase {
    /// `d` describes light `light` at `time`: the light names a parameter row
    /// in its first slot, `d.params` is the first row with that id, `d.current`
    /// the palette row in force, and `d.next` the next palette row unless there
    /// is none or the current row holds for the whole day.
    pub open spec fn describes(self, light: LightRecord, time: u32, d: LightDescriptor) -> bool {
        let id = light.light_param_ids[0] as u32;
        let rows = self.light_data.rows();
        &&& id != 0
        &&& exists|p: int|
            first_position(self.light_params.row_ids(), id, p) && d.params
                == self.light_params.rows()[p]
        &&& exists|c: int| is_current(rows, rows.len() as int, id, time, c) && d.current == rows[c]
        &&& match d.next {
            None => d.current.time == u32::MAX || no_next(rows, rows.len() as int, id, time),
            Some(n) => d.current.time != u32::MAX && exists|x: int|
                is_next(rows, rows.len() as int, id, time, x) && n == rows[x],
        }
    }

    /// Light `light` can be described at `time`: it names a parameter row
    /// that exists, and that parameter has a palette row at or before `time`.
    pub open spec fn describable(self, light: LightRecord, time: u32) -> bool {
        let id = light.light_param_ids[0] as u32;
        let rows = self.light_data.rows();
        &&& id != 0
        &&& exists|p: int| first_position(self.light_params.row_ids(), id, p)
        &&& !no_current(rows, rows.len() as int, id, time)
    }

    /// Decodes the three tables.
    pub fn new(lights_db: &[u8], light_data_db: &[u8], light_params_db: &[u8]) -> (r: Result<
        LightDatabase,
        DecodeError,
    >)
        ensures
            match r {
                Ok(db) => {
                    &&& table_of::<LightRecord>(lights_db@) == Ok::<_, DecodeError>(
                        (db.lights.rows(), db.lights.row_ids()),
                    )
                    &&& table_of::<LightDataRecord>(light_data_db@) == Ok::<_, DecodeError>(
                        (db.light_data.rows(), db.light_data.row_ids()),
                    )
                    &&& table_of::<LightParamsRecord>(light_params_db@) == Ok::<_, DecodeError>(
                        (db.light_params.rows(), db.light_params.row_ids()),
                    )
                },
                Err(e) => {
                    ||| table_of::<LightRecord>(lights_db@) == Err::<
                        (Seq<LightRecord>, Seq<u32>),
                        _,
                    >(e)
                    ||| table_of::<LightRecord>(lights_db@) is Ok && table_of::<LightDataRecord>(
                        light_data_db@,
                    ) == Err::<(Seq<LightDataRecord>, Seq<u32>), _>(e)
                    ||| table_of::<LightRecord>(lights_db@) is Ok && table_of::<LightDataRecord>(
                        light_data_db@,
                    ) is Ok && table_of::<LightParamsRecord>(light_params_db@) == Err::<
                        (Seq<LightParamsRecord>, Seq<u32>),
                        _,
                    >(e)
                },
            },
    {
        let lights = Database::new(lights_db)?;
        let light_data = Database::new(light_data_db)?;
        let light_params = Database::new(light_params_db)?;
        Ok(LightDatabase { lights, light_data, light_params })
    }

    /// Positions of the palette rows of parameter `id` that are in force at
    /// `time` and that come next after it.
    pub fn find_keyframes(&self, id: u32, time: u32) -> (r: (Option<usize>, Option<usize>))
        ensures
            ({
                let rows = self.light_data.rows();
                let n = rows.len() as int;
                &&& match r.0 {
                    Some(c) => is_current(rows, n, id, time, c as int),
                    None => no_current(rows, n, id, time),
                }
                &&& match r.1 {
                    Some(x) => is_next(rows, n, id, time, x as int),
                    None => no_next(rows, n, id, time),
                }
            }),
    {
        let rows = self.light_data.records();
        let mut current: Option<usize> = None;
        let mut next: Option<usize> = None;
        let mut k: usize = 0;
        while k < rows.len()
            invariant
                rows@ == self.light_data.rows(),
                k <= rows@.len(),
                match current {
                    Some(c) => is_current(rows@, k as int, id, time, c as int),
                    None => no_current(rows@, k as int, id, time),
                },
                match next {
                    Some(x) => is_next(rows@, k as int, id, time, x as int),
                    None => no_next(rows@, k as int, id, time),
                },
            decreases rows@.len() - k,
        {
            let row = &rows[k];
            if row.light_param_id == id {
                if row.time <= time {
                    match current {
                        Some(c) => {
                            if row.time > rows[c].time {
                                current = Some(k);
                            }
                        },
                        None => {
                            current = Some(k);
                        },
                    }
                } else {
                    match next {
                        Some(x) => {
                            if row.time < rows[x].time {
                                next = Some(k);
                            }
                        },
                        None => {
                            next = Some(k);
                        },
                    }
                }
            }
            k = k + 1;
        }
        (current, next)
    }

    /// Describes `light` at `time`; see `describes`.
    pub fn get_light_result(&self, light: &LightRecord, time: u32) -> (r: Result<
        LightDescriptor,
        DecodeError,
    >)
        ensures
            match r {
                Ok(d) => self.describes(*light, time, d),
                Err(e) => e == DecodeError::MissingRequiredSection && !self.describable(
                    *light,
                    time,
                ),
            },
    {
        let id = light.light_param_ids[0];
        if id == 0 {
            return Err(DecodeError::MissingRequiredSection);
        }
        let params = match self.light_params.get_record(id as u32) {
            Some(p) => *p,
            None => return Err(DecodeError::MissingRequiredSection),
        };
        let rows = self.light_data.records();
        let (current, next) = self.find_keyframes(id as u32, time);
        let current = match current {
            Some(c) => rows[c],
            None => return Err(DecodeError::MissingRequiredSection),
        };
        let next = if current.time != u32::MAX {
            match next {
                Some(x) => Some(rows[x]),
                None => None,
            }
        } else {
            None
        };
        Ok(LightDescriptor { params, current, next })
    }

    /// Light `i` is the fallback light of map `map_id`: the first of the map's
    /// lights at the origin, or, where there is none, the first light with
    /// id 1.
    pub open spec fn is_default_light(self, map_id: u16, i: int) -> bool {
        let lights = self.lights.rows();
        ||| is_origin_light(lights, map_id, i)
        ||| no_origin_light(lights, map_id) && first_position(self.lights.row_ids(), 1, i)
    }

    /// Position of the fallback light of map `map_id`, if there is one.
    pub fn default_light_index(&self, map_id: u16) -> (r: Option<usize>)
        ensures
            match r {
                Some(i) => self.is_default_light(map_id, i as int),
                None => no_origin_light(self.lights.rows(), map_id) && forall|j: int|
                    0 <= j < self.lights.row_ids().len() ==> self.lights.row_ids()[j] != 1,
            },
    {
        let lights = self.lights.records();
        let mut k: usize = 0;
        while k < lights.len()
            invariant
                lights@ == self.lights.rows(),
                k <= lights@.len(),
                forall|j: int|
                    0 <= j < k ==> !(#[trigger] lights@[j].map_id == map_id && is_origin(
                        lights@[j].coords,
                    )),
            decreases lights@.len() - k,
        {
            let c = lights[k].coords;
            if lights[k].map_id == map_id && c[0] % 0x8000_0000 == 0 && c[1] % 0x8000_0000 == 0
                && c[2] % 0x8000_0000 == 0 {
                return Some(k);
            }
            k = k + 1;
        }
        self.lights.find_index(1)
    }

    /// The first light of map `map_id` whose inner radius holds the position,
    /// or else, in order, the lights of the map whose falloff band holds it.
    /// `classes` gives the position's place relative to each light.
    pub fn select_lights(&self, map_id: u16, classes: &Vec<DistanceResult>) -> (r: (
        Option<usize>,
        Vec<usize>,
    ))
        requires
            classes@.len() == self.lights.rows().len(),
        ensures
            ({
                let lights = self.lights.rows();
                &&& match r.0 {
                    Some(i) => is_first_inner(lights, classes@, map_id, i as int) && r.1@.len() == 0,
                    None => no_inner(lights, classes@, map_id) && lists_outer(
                        r.1@,
                        lights,
                        classes@,
                        map_id,
                        lights.len() as int,
                    ),
                }
            }),
    {
        let lights = self.lights.records();
        let mut outer: Vec<usize> = Vec::new();
        let mut k: usize = 0;
        while k < lights.len()
            invariant
                lights@ == self.lights.rows(),
                classes@.len() == lights@.len(),
                k <= lights@.len(),
                forall|j: int| 0 <= j < k ==> !#[trigger] is_inner(lights@, classes@, map_id, j),
                lists_outer(outer@, lights@, classes@, map_id, k as int),
            decreases lights@.len() - k,
        {
            if lights[k].map_id == map_id {
                match classes[k] {
                    DistanceResult::Inner => {
                        return (Some(k), Vec::new());
                    },
                    DistanceResult::Outer => {
                        let ghost old_outer = outer@;
                        outer.push(k);
                        proof {
                            assert(outer@[outer@.len() - 1] == k);
                            assert forall|i: int|
                                0 <= i < k + 1 && #[trigger] is_outer(
                                    lights@,
                                    classes@,
                                    map_id,
                                    i,
                                ) implies outer@.contains(i as usize) by {
                                if i < k {
                                    let a = choose|a: int| 0 <= a < old_outer.len() && old_outer[a] == i as usize;
                                    assert(outer@[a] == i as usize);
                                }
                            }
                        }
                    },
                    DistanceResult::Excluded => {},
                }
            }
            proof {
                assert forall|i: int|
                    0 <= i < k + 1 && #[trigger] is_outer(
                        lights@,
                        classes@,
                        map_id,
                        i,
                    ) implies outer@.contains(i as usize) by {
                    if i == k {
                        assert(outer@[outer@.len() - 1] == k);
                    }
                }
            }
            k = k + 1;
        }
        (None, outer)
    }

    /// The lighting at a position on map `map_id` at `time`, before any
    /// blending: the first light of the map whose inner radius holds the
    /// position; or else every light of the map whose falloff band holds it,
    /// in order; or else the map's fallback light, as the inner one. `classes`
    /// gives the position's place relative to each light.
    pub fn get_lighting_data(&self, map_id: u16, classes: &Vec<DistanceResult>, time: u32) -> (r:
        Result<LightQuery, DecodeError>)
        requires
            classes@.len() == self.lights.rows().len(),
        ensures
            ({
                let lights = self.lights.rows();
                let cs = classes@;
                match r {
                    Ok(q) => match q.inner {
                        Some(m) => {
                            &&& q.outer@.len() == 0
                            &&& m.light < lights.len()
                            &&& self.describes(lights[m.light as int], time, m.descriptor)
                            &&& is_first_inner(lights, cs, map_id, m.light as int) || (no_inner(
                                lights,
                                cs,
                                map_id,
                            ) && no_outer(lights, cs, map_id) && self.is_default_light(
                                map_id,
                                m.light as int,
                            ))
                        },
                        None => {
                            &&& no_inner(lights, cs, map_id)
                            &&& q.outer@.len() > 0
                            &&& lists_outer(
                                q.outer@.map_values(|m: LightMatch| m.light),
                                lights,
                                cs,
                                map_id,
                                lights.len() as int,
                            )
                            &&& forall|a: int|
                                0 <= a < q.outer@.len() ==> self.describes(
                                    lights[#[trigger] q.outer@[a].light as int],
                                    time,
                                    q.outer@[a].descriptor,
                                )
                        },
                    },
                    Err(e) => {
                        &&& e == DecodeError::MissingRequiredSection
                        &&& {
                            ||| exists|i: int|
                                is_first_inner(lights, cs, map_id, i) && !self.describable(
                                    lights[i],
                                    time,
                                )
                            ||| no_inner(lights, cs, map_id) && exists|i: int|
                                0 <= i < lights.len() && #[trigger] is_outer(lights, cs, map_id, i)
                                    && !self.describable(lights[i], time)
                            ||| no_inner(lights, cs, map_id) && no_outer(lights, cs, map_id) && ((
                            forall|i: int| !self.is_default_light(map_id, i)) || (exists|i: int|
                                self.is_default_light(map_id, i) && !self.describable(
                                    lights[i],
                                    time,
                                )))
                        }
                    },
                }
            }),
    {
        let lights = self.lights.records();
        let (inner, outer_lights) = self.select_lights(map_id, classes);
        match inner {
            Some(i) => {
                let descriptor = self.get_light_result(&lights[i], time)?;
                return Ok(LightQuery { inner: Some(LightMatch { light: i, descriptor }), outer: Vec::new() });
            },
            None => {},
        }
        let mut outer: Vec<LightMatch> = Vec::new();
        let mut a: usize = 0;
        while a < outer_lights.len()
            invariant
                lights@ == self.lights.rows(),
                a <= outer_lights@.len(),
                classes@.len() == lights@.len(),
                no_inner(lights@, classes@, map_id),
                lists_outer(outer_lights@, lights@, classes@, map_id, lights@.len() as int),
                outer@.len() == a,
                forall|b: int|
                    0 <= b < a ==> (#[trigger] outer@[b]).light == outer_lights@[b] && self.describes(
                        lights@[outer@[b].light as int],
                        time,
                        outer@[b].descriptor,
                    ),
            decreases outer_lights@.len() - a,
        {
            let i = outer_lights[a];
            assert(is_outer(lights@, classes@, map_id, i as int));
            let descriptor = self.get_light_result(&lights[i], time)?;
            outer.push(LightMatch { light: i, descriptor });
            a = a + 1;
        }
        if outer.len() > 0 {
            assert(outer@.map_values(|m: LightMatch| m.light) =~= outer_lights@);
            return Ok(LightQuery { inner: None, outer });
        }
        proof {
            assert forall|j: int| 0 <= j < lights@.len() implies !#[trigger] is_outer(
                lights@,
                classes@,
                map_id,
                j,
            ) by {
                if is_outer(lights@, classes@, map_id, j) {
                    assert(outer_lights@.contains(j as usize));
                }
            }
        }
        match self.default_light_index(map_id) {
            Some(i) => {
                let descriptor = self.get_light_result(&lights[i], time)?;
                Ok(LightQuery { inner: Some(LightMatch { light: i, descriptor }), outer: Vec::new() })
            },
            None => Err(DecodeError::MissingRequiredSection),
        }
    }
}

/// At a time for which the light's parameter has a palette row, the row in
/// force is one of that very time, so no blending towards the next row takes
/// place (its weight, `(time - current.time) / (next.time - current.time)`,
/// is zero).
pub proof fn lemma_exact_time_unblended(db: LightDatabase, light: LightRecord, time: u32, d: LightDescriptor, j: int)
    requires
        db.describes(light, time, d),
        0 <= j < db.light_data.rows().len(),
        db.light_data.rows()[j].light_param_id == light.light_param_ids[0] as u32,
        db.light_data.rows()[j].time == time,
    ensures
        d.current.time == time,
{
    let rows = db.light_data.rows();
    let id = light.light_param_ids[0] as u32;
    assert(rows[j].light_param_id == id);
}

} // verus!
