use crate::db2::{Db2View, Wdc4Db2File, db2_view_of, parse_error};
use crate::error::DecodeError;
use vstd::prelude::*;

verus! {

/// A row type that can be decoded from one record of a table, given the
/// table's field descriptors.
pub trait TableRecord: Sized {
    /// The row that `record` holds and the number of bits its decode took, or
    /// why it cannot be decoded.
    spec fn spec_decode(db2: Db2View, record: Seq<u8>) -> Result<(Self, u64), DecodeError>;

    fn decode(db2: &Wdc4Db2File, record: &[u8]) -> (r: Result<(Self, u64), DecodeError>)
        ensures
            r == Self::spec_decode(db2@, record@),
    ;
}

/// Record `k` of a block of fixed-size records starting at byte `start`.
pub open spec fn record_bytes(b: Seq<u8>, start: int, size: int, k: int) -> Seq<u8> {
    b.subrange(start + k * size, start + k * size + size)
}

/// The first `n` records of the block, decoded in order; the first record
/// that fails to decode, or whose decode does not take exactly `size * 8`
/// bits, decides the error.
pub open spec fn decode_records<T: TableRecord>(
    v: Db2View,
    b: Seq<u8>,
    start: int,
    size: int,
    n: nat,
) -> Result<Seq<T>, DecodeError>
    decreases n,
{
    if n == 0 {
        Ok(Seq::empty())
    } else {
        match decode_records::<T>(v, b, start, size, (n - 1) as nat) {
            Err(e) => Err(e),
            Ok(rows) => match T::spec_decode(v, record_bytes(b, start, size, n - 1)) {
                Err(e) => Err(e),
                Ok((row, bits)) => if bits as int != size * 8 {
                    Err(DecodeError::RecordSizeMismatch)
                } else {
                    Ok(rows.push(row))
                },
            },
        }
    }
}

/// Once a prefix of the records fails to decode, every longer prefix fails
/// with the same error.
proof fn lemma_decode_error_sticks<T: TableRecord>(
    v: Db2View,
    b: Seq<u8>,
    start: int,
    size: int,
    m: nat,
    n: nat,
)
    requires
        m <= n,
        decode_records::<T>(v, b, start, size, m) is Err,
    ensures
        decode_records::<T>(v, b, start, size, n) == decode_records::<T>(v, b, start, size, m),
    decreases n,
{
    if n > m {
        lemma_decode_error_sticks::<T>(v, b, start, size, m, (n - 1) as nat);
    }
}

/// What a whole table file decodes to: its rows in file order and the id of
/// each, the ids counting up from the header's `min_id`.
pub open spec fn table_of<T: TableRecord>(b: Seq<u8>) -> Result<(Seq<T>, Seq<u32>), DecodeError> {
    match parse_error(b) {
        Some(e) => Err(e),
        None => {
            let v = db2_view_of(b);
            let n = v.header.record_count as int;
            let size = v.header.record_size as int;
            if v.section_headers.len() == 0 {
                Err(DecodeError::MissingRequiredSection)
            } else if v.section_headers[0].file_offset as int + n * size > b.len() {
                Err(DecodeError::TruncatedInput)
            } else if v.header.min_id as int + n > u32::MAX as int + 1 {
                Err(DecodeError::OutOfBounds)
            } else {
                match decode_records::<T>(
                    v,
                    b,
                    v.section_headers[0].file_offset as int,
                    size,
                    n as nat,
                ) {
                    Err(e) => Err(e),
                    Ok(rows) => Ok((rows, Seq::new(n as nat, |k: int| (v.header.min_id + k) as u32))),
                }
            }
        },
    }
}

/// `i` is the first position at which `ids` holds `id`.
pub open spec fn first_position(ids: Seq<u32>, id: u32, i: int) -> bool {
    &&& 0 <= i < ids.len()
    &&& ids[i] == id
    &&& forall|j: int| 0 <= j < i ==> ids[j] != id
}

/// A decoded table: its file metadata, and its rows with their ids.
pub struct Database<T> {
    db2: Wdc4Db2File,
    records: Vec<T>,
    ids: Vec<u32>,
}

impl<T> Database<T> {
    /// Each row has an id.
    #[verifier::type_invariant]
    spec fn ids_match_rows(&self) -> bool {
        self.records@.len() == self.ids@.len()
    }
}

impl<T: TableRecord> Database<T> {
    /// The rows, in file order.
    pub closed spec fn rows(&self) -> Seq<T> {
        self.records@
    }

    /// The id of each row.
    pub closed spec fn row_ids(&self) -> Seq<u32> {
        self.ids@
    }

    /// The table file's metadata.
    pub closed spec fn file(&self) -> Db2View {
        self.db2@
    }

    /// Decodes a whole table file: its metadata, then `record_count` records
    /// of `record_size` bytes from the first section's record block on, each
    /// with the next id from `min_id` up.
    pub fn new(data: &[u8]) -> (r: Result<Database<T>, DecodeError>)
        ensures
            match r {
                Ok(db) => table_of::<T>(data@) == Ok::<(Seq<T>, Seq<u32>), DecodeError>(
                    (db.rows(), db.row_ids()),
                ) && db.file()
                    == db2_view_of(data@),
                Err(e) => table_of::<T>(data@) == Err::<(Seq<T>, Seq<u32>), DecodeError>(e),
            },
    {
        let db2 = match Wdc4Db2File::parse(data) {
            Ok(f) => f,
            Err(e) => return Err(e),
        };
        if db2.section_headers.len() == 0 {
            return Err(DecodeError::MissingRequiredSection);
        }
        let start = db2.section_headers[0].file_offset as usize;
        let n = db2.header.record_count;
        let size = db2.header.record_size as usize;
        let len = data.len();
        proof {
            assert(n as int * size as int <= 0xffff_ffff * 0xffff_ffff) by (nonlinear_arith)
                requires
                    n <= 0xffff_ffff,
                    size <= 0xffff_ffff,
            ;
        }
        if start as u128 + n as u128 * size as u128 > len as u128 {
            return Err(DecodeError::TruncatedInput);
        }
        if db2.header.min_id as u64 + n as u64 > 0x1_0000_0000u64 {
            return Err(DecodeError::OutOfBounds);
        }
        let ghost v = db2@;
        let mut records: Vec<T> = Vec::new();
        let mut ids: Vec<u32> = Vec::new();
        let mut pos: usize = start;
        let mut k: u32 = 0;
        while k < n
            invariant
                v == db2@,
                v == db2_view_of(data@),
                parse_error(data@) is None,
                v.section_headers.len() > 0,
                start == v.section_headers[0].file_offset,
                n == v.header.record_count,
                size == v.header.record_size,
                v.header.min_id as int + n <= u32::MAX as int + 1,
                start + n * size <= data@.len() <= usize::MAX,
                k <= n,
                records@.len() == k,
                pos == start + k * size,
                decode_records::<T>(v, data@, start as int, size as int, k as nat) == Ok::<
                    Seq<T>,
                    DecodeError,
                >(records@),
                ids@ =~= Seq::new(k as nat, |j: int| (v.header.min_id + j) as u32),
            decreases n - k,
        {
            proof {
                assert(pos + size <= start + n * size) by (nonlinear_arith)
                    requires
                        pos == start + k * size,
                        k < n,
                ;
            }
            let record = vstd::slice::slice_subrange(data, pos, pos + size);
            assert(record@ == record_bytes(data@, start as int, size as int, k as int));
            match T::decode(&db2, record) {
                Err(e) => {
                    proof {
                        lemma_decode_error_sticks::<T>(
                            v,
                            data@,
                            start as int,
                            size as int,
                            (k + 1) as nat,
                            n as nat,
                        );
                    }
                    return Err(e);
                },
                Ok((row, bits)) => {
                    if bits as u128 != size as u128 * 8 {
                        proof {
                            lemma_decode_error_sticks::<T>(
                                v,
                                data@,
                                start as int,
                                size as int,
                                (k + 1) as nat,
                                n as nat,
                            );
                        }
                        return Err(DecodeError::RecordSizeMismatch);
                    }
                    records.push(row);
                },
            }
            ids.push(db2.header.min_id + k);
            proof {
                assert(pos + size == start + (k + 1) * size) by (nonlinear_arith)
                    requires
                        pos == start + k * size,
                ;
            }
            pos = pos + size;
            k = k + 1;
        }
        Ok(Database { db2, records, ids })
    }

    /// Position of the first row with id `needle`, if any.
    pub fn find_index(&self, needle: u32) -> (r: Option<usize>)
        ensures
            match r {
                Some(i) => first_position(self.row_ids(), needle, i as int),
                None => forall|i: int| 0 <= i < self.row_ids().len() ==> self.row_ids()[i] != needle,
            },
    {
        let mut i: usize = 0;
        while i < self.ids.len()
            invariant
                i <= self.ids@.len(),
                forall|j: int| 0 <= j < i ==> self.ids@[j] != needle,
            decreases self.ids@.len() - i,
        {
            if self.ids[i] == needle {
                return Some(i);
            }
            i = i + 1;
        }
        None
    }

    /// The first row with id `needle`, if any.
    pub fn get_record(&self, needle: u32) -> (r: Option<&T>)
        ensures
            match r {
                Some(row) => exists|i: int|
                    first_position(self.row_ids(), needle, i) && *row == self.rows()[i],
                None => forall|i: int| 0 <= i < self.row_ids().len() ==> self.row_ids()[i] != needle,
            },
    {
        proof {
            use_type_invariant(self);
        }
        match self.find_index(needle) {
            Some(i) => Some(&self.records[i]),
            None => None,
        }
    }

    /// The rows, in file order.
    pub fn records(&self) -> (r: &Vec<T>)
        ensures
            r@ == self.rows(),
            r@.len() == self.row_ids().len(),
    {
        proof {
            use_type_invariant(self);
        }
        &self.records
    }

    /// The id of each row.
    pub fn ids(&self) -> (r: &Vec<u32>)
        ensures
            r@ == self.row_ids(),
    {
        &self.ids
    }

    /// The table file's metadata.
    pub fn db2(&self) -> (r: &Wdc4Db2File)
        ensures
            r@ == self.file(),
    {
        &self.db2
    }
}

/// Decoding is a function of the bytes alone: two tables decoded from the
/// same bytes hold equal rows with equal ids.
pub proof fn lemma_decode_idempotent<T: TableRecord>(data: Seq<u8>, a: Database<T>, b: Database<T>)
    requires
        table_of::<T>(data) == Ok::<_, DecodeError>((a.rows(), a.row_ids())),
        table_of::<T>(data) == Ok::<_, DecodeError>((b.rows(), b.row_ids())),
    ensures
        a.rows() == b.rows(),
        a.row_ids() == b.row_ids(),
{
}

} // verus!
