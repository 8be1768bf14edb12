use crate::bytes::{le_u32, lemma_slice_len, lemma_u32_value_round_trip, read_u32_le, u32_bytes};
use crate::error::DecodeError;
use crate::text::utf8_string;
use vstd::prelude::*;
use vstd::utf8::{decode_utf8, valid_utf8};

verus! {

/// The eight-byte header of a chunk: a four-byte tag and the payload length.
#[derive(Debug, Clone, Copy)]
pub struct Chunk {
    pub magic: [u8; 4],
    pub size: u32,
}

/// The chunk header at the start of `b`.
pub open spec fn chunk_header(b: Seq<u8>) -> Chunk {
    Chunk { magic: [b[0], b[1], b[2], b[3]], size: le_u32(b, 4) as u32 }
}

/// The chunks of a byte stream, each with its payload, in order; the stream
/// must end exactly where a chunk ends.
pub open spec fn chunks_of(b: Seq<u8>) -> Result<Seq<(Chunk, Seq<u8>)>, DecodeError>
    decreases b.len(),
{
    if b.len() == 0 {
        Ok(Seq::empty())
    } else if b.len() < 8 {
        Err(DecodeError::TruncatedInput)
    } else {
        let c = chunk_header(b);
        let end = 8 + c.size as int;
        if end > b.len() {
            Err(DecodeError::TruncatedInput)
        } else {
            match chunks_of(b.subrange(end, b.len() as int)) {
                Err(e) => Err(e),
                Ok(rest) => Ok(seq![(c, b.subrange(8, end))] + rest),
            }
        }
    }
}

/// The bytes of one chunk: its tag, its length and its payload.
pub open spec fn chunk_bytes(c: Chunk, payload: Seq<u8>) -> Seq<u8> {
    seq![c.magic[0], c.magic[1], c.magic[2], c.magic[3]] + u32_bytes(c.size) + payload
}

/// The chunks written one after the other.
pub open spec fn chunks_bytes(cs: Seq<(Chunk, Seq<u8>)>) -> Seq<u8>
    decreases cs.len(),
{
    if cs.len() == 0 {
        Seq::empty()
    } else {
        chunk_bytes(cs[0].0, cs[0].1) + chunks_bytes(cs.drop_first())
    }
}

/// Every chunk's payload is as long as its header says.
pub open spec fn well_formed_chunks(cs: Seq<(Chunk, Seq<u8>)>) -> bool {
    forall|i: int| 0 <= i < cs.len() ==> (#[trigger] cs[i]).1.len() == cs[i].0.size
}

/// The bytes that the chunks take, headers included.
pub open spec fn chunks_length(cs: Seq<(Chunk, Seq<u8>)>) -> int
    decreases cs.len(),
{
    if cs.len() == 0 {
        0
    } else {
        8 + cs[0].0.size + chunks_length(cs.drop_first())
    }
}

/// Chunks with their payload slices replaced by the payload bytes.
pub open spec fn chunk_entries<'a>(v: Seq<(Chunk, &'a [u8])>) -> Seq<(Chunk, Seq<u8>)> {
    v.map_values(|e: (Chunk, &'a [u8])| (e.0, e.1@))
}

/// A cursor over a chunk stream: `data` is the whole stream and `idx` the
/// position where the next chunk starts.
pub struct ChunkedData<'a> {
    pub data: &'a [u8],
    pub idx: usize,
}

impl<'a> ChunkedData<'a> {
    pub fn new(data: &'a [u8]) -> (r: Self)
        ensures
            r.data@ == data@,
            r.idx == 0,
    {
        ChunkedData { data, idx: 0 }
    }

    /// The bytes not yet consumed.
    pub open spec fn rest(&self) -> Seq<u8> {
        self.data@.subrange(self.idx as int, self.data@.len() as int)
    }

    /// The next chunk and its payload; `None` once the input is used up
    /// exactly, and `TruncatedInput` when a header or payload runs past its
    /// end.
    pub fn next(&mut self) -> (r: Result<Option<(Chunk, &'a [u8])>, DecodeError>)
        requires
            old(self).idx <= old(self).data@.len(),
        ensures
            final(self).data@ == old(self).data@,
            final(self).idx <= final(self).data@.len(),
            match r {
                Ok(None) => old(self).rest().len() == 0 && final(self).idx == old(self).idx,
                Ok(Some((c, payload))) => {
                    &&& old(self).rest().len() >= 8
                    &&& c == chunk_header(old(self).rest())
                    &&& 8 + c.size <= old(self).rest().len()
                    &&& payload@ == old(self).rest().subrange(8, 8 + c.size as int)
                    &&& final(self).rest() == old(self).rest().subrange(
                        8 + c.size as int,
                        old(self).rest().len() as int,
                    )
                },
                Err(e) => e == DecodeError::TruncatedInput && old(self).rest().len() > 0 && (old(
                    self,
                ).rest().len() < 8 || 8 + chunk_header(old(self).rest()).size > old(
                    self,
                ).rest().len()),
            },
    {
        let len = self.data.len();
        if self.idx == len {
            return Ok(None);
        }
        if len - self.idx < 8 {
            return Err(DecodeError::TruncatedInput);
        }
        let data = self.data;
        let idx = self.idx;
        proof {
            lemma_slice_len(data);
        }
        let magic = [data[idx], data[idx + 1], data[idx + 2], data[idx + 3]];
        let size = read_u32_le(data, idx + 4);
        let chunk = Chunk { magic, size };
        let ghost rest = data@.subrange(idx as int, len as int);
        assert(le_u32(rest, 4) == le_u32(data@, idx + 4));
        assert(chunk == chunk_header(rest));
        if size as usize > len - idx - 8 {
            return Err(DecodeError::TruncatedInput);
        }
        let chunk_start = idx + 8;
        let chunk_end = chunk_start + size as usize;
        let payload = vstd::slice::slice_subrange(data, chunk_start, chunk_end);
        self.idx = chunk_end;
        assert(payload@ =~= rest.subrange(8, 8 + size as int));
        assert(self.rest() =~= rest.subrange(8 + size as int, rest.len() as int));
        Ok(Some((chunk, payload)))
    }

    /// All remaining chunks with their payloads, in order.
    pub fn to_vec(&mut self) -> (r: Result<Vec<(Chunk, &'a [u8])>, DecodeError>)
        requires
            old(self).idx <= old(self).data@.len(),
        ensures
            match r {
                Ok(v) => chunks_of(old(self).rest()) == Ok::<_, DecodeError>(
                    chunk_entries(v@),
                ),
                Err(e) => chunks_of(old(self).rest()) == Err::<Seq<(Chunk, Seq<u8>)>, _>(e),
            },
    {
        let mut out: Vec<(Chunk, &'a [u8])> = Vec::new();
        let ghost start = self.rest();
        loop
            invariant
                self.idx <= self.data@.len(),
                self.data@ == old(self).data@,
                start == old(self).rest(),
                chunks_of(start) == match chunks_of(self.rest()) {
                    Ok(rest) => Ok(chunk_entries(out@) + rest),
                    Err(e) => Err(e),
                },
            decreases self.data@.len() - self.idx,
        {
            let ghost before = self.rest();
            proof {
                reveal_with_fuel(chunks_of, 2);
            }
            match self.next() {
                Ok(None) => {
                    assert(chunk_entries(out@) + Seq::empty()
                        =~= chunk_entries(out@));
                    return Ok(out);
                },
                Ok(Some(item)) => {
                    let ghost old_out = out@;
                    out.push(item);
                    proof {
                        let e = (item.0, item.1@);
                        assert(chunk_entries(out@) =~= chunk_entries(old_out).push(e));
                        match chunks_of(self.rest()) {
                            Ok(rest) => {
                                assert(chunk_entries(old_out) + (seq![e] + rest) =~= chunk_entries(
                                    out@,
                                ) + rest);
                            },
                            Err(e) => {},
                        }
                    }
                },
                Err(e) => {
                    return Err(e);
                },
            }
        }
    }
}

impl Chunk {
    /// The tag as text, where it is UTF-8.
    pub fn magic_str(&self) -> (r: Option<String>)
        ensures
            r is Some <==> valid_utf8(self.magic@),
            r is Some ==> r->0@ == decode_utf8(self.magic@),
    {
        let mut bytes: Vec<u8> = Vec::new();
        bytes.push(self.magic[0]);
        bytes.push(self.magic[1]);
        bytes.push(self.magic[2]);
        bytes.push(self.magic[3]);
        assert(bytes@ =~= self.magic@);
        utf8_string(bytes)
    }
}

/// A header read from bytes that begin with a chunk's encoding is that
/// chunk's header.
proof fn lemma_header_of_chunk_bytes(c: Chunk, payload: Seq<u8>, rest: Seq<u8>)
    ensures
        ({
            let b = chunk_bytes(c, payload) + rest;
            &&& b.len() == 8 + payload.len() as int + rest.len()
            &&& chunk_header(b) == c
            &&& b.subrange(8, 8 + payload.len() as int) == payload
            &&& b.subrange(8 + payload.len() as int, b.len() as int) == rest
        }),
{
    let b = chunk_bytes(c, payload) + rest;
    lemma_u32_value_round_trip(c.size);
    let w = u32_bytes(c.size);
    assert(b[4] == w[0] && b[5] == w[1] && b[6] == w[2] && b[7] == w[3]);
    assert(le_u32(b, 4) == le_u32(w, 0));
    assert(chunk_header(b).magic =~= c.magic);
    assert(b.subrange(8, 8 + payload.len() as int) =~= payload);
    assert(b.subrange(8 + payload.len() as int, b.len() as int) =~= rest);
}

/// Chunks written one after the other are read back, all of them and in
/// order, and take exactly the bytes their headers account for.
pub proof fn lemma_chunks_round_trip(cs: Seq<(Chunk, Seq<u8>)>)
    requires
        well_formed_chunks(cs),
    ensures
        chunks_of(chunks_bytes(cs)) == Ok::<_, DecodeError>(cs),
        chunks_bytes(cs).len() == chunks_length(cs),
    decreases cs.len(),
{
    if cs.len() > 0 {
        let rest = cs.drop_first();
        assert(well_formed_chunks(rest)) by {
            assert forall|i: int| 0 <= i < rest.len() implies (#[trigger] rest[i]).1.len()
                == rest[i].0.size by {
                assert(rest[i] == cs[i + 1]);
            }
        }
        lemma_chunks_round_trip(rest);
        assert(cs[0].1.len() == cs[0].0.size);
        let b = chunks_bytes(cs);
        assert(b == chunk_bytes(cs[0].0, cs[0].1) + chunks_bytes(rest));
        lemma_header_of_chunk_bytes(cs[0].0, cs[0].1, chunks_bytes(rest));
        let end = 8 + cs[0].0.size as int;
        assert(chunks_of(b.subrange(end, b.len() as int)) == Ok::<_, DecodeError>(rest));
        assert(seq![(cs[0].0, b.subrange(8, end))] + rest =~= cs);
    } else {
        assert(cs =~= Seq::empty());
    }
}

/// Whatever stream reads as chunks is exactly as long as those chunks with
/// their headers.
pub proof fn lemma_chunks_cover_input(b: Seq<u8>)
    requires
        chunks_of(b) is Ok,
    ensures
        chunks_length(chunks_of(b)->Ok_0) == b.len(),
    decreases b.len(),
{
    if b.len() > 0 {
        let c = chunk_header(b);
        let end = 8 + c.size as int;
        let tail = b.subrange(end, b.len() as int);
        lemma_chunks_cover_input(tail);
        let cs = chunks_of(b)->Ok_0;
        assert(cs.drop_first() =~= chunks_of(tail)->Ok_0);
    }
}

proof fn lemma_chunks_length_nonneg(cs: Seq<(Chunk, Seq<u8>)>)
    ensures
        chunks_length(cs) >= 0,
    decreases cs.len(),
{
    if cs.len() > 0 {
        lemma_chunks_length_nonneg(cs.drop_first());
    }
}

/// A stream of chunks cut short inside its last chunk, in the header or in
/// the payload, reads as truncated.
pub proof fn lemma_truncated_chunks(cs: Seq<(Chunk, Seq<u8>)>, cut: int)
    requires
        well_formed_chunks(cs),
        cs.len() > 0,
        chunks_length(cs.drop_last()) < cut < chunks_length(cs),
    ensures
        chunks_of(chunks_bytes(cs).subrange(0, cut)) == Err::<Seq<(Chunk, Seq<u8>)>, _>(
            DecodeError::TruncatedInput,
        ),
    decreases cs.len(),
{
    let c = cs[0].0;
    let p = cs[0].1;
    let rest = cs.drop_first();
    assert(p.len() == c.size);
    assert(well_formed_chunks(rest)) by {
        assert forall|i: int| 0 <= i < rest.len() implies (#[trigger] rest[i]).1.len()
            == rest[i].0.size by {
            assert(rest[i] == cs[i + 1]);
        }
    }
    lemma_chunks_round_trip(rest);
    lemma_chunks_round_trip(cs);
    lemma_header_of_chunk_bytes(c, p, chunks_bytes(rest));
    let b = chunks_bytes(cs);
    assert(b == chunk_bytes(c, p) + chunks_bytes(rest));
    let t = b.subrange(0, cut);
    if cs.len() == 1 {
        assert(rest.len() == 0);
        assert(cs.drop_last().len() == 0);
        if cut >= 8 {
            assert(t.subrange(0, 8) == b.subrange(0, 8));
            assert(chunk_header(t) == chunk_header(b)) by {
                assert(t[4] == b[4] && t[5] == b[5] && t[6] == b[6] && t[7] == b[7]);
                assert(chunk_header(t).magic =~= chunk_header(b).magic);
            }
        }
    } else {
        let l0 = 8 + c.size as int;
        assert(cs.drop_last().drop_first() =~= rest.drop_last());
        assert(cs.drop_last()[0] == cs[0]);
        assert(chunks_length(cs.drop_last()) == l0 + chunks_length(rest.drop_last()));
        lemma_chunks_length_nonneg(rest.drop_last());
        lemma_truncated_chunks(rest, cut - l0);
        assert(chunk_header(t) == chunk_header(b)) by {
            assert(t[4] == b[4] && t[5] == b[5] && t[6] == b[6] && t[7] == b[7]);
            assert(chunk_header(t).magic =~= chunk_header(b).magic);
        }
        assert(t.subrange(l0, t.len() as int) =~= chunks_bytes(rest).subrange(0, cut - l0));
    }
}

/// On a stream of well-formed chunks, what `next` reads is the first chunk
/// with its payload, and what it leaves is the stream of the remaining
/// chunks; on the stream of no chunks it reads nothing. Applied call by call,
/// `next` yields the chunks in order and then `None`, having consumed
/// `chunks_length` bytes, which is the whole stream.
pub proof fn lemma_next_chunk_of_stream(cs: Seq<(Chunk, Seq<u8>)>)
    requires
        well_formed_chunks(cs),
    ensures
        ({
            let b = chunks_bytes(cs);
            &&& b.len() == chunks_length(cs)
            &&& cs.len() == 0 <==> b.len() == 0
            &&& cs.len() > 0 ==> {
                &&& b.len() >= 8
                &&& chunk_header(b) == cs[0].0
                &&& 8 + cs[0].0.size <= b.len()
                &&& b.subrange(8, 8 + cs[0].0.size as int) == cs[0].1
                &&& b.subrange(8 + cs[0].0.size as int, b.len() as int) == chunks_bytes(
                    cs.drop_first(),
                )
                &&& well_formed_chunks(cs.drop_first())
            }
        }),
{
    lemma_chunks_round_trip(cs);
    if cs.len() > 0 {
        let rest = cs.drop_first();
        assert(well_formed_chunks(rest)) by {
            assert forall|i: int| 0 <= i < rest.len() implies (#[trigger] rest[i]).1.len()
                == rest[i].0.size by {
                assert(rest[i] == cs[i + 1]);
            }
        }
        assert(cs[0].1.len() == cs[0].0.size);
        lemma_header_of_chunk_bytes(cs[0].0, cs[0].1, chunks_bytes(rest));
    }
}

} // verus!
