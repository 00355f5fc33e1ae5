use vstd::prelude::*;

use crate::bytes::{le16, le32, outcome, Bounded};
use crate::chunk::{lemma_prepend_push, prepend, spec_chunk, Chunk, ChunkModel};
use crate::error::DecodeError;
use crate::pixel::Format;

verus! {

/// One step of the animation.
#[derive(Debug)]
pub struct Frame<T: Format> {
    pub duration: u16,
    pub chunks: Vec<Chunk<T>>,
}

/// What a `Frame` holds.
pub struct FrameModel {
    pub duration: u16,
    pub chunks: Seq<ChunkModel>,
}

impl<T: Format> View for Frame<T> {
    type V = FrameModel;

    open spec fn view(&self) -> FrameModel {
        FrameModel { duration: self.duration, chunks: self.chunks@.map_values(|c: Chunk<T>| c@) }
    }
}

/// How many chunks a frame holds: the 32-bit count, or the older 16-bit
/// one where the 32-bit count is zero.
pub open spec fn declared_chunks(legacy: u16, modern: u32) -> u32 {
    if modern == 0 {
        legacy as u32
    } else {
        modern
    }
}

/// A chunk at `p` with its length prefix: a 32-bit length that counts
/// itself, then the chunk, read within that length (and within `end`).
pub open spec fn spec_sized_chunk(d: Seq<u8>, p: int, end: int, unit: nat) -> Result<(ChunkModel, int), DecodeError> {
    if p + 4 > end {
        Err(DecodeError::Truncated)
    } else {
        let len = le32(d, p);
        if len < 4 {
            Err(DecodeError::InvalidData)
        } else {
            spec_chunk(d, p + 4, if p + len < end { p + len } else { end }, unit)
        }
    }
}

/// `n` chunks with their length prefixes, one after another from `q`.
pub open spec fn spec_chunks(d: Seq<u8>, q: int, end: int, n: nat, unit: nat) -> Result<(Seq<ChunkModel>, int), DecodeError>
    decreases n,
{
    if n == 0 {
        Ok((Seq::empty(), q))
    } else {
        match spec_sized_chunk(d, q, end, unit) {
            Err(e) => Err(e),
            Ok((c, r)) => prepend(seq![c], spec_chunks(d, r, end, (n - 1) as nat, unit)),
        }
    }
}

/// A frame at `pos`, read within `end`: magic, the 16-bit chunk count,
/// the duration, two reserved bytes, the 32-bit chunk count, the chunks.
pub open spec fn spec_frame(d: Seq<u8>, pos: int, end: int, unit: nat) -> Result<(FrameModel, int), DecodeError> {
    if pos + 12 > end {
        Err(DecodeError::Truncated)
    } else {
        let n = declared_chunks(le16(d, pos + 2), le32(d, pos + 8));
        match spec_chunks(d, pos + 12, end, n as nat, unit) {
            Ok((chunks, q)) => Ok((FrameModel { duration: le16(d, pos + 4), chunks }, q)),
            Err(e) => Err(e),
        }
    }
}

/// Reads a chunk length prefix and decodes the chunk within the length it
/// declares.
fn read_sized_chunk<T: Format>(data: &[u8], from: &mut Bounded) -> (r: Result<Chunk<T>, DecodeError>)
    requires
        old(from).wf(data@),
    ensures
        final(from).end == old(from).end,
        final(from).wf(data@),
        outcome(r, final(from).pos as int, spec_sized_chunk(data@, old(from).pos as int, old(from).end as int, T::unit())),
{
    let len = from.read_u32(data)?;
    if len < 4 {
        return Err(DecodeError::InvalidData);
    }
    let mut body = from.take((len - 4) as u64);
    let chunk = Chunk::new(data, &mut body);
    from.pos = body.pos;
    chunk
}

impl<T: Format> Frame<T> {
    /// Decodes one frame from `from`: its header, then as many chunks as it
    /// declares, each read within the length its prefix gives. Where the
    /// 32-bit chunk count is zero, the 16-bit one is used.
    pub fn new(data: &[u8], from: &mut Bounded) -> (r: Result<Self, DecodeError>)
        requires
            old(from).wf(data@),
        ensures
            final(from).end == old(from).end,
            final(from).wf(data@),
            outcome(r, final(from).pos as int, spec_frame(data@, old(from).pos as int, old(from).end as int, T::unit())),
    {
        let _magic = from.read_u16(data)?;
        let old_chunks = from.read_u16(data)?;
        let duration = from.read_u16(data)?;
        from.skip(2)?;
        let mut chunk_count = from.read_u32(data)?;
        if chunk_count == 0 {
            chunk_count = old_chunks as u32;
        }
        let ghost q0 = from.pos as int;
        let ghost end = from.end as int;
        let mut chunks: Vec<Chunk<T>> = Vec::new();
        let mut i: u32 = 0;
        while i < chunk_count
            invariant
                from.wf(data@),
                from.end == end,
                end == old(from).end,
                i <= chunk_count,
                old(from).pos + 12 <= end,
                q0 == old(from).pos + 12,
                chunk_count == declared_chunks(le16(data@, old(from).pos + 2), le32(data@, old(from).pos + 8)),
                duration == le16(data@, old(from).pos + 4),
                spec_chunks(data@, q0, end, chunk_count as nat, T::unit()) == prepend(
                    chunks@.map_values(|c: Chunk<T>| c@),
                    spec_chunks(data@, from.pos as int, end, (chunk_count - i) as nat, T::unit()),
                ),
            decreases chunk_count - i,
        {
            let ghost done = chunks@.map_values(|c: Chunk<T>| c@);
            let ghost here = from.pos as int;
            let chunk = match read_sized_chunk(data, from) {
                Ok(c) => c,
                Err(e) => {
                    assert(spec_chunks(data@, here, end, (chunk_count - i) as nat, T::unit()) == Err::<
                        (Seq<ChunkModel>, int),
                        DecodeError,
                    >(e));
                    return Err(e);
                },
            };
            proof {
                lemma_prepend_push(
                    done,
                    chunk@,
                    spec_chunks(data@, from.pos as int, end, (chunk_count - i - 1) as nat, T::unit()),
                );
            }
            chunks.push(chunk);
            assert(chunks@.map_values(|c: Chunk<T>| c@) =~= done.push(chunk@));
            i = i + 1;
        }
        assert(chunks@.map_values(|c: Chunk<T>| c@) + Seq::empty() =~= chunks@.map_values(|c: Chunk<T>| c@));
        Ok(Frame { duration, chunks })
    }
}


proof fn lemma_chunks_len(d: Seq<u8>, q: int, end: int, n: nat, unit: nat)
    ensures
        spec_chunks(d, q, end, n, unit) matches Ok((s, _)) ==> s.len() == n,
    decreases n,
{
    if n > 0 {
        if let Ok((_, r)) = spec_sized_chunk(d, q, end, unit) {
            lemma_chunks_len(d, r, end, (n - 1) as nat, unit);
        }
    }
}

/// A decoded frame holds as many chunks as its 32-bit count says, or as its
/// 16-bit count says where the 32-bit count is zero.
pub proof fn lemma_frame_chunk_count(d: Seq<u8>, pos: int, end: int, unit: nat)
    ensures
        spec_frame(d, pos, end, unit) matches Ok((f, _)) ==> f.chunks.len() == declared_chunks(
            le16(d, pos + 2),
            le32(d, pos + 8),
        ),
{
    if pos + 12 <= end {
        lemma_chunks_len(d, pos + 12, end, declared_chunks(le16(d, pos + 2), le32(d, pos + 8)) as nat, unit);
    }
}

/// After a chunk of a type this decoder does not interpret, the next length
/// prefix is read right where the chunk's declared length ends (or at the
/// end of the frame, where that comes first), whatever the chunk's bytes.
pub proof fn lemma_unsupported_keeps_alignment(d: Seq<u8>, p: int, end: int, unit: nat)
    ensures
        spec_sized_chunk(d, p, end, unit) matches Ok((ChunkModel::Unsupported, q)) ==> q == if p
            + le32(d, p) < end {
            p + le32(d, p)
        } else {
            end
        },
{
}

} // verus!
