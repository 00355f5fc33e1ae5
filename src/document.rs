use vstd::prelude::*;

use crate::bytes::{le16, le32, outcome, Bounded};
use crate::chunk::{lemma_prepend_push, prepend};
use crate::error::DecodeError;
use crate::frame::{spec_frame, Frame, FrameModel};
use crate::pixel::Format;

verus! {

/// A decoded file whose pixels are units of type `T`.
#[derive(Debug)]
pub struct FormattedDocument<T: Format> {
    pub width: u16,
    pub height: u16,
    /// The palette index that stands for transparency; meaningful for
    /// indexed files only.
    pub transparent_index: u8,
    pub frames: Vec<Frame<T>>,
}

/// A decoded file, in the pixel format its color depth selects.
#[derive(Debug)]
pub enum Document {
    /// 32 bits per pixel: red, green, blue, alpha.
    Rgba(FormattedDocument<[u8; 4]>),
    /// 16 bits per pixel: gray, alpha.
    Gray(FormattedDocument<[u8; 2]>),
    /// 8 bits per pixel: a palette index.
    Indexed(FormattedDocument<u8>),
}

/// What a `FormattedDocument` holds.
pub struct FormattedModel {
    pub width: u16,
    pub height: u16,
    pub transparent_index: u8,
    pub frames: Seq<FrameModel>,
}

/// What a `Document` holds.
pub enum DocumentModel {
    Rgba(FormattedModel),
    Gray(FormattedModel),
    Indexed(FormattedModel),
}

impl<T: Format> View for FormattedDocument<T> {
    type V = FormattedModel;

    open spec fn view(&self) -> FormattedModel {
        FormattedModel {
            width: self.width,
            height: self.height,
            transparent_index: self.transparent_index,
            frames: self.frames@.map_values(|f: Frame<T>| f@),
        }
    }
}

impl View for Document {
    type V = DocumentModel;

    open spec fn view(&self) -> DocumentModel {
        match self {
            Document::Rgba(f) => DocumentModel::Rgba(f@),
            Document::Gray(f) => DocumentModel::Gray(f@),
            Document::Indexed(f) => DocumentModel::Indexed(f@),
        }
    }
}

impl DocumentModel {
    /// The fields shared by every pixel format.
    pub open spec fn formatted(self) -> FormattedModel {
        match self {
            DocumentModel::Rgba(f) => f,
            DocumentModel::Gray(f) => f,
            DocumentModel::Indexed(f) => f,
        }
    }
}

/// The size of the file header.
pub const HEADER_LEN: usize = 128;

/// A frame at `p` with its length prefix: a 32-bit length, then the frame,
/// read within that many bytes (and within `end`).
pub open spec fn spec_sized_frame(d: Seq<u8>, p: int, end: int, unit: nat) -> Result<(FrameModel, int), DecodeError> {
    if p + 4 > end {
        Err(DecodeError::Truncated)
    } else {
        let len = le32(d, p);
        spec_frame(d, p + 4, if p + 4 + len < end { p + 4 + len } else { end }, unit)
    }
}

/// `n` frames with their length prefixes, one after another from `q`.
pub open spec fn spec_frames(d: Seq<u8>, q: int, end: int, n: nat, unit: nat) -> Result<(Seq<FrameModel>, int), DecodeError>
    decreases n,
{
    if n == 0 {
        Ok((Seq::empty(), q))
    } else {
        match spec_sized_frame(d, q, end, unit) {
            Err(e) => Err(e),
            Ok((f, r)) => prepend(seq![f], spec_frames(d, r, end, (n - 1) as nat, unit)),
        }
    }
}

/// The bytes per pixel that a header's color depth selects.
pub open spec fn unit_of_depth(depth: u16) -> Option<nat> {
    if depth == 32 {
        Some(4)
    } else if depth == 16 {
        Some(2)
    } else if depth == 8 {
        Some(1)
    } else {
        None
    }
}

/// The frame count field of the header.
pub open spec fn header_frame_count(d: Seq<u8>) -> u16 {
    le16(d, 6)
}

/// The color depth field of the header.
pub open spec fn header_depth(d: Seq<u8>) -> u16 {
    le16(d, 12)
}

/// The document that the file `d` holds: the 128-byte header (file size,
/// magic, frame count, width, height, color depth, flags, ten reserved
/// bytes, the transparent index, three reserved bytes, the color count,
/// 94 reserved bytes), then the frames that the header counts.
pub open spec fn spec_document(d: Seq<u8>) -> Result<DocumentModel, DecodeError> {
    if d.len() < HEADER_LEN {
        Err(DecodeError::Truncated)
    } else {
        match unit_of_depth(header_depth(d)) {
            None => Err(DecodeError::InvalidData),
            Some(unit) => match spec_frames(d, 128, d.len() as int, header_frame_count(d) as nat, unit) {
                Err(e) => Err(e),
                Ok((frames, _)) => {
                    let f = FormattedModel {
                        width: le16(d, 8),
                        height: le16(d, 10),
                        transparent_index: d[28],
                        frames,
                    };
                    if unit == 4 {
                        Ok(DocumentModel::Rgba(f))
                    } else if unit == 2 {
                        Ok(DocumentModel::Gray(f))
                    } else {
                        Ok(DocumentModel::Indexed(f))
                    }
                },
            },
        }
    }
}

/// `r` is what decoding the file `d` gives.
pub open spec fn decoded(d: Seq<u8>, r: Result<Document, DecodeError>) -> bool {
    match spec_document(d) {
        Ok(m) => r matches Ok(doc) && doc@ == m,
        Err(e) => r == Err::<Document, DecodeError>(e),
    }
}

/// Reads `count` frames, each after its 32-bit length prefix and within
/// the length it declares.
fn read_frames<T: Format>(data: &[u8], from: &mut Bounded, count: u16) -> (r: Result<Vec<Frame<T>>, DecodeError>)
    requires
        old(from).wf(data@),
    ensures
        final(from).end == old(from).end,
        final(from).wf(data@),
        match spec_frames(data@, old(from).pos as int, old(from).end as int, count as nat, T::unit()) {
            Ok((s, q)) => r matches Ok(v) && v@.map_values(|f: Frame<T>| f@) == s && final(from).pos == q,
            Err(e) => r == Err::<Vec<Frame<T>>, DecodeError>(e),
        },
{
    let ghost q0 = from.pos as int;
    let ghost end = from.end as int;
    let mut frames: Vec<Frame<T>> = Vec::new();
    let mut i: u16 = 0;
    while i < count
        invariant
            from.wf(data@),
            from.end == end,
            end == old(from).end,
            q0 == old(from).pos,
            i <= count,
            spec_frames(data@, q0, end, count as nat, T::unit()) == prepend(
                frames@.map_values(|f: Frame<T>| f@),
                spec_frames(data@, from.pos as int, end, (count - i) as nat, T::unit()),
            ),
        decreases count - i,
    {
        let ghost done = frames@.map_values(|f: Frame<T>| f@);
        let ghost here = from.pos as int;
        let ghost tail = spec_frames(data@, here, end, (count - i) as nat, T::unit());
        let len = match from.read_u32(data) {
            Ok(n) => n,
            Err(e) => {
                assert(tail == Err::<(Seq<FrameModel>, int), DecodeError>(e));
                return Err(e);
            },
        };
        let mut body = from.take(len as u64);
        let frame = Frame::new(data, &mut body);
        from.pos = body.pos;
        let frame = match frame {
            Ok(f) => f,
            Err(e) => {
                assert(tail == Err::<(Seq<FrameModel>, int), DecodeError>(e));
                return Err(e);
            },
        };
        proof {
            lemma_prepend_push(
                done,
                frame@,
                spec_frames(data@, from.pos as int, end, (count - i - 1) as nat, T::unit()),
            );
        }
        frames.push(frame);
        assert(frames@.map_values(|f: Frame<T>| f@) =~= done.push(frame@));
        i = i + 1;
    }
    assert(frames@.map_values(|f: Frame<T>| f@) + Seq::empty() =~= frames@.map_values(|f: Frame<T>| f@));
    Ok(frames)
}

impl Document {
    /// Decodes a whole file: the header, then the frames it counts, in the
    /// pixel format its color depth selects (32: RGBA, 16: gray and alpha,
    /// 8: indexed). Any other depth is invalid data. A failure anywhere
    /// abandons the whole decode.
    pub fn new(data: &[u8]) -> (r: Result<Document, DecodeError>)
        ensures
            decoded(data@, r),
    {
        let mut from = Bounded::whole(data);
        let _file_size = from.read_u32(data)?;
        let _magic = from.read_u16(data)?;
        let frame_count = from.read_u16(data)?;
        let width = from.read_u16(data)?;
        let height = from.read_u16(data)?;
        let depth = from.read_u16(data)?;
        let _flags = from.read_u32(data)?;
        from.skip(10)?;
        let transparent_index = from.read_u8(data)?;
        from.skip(3)?;
        let _colors = from.read_u16(data)?;
        from.skip(94)?;
        if depth == 32 {
            let frames = read_frames(data, &mut from, frame_count)?;
            Ok(Document::Rgba(FormattedDocument { width, height, transparent_index, frames }))
        } else if depth == 16 {
            let frames = read_frames(data, &mut from, frame_count)?;
            Ok(Document::Gray(FormattedDocument { width, height, transparent_index, frames }))
        } else if depth == 8 {
            let frames = read_frames(data, &mut from, frame_count)?;
            Ok(Document::Indexed(FormattedDocument { width, height, transparent_index, frames }))
        } else {
            Err(DecodeError::InvalidData)
        }
    }
}


proof fn lemma_frames_len(d: Seq<u8>, q: int, end: int, n: nat, unit: nat)
    ensures
        spec_frames(d, q, end, n, unit) matches Ok((s, _)) ==> s.len() == n,
    decreases n,
{
    if n > 0 {
        if let Ok((_, r)) = spec_sized_frame(d, q, end, unit) {
            lemma_frames_len(d, r, end, (n - 1) as nat, unit);
        }
    }
}

/// The header's color depth selects the pixel format: 32 gives RGBA, 16
/// gray and alpha, 8 indexed; a complete header with any other depth is
/// invalid data.
pub proof fn lemma_depth_selects_format(d: Seq<u8>)
    ensures
        spec_document(d) matches Ok(m) ==> {
            &&& (header_depth(d) == 32 <==> m is Rgba)
            &&& (header_depth(d) == 16 <==> m is Gray)
            &&& (header_depth(d) == 8 <==> m is Indexed)
        },
        d.len() >= HEADER_LEN && header_depth(d) != 32 && header_depth(d) != 16 && header_depth(d)
            != 8 ==> spec_document(d) == Err::<DocumentModel, DecodeError>(DecodeError::InvalidData),
{
}

/// A decoded document holds as many frames as its header counts.
pub proof fn lemma_document_frame_count(d: Seq<u8>)
    ensures
        spec_document(d) matches Ok(m) ==> m.formatted().frames.len() == header_frame_count(d),
{
    if d.len() >= HEADER_LEN {
        if let Some(unit) = unit_of_depth(header_depth(d)) {
            lemma_frames_len(d, 128, d.len() as int, header_frame_count(d) as nat, unit);
        }
    }
}

/// Decoding the same bytes twice gives structurally equal documents, or
/// the same error.
pub proof fn lemma_decode_deterministic(
    d: Seq<u8>,
    a: Result<Document, DecodeError>,
    b: Result<Document, DecodeError>,
)
    requires
        decoded(d, a),
        decoded(d, b),
    ensures
        a is Ok <==> b is Ok,
        a matches Ok(x) ==> (b matches Ok(y) && x@ == y@),
        a is Err ==> a == b,
{
}

} // verus!
