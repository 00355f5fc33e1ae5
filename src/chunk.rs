use vstd::prelude::*;

use crate::bytes::{le16, le32, outcome, spec_string, Bounded};
use crate::error::DecodeError;
use crate::pixel::{read_pixels, spec_pixels, units_bytes, Format};

verus! {

/// A palette slot.
#[derive(Debug)]
pub struct ColorEntry {
    pub color: [u8; 4],
    pub name: Option<String>,
}

/// Where the pixels of a cel come from.
#[derive(Debug)]
pub enum CelData<T: Format> {
    Pixels { width: u16, height: u16, data: Vec<T> },
    /// The cel reuses the pixels of the cel on the same layer in frame `frame`.
    Link { frame: u16 },
}

/// The image placed on one layer in one frame.
#[derive(Debug)]
pub struct Cel<T: Format> {
    pub x: u16,
    pub y: u16,
    pub opacity: u8,
    pub data: CelData<T>,
}

/// How an animation tag plays its range of frames.
#[derive(Debug, Clone, Copy, PartialEq, Eq, Structural)]
pub enum FrameLoop {
    Forward,
    Reverse,
    PingPong,
}

/// A named range of frames.
#[derive(Debug)]
pub struct FrameTag {
    pub from_frame: u16,
    pub to_frame: u16,
    pub loop_mode: FrameLoop,
    pub color: [u8; 3],
    pub name: String,
}

/// One typed record of a frame.
#[allow(inconsistent_fields)]
#[derive(Debug)]
pub enum Chunk<T: Format> {
    /// A chunk whose type this decoder does not interpret; its bytes are skipped.
    Unsupported,
    Layer {
        flags: u16,
        is_group: bool,
        child_level: u16,
        width: u16,
        height: u16,
        blend: u16,
        opacity: u8,
        name: String,
        cel: Option<Cel<T>>,
    },
    Cel { layer_index: u16, cel: Cel<T> },
    FrameTags { tags: Vec<FrameTag> },
    Palette { new_size: u32, first: u32, last: u32, updates: Vec<ColorEntry> },
    UserData { text: Option<String>, color: Option<[u8; 4]> },
}

/// What a `ColorEntry` holds.
pub struct ColorEntryModel {
    pub color: Seq<u8>,
    pub name: Option<Seq<char>>,
}

/// What a `CelData` holds; pixels as the bytes of each unit.
pub enum CelDataModel {
    Pixels { width: u16, height: u16, data: Seq<Seq<u8>> },
    Link { frame: u16 },
}

/// What a `Cel` holds.
pub struct CelModel {
    pub x: u16,
    pub y: u16,
    pub opacity: u8,
    pub data: CelDataModel,
}

/// What a `FrameTag` holds.
pub struct FrameTagModel {
    pub from_frame: u16,
    pub to_frame: u16,
    pub loop_mode: FrameLoop,
    pub color: Seq<u8>,
    pub name: Seq<char>,
}

/// What a `Chunk` holds.
#[allow(inconsistent_fields)]
pub enum ChunkModel {
    Unsupported,
    Layer {
        flags: u16,
        is_group: bool,
        child_level: u16,
        width: u16,
        height: u16,
        blend: u16,
        opacity: u8,
        name: Seq<char>,
        cel: Option<CelModel>,
    },
    Cel { layer_index: u16, cel: CelModel },
    FrameTags { tags: Seq<FrameTagModel> },
    Palette { new_size: u32, first: u32, last: u32, updates: Seq<ColorEntryModel> },
    UserData { text: Option<Seq<char>>, color: Option<Seq<u8>> },
}

/// The text an optional string holds.
pub open spec fn text_view(s: Option<String>) -> Option<Seq<char>> {
    match s {
        Some(t) => Some(t@),
        None => None,
    }
}

impl View for ColorEntry {
    type V = ColorEntryModel;

    open spec fn view(&self) -> ColorEntryModel {
        ColorEntryModel { color: self.color@, name: text_view(self.name) }
    }
}

impl<T: Format> View for CelData<T> {
    type V = CelDataModel;

    open spec fn view(&self) -> CelDataModel {
        match self {
            CelData::Pixels { width, height, data } => CelDataModel::Pixels {
                width: *width,
                height: *height,
                data: units_bytes(data@),
            },
            CelData::Link { frame } => CelDataModel::Link { frame: *frame },
        }
    }
}

impl<T: Format> View for Cel<T> {
    type V = CelModel;

    open spec fn view(&self) -> CelModel {
        CelModel { x: self.x, y: self.y, opacity: self.opacity, data: self.data@ }
    }
}

impl View for FrameTag {
    type V = FrameTagModel;

    open spec fn view(&self) -> FrameTagModel {
        FrameTagModel {
            from_frame: self.from_frame,
            to_frame: self.to_frame,
            loop_mode: self.loop_mode,
            color: self.color@,
            name: self.name@,
        }
    }
}

impl<T: Format> View for Chunk<T> {
    type V = ChunkModel;

    open spec fn view(&self) -> ChunkModel {
        match self {
            Chunk::Unsupported => ChunkModel::Unsupported,
            Chunk::Layer {
                flags,
                is_group,
                child_level,
                width,
                height,
                blend,
                opacity,
                name,
                cel,
            } => ChunkModel::Layer {
                flags: *flags,
                is_group: *is_group,
                child_level: *child_level,
                width: *width,
                height: *height,
                blend: *blend,
                opacity: *opacity,
                name: name@,
                cel: match cel {
                    Some(c) => Some(c@),
                    None => None,
                },
            },
            Chunk::Cel { layer_index, cel } => ChunkModel::Cel {
                layer_index: *layer_index,
                cel: cel@,
            },
            Chunk::FrameTags { tags } => ChunkModel::FrameTags {
                tags: tags@.map_values(|t: FrameTag| t@),
            },
            Chunk::Palette { new_size, first, last, updates } => ChunkModel::Palette {
                new_size: *new_size,
                first: *first,
                last: *last,
                updates: updates@.map_values(|u: ColorEntry| u@),
            },
            Chunk::UserData { text, color } => ChunkModel::UserData {
                text: text_view(*text),
                color: match color {
                    Some(c) => Some(c@),
                    None => None,
                },
            },
        }
    }
}

pub const LAYER_CHUNK: u16 = 0x2004;
pub const CEL_CHUNK: u16 = 0x2005;
pub const FRAME_TAGS_CHUNK: u16 = 0x2018;
pub const PALETTE_CHUNK: u16 = 0x2019;
pub const USER_DATA_CHUNK: u16 = 0x2020;

/// The items that `r` found, with `done` put in front of them; an error
/// stays as it is.
pub open spec fn prepend<A>(done: Seq<A>, r: Result<(Seq<A>, int), DecodeError>) -> Result<
    (Seq<A>, int),
    DecodeError,
> {
    match r {
        Ok((s, q)) => Ok((done + s, q)),
        Err(e) => Err(e),
    }
}

/// The body of a layer chunk at `pos`: six 16-bit fields, the opacity,
/// three reserved bytes, the name.
pub open spec fn spec_layer(d: Seq<u8>, pos: int, end: int) -> Result<(ChunkModel, int), DecodeError> {
    if pos + 16 > end {
        Err(DecodeError::Truncated)
    } else {
        match spec_string(d, pos + 16, end) {
            Err(e) => Err(e),
            Ok((name, q)) => Ok(
                (
                    ChunkModel::Layer {
                        flags: le16(d, pos),
                        is_group: le16(d, pos + 2) != 0,
                        child_level: le16(d, pos + 4),
                        width: le16(d, pos + 6),
                        height: le16(d, pos + 8),
                        blend: le16(d, pos + 10),
                        opacity: d[pos + 12],
                        name,
                        cel: None,
                    },
                    q,
                ),
            ),
        }
    }
}

/// What libflate's ZLIB decoder yields from `b`, read to its end; `None`
/// where it reports an error.
pub uninterp spec fn inflated(b: Seq<u8>) -> Option<Seq<u8>>;

/// Relies on libflate::zlib::Decoder: reads the ZLIB stream held in
/// `data[start..end]` to its end and returns the bytes it decompresses to.
#[verifier::external_body]
fn inflate(data: &[u8], start: usize, end: usize) -> (r: Option<Vec<u8>>)
    requires
        start <= end <= data@.len(),
    ensures
        match r {
            Some(v) => inflated(data@.subrange(start as int, end as int)) == Some(v@),
            None => inflated(data@.subrange(start as int, end as int)) is None,
        },
{
    let mut out = Vec::new();
    match libflate::zlib::Decoder::new(&data[start..end]) {
        Ok(mut decoder) => match std::io::Read::read_to_end(&mut decoder, &mut out) {
            Ok(_) => Some(out),
            Err(_) => None,
        },
        Err(_) => None,
    }
}

/// The pixel payload of a cel whose type selector is `kind`, from `p`, the
/// position after the selector: seven reserved bytes, then for raw pixels
/// (`0`) the width, the height and width * height units; for a link (`1`)
/// the index of the frame; for compressed pixels (`2`) the width, the height
/// and a ZLIB stream up to `end` whose output starts with width * height
/// units. Any other selector is invalid.
pub open spec fn spec_cel_data(d: Seq<u8>, p: int, end: int, kind: u16, unit: nat) -> Result<
    (CelDataModel, int),
    DecodeError,
> {
    if kind == 0 {
        if p + 11 > end {
            Err(DecodeError::Truncated)
        } else {
            let width = le16(d, p + 7);
            let height = le16(d, p + 9);
            match spec_pixels(d, p + 11, end, (width * height) as nat, unit) {
                Ok((data, q)) => Ok((CelDataModel::Pixels { width, height, data }, q)),
                Err(e) => Err(e),
            }
        }
    } else if kind == 1 {
        if p + 9 > end {
            Err(DecodeError::Truncated)
        } else {
            Ok((CelDataModel::Link { frame: le16(d, p + 7) }, p + 9))
        }
    } else if kind == 2 {
        if p + 11 > end {
            Err(DecodeError::Truncated)
        } else {
            let width = le16(d, p + 7);
            let height = le16(d, p + 9);
            match inflated(d.subrange(p + 11, end)) {
                None => Err(DecodeError::InvalidData),
                Some(out) => match spec_pixels(out, 0, out.len() as int, (width * height) as nat, unit) {
                    Ok((data, _)) => Ok((CelDataModel::Pixels { width, height, data }, end)),
                    Err(e) => Err(e),
                },
            }
        }
    } else {
        Err(DecodeError::InvalidData)
    }
}

/// The body of a cel chunk at `pos`: the layer index, x, y, the opacity,
/// the type selector, then the payload.
pub open spec fn spec_cel(d: Seq<u8>, pos: int, end: int, unit: nat) -> Result<(ChunkModel, int), DecodeError> {
    if pos + 9 > end {
        Err(DecodeError::Truncated)
    } else {
        match spec_cel_data(d, pos + 9, end, le16(d, pos + 7), unit) {
            Err(e) => Err(e),
            Ok((data, q)) => Ok(
                (
                    ChunkModel::Cel {
                        layer_index: le16(d, pos),
                        cel: CelModel { x: le16(d, pos + 2), y: le16(d, pos + 4), opacity: d[pos + 6], data },
                    },
                    q,
                ),
            ),
        }
    }
}

/// The loop mode that the byte `b` stands for.
pub open spec fn loop_of(b: u8) -> Option<FrameLoop> {
    if b == 0 {
        Some(FrameLoop::Forward)
    } else if b == 1 {
        Some(FrameLoop::Reverse)
    } else if b == 2 {
        Some(FrameLoop::PingPong)
    } else {
        None
    }
}

/// One tag at `q`: from, to, the loop mode byte, eight reserved bytes, a
/// three-byte color, one reserved byte, the name.
pub open spec fn spec_tag(d: Seq<u8>, q: int, end: int) -> Result<(FrameTagModel, int), DecodeError> {
    if q + 5 > end {
        Err(DecodeError::Truncated)
    } else {
        match loop_of(d[q + 4]) {
            None => Err(DecodeError::InvalidData),
            Some(loop_mode) => if q + 17 > end {
                Err(DecodeError::Truncated)
            } else {
                match spec_string(d, q + 17, end) {
                    Err(e) => Err(e),
                    Ok((name, r)) => Ok(
                        (
                            FrameTagModel {
                                from_frame: le16(d, q),
                                to_frame: le16(d, q + 2),
                                loop_mode,
                                color: d.subrange(q + 13, q + 16),
                                name,
                            },
                            r,
                        ),
                    ),
                }
            },
        }
    }
}

/// `n` tags one after another from `q`.
pub open spec fn spec_tags(d: Seq<u8>, q: int, end: int, n: nat) -> Result<(Seq<FrameTagModel>, int), DecodeError>
    decreases n,
{
    if n == 0 {
        Ok((Seq::empty(), q))
    } else {
        match spec_tag(d, q, end) {
            Err(e) => Err(e),
            Ok((t, r)) => prepend(seq![t], spec_tags(d, r, end, (n - 1) as nat)),
        }
    }
}

/// The body of a frame-tags chunk at `pos`: the tag count, eight reserved
/// bytes, the tags.
pub open spec fn spec_frame_tags(d: Seq<u8>, pos: int, end: int) -> Result<(ChunkModel, int), DecodeError> {
    if pos + 10 > end {
        Err(DecodeError::Truncated)
    } else {
        match spec_tags(d, pos + 10, end, le16(d, pos) as nat) {
            Ok((tags, q)) => Ok((ChunkModel::FrameTags { tags }, q)),
            Err(e) => Err(e),
        }
    }
}

/// One palette entry at `q`: 16-bit flags, a four-byte color, and a name
/// where the flags' low bit is set.
pub open spec fn spec_entry(d: Seq<u8>, q: int, end: int) -> Result<(ColorEntryModel, int), DecodeError> {
    if q + 6 > end {
        Err(DecodeError::Truncated)
    } else {
        let color = d.subrange(q + 2, q + 6);
        if le16(d, q) & 1 == 1 {
            match spec_string(d, q + 6, end) {
                Ok((name, r)) => Ok((ColorEntryModel { color, name: Some(name) }, r)),
                Err(e) => Err(e),
            }
        } else {
            Ok((ColorEntryModel { color, name: None }, q + 6))
        }
    }
}

/// `n` palette entries one after another from `q`.
pub open spec fn spec_entries(d: Seq<u8>, q: int, end: int, n: nat) -> Result<(Seq<ColorEntryModel>, int), DecodeError>
    decreases n,
{
    if n == 0 {
        Ok((Seq::empty(), q))
    } else {
        match spec_entry(d, q, end) {
            Err(e) => Err(e),
            Ok((u, r)) => prepend(seq![u], spec_entries(d, r, end, (n - 1) as nat)),
        }
    }
}

/// How many entries the inclusive range `first..=last` holds.
pub open spec fn palette_len(first: u32, last: u32) -> nat {
    if first <= last {
        (last - first + 1) as nat
    } else {
        0
    }
}

/// The body of a palette chunk at `pos`: the new size, the first and the
/// last index updated, eight reserved bytes, an entry for each index.
pub open spec fn spec_palette(d: Seq<u8>, pos: int, end: int) -> Result<(ChunkModel, int), DecodeError> {
    if pos + 20 > end {
        Err(DecodeError::Truncated)
    } else {
        let first = le32(d, pos + 4);
        let last = le32(d, pos + 8);
        match spec_entries(d, pos + 20, end, palette_len(first, last)) {
            Ok((updates, q)) => Ok(
                (ChunkModel::Palette { new_size: le32(d, pos), first, last, updates }, q),
            ),
            Err(e) => Err(e),
        }
    }
}

/// The body of a user-data chunk at `pos`: 32-bit flags, a text where bit 0
/// is set, then a four-byte color where bit 1 is set.
pub open spec fn spec_user_data(d: Seq<u8>, pos: int, end: int) -> Result<(ChunkModel, int), DecodeError> {
    if pos + 4 > end {
        Err(DecodeError::Truncated)
    } else {
        let flags = le32(d, pos);
        let text: Result<(Option<Seq<char>>, int), DecodeError> = if flags & 1 == 1 {
            match spec_string(d, pos + 4, end) {
                Ok((s, q)) => Ok((Some(s), q)),
                Err(e) => Err(e),
            }
        } else {
            Ok((None, pos + 4))
        };
        match text {
            Err(e) => Err(e),
            Ok((text, q)) => if flags & 2 == 2 {
                if q + 4 > end {
                    Err(DecodeError::Truncated)
                } else {
                    Ok((ChunkModel::UserData { text, color: Some(d.subrange(q, q + 4)) }, q + 4))
                }
            } else {
                Ok((ChunkModel::UserData { text, color: None }, q))
            },
        }
    }
}

/// A chunk at `pos`, read within `end`: its 16-bit type tag, then the body
/// of that type. A chunk of any other type is skipped up to `end`.
pub open spec fn spec_chunk(d: Seq<u8>, pos: int, end: int, unit: nat) -> Result<(ChunkModel, int), DecodeError> {
    if pos + 2 > end {
        Err(DecodeError::Truncated)
    } else {
        let tag = le16(d, pos);
        if tag == LAYER_CHUNK {
            spec_layer(d, pos + 2, end)
        } else if tag == CEL_CHUNK {
            spec_cel(d, pos + 2, end, unit)
        } else if tag == FRAME_TAGS_CHUNK {
            spec_frame_tags(d, pos + 2, end)
        } else if tag == PALETTE_CHUNK {
            spec_palette(d, pos + 2, end)
        } else if tag == USER_DATA_CHUNK {
            spec_user_data(d, pos + 2, end)
        } else {
            Ok((ChunkModel::Unsupported, end))
        }
    }
}

/// Putting `done` and then `t` in front is putting `done` followed by `t`
/// in front.
pub proof fn lemma_prepend_push<A>(done: Seq<A>, t: A, r: Result<(Seq<A>, int), DecodeError>)
    ensures
        prepend(done, prepend(seq![t], r)) == prepend(done.push(t), r),
{
    if let Ok((s, q)) = r {
        assert(done + (seq![t] + s) =~= done.push(t) + s);
    }
}

fn read_layer<T: Format>(data: &[u8], from: &mut Bounded) -> (r: Result<Chunk<T>, DecodeError>)
    requires
        old(from).wf(data@),
    ensures
        final(from).end == old(from).end,
        final(from).wf(data@),
        outcome(r, final(from).pos as int, spec_layer(data@, old(from).pos as int, old(from).end as int)),
{
    let flags = from.read_u16(data)?;
    let is_group = from.read_u16(data)? != 0;
    let child_level = from.read_u16(data)?;
    let width = from.read_u16(data)?;
    let height = from.read_u16(data)?;
    let blend = from.read_u16(data)?;
    let opacity = from.read_u8(data)?;
    from.skip(3)?;
    let name = from.read_string(data)?;
    Ok(Chunk::Layer { flags, is_group, child_level, width, height, blend, opacity, name, cel: None })
}

fn read_cel_data<T: Format>(data: &[u8], from: &mut Bounded, kind: u16) -> (r: Result<CelData<T>, DecodeError>)
    requires
        old(from).wf(data@),
    ensures
        final(from).end == old(from).end,
        final(from).wf(data@),
        outcome(
            r,
            final(from).pos as int,
            spec_cel_data(data@, old(from).pos as int, old(from).end as int, kind, T::unit()),
        ),
{
    if kind == 0 {
        from.skip(7)?;
        let width = from.read_u16(data)?;
        let height = from.read_u16(data)?;
        assert(width as int * height as int <= 65535 * 65535) by (nonlinear_arith)
            requires
                width <= 65535,
                height <= 65535,
        ;
        let count = width as u32 * height as u32;
        let pixels = read_pixels(data, from, count as usize)?;
        Ok(CelData::Pixels { width, height, data: pixels })
    } else if kind == 1 {
        from.skip(7)?;
        let frame = from.read_u16(data)?;
        Ok(CelData::Link { frame })
    } else if kind == 2 {
        from.skip(7)?;
        let width = from.read_u16(data)?;
        let height = from.read_u16(data)?;
        assert(width as int * height as int <= 65535 * 65535) by (nonlinear_arith)
            requires
                width <= 65535,
                height <= 65535,
        ;
        let count = width as u32 * height as u32;
        let out = inflate(data, from.pos, from.end);
        from.drain();
        match out {
            None => Err(DecodeError::InvalidData),
            Some(raw) => {
                let mut inner = Bounded::whole(raw.as_slice());
                let pixels = read_pixels(raw.as_slice(), &mut inner, count as usize)?;
                Ok(CelData::Pixels { width, height, data: pixels })
            },
        }
    } else {
        Err(DecodeError::InvalidData)
    }
}

fn read_cel<T: Format>(data: &[u8], from: &mut Bounded) -> (r: Result<Chunk<T>, DecodeError>)
    requires
        old(from).wf(data@),
    ensures
        final(from).end == old(from).end,
        final(from).wf(data@),
        outcome(r, final(from).pos as int, spec_cel(data@, old(from).pos as int, old(from).end as int, T::unit())),
{
    let layer_index = from.read_u16(data)?;
    let x = from.read_u16(data)?;
    let y = from.read_u16(data)?;
    let opacity = from.read_u8(data)?;
    let kind = from.read_u16(data)?;
    let cel_data = read_cel_data(data, from, kind)?;
    Ok(Chunk::Cel { layer_index, cel: Cel { x, y, opacity, data: cel_data } })
}

fn read_tag(data: &[u8], from: &mut Bounded) -> (r: Result<FrameTag, DecodeError>)
    requires
        old(from).wf(data@),
    ensures
        final(from).end == old(from).end,
        final(from).wf(data@),
        outcome(r, final(from).pos as int, spec_tag(data@, old(from).pos as int, old(from).end as int)),
{
    let from_frame = from.read_u16(data)?;
    let to_frame = from.read_u16(data)?;
    let mode = from.read_u8(data)?;
    let loop_mode = if mode == 0 {
        FrameLoop::Forward
    } else if mode == 1 {
        FrameLoop::Reverse
    } else if mode == 2 {
        FrameLoop::PingPong
    } else {
        return Err(DecodeError::InvalidData);
    };
    from.skip(8)?;
    let r = from.read_u8(data)?;
    let g = from.read_u8(data)?;
    let b = from.read_u8(data)?;
    let color = [r, g, b];
    from.skip(1)?;
    let name = from.read_string(data)?;
    assert(color@ =~= data@.subrange(old(from).pos + 13, old(from).pos + 16));
    Ok(FrameTag { from_frame, to_frame, loop_mode, color, name })
}

fn read_frame_tags<T: Format>(data: &[u8], from: &mut Bounded) -> (r: Result<Chunk<T>, DecodeError>)
    requires
        old(from).wf(data@),
    ensures
        final(from).end == old(from).end,
        final(from).wf(data@),
        outcome(r, final(from).pos as int, spec_frame_tags(data@, old(from).pos as int, old(from).end as int)),
{
    let count = from.read_u16(data)?;
    from.skip(8)?;
    let ghost q0 = from.pos as int;
    let ghost end = from.end as int;
    let mut tags: Vec<FrameTag> = Vec::new();
    let mut i: u16 = 0;
    while i < count
        invariant
            from.wf(data@),
            from.end == end,
            end == old(from).end,
            i <= count,
            old(from).pos + 10 <= end,
            q0 == old(from).pos + 10,
            count == le16(data@, old(from).pos as int),
            spec_tags(data@, q0, end, count as nat) == prepend(
                tags@.map_values(|t: FrameTag| t@),
                spec_tags(data@, from.pos as int, end, (count - i) as nat),
            ),
        decreases count - i,
    {
        let ghost done = tags@.map_values(|t: FrameTag| t@);
        let ghost here = from.pos as int;
        let tag = match read_tag(data, from) {
            Ok(t) => t,
            Err(e) => {
                assert(spec_tags(data@, here, end, (count - i) as nat) == Err::<
                    (Seq<FrameTagModel>, int),
                    DecodeError,
                >(e));
                return Err(e);
            },
        };
        proof {
            lemma_prepend_push(done, tag@, spec_tags(data@, from.pos as int, end, (count - i - 1) as nat));
        }
        tags.push(tag);
        assert(tags@.map_values(|t: FrameTag| t@) =~= done.push(tag@));
        i = i + 1;
    }
    assert(tags@.map_values(|t: FrameTag| t@) + Seq::empty() =~= tags@.map_values(|t: FrameTag| t@));
    Ok(Chunk::FrameTags { tags })
}

fn read_entry(data: &[u8], from: &mut Bounded) -> (r: Result<ColorEntry, DecodeError>)
    requires
        old(from).wf(data@),
    ensures
        final(from).end == old(from).end,
        final(from).wf(data@),
        outcome(r, final(from).pos as int, spec_entry(data@, old(from).pos as int, old(from).end as int)),
{
    let flags = from.read_u16(data)?;
    let color = <[u8; 4] as Format>::read(data, from)?;
    let name = if flags & 1 == 1 {
        Some(from.read_string(data)?)
    } else {
        None
    };
    Ok(ColorEntry { color, name })
}

fn read_palette<T: Format>(data: &[u8], from: &mut Bounded) -> (r: Result<Chunk<T>, DecodeError>)
    requires
        old(from).wf(data@),
    ensures
        final(from).end == old(from).end,
        final(from).wf(data@),
        outcome(r, final(from).pos as int, spec_palette(data@, old(from).pos as int, old(from).end as int)),
{
    let new_size = from.read_u32(data)?;
    let first = from.read_u32(data)?;
    let last = from.read_u32(data)?;
    from.skip(8)?;
    let count: u64 = if first <= last {
        (last - first) as u64 + 1
    } else {
        0
    };
    let ghost q0 = from.pos as int;
    let ghost end = from.end as int;
    let mut updates: Vec<ColorEntry> = Vec::new();
    let mut i: u64 = 0;
    while i < count
        invariant
            from.wf(data@),
            from.end == end,
            end == old(from).end,
            i <= count,
            count == palette_len(first, last),
            old(from).pos + 20 <= end,
            q0 == old(from).pos + 20,
            first == le32(data@, old(from).pos + 4),
            last == le32(data@, old(from).pos + 8),
            new_size == le32(data@, old(from).pos as int),
            spec_entries(data@, q0, end, count as nat) == prepend(
                updates@.map_values(|u: ColorEntry| u@),
                spec_entries(data@, from.pos as int, end, (count - i) as nat),
            ),
        decreases count - i,
    {
        let ghost done = updates@.map_values(|u: ColorEntry| u@);
        let ghost here = from.pos as int;
        let entry = match read_entry(data, from) {
            Ok(u) => u,
            Err(e) => {
                assert(spec_entries(data@, here, end, (count - i) as nat) == Err::<
                    (Seq<ColorEntryModel>, int),
                    DecodeError,
                >(e));
                return Err(e);
            },
        };
        proof {
            lemma_prepend_push(done, entry@, spec_entries(data@, from.pos as int, end, (count - i - 1) as nat));
        }
        updates.push(entry);
        assert(updates@.map_values(|u: ColorEntry| u@) =~= done.push(entry@));
        i = i + 1;
    }
    assert(updates@.map_values(|u: ColorEntry| u@) + Seq::empty() =~= updates@.map_values(|u: ColorEntry| u@));
    Ok(Chunk::Palette { new_size, first, last, updates })
}

fn read_user_data<T: Format>(data: &[u8], from: &mut Bounded) -> (r: Result<Chunk<T>, DecodeError>)
    requires
        old(from).wf(data@),
    ensures
        final(from).end == old(from).end,
        final(from).wf(data@),
        outcome(r, final(from).pos as int, spec_user_data(data@, old(from).pos as int, old(from).end as int)),
{
    let flags = from.read_u32(data)?;
    let text = if flags & 1 == 1 {
        Some(from.read_string(data)?)
    } else {
        None
    };
    let color = if flags & 2 == 2 {
        Some(<[u8; 4] as Format>::read(data, from)?)
    } else {
        None
    };
    Ok(Chunk::UserData { text, color })
}

impl<T: Format> Chunk<T> {
    /// Decodes one chunk from `from`, whose end is the end of the chunk's
    /// declared body: its type tag, then the body of that type. A chunk of
    /// a type this decoder does not interpret is consumed up to the end of
    /// the view and gives `Unsupported`.
    pub fn new(data: &[u8], from: &mut Bounded) -> (r: Result<Self, DecodeError>)
        requires
            old(from).wf(data@),
        ensures
            final(from).end == old(from).end,
            final(from).wf(data@),
            outcome(r, final(from).pos as int, spec_chunk(data@, old(from).pos as int, old(from).end as int, T::unit())),
    {
        let chunk_type = from.read_u16(data)?;
        if chunk_type == LAYER_CHUNK {
            read_layer(data, from)
        } else if chunk_type == CEL_CHUNK {
            read_cel(data, from)
        } else if chunk_type == FRAME_TAGS_CHUNK {
            read_frame_tags(data, from)
        } else if chunk_type == PALETTE_CHUNK {
            read_palette(data, from)
        } else if chunk_type == USER_DATA_CHUNK {
            read_user_data(data, from)
        } else {
            from.drain();
            Ok(Chunk::Unsupported)
        }
    }
}


proof fn lemma_entries_len(d: Seq<u8>, q: int, end: int, n: nat)
    ensures
        spec_entries(d, q, end, n) matches Ok((s, _)) ==> s.len() == n,
    decreases n,
{
    if n > 0 {
        if let Ok((_, r)) = spec_entry(d, q, end) {
            lemma_entries_len(d, r, end, (n - 1) as nat);
        }
    }
}

/// A decoded cel with pixels holds exactly width * height of them, whether
/// they were stored raw or compressed.
pub proof fn lemma_cel_pixel_count(d: Seq<u8>, pos: int, end: int, unit: nat)
    ensures
        spec_chunk(d, pos, end, unit) matches Ok((ChunkModel::Cel { cel, .. }, _)) ==> (
        cel.data matches CelDataModel::Pixels { width, height, data } ==> data.len() == width
            * height),
{
}

/// A decoded palette chunk holds one entry for each index from `first` to
/// `last` inclusive.
pub proof fn lemma_palette_entry_count(d: Seq<u8>, pos: int, end: int, unit: nat)
    ensures
        spec_chunk(d, pos, end, unit) matches Ok((ChunkModel::Palette { first, last, updates, .. }, _))
            ==> (first <= last ==> updates.len() == last - first + 1),
{
    if pos + 2 <= end && le16(d, pos) == PALETTE_CHUNK && pos + 22 <= end {
        let first = le32(d, pos + 6);
        let last = le32(d, pos + 10);
        lemma_entries_len(d, pos + 22, end, palette_len(first, last));
    }
}

/// A chunk of a type this decoder does not interpret is consumed up to the
/// end of its view, whatever its bytes.
pub proof fn lemma_unsupported_consumes_view(d: Seq<u8>, pos: int, end: int, unit: nat)
    ensures
        spec_chunk(d, pos, end, unit) matches Ok((ChunkModel::Unsupported, q)) ==> q == end,
{
}

} // verus!
