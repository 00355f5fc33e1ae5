use std::io::Write;

use aseprite::{CelData, Chunk, DecodeError, Document, FormattedDocument, FrameLoop};

fn push16(out: &mut Vec<u8>, v: u16) {
    out.extend_from_slice(&v.to_le_bytes());
}

fn push32(out: &mut Vec<u8>, v: u32) {
    out.extend_from_slice(&v.to_le_bytes());
}

fn header(frames: u16, width: u16, height: u16, depth: u16) -> Vec<u8> {
    let mut h = Vec::new();
    push32(&mut h, 0);
    push16(&mut h, 0xA5E0);
    push16(&mut h, frames);
    push16(&mut h, width);
    push16(&mut h, height);
    push16(&mut h, depth);
    push32(&mut h, 1);
    h.extend_from_slice(&[0u8; 10]);
    h.push(7);
    h.extend_from_slice(&[0u8; 3]);
    push16(&mut h, 256);
    h.extend_from_slice(&[0u8; 94]);
    assert_eq!(h.len(), 128);
    h
}

fn string(s: &[u8]) -> Vec<u8> {
    let mut out = Vec::new();
    push16(&mut out, s.len() as u16);
    out.extend_from_slice(s);
    out
}

fn chunk(tag: u16, body: &[u8]) -> Vec<u8> {
    let mut out = Vec::new();
    push32(&mut out, (body.len() + 6) as u32);
    push16(&mut out, tag);
    out.extend_from_slice(body);
    out
}

fn frame_with_counts(duration: u16, legacy: u16, modern: u32, chunks: &[Vec<u8>]) -> Vec<u8> {
    let mut body = Vec::new();
    push16(&mut body, 0xF1FA);
    push16(&mut body, legacy);
    push16(&mut body, duration);
    body.extend_from_slice(&[0u8; 2]);
    push32(&mut body, modern);
    for c in chunks {
        body.extend_from_slice(c);
    }
    let mut out = Vec::new();
    push32(&mut out, (body.len() + 4) as u32);
    out.extend_from_slice(&body);
    out
}

fn frame(duration: u16, chunks: &[Vec<u8>]) -> Vec<u8> {
    frame_with_counts(duration, chunks.len() as u16, chunks.len() as u32, chunks)
}

fn document(depth: u16, frames: &[Vec<u8>]) -> Vec<u8> {
    let mut out = header(frames.len() as u16, 16, 16, depth);
    for f in frames {
        out.extend_from_slice(f);
    }
    out
}

fn layer_chunk(name: &[u8]) -> Vec<u8> {
    let mut b = Vec::new();
    push16(&mut b, 3);
    push16(&mut b, 0);
    push16(&mut b, 0);
    push16(&mut b, 16);
    push16(&mut b, 16);
    push16(&mut b, 0);
    b.push(255);
    b.extend_from_slice(&[0u8; 3]);
    b.extend_from_slice(&string(name));
    chunk(0x2004, &b)
}

fn cel_head(kind: u16) -> Vec<u8> {
    let mut b = Vec::new();
    push16(&mut b, 0);
    push16(&mut b, 1);
    push16(&mut b, 2);
    b.push(200);
    push16(&mut b, kind);
    b.extend_from_slice(&[0u8; 7]);
    b
}

fn raw_cel_chunk(width: u16, height: u16, pixels: &[u8]) -> Vec<u8> {
    let mut b = cel_head(0);
    push16(&mut b, width);
    push16(&mut b, height);
    b.extend_from_slice(pixels);
    chunk(0x2005, &b)
}

fn zlib(bytes: &[u8]) -> Vec<u8> {
    let mut enc = libflate::zlib::Encoder::new(Vec::new()).unwrap();
    enc.write_all(bytes).unwrap();
    enc.finish().into_result().unwrap()
}

fn compressed_cel_chunk(width: u16, height: u16, payload: &[u8]) -> Vec<u8> {
    let mut b = cel_head(2);
    push16(&mut b, width);
    push16(&mut b, height);
    b.extend_from_slice(payload);
    chunk(0x2005, &b)
}

fn tag_record(from: u16, to: u16, mode: u8, color: [u8; 3], name: &[u8]) -> Vec<u8> {
    let mut b = Vec::new();
    push16(&mut b, from);
    push16(&mut b, to);
    b.push(mode);
    b.extend_from_slice(&[0u8; 8]);
    b.extend_from_slice(&color);
    b.push(0);
    b.extend_from_slice(&string(name));
    b
}

fn tags_chunk(records: &[Vec<u8>]) -> Vec<u8> {
    let mut b = Vec::new();
    push16(&mut b, records.len() as u16);
    b.extend_from_slice(&[0u8; 8]);
    for r in records {
        b.extend_from_slice(r);
    }
    chunk(0x2018, &b)
}

fn palette_chunk(first: u32, last: u32, entries: &[Vec<u8>]) -> Vec<u8> {
    let mut b = Vec::new();
    push32(&mut b, 32);
    push32(&mut b, first);
    push32(&mut b, last);
    b.extend_from_slice(&[0u8; 8]);
    for e in entries {
        b.extend_from_slice(e);
    }
    chunk(0x2019, &b)
}

fn palette_entry(color: [u8; 4], name: Option<&[u8]>) -> Vec<u8> {
    let mut b = Vec::new();
    push16(&mut b, if name.is_some() { 1 } else { 0 });
    b.extend_from_slice(&color);
    if let Some(n) = name {
        b.extend_from_slice(&string(n));
    }
    b
}

fn rgba(doc: &Document) -> &FormattedDocument<[u8; 4]> {
    match doc {
        Document::Rgba(f) => f,
        _ => panic!("expected an RGBA document"),
    }
}

fn single_chunks(depth: u16, chunks: &[Vec<u8>]) -> Vec<u8> {
    document(depth, &[frame(100, chunks)])
}

#[test]
fn test_load_document() {
    let entries = vec![palette_entry([1, 2, 3, 255], Some(b"red")), palette_entry([0, 0, 0, 0], None)];
    let mut user = Vec::new();
    push32(&mut user, 3);
    user.extend_from_slice(&string(b"note"));
    user.extend_from_slice(&[9, 8, 7, 6]);
    let first = frame(
        100,
        &[
            palette_chunk(0, 1, &entries),
            layer_chunk(b"Layer 1"),
            raw_cel_chunk(2, 2, &[5u8; 16]),
            tags_chunk(&[tag_record(0, 1, 0, [0, 255, 0], b"walk")]),
            chunk(0x2020, &user),
            chunk(0x2022, &[1, 2, 3]),
        ],
    );
    let second = frame(50, &[compressed_cel_chunk(2, 2, &zlib(&[6u8; 16]))]);
    let bytes = document(32, &[first, second]);
    let doc = Document::new(&bytes).unwrap();
    let f = rgba(&doc);
    assert_eq!(f.frames.len(), 2);
    assert_eq!(f.frames[0].chunks.len(), 6);
    assert_eq!(f.frames[1].chunks.len(), 1);
    assert_eq!(f.frames[1].duration, 50);
}

#[test]
fn rgba_layer_and_raw_cel() {
    let bytes = single_chunks(32, &[layer_chunk(b"Layer 1"), raw_cel_chunk(16, 16, &[0u8; 1024])]);
    let doc = Document::new(&bytes).unwrap();
    let f = rgba(&doc);
    assert_eq!(f.width, 16);
    assert_eq!(f.height, 16);
    assert_eq!(f.transparent_index, 7);
    assert_eq!(f.frames.len(), 1);
    assert_eq!(f.frames[0].duration, 100);
    assert_eq!(f.frames[0].chunks.len(), 2);
    match &f.frames[0].chunks[0] {
        Chunk::Layer { name, flags, width, opacity, is_group, cel, .. } => {
            assert_eq!(name, "Layer 1");
            assert_eq!(*flags, 3);
            assert_eq!(*width, 16);
            assert_eq!(*opacity, 255);
            assert!(!*is_group);
            assert!(cel.is_none());
        },
        _ => panic!("expected a layer"),
    }
    match &f.frames[0].chunks[1] {
        Chunk::Cel { layer_index, cel } => {
            assert_eq!(*layer_index, 0);
            assert_eq!((cel.x, cel.y, cel.opacity), (1, 2, 200));
            match &cel.data {
                CelData::Pixels { width, height, data } => {
                    assert_eq!((*width, *height), (16, 16));
                    assert_eq!(data.len(), 256);
                    assert!(data.iter().all(|p| *p == [0, 0, 0, 0]));
                },
                _ => panic!("expected pixels"),
            }
        },
        _ => panic!("expected a cel"),
    }
}

#[test]
fn frame_tag_ping_pong() {
    let bytes = single_chunks(32, &[tags_chunk(&[tag_record(0, 3, 2, [255, 0, 0], b"run")])]);
    let doc = Document::new(&bytes).unwrap();
    match &rgba(&doc).frames[0].chunks[0] {
        Chunk::FrameTags { tags } => {
            assert_eq!(tags.len(), 1);
            assert_eq!(tags[0].from_frame, 0);
            assert_eq!(tags[0].to_frame, 3);
            assert_eq!(tags[0].loop_mode, FrameLoop::PingPong);
            assert_eq!(tags[0].color, [255, 0, 0]);
            assert_eq!(tags[0].name, "run");
        },
        _ => panic!("expected frame tags"),
    }
}

#[test]
fn link_cel() {
    let mut b = cel_head(1);
    push16(&mut b, 2);
    let bytes = single_chunks(32, &[chunk(0x2005, &b)]);
    let doc = Document::new(&bytes).unwrap();
    match &rgba(&doc).frames[0].chunks[0] {
        Chunk::Cel { cel, .. } => match &cel.data {
            CelData::Link { frame } => assert_eq!(*frame, 2),
            _ => panic!("expected a link"),
        },
        _ => panic!("expected a cel"),
    }
}

#[test]
fn unknown_chunk_is_skipped() {
    let body: Vec<u8> = (0..40u8).collect();
    let bytes = single_chunks(32, &[chunk(0x2022, &body), layer_chunk(b"after")]);
    let doc = Document::new(&bytes).unwrap();
    let chunks = &rgba(&doc).frames[0].chunks;
    assert_eq!(chunks.len(), 2);
    assert!(matches!(chunks[0], Chunk::Unsupported));
    match &chunks[1] {
        Chunk::Layer { name, .. } => assert_eq!(name, "after"),
        _ => panic!("expected a layer"),
    }
}

#[test]
fn short_compressed_cel_is_truncated() {
    let bytes = single_chunks(32, &[compressed_cel_chunk(4, 4, &zlib(&[1u8; 10]))]);
    assert_eq!(Document::new(&bytes).unwrap_err(), DecodeError::Truncated);
}

#[test]
fn compressed_cel_is_inflated() {
    let raw: Vec<u8> = (1..=16u8).collect();
    let bytes = single_chunks(32, &[compressed_cel_chunk(2, 2, &zlib(&raw)), layer_chunk(b"next")]);
    let doc = Document::new(&bytes).unwrap();
    let chunks = &rgba(&doc).frames[0].chunks;
    match &chunks[0] {
        Chunk::Cel { cel, .. } => match &cel.data {
            CelData::Pixels { width, height, data } => {
                assert_eq!((*width, *height), (2, 2));
                assert_eq!(data, &vec![[1, 2, 3, 4], [5, 6, 7, 8], [9, 10, 11, 12], [13, 14, 15, 16]]);
            },
            _ => panic!("expected pixels"),
        },
        _ => panic!("expected a cel"),
    }
    assert!(matches!(chunks[1], Chunk::Layer { .. }));
}

#[test]
fn corrupt_compressed_cel_is_invalid() {
    let bytes = single_chunks(32, &[compressed_cel_chunk(2, 2, &[1, 2, 3, 4, 5, 6])]);
    assert_eq!(Document::new(&bytes).unwrap_err(), DecodeError::InvalidData);
}

#[test]
fn gray_document_reads_two_byte_pixels() {
    let bytes = single_chunks(16, &[raw_cel_chunk(2, 1, &[1, 2, 3, 4])]);
    match Document::new(&bytes).unwrap() {
        Document::Gray(f) => match &f.frames[0].chunks[0] {
            Chunk::Cel { cel, .. } => match &cel.data {
                CelData::Pixels { data, .. } => assert_eq!(data, &vec![[1, 2], [3, 4]]),
                _ => panic!("expected pixels"),
            },
            _ => panic!("expected a cel"),
        },
        _ => panic!("expected a gray document"),
    }
}

#[test]
fn indexed_document_reads_one_byte_pixels() {
    let bytes = single_chunks(8, &[raw_cel_chunk(3, 1, &[4, 5, 6])]);
    match Document::new(&bytes).unwrap() {
        Document::Indexed(f) => {
            assert_eq!(f.transparent_index, 7);
            match &f.frames[0].chunks[0] {
                Chunk::Cel { cel, .. } => match &cel.data {
                    CelData::Pixels { data, .. } => assert_eq!(data, &vec![4, 5, 6]),
                    _ => panic!("expected pixels"),
                },
                _ => panic!("expected a cel"),
            }
        },
        _ => panic!("expected an indexed document"),
    }
}

#[test]
fn unknown_depth_is_invalid() {
    let bytes = single_chunks(24, &[]);
    assert_eq!(Document::new(&bytes).unwrap_err(), DecodeError::InvalidData);
}

#[test]
fn short_header_is_truncated() {
    assert_eq!(Document::new(&[]).unwrap_err(), DecodeError::Truncated);
    let h = header(0, 1, 1, 32);
    assert_eq!(Document::new(&h[..127]).unwrap_err(), DecodeError::Truncated);
    assert!(Document::new(&h).is_ok());
}

#[test]
fn header_fields_are_little_endian() {
    let mut bytes = header(0, 0x0102, 0x0304, 32);
    bytes[28] = 0x55;
    let doc = Document::new(&bytes).unwrap();
    let f = rgba(&doc);
    assert_eq!(f.width, 0x0102);
    assert_eq!(f.height, 0x0304);
    assert_eq!(f.transparent_index, 0x55);
    assert_eq!(f.frames.len(), 0);
}

#[test]
fn frame_count_follows_header() {
    let frames = vec![frame(1, &[]), frame(2, &[]), frame(3, &[])];
    let bytes = document(32, &frames);
    let doc = Document::new(&bytes).unwrap();
    let f = rgba(&doc);
    assert_eq!(f.frames.len(), 3);
    assert_eq!(f.frames[2].duration, 3);
}

#[test]
fn missing_frame_is_truncated() {
    let mut bytes = header(2, 16, 16, 32);
    bytes.extend_from_slice(&frame(1, &[]));
    assert_eq!(Document::new(&bytes).unwrap_err(), DecodeError::Truncated);
}

#[test]
fn legacy_chunk_count_when_modern_is_zero() {
    let chunks = vec![layer_chunk(b"a"), layer_chunk(b"b")];
    let bytes = document(32, &[frame_with_counts(10, 2, 0, &chunks)]);
    let doc = Document::new(&bytes).unwrap();
    assert_eq!(rgba(&doc).frames[0].chunks.len(), 2);
}

#[test]
fn modern_chunk_count_wins_when_nonzero() {
    let chunks = vec![layer_chunk(b"a"), layer_chunk(b"b")];
    let bytes = document(32, &[frame_with_counts(10, 5, 1, &chunks)]);
    let doc = Document::new(&bytes).unwrap();
    assert_eq!(rgba(&doc).frames[0].chunks.len(), 1);
}

#[test]
fn palette_holds_inclusive_range() {
    let entries = vec![
        palette_entry([1, 1, 1, 1], None),
        palette_entry([2, 2, 2, 2], Some(b"mid")),
        palette_entry([3, 3, 3, 3], None),
    ];
    let bytes = single_chunks(32, &[palette_chunk(2, 4, &entries)]);
    let doc = Document::new(&bytes).unwrap();
    match &rgba(&doc).frames[0].chunks[0] {
        Chunk::Palette { new_size, first, last, updates } => {
            assert_eq!((*new_size, *first, *last), (32, 2, 4));
            assert_eq!(updates.len(), 3);
            assert_eq!(updates[0].color, [1, 1, 1, 1]);
            assert!(updates[0].name.is_none());
            assert_eq!(updates[1].name.as_deref(), Some("mid"));
            assert_eq!(updates[2].color, [3, 3, 3, 3]);
        },
        _ => panic!("expected a palette"),
    }
}

#[test]
fn palette_with_first_after_last_is_empty() {
    let bytes = single_chunks(32, &[palette_chunk(5, 4, &[])]);
    let doc = Document::new(&bytes).unwrap();
    match &rgba(&doc).frames[0].chunks[0] {
        Chunk::Palette { updates, .. } => assert!(updates.is_empty()),
        _ => panic!("expected a palette"),
    }
}

#[test]
fn user_data_text_and_color() {
    let mut b = Vec::new();
    push32(&mut b, 3);
    b.extend_from_slice(&string(b"hello"));
    b.extend_from_slice(&[1, 2, 3, 4]);
    let bytes = single_chunks(32, &[chunk(0x2020, &b)]);
    let doc = Document::new(&bytes).unwrap();
    match &rgba(&doc).frames[0].chunks[0] {
        Chunk::UserData { text, color } => {
            assert_eq!(text.as_deref(), Some("hello"));
            assert_eq!(*color, Some([1, 2, 3, 4]));
        },
        _ => panic!("expected user data"),
    }
}

#[test]
fn user_data_color_only_and_empty() {
    let mut b = Vec::new();
    push32(&mut b, 2);
    b.extend_from_slice(&[9, 9, 9, 9]);
    let mut e = Vec::new();
    push32(&mut e, 0);
    let bytes = single_chunks(32, &[chunk(0x2020, &b), chunk(0x2020, &e)]);
    let doc = Document::new(&bytes).unwrap();
    let chunks = &rgba(&doc).frames[0].chunks;
    match &chunks[0] {
        Chunk::UserData { text, color } => {
            assert!(text.is_none());
            assert_eq!(*color, Some([9, 9, 9, 9]));
        },
        _ => panic!("expected user data"),
    }
    match &chunks[1] {
        Chunk::UserData { text, color } => {
            assert!(text.is_none());
            assert!(color.is_none());
        },
        _ => panic!("expected user data"),
    }
}

#[test]
fn bad_loop_mode_is_invalid() {
    let bytes = single_chunks(32, &[tags_chunk(&[tag_record(0, 1, 3, [0, 0, 0], b"x")])]);
    assert_eq!(Document::new(&bytes).unwrap_err(), DecodeError::InvalidData);
}

#[test]
fn loop_modes_forward_and_reverse() {
    let records = vec![tag_record(0, 1, 0, [0, 0, 0], b"f"), tag_record(2, 3, 1, [0, 0, 0], b"r")];
    let bytes = single_chunks(32, &[tags_chunk(&records)]);
    let doc = Document::new(&bytes).unwrap();
    match &rgba(&doc).frames[0].chunks[0] {
        Chunk::FrameTags { tags } => {
            assert_eq!(tags[0].loop_mode, FrameLoop::Forward);
            assert_eq!(tags[1].loop_mode, FrameLoop::Reverse);
            assert_eq!(tags[1].from_frame, 2);
        },
        _ => panic!("expected frame tags"),
    }
}

#[test]
fn bad_cel_type_is_invalid() {
    let mut b = cel_head(3);
    push16(&mut b, 0);
    let bytes = single_chunks(32, &[chunk(0x2005, &b)]);
    assert_eq!(Document::new(&bytes).unwrap_err(), DecodeError::InvalidData);
}

#[test]
fn bad_utf8_name_is_invalid() {
    let bytes = single_chunks(32, &[layer_chunk(&[0xff, 0xfe])]);
    assert_eq!(Document::new(&bytes).unwrap_err(), DecodeError::InvalidData);
}

#[test]
fn short_raw_cel_is_truncated() {
    let bytes = single_chunks(32, &[raw_cel_chunk(2, 2, &[0u8; 15])]);
    assert_eq!(Document::new(&bytes).unwrap_err(), DecodeError::Truncated);
}

#[test]
fn chunk_length_below_prefix_is_invalid() {
    let mut bad = Vec::new();
    push32(&mut bad, 3);
    push16(&mut bad, 0x2004);
    let bytes = single_chunks(32, &[bad]);
    assert_eq!(Document::new(&bytes).unwrap_err(), DecodeError::InvalidData);
}

#[test]
fn decoding_twice_gives_equal_documents() {
    let bytes = single_chunks(32, &[layer_chunk(b"Layer 1"), raw_cel_chunk(2, 2, &[3u8; 16])]);
    let a = Document::new(&bytes).unwrap();
    let b = Document::new(&bytes).unwrap();
    assert_eq!(format!("{:?}", a), format!("{:?}", b));
}
