use biliup::flv::{file_prefix, TagHeader, TagType};
use biliup::framing::{encode_tag, read_tags};
use biliup::remux::{Emit, HeaderKind, RawTag, RemuxError, Remuxer};
use biliup::segment::Segmentable;
use biliup::flv::ParseError;

fn tag(tag_type: TagType, timestamp: u32, body: Vec<u8>) -> RawTag {
    let size = body.len() as u32;
    RawTag {
        header: TagHeader { tag_type, data_size: size, timestamp, stream_id: 0 },
        body,
        trailer: (11 + size).to_be_bytes().to_vec(),
    }
}

fn padded(mut head: Vec<u8>, len: usize, fill: u8) -> Vec<u8> {
    while head.len() < len {
        head.push(fill);
    }
    head
}

fn script(len: usize) -> RawTag {
    let mut b = vec![0x02, 0x00, 0x0a];
    b.extend_from_slice(b"onMetaData");
    tag(TagType::Script, 0, padded(b, len, 0x05))
}

fn avc_seq(len: usize, fill: u8) -> RawTag {
    tag(TagType::Video, 0, padded(vec![0x17, 0x00, 0, 0, 0], len, fill))
}

fn aac_seq(len: usize) -> RawTag {
    tag(TagType::Audio, 0, padded(vec![0xaf, 0x00], len, 0x12))
}

fn key(ts: u32, fill: u8) -> RawTag {
    tag(TagType::Video, ts, padded(vec![0x17, 0x01, 0, 0, 0], 30, fill))
}

fn inter(ts: u32, fill: u8) -> RawTag {
    tag(TagType::Video, ts, padded(vec![0x27, 0x01, 0, 0, 0], 12, fill))
}

fn audio(ts: u32) -> RawTag {
    tag(TagType::Audio, ts, vec![0xaf, 0x01, 0x21, 0x22])
}

fn same(a: &RawTag, b: &RawTag) -> bool {
    a.header == b.header && a.body == b.body && a.trailer == b.trailer
}

/// Runs tags through a re-muxer and collects the files it asks for; the
/// first file is open from the start.
fn run(tags: &[RawTag], segment: Segmentable) -> Result<Vec<Vec<RawTag>>, RemuxError> {
    let mut r = Remuxer::new(segment, false);
    let mut files: Vec<Vec<RawTag>> = vec![Vec::new()];
    let mut apply = |es: Vec<Emit>, files: &mut Vec<Vec<RawTag>>| {
        for e in es {
            match e {
                Emit::NewFile => files.push(Vec::new()),
                Emit::Write(t) => files.last_mut().unwrap().push(t),
            }
        }
    };
    for t in tags {
        let copy = RawTag { header: t.header, body: t.body.clone(), trailer: t.trailer.clone() };
        let es = r.push_tag(copy)?;
        apply(es, &mut files);
    }
    apply(r.finish(), &mut files);
    Ok(files)
}

fn file_bytes(tags: &[RawTag]) -> Vec<u8> {
    let mut out = file_prefix();
    for t in tags {
        encode_tag(t, &mut out);
    }
    out
}

#[test]
fn end_to_end_three_files() {
    let m = script(50);
    let v = avc_seq(20, 0x33);
    let a = aac_seq(10);
    let mut input = vec![script(50), avc_seq(20, 0x33), aac_seq(10)];
    let mut groups = Vec::new();
    for g in 0..3u32 {
        let group = vec![key(40 * g + 40, g as u8), inter(40 * g + 50, g as u8), inter(40 * g + 60, g as u8)];
        for t in &group {
            input.push(RawTag { header: t.header, body: t.body.clone(), trailer: t.trailer.clone() });
        }
        groups.push(group);
    }
    let files = run(&input, Segmentable::new(None, Some(1))).unwrap();
    assert_eq!(files.len(), 3);
    assert_eq!(files[0].len(), 6);
    assert!(same(&files[0][0], &m) && same(&files[0][1], &v) && same(&files[0][2], &a));
    for k in 0..3 {
        assert!(same(&files[0][3 + k], &groups[0][k]));
    }
    for f in 1..3 {
        assert_eq!(files[f].len(), 6);
        assert!(same(&files[f][0], &m) && same(&files[f][1], &v) && same(&files[f][2], &a));
        for k in 0..3 {
            assert!(same(&files[f][3 + k], &groups[f][k]));
        }
    }
}

#[test]
fn rotation_replays_headers_seen_once() {
    let mut input = vec![script(20), avc_seq(9, 0x44), aac_seq(4)];
    for g in 0..5u32 {
        input.push(key(1000 * g, 1));
        input.push(audio(1000 * g + 10));
        input.push(inter(1000 * g + 40, 2));
    }
    // Time budget of 2 s: a new file every third group boundary or so.
    let files = run(&input, Segmentable::new(Some(2000), None)).unwrap();
    assert!(files.len() >= 2);
    for f in &files[1..] {
        assert!(same(&f[0], &input[0]));
        assert!(same(&f[1], &input[1]));
        assert!(same(&f[2], &input[2]));
        assert_eq!(f[3].body[0], 0x17);
        assert_eq!(f[3].body[1], 0x01);
    }
}

#[test]
fn no_split_inside_group() {
    let mut input = vec![script(16), avc_seq(8, 0), aac_seq(4)];
    for g in 0..6u32 {
        input.push(key(100 * g, 0));
        for k in 0..4u32 {
            input.push(inter(100 * g + 10 * k + 10, 0));
        }
    }
    let files = run(&input, Segmentable::new(None, Some(100))).unwrap();
    assert!(files.len() > 2);
    for f in &files[1..] {
        assert!(f.len() > 3);
        assert_eq!(f[3].header.tag_type, TagType::Video);
        assert_eq!(f[3].body[0] >> 4, 1);
        assert_ne!(f[3].body[1], 0);
    }
}

#[test]
fn missing_avc_header_is_refused() {
    let input = vec![script(16), aac_seq(4), key(0, 0), inter(10, 0), key(20, 0)];
    let r = run(&input, Segmentable::new(None, Some(1)));
    assert_eq!(r.err(), Some(RemuxError::MissingSequenceHeader(HeaderKind::AvcSequenceHeader)));
}

#[test]
fn missing_script_is_reported_first() {
    let input = vec![key(0, 0), inter(10, 0), key(20, 0)];
    let r = run(&input, Segmentable::new(None, Some(1)));
    assert_eq!(r.err(), Some(RemuxError::MissingSequenceHeader(HeaderKind::OnMetaData)));
}

#[test]
fn missing_header_without_rotation_is_fine() {
    let input = vec![key(0, 0), inter(10, 0), key(20, 0), inter(30, 0)];
    let files = run(&input, Segmentable::new(None, None)).unwrap();
    assert_eq!(files.len(), 1);
    assert_eq!(files[0].len(), 4);
}

#[test]
fn trailers_hold_tag_sizes() {
    let mut input = vec![script(33), avc_seq(21, 7), aac_seq(6)];
    for g in 0..4u32 {
        input.push(key(50 * g, 3));
        input.push(audio(50 * g + 5));
    }
    let files = run(&input, Segmentable::new(None, Some(10))).unwrap();
    for f in &files {
        for t in f {
            assert_eq!(t.trailer, (11 + t.header.data_size).to_be_bytes().to_vec());
        }
    }
}

#[test]
fn round_trip_through_file_bytes() {
    let mut input = vec![script(40), avc_seq(12, 1), aac_seq(5)];
    for g in 0..3u32 {
        input.push(key(0x0100_0000 + 30 * g, 9));
        input.push(inter(0x0100_0000 + 30 * g + 15, 8));
    }
    let files = run(&input, Segmentable::new(None, Some(1))).unwrap();
    let mut own = Vec::new();
    for (i, f) in files.iter().enumerate() {
        let bytes = file_bytes(f);
        assert_eq!(&bytes[..13], &[0x46, 0x4c, 0x56, 1, 5, 0, 0, 0, 9, 0, 0, 0, 0]);
        let back = read_tags(&bytes[13..]).unwrap();
        assert_eq!(back.len(), f.len());
        for (x, y) in back.iter().zip(f.iter()) {
            assert!(same(x, y));
        }
        let skip = if i == 0 { 0 } else { 3 };
        for t in &back[skip..] {
            own.push(RawTag { header: t.header, body: t.body.clone(), trailer: t.trailer.clone() });
        }
    }
    assert_eq!(own.len(), input.len());
    for (x, y) in own.iter().zip(input.iter()) {
        assert!(same(x, y));
    }
}

#[test]
fn trailing_group_is_flushed_at_end() {
    let input = vec![script(16), avc_seq(8, 0), aac_seq(4), key(0, 0), inter(10, 0), inter(20, 0)];
    let files = run(&input, Segmentable::new(None, None)).unwrap();
    assert_eq!(files.len(), 1);
    assert_eq!(files[0].len(), 6);
}

#[test]
fn identical_header_again_keeps_file() {
    let input = vec![
        script(16), avc_seq(8, 0), aac_seq(4), key(0, 0), inter(10, 0),
        avc_seq(8, 0), key(20, 0), inter(30, 0),
    ];
    let files = run(&input, Segmentable::new(None, None)).unwrap();
    assert_eq!(files.len(), 1);
    assert_eq!(files[0].len(), 8);
}

#[test]
fn changed_header_forces_new_file() {
    let input = vec![
        script(16), avc_seq(8, 0), aac_seq(4), key(0, 0), inter(10, 0),
        avc_seq(8, 0x55), inter(15, 0), key(20, 0), inter(30, 0),
    ];
    let files = run(&input, Segmentable::new(None, None)).unwrap();
    assert_eq!(files.len(), 2);
    // The new configuration never reaches the first file.
    assert_eq!(files[0].len(), 6);
    for t in &files[0] {
        assert!(!same(t, &input[5]));
    }
    assert!(same(&files[0][5], &input[6]));
    assert!(same(&files[1][0], &input[0]));
    assert!(same(&files[1][1], &input[5]));
    assert!(same(&files[1][2], &input[2]));
    assert!(same(&files[1][3], &input[7]));
    assert_eq!(files[1].len(), 5);
}

#[test]
fn changed_audio_header_and_repeats_wait_for_new_file() {
    let new_aac = tag(TagType::Audio, 0, vec![0xaf, 0x00, 0x13, 0x90]);
    let input = vec![
        script(16), avc_seq(8, 0), aac_seq(4), key(0, 0),
        RawTag { header: new_aac.header, body: new_aac.body.clone(), trailer: new_aac.trailer.clone() },
        RawTag { header: new_aac.header, body: new_aac.body.clone(), trailer: new_aac.trailer.clone() },
        audio(5), key(20, 0),
    ];
    let files = run(&input, Segmentable::new(None, None)).unwrap();
    assert_eq!(files.len(), 2);
    assert_eq!(files[0].len(), 5);
    assert!(same(&files[0][4], &input[6]));
    assert!(same(&files[1][2], &new_aac));
    assert_eq!(files[1].len(), 4);
}

#[test]
fn change_before_first_keyframe() {
    let input = vec![script(16), avc_seq(8, 0), aac_seq(4), avc_seq(8, 0x77), key(0, 0), inter(10, 0)];
    let files = run(&input, Segmentable::new(None, None)).unwrap();
    assert_eq!(files.len(), 2);
    assert_eq!(files[0].len(), 3);
    assert!(same(&files[0][1], &input[1]));
    assert!(same(&files[1][1], &input[3]));
    assert!(same(&files[1][3], &input[4]));
}

#[test]
fn other_script_tags_are_not_metadata() {
    let mut b = vec![0x02, 0x00, 0x0a];
    b.extend_from_slice(b"onCuePoint");
    let cue = tag(TagType::Script, 5, padded(b, 20, 0x05));
    let input = vec![
        script(16), avc_seq(8, 0), aac_seq(4), key(0, 0),
        RawTag { header: cue.header, body: cue.body.clone(), trailer: cue.trailer.clone() },
        key(20, 0),
    ];
    let mut r = Remuxer::new(Segmentable::new(None, None), false);
    for t in input {
        r.push_tag(t).unwrap();
    }
    assert!(!r.create_new);
    assert!(same(&r.snapshot_all().0.unwrap(), &script(16)));
    let files = run(
        &[script(16), avc_seq(8, 0), aac_seq(4), key(0, 0), cue, key(20, 0)],
        Segmentable::new(None, None),
    )
    .unwrap();
    assert_eq!(files.len(), 1);
    assert_eq!(files[0].len(), 6);
}

#[test]
fn broken_tags_are_refused() {
    let mut r = Remuxer::new(Segmentable::new(None, None), false);
    let short = RawTag {
        header: TagHeader { tag_type: TagType::Video, data_size: 10, timestamp: 0, stream_id: 0 },
        body: vec![0x17, 0x01, 0, 0],
        trailer: vec![0, 0, 0, 21],
    };
    assert_eq!(r.push_tag(short).err(), Some(RemuxError::Parse(ParseError::Incomplete(6))));
    let mut bad = tag(TagType::Video, 0, vec![0x07, 0x01, 0, 0, 0]);
    assert_eq!(r.push_tag(bad).err(), Some(RemuxError::Parse(ParseError::Malformed)));
    bad = tag(TagType::Audio, 0, vec![0xaf]);
    assert_eq!(r.push_tag(bad).err(), Some(RemuxError::Parse(ParseError::Malformed)));
    let mut cut = tag(TagType::Audio, 0, vec![0x2f, 0x01]);
    cut.trailer.truncate(1);
    assert_eq!(r.push_tag(cut).err(), Some(RemuxError::Parse(ParseError::Incomplete(3))));
    let mut long = tag(TagType::Audio, 0, vec![0x2f, 0x01]);
    long.trailer.push(0);
    assert_eq!(r.push_tag(long).err(), Some(RemuxError::Parse(ParseError::Malformed)));
}

#[test]
fn backwards_timestamp_policy() {
    let mut lax = Remuxer::new(Segmentable::new(None, None), false);
    assert!(lax.push_tag(audio(100)).is_ok());
    assert!(lax.push_tag(audio(90)).is_ok());
    let mut strict = Remuxer::new(Segmentable::new(None, None), true);
    assert!(strict.push_tag(audio(100)).is_ok());
    assert_eq!(
        strict.push_tag(audio(90)).err(),
        Some(RemuxError::NonMonotonicTimestamp { previous: 100, current: 90 })
    );
    assert!(strict.push_tag(audio(100)).is_ok());
    assert_eq!(strict.finish().len(), 2);
}

#[test]
fn size_accounting_per_tag() {
    let mut r = Remuxer::new(Segmentable::new(None, None), false);
    r.push_tag(audio(10)).unwrap();
    r.push_tag(audio(250)).unwrap();
    r.push_tag(audio(200)).unwrap();
    assert_eq!(r.segment.current_size, 3 * (15 + 4));
    assert_eq!(r.segment.current_time, 240);
}

#[test]
fn missing_aac_header_is_refused() {
    let input = vec![script(16), avc_seq(8, 0), key(0, 0), inter(10, 0), key(20, 0)];
    let r = run(&input, Segmentable::new(None, Some(1)));
    assert_eq!(r.err(), Some(RemuxError::MissingSequenceHeader(HeaderKind::AacSequenceHeader)));
}

#[test]
fn empty_stream_leaves_first_file_empty() {
    let files = run(&[], Segmentable::new(None, Some(1))).unwrap();
    assert_eq!(files.len(), 1);
    assert!(files[0].is_empty());
    assert_eq!(read_tags(&[]).map(|v| v.len()), Some(0));
    assert!(read_tags(&[9, 0, 0]).is_none());
}

#[test]
fn snapshot_of_cached_headers() {
    let mut r = Remuxer::new(Segmentable::new(None, None), false);
    let (m, v, a) = r.snapshot_all();
    assert!(m.is_none() && v.is_none() && a.is_none());
    r.push_tag(script(16)).unwrap();
    r.push_tag(aac_seq(4)).unwrap();
    let (m, v, a) = r.snapshot_all();
    assert!(same(&m.unwrap(), &script(16)));
    assert!(v.is_none());
    assert!(same(&a.unwrap(), &aac_seq(4)));
    r.push_tag(aac_seq(4)).unwrap();
    assert!(!r.create_new);
    r.push_tag(tag(TagType::Audio, 0, vec![0xaf, 0x00, 0x13, 0x90])).unwrap();
    assert!(r.create_new);
    assert_eq!(r.snapshot_all().2.unwrap().body, vec![0xaf, 0x00, 0x13, 0x90]);
}
