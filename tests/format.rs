use biliup::flv::{encode_tag_header, parse_file_header, parse_tag_header, ParseError, TagHeader, TagType};
use biliup::frame::FrameBuffer;
use biliup::segment::{Segment, Segmentable};
use biliup::tag::{
    parse_flv_tag, parse_tag_data, AACPacketType, AVCPacketType, CodecId, FrameType, SoundFormat, SoundRate,
    SoundSize, SoundType, TagDataHeader,
};

#[test]
fn tag_header_decodes_fields() {
    let b = [9u8, 0x00, 0x01, 0x02, 0x10, 0x20, 0x30, 0x7f, 0, 0, 0];
    let h = parse_tag_header(&b).unwrap();
    assert_eq!(h.tag_type, TagType::Video);
    assert_eq!(h.data_size, 0x102);
    assert_eq!(h.timestamp, 0x7f10_2030);
    assert_eq!(h.stream_id, 0);
}

#[test]
fn tag_header_encodes_extension_byte() {
    let h = TagHeader { tag_type: TagType::Script, data_size: 0xabcdef, timestamp: 0x1234_5678, stream_id: 0 };
    let mut out = vec![0xee];
    encode_tag_header(&h, &mut out);
    assert_eq!(out, vec![0xee, 18, 0xab, 0xcd, 0xef, 0x34, 0x56, 0x78, 0x12, 0, 0, 0]);
    assert_eq!(parse_tag_header(&out[1..]).unwrap(), h);
}

#[test]
fn tag_header_errors() {
    assert_eq!(parse_tag_header(&[8, 0, 0]), Err(ParseError::Incomplete(8)));
    assert_eq!(parse_tag_header(&[]), Err(ParseError::Incomplete(11)));
    assert_eq!(parse_tag_header(&[7, 0, 0, 0, 0, 0, 0, 0, 0, 0, 0]), Err(ParseError::Malformed));
}

#[test]
fn file_header_dispatch() {
    let flv = [0x46, 0x4c, 0x56, 1, 5, 0, 0, 0, 9];
    assert_eq!(parse_file_header(&flv), Ok(5));
    assert_eq!(parse_file_header(b"#EXTM3U\n#E"), Err(ParseError::Malformed));
    assert_eq!(parse_file_header(&flv[..4]), Err(ParseError::Incomplete(5)));
}

#[test]
fn audio_payload_fields() {
    match parse_tag_data(TagType::Audio, 2, &[0xaf, 0x00]).unwrap() {
        TagDataHeader::Audio { sound_format, sound_rate, sound_size, sound_type, packet_type } => {
            assert_eq!(sound_format, SoundFormat::Aac);
            assert_eq!(sound_rate, SoundRate::Rate44100);
            assert_eq!(sound_size, SoundSize::Bits16);
            assert_eq!(sound_type, SoundType::Stereo);
            assert_eq!(packet_type, Some(AACPacketType::SequenceHeader));
        }
        _ => panic!("not audio"),
    }
    match parse_tag_data(TagType::Audio, 1, &[0x22]).unwrap() {
        TagDataHeader::Audio { sound_format, sound_rate, sound_size, sound_type, packet_type } => {
            assert_eq!(sound_format, SoundFormat::Mp3);
            assert_eq!(sound_rate, SoundRate::Rate5500);
            assert_eq!(sound_size, SoundSize::Bits16);
            assert_eq!(sound_type, SoundType::Mono);
            assert_eq!(packet_type, None);
        }
        _ => panic!("not audio"),
    }
    assert_eq!(parse_tag_data(TagType::Audio, 1, &[0x9f]).err(), Some(ParseError::Malformed));
    assert_eq!(parse_tag_data(TagType::Audio, 2, &[0xaf, 0x02]).err(), Some(ParseError::Malformed));
    assert_eq!(parse_tag_data(TagType::Audio, 0, &[]).err(), Some(ParseError::Malformed));
}

#[test]
fn video_payload_fields() {
    match parse_tag_data(TagType::Video, 5, &[0x27, 0x01, 0xff, 0xff, 0xfe]).unwrap() {
        TagDataHeader::Video { frame_type, codec_id, packet_type, composition_time } => {
            assert_eq!(frame_type, FrameType::Inter);
            assert_eq!(codec_id, CodecId::H264);
            assert_eq!(packet_type, Some(AVCPacketType::Nalu));
            assert_eq!(composition_time, Some(-2));
        }
        _ => panic!("not video"),
    }
    match parse_tag_data(TagType::Video, 1, &[0x12]).unwrap() {
        TagDataHeader::Video { frame_type, codec_id, packet_type, composition_time } => {
            assert_eq!(frame_type, FrameType::Key);
            assert_eq!(codec_id, CodecId::SorensonH263);
            assert_eq!(packet_type, None);
            assert_eq!(composition_time, None);
        }
        _ => panic!("not video"),
    }
    match parse_tag_data(TagType::Video, 5, &[0x17, 0x00, 0x00, 0x01, 0x00]).unwrap() {
        TagDataHeader::Video { composition_time, packet_type, .. } => {
            assert_eq!(composition_time, Some(256));
            assert_eq!(packet_type, Some(AVCPacketType::SequenceHeader));
        }
        _ => panic!("not video"),
    }
    assert_eq!(parse_tag_data(TagType::Video, 4, &[0x17, 0x01, 0, 0]).err(), Some(ParseError::Malformed));
    assert_eq!(parse_tag_data(TagType::Video, 5, &[0x17, 0x01]).err(), Some(ParseError::Incomplete(3)));
}

#[test]
fn script_payload_name() {
    let mut b = vec![0x02, 0x00, 0x0a];
    b.extend_from_slice(b"onMetaData");
    b.extend_from_slice(&[0x08, 0, 0, 0, 0, 0, 0, 9]);
    let h = TagHeader { tag_type: TagType::Script, data_size: b.len() as u32, timestamp: 0, stream_id: 0 };
    let t = parse_flv_tag(h, &b).unwrap();
    assert_eq!(t.header, h);
    match t.data {
        TagDataHeader::Script(s) => assert_eq!(s.name, b"onMetaData".to_vec()),
        _ => panic!("not script"),
    }
    assert_eq!(parse_tag_data(TagType::Script, 4, &[0x03, 0, 0, 0]).err(), Some(ParseError::Malformed));
    assert_eq!(parse_tag_data(TagType::Script, 5, &[0x02, 0, 9, 0, 0]).err(), Some(ParseError::Malformed));
}

#[test]
fn segmentable_time_budget() {
    let mut s = Segmentable::new(Some(10_000), None);
    s.increase_time(5_000);
    assert!(!s.needed());
    s.increase_time(6_000);
    assert!(s.needed());
    s.reset();
    assert!(!s.needed());
}

#[test]
fn segmentable_size_budget_is_strict() {
    let mut s = Segmentable::new(None, Some(100));
    s.increase_size(100);
    assert!(!s.needed());
    s.increase_size(1);
    assert!(s.needed());
    s.set_size_position(3);
    assert!(!s.needed());
    s.increase_size(u64::MAX);
    assert_eq!(s.current_size, u64::MAX);
}

#[test]
fn segmentable_time_from_start_position() {
    let mut s = Segmentable::new(Some(1_000), None);
    s.set_start_time(4_000);
    s.set_time_position(4_999);
    assert!(!s.needed());
    s.set_time_position(5_000);
    assert!(s.needed());
    s.set_time_position(10);
    assert!(!s.needed());
}

#[test]
fn segmentable_never() {
    let mut s = Segmentable::default();
    s.increase_size(u64::MAX);
    s.increase_time(u64::MAX);
    assert!(!s.needed());
    let t = Segmentable::from_segment(&Segment::Time(7));
    assert_eq!(t.expected_time, Some(7));
    assert_eq!(t.expected_size, None);
    let z = Segmentable::from_segment(&Segment::Size(9));
    assert_eq!(z.expected_size, Some(9));
    let n = Segmentable::from_segment(&Segment::Never);
    assert_eq!((n.expected_time, n.expected_size), (None, None));
}

#[test]
fn frame_buffer_frames() {
    let mut f = FrameBuffer::new();
    assert_eq!(f.take_frame(1), None);
    f.put_slice(b"hello");
    assert_eq!(f.take_frame(6), None);
    assert_eq!(f.len(), 5);
    f.put_slice(b" world");
    assert_eq!(f.take_frame(5), Some(b"hello".to_vec()));
    assert_eq!(f.take_frame(0), Some(Vec::new()));
    assert_eq!(f.take_rest(), b" world".to_vec());
    assert_eq!(f.len(), 0);
    assert_eq!(f.take_rest(), Vec::<u8>::new());
}
