//! The leading fields of tag payloads: enough to tell codec sequence
//! headers and keyframes apart. The media data itself stays opaque.
use vstd::prelude::*;
use crate::amf::{entry_views, read_script_entries, read_value_end, script_entries, value_end, AmfEntry, MAX_DEPTH};
use crate::flv::{ParseError, TagHeader, TagType};
use crate::framing::copy_range;

verus! {

#[derive(PartialEq, Eq, Structural, Clone, Copy, Debug)]
pub enum SoundFormat {
    PcmPlatformEndian,
    Adpcm,
    Mp3,
    PcmLittleEndian,
    Nellymoser16kMono,
    Nellymoser8kMono,
    Nellymoser,
    G711ALaw,
    G711MuLaw,
    Aac,
    Speex,
    Mp3At8k,
    DeviceSpecific,
}

#[derive(PartialEq, Eq, Structural, Clone, Copy, Debug)]
pub enum SoundRate {
    Rate5500,
    Rate11025,
    Rate22050,
    Rate44100,
}

#[derive(PartialEq, Eq, Structural, Clone, Copy, Debug)]
pub enum SoundSize {
    Bits8,
    Bits16,
}

#[derive(PartialEq, Eq, Structural, Clone, Copy, Debug)]
pub enum SoundType {
    Mono,
    Stereo,
}

#[derive(PartialEq, Eq, Structural, Clone, Copy, Debug)]
pub enum AACPacketType {
    SequenceHeader,
    Raw,
}

#[derive(PartialEq, Eq, Structural, Clone, Copy, Debug)]
pub enum FrameType {
    Key,
    Inter,
    DisposableInter,
    Generated,
    Command,
}

#[derive(PartialEq, Eq, Structural, Clone, Copy, Debug)]
pub enum CodecId {
    Jpeg,
    SorensonH263,
    Screen,
    Vp6,
    Vp6Alpha,
    Screen2,
    H264,
}

#[derive(PartialEq, Eq, Structural, Clone, Copy, Debug)]
pub enum AVCPacketType {
    SequenceHeader,
    Nalu,
    EndOfSequence,
}

pub open spec fn sound_format_of(c: u8) -> Option<SoundFormat> {
    if c == 0 { Some(SoundFormat::PcmPlatformEndian) }
    else if c == 1 { Some(SoundFormat::Adpcm) }
    else if c == 2 { Some(SoundFormat::Mp3) }
    else if c == 3 { Some(SoundFormat::PcmLittleEndian) }
    else if c == 4 { Some(SoundFormat::Nellymoser16kMono) }
    else if c == 5 { Some(SoundFormat::Nellymoser8kMono) }
    else if c == 6 { Some(SoundFormat::Nellymoser) }
    else if c == 7 { Some(SoundFormat::G711ALaw) }
    else if c == 8 { Some(SoundFormat::G711MuLaw) }
    else if c == 10 { Some(SoundFormat::Aac) }
    else if c == 11 { Some(SoundFormat::Speex) }
    else if c == 14 { Some(SoundFormat::Mp3At8k) }
    else if c == 15 { Some(SoundFormat::DeviceSpecific) }
    else { None }
}

pub open spec fn sound_rate_of(c: u8) -> SoundRate {
    if c == 0 { SoundRate::Rate5500 }
    else if c == 1 { SoundRate::Rate11025 }
    else if c == 2 { SoundRate::Rate22050 }
    else { SoundRate::Rate44100 }
}

pub open spec fn aac_packet_type_of(c: u8) -> Option<AACPacketType> {
    if c == 0 { Some(AACPacketType::SequenceHeader) }
    else if c == 1 { Some(AACPacketType::Raw) }
    else { None }
}

pub open spec fn frame_type_of(c: u8) -> Option<FrameType> {
    if c == 1 { Some(FrameType::Key) }
    else if c == 2 { Some(FrameType::Inter) }
    else if c == 3 { Some(FrameType::DisposableInter) }
    else if c == 4 { Some(FrameType::Generated) }
    else if c == 5 { Some(FrameType::Command) }
    else { None }
}

pub open spec fn codec_id_of(c: u8) -> Option<CodecId> {
    if c == 1 { Some(CodecId::Jpeg) }
    else if c == 2 { Some(CodecId::SorensonH263) }
    else if c == 3 { Some(CodecId::Screen) }
    else if c == 4 { Some(CodecId::Vp6) }
    else if c == 5 { Some(CodecId::Vp6Alpha) }
    else if c == 6 { Some(CodecId::Screen2) }
    else if c == 7 { Some(CodecId::H264) }
    else { None }
}

pub open spec fn avc_packet_type_of(c: u8) -> Option<AVCPacketType> {
    if c == 0 { Some(AVCPacketType::SequenceHeader) }
    else if c == 1 { Some(AVCPacketType::Nalu) }
    else if c == 2 { Some(AVCPacketType::EndOfSequence) }
    else { None }
}

/// A signed 24-bit big-endian value.
pub open spec fn si24(a: u8, b: u8, c: u8) -> int {
    let v = a as int * 65536 + b as int * 256 + c as int;
    if v >= 0x80_0000 { v - 0x100_0000 } else { v }
}

/// A script tag's first AMF0 value, a string naming it ("onMetaData"), and
/// the key/value entries of the value that follows.
pub struct ScriptData {
    pub name: Vec<u8>,
    pub entries: Vec<AmfEntry>,
}

/// What the leading bytes of a payload say.
#[allow(inconsistent_fields)]
pub enum TagDataHeader {
    Audio {
        sound_format: SoundFormat,
        sound_rate: SoundRate,
        sound_size: SoundSize,
        sound_type: SoundType,
        packet_type: Option<AACPacketType>,
    },
    Video {
        frame_type: FrameType,
        codec_id: CodecId,
        packet_type: Option<AVCPacketType>,
        composition_time: Option<i32>,
    },
    Script(ScriptData),
}

/// Why a payload of `size` declared bytes, of which `b` arrived, cannot be
/// read; `None` where it can.
pub open spec fn payload_error(t: TagType, size: nat, b: Seq<u8>) -> Option<ParseError> {
    if b.len() < size {
        Some(ParseError::Incomplete((size - b.len()) as usize))
    } else {
        match t {
            TagType::Audio => {
                if size < 1 || sound_format_of(b[0] / 16) is None {
                    Some(ParseError::Malformed)
                } else if sound_format_of(b[0] / 16) == Some(SoundFormat::Aac)
                    && (size < 2 || aac_packet_type_of(b[1]) is None) {
                    Some(ParseError::Malformed)
                } else {
                    None
                }
            },
            TagType::Video => {
                if size < 1 || frame_type_of(b[0] / 16) is None || codec_id_of(b[0] % 16) is None {
                    Some(ParseError::Malformed)
                } else if codec_id_of(b[0] % 16) == Some(CodecId::H264)
                    && (size < 5 || avc_packet_type_of(b[1]) is None) {
                    Some(ParseError::Malformed)
                } else {
                    None
                }
            },
            TagType::Script => {
                if size < 3 || b[0] != 2 || 3 + b[1] as int * 256 + b[2] as int > size {
                    Some(ParseError::Malformed)
                } else if (3 + b[1] as int * 256 + b[2] as int) < size
                    && value_end(b.take(size as int), 3 + b[1] as int * 256 + b[2] as int, MAX_DEPTH as nat) is None {
                    Some(ParseError::Malformed)
                } else {
                    None
                }
            },
        }
    }
}

/// `d` is what the readable payload `b` of type `t` says.
pub open spec fn payload_matches(t: TagType, size: nat, b: Seq<u8>, d: TagDataHeader) -> bool {
    match d {
        TagDataHeader::Audio { sound_format, sound_rate, sound_size, sound_type, packet_type } => {
            &&& t == TagType::Audio
            &&& Some(sound_format) == sound_format_of(b[0] / 16)
            &&& sound_rate == sound_rate_of((b[0] / 4) % 4)
            &&& sound_size == (if (b[0] / 2) % 2 == 0 { SoundSize::Bits8 } else { SoundSize::Bits16 })
            &&& sound_type == (if b[0] % 2 == 0 { SoundType::Mono } else { SoundType::Stereo })
            &&& packet_type == (if sound_format == SoundFormat::Aac { aac_packet_type_of(b[1]) } else { None })
        },
        TagDataHeader::Video { frame_type, codec_id, packet_type, composition_time } => {
            &&& t == TagType::Video
            &&& Some(frame_type) == frame_type_of(b[0] / 16)
            &&& Some(codec_id) == codec_id_of(b[0] % 16)
            &&& packet_type == (if codec_id == CodecId::H264 { avc_packet_type_of(b[1]) } else { None })
            &&& composition_time == (if codec_id == CodecId::H264 {
                Some(si24(b[2], b[3], b[4]) as i32)
            } else {
                None
            })
        },
        TagDataHeader::Script(s) => {
            &&& t == TagType::Script
            &&& s.name@ == b.subrange(3, 3 + b[1] as int * 256 + b[2] as int)
            &&& entry_views(s.entries@) == script_entries(b.take(size as int), 3 + b[1] as int * 256 + b[2] as int)
        },
    }
}

pub fn sound_format_from(c: u8) -> (r: Option<SoundFormat>)
    ensures
        r == sound_format_of(c),
{
    match c {
        0 => Some(SoundFormat::PcmPlatformEndian),
        1 => Some(SoundFormat::Adpcm),
        2 => Some(SoundFormat::Mp3),
        3 => Some(SoundFormat::PcmLittleEndian),
        4 => Some(SoundFormat::Nellymoser16kMono),
        5 => Some(SoundFormat::Nellymoser8kMono),
        6 => Some(SoundFormat::Nellymoser),
        7 => Some(SoundFormat::G711ALaw),
        8 => Some(SoundFormat::G711MuLaw),
        10 => Some(SoundFormat::Aac),
        11 => Some(SoundFormat::Speex),
        14 => Some(SoundFormat::Mp3At8k),
        15 => Some(SoundFormat::DeviceSpecific),
        _ => None,
    }
}

pub fn sound_rate_from(c: u8) -> (r: SoundRate)
    ensures
        r == sound_rate_of(c),
{
    match c {
        0 => SoundRate::Rate5500,
        1 => SoundRate::Rate11025,
        2 => SoundRate::Rate22050,
        _ => SoundRate::Rate44100,
    }
}

pub fn aac_packet_type_from(c: u8) -> (r: Option<AACPacketType>)
    ensures
        r == aac_packet_type_of(c),
{
    match c {
        0 => Some(AACPacketType::SequenceHeader),
        1 => Some(AACPacketType::Raw),
        _ => None,
    }
}

pub fn frame_type_from(c: u8) -> (r: Option<FrameType>)
    ensures
        r == frame_type_of(c),
{
    match c {
        1 => Some(FrameType::Key),
        2 => Some(FrameType::Inter),
        3 => Some(FrameType::DisposableInter),
        4 => Some(FrameType::Generated),
        5 => Some(FrameType::Command),
        _ => None,
    }
}

pub fn codec_id_from(c: u8) -> (r: Option<CodecId>)
    ensures
        r == codec_id_of(c),
{
    match c {
        1 => Some(CodecId::Jpeg),
        2 => Some(CodecId::SorensonH263),
        3 => Some(CodecId::Screen),
        4 => Some(CodecId::Vp6),
        5 => Some(CodecId::Vp6Alpha),
        6 => Some(CodecId::Screen2),
        7 => Some(CodecId::H264),
        _ => None,
    }
}

pub fn avc_packet_type_from(c: u8) -> (r: Option<AVCPacketType>)
    ensures
        r == avc_packet_type_of(c),
{
    match c {
        0 => Some(AVCPacketType::SequenceHeader),
        1 => Some(AVCPacketType::Nalu),
        2 => Some(AVCPacketType::EndOfSequence),
        _ => None,
    }
}

pub fn si24_value(a: u8, b: u8, c: u8) -> (r: i32)
    ensures
        r == si24(a, b, c),
{
    let v: i32 = (a as i32) * 65536 + (b as i32) * 256 + (c as i32);
    if v >= 0x80_0000 {
        v - 0x100_0000
    } else {
        v
    }
}

/// Reads the leading fields of a payload of `size` declared bytes.
pub fn parse_tag_data(t: TagType, size: u32, b: &[u8]) -> (r: Result<TagDataHeader, ParseError>)
    ensures
        match r {
            Ok(d) => payload_error(t, size as nat, b@) is None && payload_matches(t, size as nat, b@, d),
            Err(e) => payload_error(t, size as nat, b@) == Some(e),
        },
{
    let size = size as usize;
    if b.len() < size {
        return Err(ParseError::Incomplete(size - b.len()));
    }
    match t {
        TagType::Audio => {
            if size < 1 {
                return Err(ParseError::Malformed);
            }
            let sound_format = match sound_format_from(b[0] / 16) {
                Some(f) => f,
                None => return Err(ParseError::Malformed),
            };
            let packet_type = if sound_format == SoundFormat::Aac {
                if size < 2 {
                    return Err(ParseError::Malformed);
                }
                match aac_packet_type_from(b[1]) {
                    Some(p) => Some(p),
                    None => return Err(ParseError::Malformed),
                }
            } else {
                None
            };
            Ok(TagDataHeader::Audio {
                sound_format,
                sound_rate: sound_rate_from((b[0] / 4) % 4),
                sound_size: if (b[0] / 2) % 2 == 0 { SoundSize::Bits8 } else { SoundSize::Bits16 },
                sound_type: if b[0] % 2 == 0 { SoundType::Mono } else { SoundType::Stereo },
                packet_type,
            })
        },
        TagType::Video => {
            if size < 1 {
                return Err(ParseError::Malformed);
            }
            let frame_type = match frame_type_from(b[0] / 16) {
                Some(f) => f,
                None => return Err(ParseError::Malformed),
            };
            let codec_id = match codec_id_from(b[0] % 16) {
                Some(c) => c,
                None => return Err(ParseError::Malformed),
            };
            if codec_id == CodecId::H264 {
                if size < 5 {
                    return Err(ParseError::Malformed);
                }
                let packet_type = match avc_packet_type_from(b[1]) {
                    Some(p) => p,
                    None => return Err(ParseError::Malformed),
                };
                Ok(TagDataHeader::Video {
                    frame_type,
                    codec_id,
                    packet_type: Some(packet_type),
                    composition_time: Some(si24_value(b[2], b[3], b[4])),
                })
            } else {
                Ok(TagDataHeader::Video { frame_type, codec_id, packet_type: None, composition_time: None })
            }
        },
        TagType::Script => {
            if size < 3 || b[0] != 2 {
                return Err(ParseError::Malformed);
            }
            let n = (b[1] as usize) * 256 + (b[2] as usize);
            if 3 + n > size {
                return Err(ParseError::Malformed);
            }
            let name = copy_range(b, 3, 3 + n);
            let payload = copy_range(b, 0, size);
            assert(payload@ =~= b@.take(size as int));
            if 3 + n < size && read_value_end(payload.as_slice(), 3 + n, MAX_DEPTH).is_none() {
                return Err(ParseError::Malformed);
            }
            let entries = read_script_entries(payload.as_slice(), 3 + n);
            Ok(TagDataHeader::Script(ScriptData { name, entries }))
        },
    }
}

/// A tag's header with what its payload's leading bytes say.
pub struct FlvTag {
    pub header: TagHeader,
    pub data: TagDataHeader,
}

/// Reads the payload of a tag whose header was already read.
pub fn parse_flv_tag(header: TagHeader, body: &[u8]) -> (r: Result<FlvTag, ParseError>)
    ensures
        match r {
            Ok(t) => t.header == header && payload_error(header.tag_type, header.data_size as nat, body@) is None
                && payload_matches(header.tag_type, header.data_size as nat, body@, t.data),
            Err(e) => payload_error(header.tag_type, header.data_size as nat, body@) == Some(e),
        },
{
    match parse_tag_data(header.tag_type, header.data_size, body) {
        Ok(data) => Ok(FlvTag { header, data }),
        Err(e) => Err(e),
    }
}

} // verus!
