//! The FLV container: the file header, the 11-byte tag header and the
//! leading fields of audio, video and script payloads.
use vstd::prelude::*;

verus! {

/// Signature "FLV", version 1, audio and video present, header size 9.
pub open spec fn file_header_spec() -> Seq<u8> {
    seq![0x46u8, 0x4cu8, 0x56u8, 0x01u8, 0x05u8, 0x00u8, 0x00u8, 0x00u8, 0x09u8]
}

/// What the start of every output file holds: the file header and a zero
/// previous-tag-size field.
pub open spec fn file_prefix_spec() -> Seq<u8> {
    file_header_spec() + seq![0u8, 0u8, 0u8, 0u8]
}

/// Why bytes could not be parsed.
#[derive(PartialEq, Eq, Structural, Clone, Copy, Debug)]
pub enum ParseError {
    /// The bytes end early; this many more are needed.
    Incomplete(usize),
    /// The bytes are present but break the format.
    Malformed,
}

#[derive(PartialEq, Eq, Structural, Clone, Copy, Debug)]
pub enum TagType {
    Audio,
    Video,
    Script,
}

pub open spec fn tag_type_code(t: TagType) -> u8 {
    match t {
        TagType::Audio => 8,
        TagType::Video => 9,
        TagType::Script => 18,
    }
}

pub open spec fn tag_type_of(b: u8) -> Option<TagType> {
    if b == 8 {
        Some(TagType::Audio)
    } else if b == 9 {
        Some(TagType::Video)
    } else if b == 18 {
        Some(TagType::Script)
    } else {
        None
    }
}

/// The fixed header in front of every tag's payload.
#[derive(PartialEq, Eq, Structural, Clone, Copy, Debug)]
pub struct TagHeader {
    pub tag_type: TagType,
    pub data_size: u32,
    /// Milliseconds; the high byte travels in the extension byte.
    pub timestamp: u32,
    pub stream_id: u32,
}

/// Fields of three bytes must fit in them.
pub open spec fn header_wf(h: TagHeader) -> bool {
    h.data_size < 0x100_0000 && h.stream_id < 0x100_0000
}

pub open spec fn be24(a: u8, b: u8, c: u8) -> int {
    a as int * 65536 + b as int * 256 + c as int
}

/// The three big-endian bytes of a value below 2^24.
pub open spec fn be24_bytes(x: u32) -> Seq<u8> {
    seq![(x / 65536) as u8, ((x / 256) % 256) as u8, (x % 256) as u8]
}

/// The 11 bytes that encode a header.
pub open spec fn header_bytes(h: TagHeader) -> Seq<u8> {
    seq![tag_type_code(h.tag_type)] + be24_bytes(h.data_size) + be24_bytes(h.timestamp % 0x100_0000)
        + seq![(h.timestamp / 0x100_0000) as u8] + be24_bytes(h.stream_id)
}

/// The header that 11 bytes encode, if their type byte is known.
pub open spec fn parse_header_spec(b: Seq<u8>) -> Result<TagHeader, ParseError> {
    if b.len() < 11 {
        Err(ParseError::Incomplete((11 - b.len()) as usize))
    } else if tag_type_of(b[0]) is None {
        Err(ParseError::Malformed)
    } else {
        Ok(TagHeader {
            tag_type: tag_type_of(b[0])->0,
            data_size: be24(b[1], b[2], b[3]) as u32,
            timestamp: (b[7] as int * 0x100_0000 + be24(b[4], b[5], b[6])) as u32,
            stream_id: be24(b[8], b[9], b[10]) as u32,
        })
    }
}

pub proof fn lemma_be24_round_trip(x: u32)
    requires
        x < 0x100_0000,
    ensures
        be24(be24_bytes(x)[0], be24_bytes(x)[1], be24_bytes(x)[2]) == x,
{
    assert(x == (x / 65536) * 65536 + ((x / 256) % 256) * 256 + x % 256) by (nonlinear_arith)
        requires x < 0x100_0000;
}

pub proof fn lemma_be24_bytes_of(a: u8, b: u8, c: u8)
    ensures
        be24_bytes(be24(a, b, c) as u32) == seq![a, b, c],
{
    let x = be24(a, b, c);
    assert(x / 65536 == a && (x / 256) % 256 == b && x % 256 == c) by (nonlinear_arith)
        requires x == a as int * 65536 + b as int * 256 + c as int, a < 256, b < 256, c < 256;
    assert(be24_bytes(x as u32) =~= seq![a, b, c]);
}

/// Encoding a well-formed header and parsing it back gives the header.
pub proof fn lemma_header_round_trip(h: TagHeader)
    requires
        header_wf(h),
    ensures
        header_bytes(h).len() == 11,
        parse_header_spec(header_bytes(h)) == Ok::<TagHeader, ParseError>(h),
{
    let b = header_bytes(h);
    let lo = (h.timestamp % 0x100_0000) as u32;
    lemma_be24_round_trip(h.data_size);
    lemma_be24_round_trip(lo);
    lemma_be24_round_trip(h.stream_id);
    assert(b[1] == be24_bytes(h.data_size)[0] && b[2] == be24_bytes(h.data_size)[1]
        && b[3] == be24_bytes(h.data_size)[2]);
    assert(b[4] == be24_bytes(lo)[0] && b[5] == be24_bytes(lo)[1] && b[6] == be24_bytes(lo)[2]);
    assert(b[8] == be24_bytes(h.stream_id)[0] && b[9] == be24_bytes(h.stream_id)[1]
        && b[10] == be24_bytes(h.stream_id)[2]);
    assert(h.timestamp == (h.timestamp / 0x100_0000) * 0x100_0000 + lo) by (nonlinear_arith)
        requires lo == h.timestamp % 0x100_0000;
    assert(b[0] == tag_type_code(h.tag_type));
}

/// Parsing 11 bytes and encoding the header gives the same bytes.
pub proof fn lemma_header_bytes_round_trip(b: Seq<u8>)
    requires
        b.len() == 11,
        parse_header_spec(b) is Ok,
    ensures
        header_wf(parse_header_spec(b)->Ok_0),
        header_bytes(parse_header_spec(b)->Ok_0) == b,
{
    let h = parse_header_spec(b)->Ok_0;
    let lo = be24(b[4], b[5], b[6]);
    assert(h.timestamp % 0x100_0000 == lo && h.timestamp / 0x100_0000 == b[7]) by (nonlinear_arith)
        requires h.timestamp == b[7] as int * 0x100_0000 + lo, 0 <= lo < 0x100_0000;
    lemma_be24_bytes_of(b[1], b[2], b[3]);
    lemma_be24_bytes_of(b[4], b[5], b[6]);
    lemma_be24_bytes_of(b[8], b[9], b[10]);
    assert(header_bytes(h) =~= b);
}

/// The 9-byte FLV file header followed by a zero previous-tag-size.
pub fn file_prefix() -> (r: Vec<u8>)
    ensures
        r@ == file_prefix_spec(),
{
    let r: Vec<u8> = vec![0x46u8, 0x4cu8, 0x56u8, 0x01u8, 0x05u8, 0x00u8, 0x00u8, 0x00u8, 0x09u8, 0u8, 0u8, 0u8, 0u8];
    assert(r@ =~= file_prefix_spec());
    r
}

/// Decodes the 9-byte file header. Bytes that do not start with "FLV" are
/// malformed: the source is then not an FLV stream.
pub fn parse_file_header(b: &[u8]) -> (r: Result<u8, ParseError>)
    ensures
        b@.len() < 9 ==> r == Err::<u8, ParseError>(ParseError::Incomplete((9 - b@.len()) as usize)),
        b@.len() >= 9 ==> r == (if b@[0] == 0x46 && b@[1] == 0x4c && b@[2] == 0x56 {
            Ok::<u8, ParseError>(b@[4])
        } else {
            Err(ParseError::Malformed)
        }),
{
    if b.len() < 9 {
        return Err(ParseError::Incomplete(9 - b.len()));
    }
    if b[0] == 0x46 && b[1] == 0x4c && b[2] == 0x56 {
        Ok(b[4])
    } else {
        Err(ParseError::Malformed)
    }
}

pub fn be24_value(a: u8, b: u8, c: u8) -> (r: u32)
    ensures
        r == be24(a, b, c),
        r < 0x100_0000,
{
    (a as u32) * 65536 + (b as u32) * 256 + (c as u32)
}

/// Decodes an 11-byte tag header.
pub fn parse_tag_header(b: &[u8]) -> (r: Result<TagHeader, ParseError>)
    ensures
        r == parse_header_spec(b@),
        r is Ok ==> header_wf(r->Ok_0),
{
    if b.len() < 11 {
        return Err(ParseError::Incomplete(11 - b.len()));
    }
    let tag_type = if b[0] == 8 {
        TagType::Audio
    } else if b[0] == 9 {
        TagType::Video
    } else if b[0] == 18 {
        TagType::Script
    } else {
        return Err(ParseError::Malformed);
    };
    let data_size = be24_value(b[1], b[2], b[3]);
    let low = be24_value(b[4], b[5], b[6]);
    let timestamp = (b[7] as u32) * 0x100_0000 + low;
    let stream_id = be24_value(b[8], b[9], b[10]);
    Ok(TagHeader { tag_type, data_size, timestamp, stream_id })
}

pub fn push_be24(out: &mut Vec<u8>, x: u32)
    requires
        x < 0x100_0000,
    ensures
        final(out)@ == old(out)@ + be24_bytes(x),
{
    out.push((x / 65536) as u8);
    out.push(((x / 256) % 256) as u8);
    out.push((x % 256) as u8);
    assert(final(out)@ =~= old(out)@ + be24_bytes(x));
}

/// Encodes a header: the timestamp's low 24 bits, then its high byte as
/// the extension byte.
pub fn encode_tag_header(h: &TagHeader, out: &mut Vec<u8>)
    requires
        header_wf(*h),
    ensures
        final(out)@ == old(out)@ + header_bytes(*h),
{
    let code: u8 = match h.tag_type {
        TagType::Audio => 8,
        TagType::Video => 9,
        TagType::Script => 18,
    };
    out.push(code);
    push_be24(out, h.data_size);
    push_be24(out, h.timestamp % 0x100_0000);
    out.push((h.timestamp / 0x100_0000) as u8);
    push_be24(out, h.stream_id);
    assert(final(out)@ =~= old(out)@ + header_bytes(*h));
}

} // verus!
