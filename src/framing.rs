//! The bytes of whole tags: header, payload, trailer, one after another.
use vstd::prelude::*;
use crate::flv::{
    encode_tag_header, header_bytes, header_wf, lemma_header_bytes_round_trip, lemma_header_round_trip,
    parse_header_spec, parse_tag_header, TagHeader,
};
use crate::remux::{framed, views, RawTag, TagView};

verus! {

/// The bytes of one tag.
pub open spec fn tag_bytes(t: TagView) -> Seq<u8> {
    header_bytes(t.header) + t.body + t.trailer
}

/// The bytes of a run of tags.
pub open spec fn tags_bytes(ts: Seq<TagView>) -> Seq<u8>
    decreases ts.len(),
{
    if ts.len() == 0 {
        seq![]
    } else {
        tag_bytes(ts[0]) + tags_bytes(ts.skip(1))
    }
}

/// The tags that bytes hold, if they hold whole tags only.
pub open spec fn parse_tags_spec(b: Seq<u8>) -> Option<Seq<TagView>>
    decreases b.len(),
{
    if b.len() == 0 {
        Some(seq![])
    } else if b.len() < 11 || parse_header_spec(b.take(11)) is Err {
        None
    } else {
        let h = parse_header_spec(b.take(11))->Ok_0;
        let end = 11 + h.data_size + 4;
        if end > b.len() {
            None
        } else {
            match parse_tags_spec(b.skip(end)) {
                Some(rest) => Some(seq![TagView {
                    header: h,
                    body: b.subrange(11, 11 + h.data_size),
                    trailer: b.subrange(11 + h.data_size, end),
                }] + rest),
                None => None,
            }
        }
    }
}

/// Writing framed tags out and reading the bytes back gives the same tags.
#[verifier::rlimit(40)]
pub proof fn lemma_tags_round_trip(ts: Seq<TagView>)
    requires
        forall|k: int| 0 <= k < ts.len() ==> framed(#[trigger] ts[k]),
    ensures
        parse_tags_spec(tags_bytes(ts)) == Some(ts),
    decreases ts.len(),
{
    if ts.len() > 0 {
        let t = ts[0];
        assert(framed(ts[0]));
        let rest = ts.skip(1);
        assert forall|k: int| 0 <= k < rest.len() implies framed(#[trigger] rest[k]) by {
            assert(rest[k] == ts[k + 1]);
        }
        lemma_tags_round_trip(rest);
        lemma_header_round_trip(t.header);
        let hb = header_bytes(t.header);
        let tb = tags_bytes(rest);
        let b = tags_bytes(ts);
        let n = t.header.data_size as int;
        let end = 11 + n + 4;
        assert(b == hb + t.body + t.trailer + tb);
        assert(b.len() == end + tb.len());
        assert(b.take(11) =~= hb);
        assert(b.subrange(11, 11 + n) =~= t.body);
        assert(b.subrange(11 + n, end) =~= t.trailer);
        assert(b.skip(end) =~= tb);
        assert(parse_header_spec(b.take(11)) == Ok::<TagHeader, crate::flv::ParseError>(t.header));
        assert(TagView { header: t.header, body: b.subrange(11, 11 + n), trailer: b.subrange(11 + n, end) } == t);
        assert(seq![t] + rest =~= ts);
    }
}

/// Bytes that split into whole tags are those tags' bytes again: headers
/// are re-encoded exactly as they arrived.
pub proof fn lemma_bytes_round_trip(b: Seq<u8>)
    requires
        parse_tags_spec(b) is Some,
    ensures
        tags_bytes(parse_tags_spec(b)->0) == b,
    decreases b.len(),
{
    if b.len() > 0 {
        let h = parse_header_spec(b.take(11))->Ok_0;
        let n = h.data_size as int;
        let end = 11 + n + 4;
        let rest = b.skip(end);
        lemma_bytes_round_trip(rest);
        lemma_header_bytes_round_trip(b.take(11));
        let ts = parse_tags_spec(b)->0;
        let t = ts[0];
        assert(ts.skip(1) =~= parse_tags_spec(rest)->0);
        assert(tag_bytes(t) =~= b.take(end));
        assert(b.take(end) + rest =~= b);
    }
}

/// Appends the bytes of a framed tag.
pub fn encode_tag(t: &RawTag, out: &mut Vec<u8>)
    requires
        framed(t@),
    ensures
        final(out)@ == old(out)@ + tag_bytes(t@),
{
    encode_tag_header(&t.header, out);
    let ghost mid = out@;
    let mut i: usize = 0;
    while i < t.body.len()
        invariant
            i <= t.body@.len(),
            out@ == mid + t.body@.take(i as int),
        decreases t.body@.len() - i,
    {
        out.push(t.body[i]);
        i += 1;
        assert(out@ =~= mid + t.body@.take(i as int));
    }
    let ghost mid2 = out@;
    let mut j: usize = 0;
    while j < t.trailer.len()
        invariant
            j <= t.trailer@.len(),
            out@ == mid2 + t.trailer@.take(j as int),
        decreases t.trailer@.len() - j,
    {
        out.push(t.trailer[j]);
        j += 1;
        assert(out@ =~= mid2 + t.trailer@.take(j as int));
    }
    assert(t.body@.take(i as int) =~= t.body@);
    assert(t.trailer@.take(j as int) =~= t.trailer@);
    assert(final(out)@ =~= old(out)@ + tag_bytes(t@));
}

pub fn copy_range(b: &[u8], lo: usize, hi: usize) -> (r: Vec<u8>)
    requires
        lo <= hi <= b@.len(),
    ensures
        r@ == b@.subrange(lo as int, hi as int),
{
    let mut r: Vec<u8> = Vec::new();
    let mut i: usize = lo;
    while i < hi
        invariant
            lo <= i <= hi <= b@.len(),
            r@ == b@.subrange(lo as int, i as int),
        decreases hi - i,
    {
        r.push(b[i]);
        i += 1;
        assert(r@ =~= b@.subrange(lo as int, i as int));
    }
    r
}

/// Splits bytes into whole tags, as a reader of an output file (after its
/// 13-byte prefix) would; `None` where they do not end on a tag boundary or a
/// header is unreadable.
pub fn read_tags(b: &[u8]) -> (r: Option<Vec<RawTag>>)
    ensures
        match r {
            Some(v) => parse_tags_spec(b@) == Some(views(v@)),
            None => parse_tags_spec(b@) is None,
        },
{
    let mut tags: Vec<RawTag> = Vec::new();
    let mut pos: usize = 0;
    assert(b@.skip(0) =~= b@);
    assert(parse_tags_spec(b@) is Some ==> views(tags@) + parse_tags_spec(b@)->0 =~= parse_tags_spec(b@)->0);
    while pos < b.len()
        invariant
            pos <= b@.len(),
            parse_tags_spec(b@) == match parse_tags_spec(b@.skip(pos as int)) {
                Some(rest) => Some(views(tags@) + rest),
                None => None,
            },
        decreases b@.len() - pos,
    {
        let ghost s = b@.skip(pos as int);
        if b.len() - pos < 11 {
            return None;
        }
        let hb = copy_range(b, pos, pos + 11);
        assert(hb@ =~= s.take(11));
        let h = match parse_tag_header(hb.as_slice()) {
            Ok(h) => h,
            Err(_) => return None,
        };
        let size = h.data_size as usize;
        if b.len() - pos - 11 < size + 4 {
            return None;
        }
        let body = copy_range(b, pos + 11, pos + 11 + size);
        let trailer = copy_range(b, pos + 11 + size, pos + 15 + size);
        let t = RawTag { header: h, body, trailer };
        proof {
            let end = 11 + size + 4;
            assert(t@.body =~= s.subrange(11, 11 + h.data_size));
            assert(t@.trailer =~= s.subrange(11 + h.data_size, end));
            assert(s.skip(end) =~= b@.skip(pos + end));
            assert(parse_tags_spec(s) == match parse_tags_spec(s.skip(end)) {
                Some(rest) => Some(seq![t@] + rest),
                None => None,
            });
            if parse_tags_spec(s.skip(end)) is Some {
                let rest = parse_tags_spec(s.skip(end))->0;
                assert(views(tags@.push(t)) + rest =~= views(tags@) + (seq![t@] + rest));
            }
        }
        tags.push(t);
        pos = pos + 15 + size;
    }
    proof {
        assert(b@.skip(pos as int) =~= Seq::<u8>::empty());
        assert(parse_tags_spec(b@.skip(pos as int)) == Some(Seq::<TagView>::empty()));
        assert(views(tags@) + Seq::<TagView>::empty() =~= views(tags@));
    }
    Some(tags)
}

} // verus!
