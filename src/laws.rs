//! Properties of the re-muxed output, stated over the model of the files.
use vstd::prelude::*;
use crate::framing::{lemma_bytes_round_trip, lemma_tags_round_trip, parse_tags_spec, tags_bytes};
use crate::remux::{
    content, files_from_input, files_start_well, framed, headers_consistent, lemma_flush, views, writes, apply_emits, is_aac_sequence_header, is_avc_sequence_header,
    is_keyframe, is_metadata, trailer_ok, Remuxer, TagView,
};

verus! {

proof fn lemma_member_framed(input: Seq<TagView>, x: TagView)
    requires
        input.contains(x),
        forall|k: int| 0 <= k < input.len() ==> framed(#[trigger] input[k]),
    ensures
        framed(x),
{
    let k = choose|k: int| 0 <= k < input.len() && input[k] == x;
    assert(framed(input[k]));
}

/// Round trip: a byte stream that splits into the tags `ts` is exactly
/// those tags' bytes, and reads back as them; where the files' own tags
/// (all but the replayed headers) are those tags, as they are once the
/// stream is finished, every output file reads back as the tags it was
/// given, byte for byte.
pub proof fn law_round_trip(input: Seq<u8>, ts: Seq<TagView>, files: Seq<Seq<TagView>>)
    requires
        parse_tags_spec(input) == Some(ts),
        forall|k: int| 0 <= k < ts.len() ==> framed(#[trigger] ts[k]),
        content(files) == ts,
        files_from_input(files, ts),
    ensures
        tags_bytes(ts) == input,
        parse_tags_spec(tags_bytes(ts)) == Some(ts),
        forall|i: int| 0 <= i < files.len() ==> parse_tags_spec(tags_bytes(#[trigger] files[i])) == Some(files[i]),
{
    lemma_bytes_round_trip(input);
    lemma_tags_round_trip(ts);
    assert forall|i: int| 0 <= i < files.len() implies parse_tags_spec(tags_bytes(#[trigger] files[i]))
        == Some(files[i]) by {
        assert forall|j: int| 0 <= j < files[i].len() implies framed(#[trigger] files[i][j]) by {
            lemma_member_framed(ts, files[i][j]);
        }
        lemma_tags_round_trip(files[i]);
    }
}

/// Nothing is lost or reordered: from any state, once the stream is
/// finished (the buffered tags written out, as `Remuxer::finish` does), the
/// files' own tags are every tag kept in the stream, in order, and every tag
/// received where no header changed mid-stream; each file still opens as
/// `law_files_begin_at_keyframes` says, never mixes two payloads of one
/// header kind, and reads back as its tags.
pub proof fn law_finished_stream(r: Remuxer)
    requires
        r.wf(),
    ensures
        content(apply_emits(r.files@, writes(views(r.pending@)))) == r.kept@,
        !r.header_changed@ ==> content(apply_emits(r.files@, writes(views(r.pending@)))) == r.input@,
        files_start_well(apply_emits(r.files@, writes(views(r.pending@)))),
        forall|i: int| 0 <= i < apply_emits(r.files@, writes(views(r.pending@))).len() ==>
            headers_consistent(#[trigger] apply_emits(r.files@, writes(views(r.pending@)))[i]),
        forall|i: int| 0 <= i < apply_emits(r.files@, writes(views(r.pending@))).len() ==>
            parse_tags_spec(tags_bytes(#[trigger] apply_emits(r.files@, writes(views(r.pending@)))[i]))
                == Some(apply_emits(r.files@, writes(views(r.pending@)))[i]),
{
    let vt = views(r.pending@);
    let c = content(r.files@);
    let n = r.files@.len() - 1;
    assert forall|k: int| 0 <= k < vt.len() implies r.input@.contains(#[trigger] vt[k]) by {
        assert(r.kept@[c.len() + k] == vt[k]);
    }
    lemma_flush(r.files@, r.input@, vt);
    let files = apply_emits(r.files@, writes(vt));
    assert forall|i: int| 0 <= i < files.len() implies headers_consistent(#[trigger] files[i]) by {
        if i != n {
            assert(files[i] == r.files@[i]);
        }
    }
    assert forall|i: int| 0 <= i < files.len() implies parse_tags_spec(tags_bytes(#[trigger] files[i]))
        == Some(files[i]) by {
        assert forall|j: int| 0 <= j < files[i].len() implies framed(#[trigger] files[i][j]) by {
            lemma_member_framed(r.input@, files[i][j]);
        }
        lemma_tags_round_trip(files[i]);
    }
}

/// No file mixes codec configurations: in every state, no file holds two
/// headers of one kind (script metadata, AVC or AAC sequence header) with
/// different payloads.
pub proof fn law_one_configuration_per_file(r: Remuxer)
    requires
        r.wf(),
    ensures
        forall|i: int| 0 <= i < r.files@.len() ==> headers_consistent(#[trigger] r.files@[i]),
{
}

/// Replayed headers are the received ones: where the stream carried one
/// script tag, one AVC sequence header and one AAC sequence header, every
/// file after the first opens with exactly those three tags, in that order.
pub proof fn law_replayed_headers(files: Seq<Seq<TagView>>, input: Seq<TagView>, m: TagView, v: TagView, a: TagView)
    requires
        files_start_well(files),
        files_from_input(files, input),
        forall|k: int| 0 <= k < input.len() && is_metadata(#[trigger] input[k]) ==> input[k] == m,
        forall|k: int| 0 <= k < input.len() && is_avc_sequence_header(#[trigger] input[k]) ==> input[k] == v,
        forall|k: int| 0 <= k < input.len() && is_aac_sequence_header(#[trigger] input[k]) ==> input[k] == a,
    ensures
        forall|i: int| 0 < i < files.len() ==> {
            &&& #[trigger] files[i].len() >= 3
            &&& files[i][0] == m
            &&& files[i][1] == v
            &&& files[i][2] == a
        },
{
    assert forall|i: int| 0 < i < files.len() implies {
        &&& #[trigger] files[i].len() >= 3
        &&& files[i][0] == m
        &&& files[i][1] == v
        &&& files[i][2] == a
    } by {
        assert(files[i].len() >= 3);
        assert(input.contains(files[i][0]));
        assert(input.contains(files[i][1]));
        assert(input.contains(files[i][2]));
    }
}

/// No split inside a group of pictures: in every state, each file after
/// the first holds the three replayed headers and then begins at a keyframe.
pub proof fn law_files_begin_at_keyframes(r: Remuxer)
    requires
        r.wf(),
    ensures
        forall|i: int| 0 < i < r.files@.len() ==> {
            &&& #[trigger] r.files@[i].len() >= 3
            &&& is_metadata(r.files@[i][0])
            &&& is_avc_sequence_header(r.files@[i][1])
            &&& is_aac_sequence_header(r.files@[i][2])
            &&& r.files@[i].len() > 3 ==> is_keyframe(r.files@[i][3])
        },
{
}

/// Trailers: where every tag received closes with its own size, so does
/// every tag written.
pub proof fn law_trailers(files: Seq<Seq<TagView>>, input: Seq<TagView>)
    requires
        files_from_input(files, input),
        forall|k: int| 0 <= k < input.len() ==> trailer_ok(#[trigger] input[k]),
    ensures
        forall|i: int, j: int| 0 <= i < files.len() && 0 <= j < files[i].len() ==> trailer_ok(#[trigger] files[i][j]),
{
    assert forall|i: int, j: int| 0 <= i < files.len() && 0 <= j < files[i].len() implies trailer_ok(
        #[trigger] files[i][j]) by {
        assert(input.contains(files[i][j]));
        let k = choose|k: int| 0 <= k < input.len() && input[k] == files[i][j];
        assert(trailer_ok(input[k]));
    }
}

} // verus!
