//! Re-muxing a tag stream into output files: the sequence-header cache, the
//! buffer of tags since the last keyframe, and the split decision.
use vstd::prelude::*;
use crate::flv::{header_wf, ParseError, TagHeader, TagType};
use crate::segment::{needed_spec, sat_add, Segmentable};
use crate::tag::{parse_tag_data, payload_error, payload_matches, AVCPacketType, AACPacketType, FrameType, TagDataHeader};

verus! {

/// A tag as received: its header and the exact payload and trailer bytes.
pub struct RawTag {
    pub header: TagHeader,
    pub body: Vec<u8>,
    pub trailer: Vec<u8>,
}

/// The model of a tag.
pub struct TagView {
    pub header: TagHeader,
    pub body: Seq<u8>,
    pub trailer: Seq<u8>,
}

impl View for RawTag {
    type V = TagView;

    open spec fn view(&self) -> TagView {
        TagView { header: self.header, body: self.body@, trailer: self.trailer@ }
    }
}

/// A tag that can be written back as it came: the header fits its fields,
/// the payload has the declared size and the trailer four bytes.
pub open spec fn framed(t: TagView) -> bool {
    header_wf(t.header) && t.body.len() == t.header.data_size && t.trailer.len() == 4
}

/// The four big-endian bytes of a value.
pub open spec fn be32_bytes(x: u32) -> Seq<u8> {
    seq![(x / 0x100_0000) as u8, ((x / 0x1_0000) % 256) as u8, ((x / 256) % 256) as u8, (x % 256) as u8]
}

/// The trailer of a tag holds the size of the tag it closes.
pub open spec fn trailer_ok(t: TagView) -> bool {
    t.header.data_size < 0x100_0000 && t.trailer == be32_bytes((11 + t.header.data_size) as u32)
}

/// The name "onMetaData".
pub open spec fn on_meta_data_name() -> Seq<u8> {
    seq![0x6fu8, 0x6eu8, 0x4du8, 0x65u8, 0x74u8, 0x61u8, 0x44u8, 0x61u8, 0x74u8, 0x61u8]
}

/// A script tag whose first value is the string "onMetaData".
#[verifier::opaque]
pub open spec fn is_metadata(t: TagView) -> bool {
    &&& t.header.tag_type == TagType::Script
    &&& t.body.len() >= 13
    &&& t.body[0] == 2 && t.body[1] == 0 && t.body[2] == 10
    &&& t.body.subrange(3, 13) == on_meta_data_name()
}

/// An AVC decoder configuration record: codec 7, packet type 0.
pub open spec fn is_avc_sequence_header(t: TagView) -> bool {
    t.header.tag_type == TagType::Video && t.body.len() >= 2 && t.body[0] % 16 == 7 && t.body[1] == 0
}

/// An AAC audio specific config: sound format 10, packet type 0.
pub open spec fn is_aac_sequence_header(t: TagView) -> bool {
    t.header.tag_type == TagType::Audio && t.body.len() >= 2 && t.body[0] / 16 == 10 && t.body[1] == 0
}

/// A video frame of frame type 1 that is not a sequence header: a point at
/// which a file may start.
pub open spec fn is_keyframe(t: TagView) -> bool {
    t.header.tag_type == TagType::Video && t.body.len() >= 1 && t.body[0] / 16 == 1
        && !is_avc_sequence_header(t)
}

/// Why a received tag is refused; `None` where it is accepted.
pub open spec fn tag_error(t: TagView) -> Option<ParseError> {
    if payload_error(t.header.tag_type, t.header.data_size as nat, t.body) is Some {
        payload_error(t.header.tag_type, t.header.data_size as nat, t.body)
    } else if t.body.len() > t.header.data_size || t.trailer.len() > 4 || !header_wf(t.header) {
        Some(ParseError::Malformed)
    } else if t.trailer.len() < 4 {
        Some(ParseError::Incomplete((4 - t.trailer.len()) as usize))
    } else {
        None
    }
}

/// The sequence headers that every output file must start with.
#[derive(PartialEq, Eq, Structural, Clone, Copy, Debug)]
pub enum HeaderKind {
    OnMetaData,
    AvcSequenceHeader,
    AacSequenceHeader,
}

/// Why the stream cannot be re-muxed further.
#[derive(PartialEq, Eq, Structural, Clone, Copy, Debug)]
pub enum RemuxError {
    Parse(ParseError),
    /// A new file was due but this header had not been seen.
    MissingSequenceHeader(HeaderKind),
    /// A timestamp went backwards while the policy refuses that.
    NonMonotonicTimestamp { previous: u32, current: u32 },
}

/// What the caller is to do with its output.
pub enum Emit {
    /// Close the current file and open a fresh one.
    NewFile,
    /// Append the tag to the current file.
    Write(RawTag),
}

pub enum EmitView {
    NewFile,
    Write(TagView),
}

impl View for Emit {
    type V = EmitView;

    open spec fn view(&self) -> EmitView {
        match self {
            Emit::NewFile => EmitView::NewFile,
            Emit::Write(t) => EmitView::Write(t@),
        }
    }
}

pub open spec fn views(v: Seq<RawTag>) -> Seq<TagView> {
    v.map_values(|t: RawTag| t@)
}

pub open spec fn emit_views(v: Seq<Emit>) -> Seq<EmitView> {
    v.map_values(|e: Emit| e@)
}

pub open spec fn opt_view(o: Option<RawTag>) -> Option<TagView> {
    match o {
        Some(t) => Some(t@),
        None => None,
    }
}

/// The files after one instruction.
pub open spec fn apply_emit(files: Seq<Seq<TagView>>, e: EmitView) -> Seq<Seq<TagView>> {
    match e {
        EmitView::NewFile => files.push(seq![]),
        EmitView::Write(t) => if files.len() == 0 {
            seq![seq![t]]
        } else {
            files.update(files.len() - 1, files.last().push(t))
        },
    }
}

/// The files after a run of instructions.
pub open spec fn apply_emits(files: Seq<Seq<TagView>>, es: Seq<EmitView>) -> Seq<Seq<TagView>>
    decreases es.len(),
{
    if es.len() == 0 {
        files
    } else {
        apply_emit(apply_emits(files, es.drop_last()), es.last())
    }
}

/// A file's own tags: all of the first file, and what follows the three
/// replayed headers in every later one.
pub open spec fn own_tags(i: int, f: Seq<TagView>) -> Seq<TagView> {
    if i == 0 { f } else { f.skip(3) }
}

/// The files' own tags, in order.
pub open spec fn content(files: Seq<Seq<TagView>>) -> Seq<TagView>
    decreases files.len(),
{
    if files.len() == 0 {
        seq![]
    } else {
        content(files.drop_last()) + own_tags(files.len() - 1, files.last())
    }
}

/// Every file after the first opens with the replayed script tag, AVC
/// sequence header and AAC sequence header, then a keyframe.
pub open spec fn files_start_well(files: Seq<Seq<TagView>>) -> bool {
    forall|i: int| 0 < i < files.len() ==> {
        &&& #[trigger] files[i].len() >= 3
        &&& is_metadata(files[i][0])
        &&& is_avc_sequence_header(files[i][1])
        &&& is_aac_sequence_header(files[i][2])
        &&& files[i].len() > 3 ==> is_keyframe(files[i][3])
    }
}

/// Every tag written is a tag that was received.
pub open spec fn files_from_input(files: Seq<Seq<TagView>>, input: Seq<TagView>) -> bool {
    forall|i: int, j: int| 0 <= i < files.len() && 0 <= j < files[i].len() ==> input.contains(#[trigger] files[i][j])
}

/// The time that a tag adds: how far its timestamp moved forward.
pub open spec fn time_step(prev: Option<u32>, ts: u32) -> u64 {
    match prev {
        Some(p) => if ts > p { (ts - p) as u64 } else { 0 },
        None => 0,
    }
}

/// The policy after a tag of this header is counted: its full size on the
/// wire, 11 + data size + 4, and its time step.
pub open spec fn account(s: Segmentable, prev: Option<u32>, h: TagHeader) -> Segmentable {
    Segmentable {
        current_size: sat_add(s.current_size, (15 + h.data_size) as u64),
        current_time: sat_add(s.current_time, time_step(prev, h.timestamp)),
        ..s
    }
}

pub open spec fn reset_spec(s: Segmentable) -> Segmentable {
    Segmentable { current_size: 0, current_time: 0, start_time: 0, ..s }
}

/// A cache slot after a header of its kind arrives: kept when the payload
/// is the same, replaced otherwise. The flag says it was replaced.
pub open spec fn cache_update(slot: Option<TagView>, t: TagView) -> (Option<TagView>, bool) {
    match slot {
        None => (Some(t), false),
        Some(c) => if c.body == t.body { (Some(c), false) } else { (Some(t), true) },
    }
}

/// The instructions that write tags, in order.
pub open spec fn writes(ts: Seq<TagView>) -> Seq<EmitView> {
    ts.map_values(|t: TagView| EmitView::Write(t))
}

proof fn lemma_contains_grow(input: Seq<TagView>, t: TagView, x: TagView)
    requires
        input.contains(x),
    ensures
        input.push(t).contains(x),
{
    let k = choose|k: int| 0 <= k < input.len() && input[k] == x;
    assert(input.push(t)[k] == x);
}

proof fn lemma_contains_last(input: Seq<TagView>, t: TagView)
    ensures
        input.push(t).contains(t),
{
    assert(input.push(t)[input.len() as int] == t);
}

proof fn lemma_from_input_grow(files: Seq<Seq<TagView>>, input: Seq<TagView>, t: TagView)
    requires
        files_from_input(files, input),
    ensures
        files_from_input(files, input.push(t)),
{
    assert forall|i: int, j: int| 0 <= i < files.len() && 0 <= j < files[i].len() implies
        input.push(t).contains(#[trigger] files[i][j]) by {
        lemma_contains_grow(input, t, files[i][j]);
    }
}

proof fn lemma_apply_push(files: Seq<Seq<TagView>>, es: Seq<EmitView>, e: EmitView)
    ensures
        apply_emits(files, es.push(e)) == apply_emit(apply_emits(files, es), e),
{
    assert(es.push(e).drop_last() =~= es);
}

/// Appending a tag to the last file appends it to the content, and keeps
/// files opening well where a later file gets its keyframe first.
proof fn lemma_write(files: Seq<Seq<TagView>>, input: Seq<TagView>, t: TagView)
    requires
        files.len() >= 1,
        files_start_well(files),
        files_from_input(files, input),
        input.contains(t),
        files.len() > 1 && files.last().len() == 3 ==> is_keyframe(t),
    ensures
        apply_emit(files, EmitView::Write(t)).len() == files.len(),
        apply_emit(files, EmitView::Write(t)).last().len() == files.last().len() + 1,
        content(apply_emit(files, EmitView::Write(t))) == content(files).push(t),
        files_start_well(apply_emit(files, EmitView::Write(t))),
        files_from_input(apply_emit(files, EmitView::Write(t)), input),
{
    let n = files.len() - 1;
    let f2 = apply_emit(files, EmitView::Write(t));
    assert(f2 == files.update(n, files.last().push(t)));
    assert(f2.drop_last() =~= files.drop_last());
    if n > 0 {
        assert(files[n].len() >= 3);
        assert(files.last().push(t).skip(3) =~= files.last().skip(3).push(t));
    }
    assert(content(f2) =~= content(files).push(t));
    assert forall|i: int| 0 < i < f2.len() implies {
        &&& #[trigger] f2[i].len() >= 3
        &&& is_metadata(f2[i][0])
        &&& is_avc_sequence_header(f2[i][1])
        &&& is_aac_sequence_header(f2[i][2])
        &&& f2[i].len() > 3 ==> is_keyframe(f2[i][3])
    } by {
        if i == n {
            assert(files[i].len() >= 3);
            assert(f2[i][0] == files[i][0] && f2[i][1] == files[i][1] && f2[i][2] == files[i][2]);
            if files[i].len() > 3 {
                assert(f2[i][3] == files[i][3]);
            } else {
                assert(f2[i][3] == t);
            }
        } else {
            assert(f2[i] == files[i]);
        }
    }
    assert forall|i: int, j: int| 0 <= i < f2.len() && 0 <= j < f2[i].len() implies
        input.contains(#[trigger] f2[i][j]) by {
        if i == n && j == files[n].len() {
            assert(f2[i][j] == t);
        } else {
            assert(f2[i][j] == files[i][j]);
        }
    }
}

/// Opening a file and replaying three headers adds a file that holds
/// exactly them, and leaves the content as it was.
proof fn lemma_new_file(
    files: Seq<Seq<TagView>>,
    input: Seq<TagView>,
    m: TagView,
    v: TagView,
    a: TagView,
)
    requires
        files.len() >= 1,
        files_start_well(files),
        files_from_input(files, input),
        is_metadata(m) && is_avc_sequence_header(v) && is_aac_sequence_header(a),
        input.contains(m) && input.contains(v) && input.contains(a),
    ensures
        apply_emits(files, seq![EmitView::NewFile, EmitView::Write(m), EmitView::Write(v), EmitView::Write(a)])
            == files.push(seq![m, v, a]),
        content(files.push(seq![m, v, a])) == content(files),
        files_start_well(files.push(seq![m, v, a])),
        files_from_input(files.push(seq![m, v, a]), input),
{
    let es = seq![EmitView::NewFile, EmitView::Write(m), EmitView::Write(v), EmitView::Write(a)];
    let f2 = files.push(seq![m, v, a]);
    assert(es.drop_last().drop_last().drop_last().drop_last() =~= Seq::<EmitView>::empty());
    assert(es.drop_last().drop_last().drop_last() =~= seq![EmitView::NewFile]);
    assert(es.drop_last().drop_last() =~= seq![EmitView::NewFile, EmitView::Write(m)]);
    assert(es.drop_last() =~= seq![EmitView::NewFile, EmitView::Write(m), EmitView::Write(v)]);
    let f_a = files.push(seq![]);
    let f_b = f_a.update(files.len() as int, seq![m]);
    let f_c = f_b.update(files.len() as int, seq![m, v]);
    assert(seq![m].push(v) =~= seq![m, v]);
    assert(seq![m, v].push(a) =~= seq![m, v, a]);
    assert(Seq::<TagView>::empty().push(m) =~= seq![m]);
    assert(apply_emits(files, Seq::<EmitView>::empty()) == files);
    assert(seq![EmitView::NewFile].drop_last() =~= Seq::<EmitView>::empty());
    assert(apply_emits(files, seq![EmitView::NewFile]) == f_a);
    assert(apply_emits(files, es.drop_last().drop_last().drop_last()) == f_a);
    assert(apply_emits(files, es.drop_last().drop_last()) =~= f_b);
    assert(apply_emits(files, es.drop_last()) =~= f_c);
    assert(apply_emits(files, es) =~= f2);
    assert(f2.drop_last() =~= files);
    assert(seq![m, v, a].skip(3) =~= Seq::<TagView>::empty());
    assert(content(f2) =~= content(files));
    assert forall|i: int| 0 < i < f2.len() implies {
        &&& #[trigger] f2[i].len() >= 3
        &&& is_metadata(f2[i][0])
        &&& is_avc_sequence_header(f2[i][1])
        &&& is_aac_sequence_header(f2[i][2])
        &&& f2[i].len() > 3 ==> is_keyframe(f2[i][3])
    } by {
        if i < files.len() {
            assert(f2[i] == files[i]);
        }
    }
    assert forall|i: int, j: int| 0 <= i < f2.len() && 0 <= j < f2[i].len() implies
        input.contains(#[trigger] f2[i][j]) by {
        if i < files.len() {
            assert(f2[i] == files[i]);
        }
    }
}

/// The header kind of a tag, if it is one that every file needs.
pub open spec fn header_kind(t: TagView) -> Option<HeaderKind> {
    if is_metadata(t) {
        Some(HeaderKind::OnMetaData)
    } else if is_avc_sequence_header(t) {
        Some(HeaderKind::AvcSequenceHeader)
    } else if is_aac_sequence_header(t) {
        Some(HeaderKind::AacSequenceHeader)
    } else {
        None
    }
}

/// Two tags of one header kind carry the same payload.
pub open spec fn same_kind_same_body(a: TagView, b: TagView) -> bool {
    (header_kind(a) is Some && header_kind(a) == header_kind(b)) ==> a.body == b.body
}

/// No two headers of one kind with different payloads: one codec
/// configuration per file.
pub open spec fn headers_consistent(f: Seq<TagView>) -> bool {
    forall|i: int, j: int| 0 <= i < f.len() && 0 <= j < f.len() ==> same_kind_same_body(#[trigger] f[i], #[trigger] f[j])
}

/// The cache slot of a header kind.
pub open spec fn slot_of(m: Option<TagView>, v: Option<TagView>, a: Option<TagView>, k: HeaderKind) -> Option<TagView> {
    match k {
        HeaderKind::OnMetaData => m,
        HeaderKind::AvcSequenceHeader => v,
        HeaderKind::AacSequenceHeader => a,
    }
}

/// Every header in `f` carries the payload cached for its kind.
pub open spec fn matches_slots(m: Option<TagView>, v: Option<TagView>, a: Option<TagView>, f: Seq<TagView>) -> bool {
    forall|i: int| 0 <= i < f.len() && header_kind(#[trigger] f[i]) is Some ==> {
        &&& slot_of(m, v, a, header_kind(f[i])->0) is Some
        &&& slot_of(m, v, a, header_kind(f[i])->0)->0.body == f[i].body
    }
}

proof fn lemma_metadata_is_script(t: TagView)
    ensures
        is_metadata(t) ==> t.header.tag_type == TagType::Script,
{
    reveal(is_metadata);
}

proof fn lemma_keyframe_not_header(t: TagView)
    ensures
        is_keyframe(t) ==> header_kind(t) is None,
{
    lemma_metadata_is_script(t);
}

proof fn lemma_matches_consistent(m: Option<TagView>, v: Option<TagView>, a: Option<TagView>, f: Seq<TagView>)
    requires
        matches_slots(m, v, a, f),
    ensures
        headers_consistent(f),
{
    assert forall|i: int, j: int| 0 <= i < f.len() && 0 <= j < f.len() implies same_kind_same_body(
        #[trigger] f[i], #[trigger] f[j]) by {
        if header_kind(f[i]) is Some && header_kind(f[i]) == header_kind(f[j]) {
            assert(header_kind(f[j]) is Some);
        }
    }
}

/// A tag that is no header may join any run without mixing headers.
proof fn lemma_push_plain(m: Option<TagView>, v: Option<TagView>, a: Option<TagView>, f: Seq<TagView>, t: TagView, strict: bool)
    requires
        header_kind(t) is None,
        headers_consistent(f),
        strict ==> matches_slots(m, v, a, f),
    ensures
        headers_consistent(f.push(t)),
        strict ==> matches_slots(m, v, a, f.push(t)),
{
    let g = f.push(t);
    assert forall|i: int, j: int| 0 <= i < g.len() && 0 <= j < g.len() implies same_kind_same_body(
        #[trigger] g[i], #[trigger] g[j]) by {
        if i < f.len() && j < f.len() {
            assert(g[i] == f[i] && g[j] == f[j]);
            assert(same_kind_same_body(f[i], f[j]));
        }
    }
    if strict {
        assert forall|i: int| 0 <= i < g.len() && header_kind(#[trigger] g[i]) is Some implies {
            &&& slot_of(m, v, a, header_kind(g[i])->0) is Some
            &&& slot_of(m, v, a, header_kind(g[i])->0)->0.body == g[i].body
        } by {
            assert(g[i] == f[i]);
        }
    }
}

/// A header whose payload is what its slot now caches may join a run whose
/// headers all match the cache.
proof fn lemma_push_header(
    m: Option<TagView>,
    v: Option<TagView>,
    a: Option<TagView>,
    m2: Option<TagView>,
    v2: Option<TagView>,
    a2: Option<TagView>,
    f: Seq<TagView>,
    t: TagView,
)
    requires
        matches_slots(m, v, a, f),
        header_kind(t) is Some,
        !cache_update(slot_of(m, v, a, header_kind(t)->0), t).1,
        forall|k: HeaderKind| #[trigger] slot_of(m2, v2, a2, k) == if Some(k) == header_kind(t) {
            cache_update(slot_of(m, v, a, k), t).0
        } else {
            slot_of(m, v, a, k)
        },
    ensures
        matches_slots(m2, v2, a2, f.push(t)),
{
    let g = f.push(t);
    assert forall|i: int| 0 <= i < g.len() && header_kind(#[trigger] g[i]) is Some implies {
        &&& slot_of(m2, v2, a2, header_kind(g[i])->0) is Some
        &&& slot_of(m2, v2, a2, header_kind(g[i])->0)->0.body == g[i].body
    } by {
        let k = header_kind(g[i])->0;
        assert(slot_of(m2, v2, a2, k) == if Some(k) == header_kind(t) {
            cache_update(slot_of(m, v, a, k), t).0
        } else {
            slot_of(m, v, a, k)
        });
        if i < f.len() {
            assert(g[i] == f[i]);
        }
    }
}

/// The three replayed headers and a keyframe carry one header of each kind.
proof fn lemma_replay_matches(m: TagView, v: TagView, a: TagView, k: TagView)
    requires
        is_metadata(m) && is_avc_sequence_header(v) && is_aac_sequence_header(a) && is_keyframe(k),
    ensures
        matches_slots(Some(m), Some(v), Some(a), seq![m, v, a].push(k)),
        headers_consistent(seq![m, v, a]),
        headers_consistent(seq![m, v, a].push(k)),
{
    lemma_metadata_is_script(v);
    lemma_metadata_is_script(a);
    lemma_keyframe_not_header(k);
    let g = seq![m, v, a].push(k);
    assert(header_kind(g[0]) == Some(HeaderKind::OnMetaData));
    assert(header_kind(g[1]) == Some(HeaderKind::AvcSequenceHeader));
    assert(header_kind(g[2]) == Some(HeaderKind::AacSequenceHeader));
    assert(header_kind(g[3]) is None);
    lemma_matches_consistent(Some(m), Some(v), Some(a), g);
    let h = seq![m, v, a];
    assert forall|i: int, j: int| 0 <= i < h.len() && 0 <= j < h.len() implies same_kind_same_body(
        #[trigger] h[i], #[trigger] h[j]) by {
        assert(h[i] == g[i] && h[j] == g[j]);
        assert(same_kind_same_body(g[i], g[j]));
    }
}

proof fn lemma_apply_concat(files: Seq<Seq<TagView>>, a: Seq<EmitView>, b: Seq<EmitView>)
    ensures
        apply_emits(files, a + b) == apply_emits(apply_emits(files, a), b),
    decreases b.len(),
{
    if b.len() == 0 {
        assert(a + b =~= a);
    } else {
        assert((a + b).drop_last() =~= a + b.drop_last());
        lemma_apply_concat(files, a, b.drop_last());
    }
}

proof fn lemma_emit_views_push(v: Seq<Emit>, e: Emit)
    ensures
        emit_views(v.push(e)) == emit_views(v).push(e@),
{
    assert(emit_views(v.push(e)) =~= emit_views(v).push(e@));
}

/// Hands out a write for every tag of `taken`, in order, into the last file.
fn flush_writes(
    taken: &Vec<RawTag>,
    out: &mut Vec<Emit>,
    files: Ghost<Seq<Seq<TagView>>>,
    kept: Ghost<Seq<TagView>>,
    received: Ghost<Seq<TagView>>,
    f0: Ghost<Seq<Seq<TagView>>>,
) -> (r: Ghost<Seq<Seq<TagView>>>)
    requires
        files@.len() >= 1,
        files_start_well(files@),
        files_from_input(files@, received@),
        kept@ == content(files@) + views(taken@),
        forall|k: int| 0 <= k < taken@.len() ==> received@.contains(#[trigger] views(taken@)[k]),
        files@.len() > 1 ==> taken@.len() > 0 && is_keyframe(taken@[0]@),
        files@.len() > 1 && files@.last().len() == 3 ==> taken@.len() > 0,
        files@ == apply_emits(f0@, emit_views(old(out)@)),
    ensures
        emit_views(final(out)@) == emit_views(old(out)@) + writes(views(taken@)),
        r@ == apply_emits(f0@, emit_views(final(out)@)),
        r@ == files@.update(files@.len() - 1, files@.last() + views(taken@)),
        content(r@) == kept@,
        files_start_well(r@),
        files_from_input(r@, received@),
        r@.len() > 1 ==> r@.last().len() > 3,
{
    let ghost mut cur = files@;
    let ghost vt = views(taken@);
    let ghost n = files@.len() - 1;
    let mut i: usize = 0;
    assert(writes(vt.take(0)) =~= Seq::<EmitView>::empty());
    assert(emit_views(out@) =~= emit_views(old(out)@) + writes(vt.take(0)));
    assert(content(cur) + vt.take(0) =~= content(cur));
    assert(cur =~= files@.update(n, files@.last() + vt.take(0)));
    while i < taken.len()
        invariant
            vt == views(taken@),
            n == files@.len() - 1,
            i <= taken@.len(),
            kept@ == content(files@) + vt,
            forall|k: int| 0 <= k < taken@.len() ==> received@.contains(#[trigger] views(taken@)[k]),
            cur.len() == files@.len(),
            cur.len() >= 1,
            cur == files@.update(n, files@.last() + vt.take(i as int)),
            files_start_well(cur),
            files_from_input(cur, received@),
            content(cur) == content(files@) + vt.take(i as int),
            cur == apply_emits(f0@, emit_views(out@)),
            emit_views(out@) == emit_views(old(out)@) + writes(vt.take(i as int)),
            files@.len() > 1 ==> taken@.len() > 0 && is_keyframe(taken@[0]@),
            i == 0 ==> cur == files@,
            i > 0 && cur.len() > 1 ==> cur.last().len() > 3,
            files@.len() > 1 && files@.last().len() == 3 ==> taken@.len() > 0,
        decreases taken@.len() - i,
    {
        let t = copy_tag(&taken[i]);
        proof {
            assert(vt[i as int] == taken@[i as int]@);
            assert(received@.contains(vt[i as int]));
            lemma_write(cur, received@, t@);
            lemma_apply_push(f0@, emit_views(out@), EmitView::Write(t@));
            lemma_emit_views_push(out@, Emit::Write(t));
            assert(vt.take(i + 1) =~= vt.take(i as int).push(t@));
            assert(writes(vt.take(i + 1)) =~= writes(vt.take(i as int)).push(EmitView::Write(t@)));
            assert((files@.last() + vt.take(i as int)).push(t@) =~= files@.last() + vt.take(i + 1));
            cur = apply_emit(cur, EmitView::Write(t@));
            assert(cur =~= files@.update(n, files@.last() + vt.take(i + 1)));
        }
        out.push(Emit::Write(t));
        i += 1;
        proof {
            assert(emit_views(out@) =~= emit_views(old(out)@) + writes(vt.take(i as int)));
        }
    }
    assert(vt.take(i as int) =~= vt);
    Ghost(cur)
}

/// Counts a tag against the policy: its size and how far time moved.
fn account_tag(segment: &mut Segmentable, prev: &mut Option<u32>, h: &TagHeader)
    ensures
        *final(segment) == account(*old(segment), *old(prev), *h),
        *final(prev) == Some(h.timestamp),
{
    segment.increase_size(15 + h.data_size as u64);
    let step: u64 = match *prev {
        Some(p) => if h.timestamp > p { (h.timestamp - p) as u64 } else { 0 },
        None => 0,
    };
    segment.increase_time(step);
    *prev = Some(h.timestamp);
}

/// Stores a header in its cache slot unless the slot holds the same payload;
/// says whether the slot held a different one.
fn update_slot(slot: &mut Option<RawTag>, t: &RawTag) -> (changed: bool)
    ensures
        (opt_view(*final(slot)), changed) == cache_update(opt_view(*old(slot)), t@),
        *final(slot) == *old(slot) || opt_view(*final(slot)) == Some(t@),
{
    let same = match slot {
        Some(c) => Some(bytes_equal(&c.body, &t.body)),
        None => None,
    };
    match same {
        None => {
            *slot = Some(copy_tag(t));
            false
        },
        Some(true) => false,
        Some(false) => {
            *slot = Some(copy_tag(t));
            true
        },
    }
}

fn is_on_meta_data_name(name: &Vec<u8>) -> (r: bool)
    ensures
        r == (name@ == on_meta_data_name()),
{
    let expected: Vec<u8> = vec![0x6fu8, 0x6eu8, 0x4du8, 0x65u8, 0x74u8, 0x61u8, 0x44u8, 0x61u8, 0x74u8, 0x61u8];
    assert(expected@ =~= on_meta_data_name());
    bytes_equal(name, &expected)
}

/// Whether a parsed tag is a keyframe, and which header it is.
fn classify(t: &RawTag, d: &TagDataHeader) -> (r: (bool, Option<HeaderKind>))
    requires
        tag_error(t@) is None,
        payload_matches(t.header.tag_type, t.header.data_size as nat, t.body@, *d),
    ensures
        r.0 == is_keyframe(t@),
        r.1 == header_kind(t@),
{
    proof {
        reveal(is_metadata);
    }
    match d {
        TagDataHeader::Audio { sound_format, packet_type, .. } => {
            let aac = match packet_type {
                Some(AACPacketType::SequenceHeader) => true,
                _ => false,
            };
            (false, if aac { Some(HeaderKind::AacSequenceHeader) } else { None })
        },
        TagDataHeader::Video { frame_type, packet_type, .. } => {
            let avc = match packet_type {
                Some(AVCPacketType::SequenceHeader) => true,
                _ => false,
            };
            let key = match frame_type {
                FrameType::Key => true,
                _ => false,
            };
            (key && !avc, if avc { Some(HeaderKind::AvcSequenceHeader) } else { None })
        },
        TagDataHeader::Script(s) => {
            let meta = is_on_meta_data_name(&s.name);
            proof {
                let b = t.body@;
                let n = b[1] as int * 256 + b[2] as int;
                assert(s.name@ == b.subrange(3, 3 + n));
                if meta {
                    assert(s.name@.len() == 10);
                    assert(b[1] == 0 && b[2] == 10);
                    assert(b.subrange(3, 13) == on_meta_data_name());
                } else if is_metadata(t@) {
                    assert(n == 10);
                    assert(s.name@ =~= on_meta_data_name());
                }
            }
            (false, if meta { Some(HeaderKind::OnMetaData) } else { None })
        },
    }
}

/// Writing a run of tags into the last file appends them to the content.
pub proof fn lemma_flush(files: Seq<Seq<TagView>>, input: Seq<TagView>, vt: Seq<TagView>)
    requires
        files.len() >= 1,
        files_start_well(files),
        files_from_input(files, input),
        forall|k: int| 0 <= k < vt.len() ==> input.contains(#[trigger] vt[k]),
        files.len() > 1 && files.last().len() == 3 && vt.len() > 0 ==> is_keyframe(vt[0]),
    ensures
        apply_emits(files, writes(vt)) == files.update(files.len() - 1, files.last() + vt),
        apply_emits(files, writes(vt)).len() == files.len(),
        apply_emits(files, writes(vt)).last().len() == files.last().len() + vt.len(),
        content(apply_emits(files, writes(vt))) == content(files) + vt,
        files_start_well(apply_emits(files, writes(vt))),
        files_from_input(apply_emits(files, writes(vt)), input),
    decreases vt.len(),
{
    if vt.len() == 0 {
        assert(writes(vt) =~= Seq::<EmitView>::empty());
        assert(content(files) + vt =~= content(files));
        assert(files.last() + vt =~= files.last());
        assert(files.update(files.len() - 1, files.last()) =~= files);
    } else {
        let pre = vt.drop_last();
        assert forall|k: int| 0 <= k < pre.len() implies input.contains(#[trigger] pre[k]) by {
            assert(pre[k] == vt[k]);
        }
        lemma_flush(files, input, pre);
        let f1 = apply_emits(files, writes(pre));
        assert(writes(vt).drop_last() =~= writes(pre));
        assert(writes(vt).last() == EmitView::Write(vt.last()));
        assert(input.contains(vt[vt.len() - 1]));
        lemma_write(f1, input, vt.last());
        assert((files.last() + pre).push(vt.last()) =~= files.last() + vt);
        assert(apply_emits(files, writes(vt)) =~= files.update(files.len() - 1, files.last() + vt));
        assert(content(files) + pre + seq![vt.last()] =~= content(files) + vt);
        assert((content(files) + pre).push(vt.last()) =~= content(files) + pre + seq![vt.last()]);
    }
}

/// Whether a header only updates the cache, over the slots and the flag.
pub open spec fn old_self_defers(
    m: Option<TagView>,
    v: Option<TagView>,
    a: Option<TagView>,
    create_new: bool,
    t: TagView,
) -> bool {
    header_kind(t) matches Some(k) && (create_new || cache_update(slot_of(m, v, a, k), t).1)
}

/// The re-muxer's state.
pub struct Remuxer {
    pub segment: Segmentable,
    pub on_meta_data: Option<RawTag>,
    pub h264_sequence_header: Option<RawTag>,
    pub aac_sequence_header: Option<RawTag>,
    /// Tags since the last keyframe, the keyframe first.
    pub pending: Vec<RawTag>,
    /// A cached header changed: the next keyframe starts a new file, and
    /// until then headers only update the cache.
    pub create_new: bool,
    /// A keyframe has arrived since the current file was opened.
    pub has_keyframe: bool,
    pub prev_timestamp: Option<u32>,
    /// Refuse a tag whose timestamp is below the previous tag's, rather
    /// than take it (players mostly cope with small jitter).
    pub reject_non_monotonic: bool,
    /// Every tag accepted so far.
    pub input: Ghost<Seq<TagView>>,
    /// The accepted tags that stay in the stream: all but the headers that
    /// arrived while a header change waited for the next file, which that
    /// file's replay carries instead.
    pub kept: Ghost<Seq<TagView>>,
    /// Some header was held back that way.
    pub header_changed: Ghost<bool>,
    /// Every file opened so far, with the tags handed out for it.
    pub files: Ghost<Seq<Seq<TagView>>>,
}

impl Remuxer {
    pub open spec fn cache_wf(&self) -> bool {
        &&& (self.on_meta_data matches Some(t) ==> is_metadata(t@) && self.input@.contains(t@) && framed(t@))
        &&& (self.h264_sequence_header matches Some(t) ==>
            is_avc_sequence_header(t@) && self.input@.contains(t@) && framed(t@))
        &&& (self.aac_sequence_header matches Some(t) ==>
            is_aac_sequence_header(t@) && self.input@.contains(t@) && framed(t@))
    }

    /// The cached headers.
    pub open spec fn slot(&self, k: HeaderKind) -> Option<TagView> {
        slot_of(opt_view(self.on_meta_data), opt_view(self.h264_sequence_header), opt_view(self.aac_sequence_header), k)
    }

    pub open spec fn matches_cache(&self, f: Seq<TagView>) -> bool {
        matches_slots(opt_view(self.on_meta_data), opt_view(self.h264_sequence_header), opt_view(self.aac_sequence_header), f)
    }

    /// A header that only updates the cache: a change is waiting, or this
    /// header brings one.
    pub open spec fn defers(&self, t: TagView) -> bool {
        header_kind(t) matches Some(k) && (self.create_new || cache_update(self.slot(k), t).1)
    }

    /// The invariant of every state.
    pub open spec fn wf(&self) -> bool {
        let files = self.files@;
        let pending = views(self.pending@);
        &&& files.len() >= 1
        &&& content(files) + pending == self.kept@
        &&& (!self.header_changed@ ==> self.kept@ == self.input@)
        &&& forall|k: int| 0 <= k < self.kept@.len() ==> self.input@.contains(#[trigger] self.kept@[k])
        &&& files_start_well(files)
        &&& files_from_input(files, self.input@)
        &&& self.cache_wf()
        &&& forall|k: int| 0 <= k < self.input@.len() ==> framed(#[trigger] self.input@[k])
        &&& (files.len() > 1 ==> self.has_keyframe)
        &&& (self.has_keyframe ==> pending.len() > 0 && is_keyframe(pending[0]))
        &&& (files.len() > 1 && files.last().len() == 3 ==> pending.len() > 0)
        &&& forall|i: int| 0 <= i < files.len() ==> headers_consistent(#[trigger] files[i])
        &&& headers_consistent(files.last() + pending)
        &&& (!self.create_new ==> self.matches_cache(files.last() + pending))
    }

    /// Whether the policy refuses a tag with this timestamp.
    pub open spec fn refuses_timestamp(&self, ts: u32) -> bool {
        self.reject_non_monotonic && (self.prev_timestamp matches Some(p) && ts < p)
    }

    /// Whether a keyframe arriving now starts a new file: a header change
    /// waits, or the policy is due and the current file already holds a
    /// keyframe.
    pub open spec fn rotation_due(&self) -> bool {
        self.create_new || (self.has_keyframe && needed_spec(self.segment))
    }

    /// The first header missing from the cache, in replay order.
    pub open spec fn missing_header(&self) -> Option<HeaderKind> {
        if self.on_meta_data is None {
            Some(HeaderKind::OnMetaData)
        } else if self.h264_sequence_header is None {
            Some(HeaderKind::AvcSequenceHeader)
        } else if self.aac_sequence_header is None {
            Some(HeaderKind::AacSequenceHeader)
        } else {
            None
        }
    }

    /// The instructions that start a new file: open it, then replay the
    /// cached headers.
    pub open spec fn replay_spec(&self) -> Seq<EmitView> {
        seq![
            EmitView::NewFile,
            EmitView::Write(self.on_meta_data->0@),
            EmitView::Write(self.h264_sequence_header->0@),
            EmitView::Write(self.aac_sequence_header->0@),
        ]
    }

    /// The instructions that a keyframe brings: write the buffered tags,
    /// then open a new file and replay the headers if one is due.
    pub open spec fn keyframe_emits(&self) -> Seq<EmitView> {
        writes(views(self.pending@)) + if self.rotation_due() { self.replay_spec() } else { seq![] }
    }

    /// Takes one received tag.
    ///
    /// A tag whose payload or framing is broken is refused, as is one whose
    /// timestamp goes backwards where the policy says so, and a keyframe
    /// that must open a new file while a sequence header is still unknown;
    /// the state is then unchanged. Otherwise a keyframe first releases the
    /// tags buffered since the previous keyframe into the current file,
    /// then, where a new file is due, opens one that starts with the cached
    /// headers; it then starts the buffer anew. A header that changes its
    /// cache slot, and every header after it until that new file, only
    /// updates the cache: it reaches the new file through the replay and
    /// never the current one. Any other tag joins the buffer.
    pub fn push_tag(&mut self, t: RawTag) -> (r: Result<Vec<Emit>, RemuxError>)
        requires
            old(self).wf(),
        ensures
            final(self).wf(),
            match r {
                Err(RemuxError::Parse(e)) => tag_error(t@) == Some(e) && *final(self) == *old(self),
                Err(RemuxError::NonMonotonicTimestamp { previous, current }) => {
                    &&& tag_error(t@) is None
                    &&& old(self).refuses_timestamp(t.header.timestamp)
                    &&& old(self).prev_timestamp == Some(previous) && current == t.header.timestamp
                    &&& *final(self) == *old(self)
                },
                Err(RemuxError::MissingSequenceHeader(k)) => {
                    &&& tag_error(t@) is None
                    &&& !old(self).refuses_timestamp(t.header.timestamp)
                    &&& is_keyframe(t@) && old(self).rotation_due()
                    &&& old(self).missing_header() == Some(k)
                    &&& *final(self) == *old(self)
                },
                Ok(es) => {
                    &&& tag_error(t@) is None
                    &&& !old(self).refuses_timestamp(t.header.timestamp)
                    &&& final(self).reject_non_monotonic == old(self).reject_non_monotonic
                    &&& !(is_keyframe(t@) && old(self).rotation_due() && old(self).missing_header() is Some)
                    &&& final(self).input@ == old(self).input@.push(t@)
                    &&& final(self).kept@ == if old(self).defers(t@) { old(self).kept@ } else { old(self).kept@.push(t@) }
                    &&& final(self).header_changed@ == (old(self).header_changed@ || old(self).defers(t@))
                    &&& final(self).files@ == apply_emits(old(self).files@, emit_views(es@))
                    &&& emit_views(es@) == if is_keyframe(t@) { old(self).keyframe_emits() } else { seq![] }
                    &&& views(final(self).pending@) == if is_keyframe(t@) {
                        seq![t@]
                    } else if old(self).defers(t@) {
                        views(old(self).pending@)
                    } else {
                        views(old(self).pending@).push(t@)
                    }
                    &&& final(self).segment == if is_keyframe(t@) && old(self).rotation_due() {
                        account(reset_spec(old(self).segment), old(self).prev_timestamp, t.header)
                    } else {
                        account(old(self).segment, old(self).prev_timestamp, t.header)
                    }
                    &&& final(self).prev_timestamp == Some(t.header.timestamp)
                    &&& final(self).has_keyframe == (old(self).has_keyframe || is_keyframe(t@))
                    &&& forall|k: HeaderKind| #[trigger] final(self).slot(k) == if header_kind(t@) == Some(k) {
                        cache_update(old(self).slot(k), t@).0
                    } else {
                        old(self).slot(k)
                    }
                    &&& final(self).create_new == if is_keyframe(t@) {
                        false
                    } else {
                        old(self).create_new || (header_kind(t@) matches Some(k) && cache_update(old(self).slot(k), t@).1)
                    }
                },
            },
    {
        let d = match parse_tag_data(t.header.tag_type, t.header.data_size, t.body.as_slice()) {
            Ok(d) => d,
            Err(e) => return Err(RemuxError::Parse(e)),
        };
        if t.body.len() > t.header.data_size as usize || t.trailer.len() > 4 || t.header.data_size >= 0x100_0000
            || t.header.stream_id >= 0x100_0000 {
            return Err(RemuxError::Parse(ParseError::Malformed));
        }
        if t.trailer.len() < 4 {
            return Err(RemuxError::Parse(ParseError::Incomplete(4 - t.trailer.len())));
        }
        if self.reject_non_monotonic {
            if let Some(p) = self.prev_timestamp {
                if t.header.timestamp < p {
                    return Err(RemuxError::NonMonotonicTimestamp { previous: p, current: t.header.timestamp });
                }
            }
        }
        let (keyframe, kind) = classify(&t, &d);
        let ghost old_self = *self;
        proof {
            assert(framed(t@));
            lemma_keyframe_not_header(t@);
            lemma_contains_last(self.input@, t@);
            lemma_from_input_grow(self.files@, self.input@, t@);
            assert forall|k: int| 0 <= k < self.input@.push(t@).len() implies framed(#[trigger] self.input@.push(t@)[k]) by {
                if k < self.input@.len() {
                    assert(self.input@.push(t@)[k] == self.input@[k]);
                }
            }
            assert forall|k: int| 0 <= k < self.kept@.len() implies self.input@.push(t@).contains(#[trigger] self.kept@[k]) by {
                lemma_contains_grow(self.input@, t@, self.kept@[k]);
            }
            if let Some(c) = &self.on_meta_data { lemma_contains_grow(self.input@, t@, c@); }
            if let Some(c) = &self.h264_sequence_header { lemma_contains_grow(self.input@, t@, c@); }
            if let Some(c) = &self.aac_sequence_header { lemma_contains_grow(self.input@, t@, c@); }
        }
        if keyframe {
            self.push_keyframe(t)
        } else {
            self.push_other(t, kind);
            Ok(Vec::new())
        }
    }

    fn push_keyframe(&mut self, t: RawTag) -> (r: Result<Vec<Emit>, RemuxError>)
        requires
            old(self).wf(),
            tag_error(t@) is None,
            framed(t@),
            is_keyframe(t@),
            header_kind(t@) is None,
            !old(self).refuses_timestamp(t.header.timestamp),
            old(self).input@.push(t@).contains(t@),
            files_from_input(old(self).files@, old(self).input@.push(t@)),
            forall|k: int| 0 <= k < old(self).input@.push(t@).len() ==> framed(#[trigger] old(self).input@.push(t@)[k]),
            forall|k: int| 0 <= k < old(self).kept@.len() ==> old(self).input@.push(t@).contains(#[trigger] old(self).kept@[k]),
            old(self).on_meta_data matches Some(c) ==> old(self).input@.push(t@).contains(c@),
            old(self).h264_sequence_header matches Some(c) ==> old(self).input@.push(t@).contains(c@),
            old(self).aac_sequence_header matches Some(c) ==> old(self).input@.push(t@).contains(c@),
        ensures
            final(self).wf(),
            match r {
                Err(RemuxError::MissingSequenceHeader(k)) => {
                    &&& old(self).rotation_due()
                    &&& old(self).missing_header() == Some(k)
                    &&& *final(self) == *old(self)
                },
                Err(_) => false,
                Ok(es) => {
                    &&& !(old(self).rotation_due() && old(self).missing_header() is Some)
                    &&& final(self).reject_non_monotonic == old(self).reject_non_monotonic
                    &&& final(self).input@ == old(self).input@.push(t@)
                    &&& final(self).kept@ == old(self).kept@.push(t@)
                    &&& final(self).header_changed == old(self).header_changed
                    &&& final(self).files@ == apply_emits(old(self).files@, emit_views(es@))
                    &&& emit_views(es@) == old(self).keyframe_emits()
                    &&& views(final(self).pending@) == seq![t@]
                    &&& final(self).segment == if old(self).rotation_due() {
                        account(reset_spec(old(self).segment), old(self).prev_timestamp, t.header)
                    } else {
                        account(old(self).segment, old(self).prev_timestamp, t.header)
                    }
                    &&& final(self).prev_timestamp == Some(t.header.timestamp)
                    &&& final(self).has_keyframe
                    &&& final(self).on_meta_data == old(self).on_meta_data
                    &&& final(self).h264_sequence_header == old(self).h264_sequence_header
                    &&& final(self).aac_sequence_header == old(self).aac_sequence_header
                    &&& !final(self).create_new
                },
            },
    {
        let rotate = self.create_new || (self.has_keyframe && self.segment.needed());
        let replay = if rotate {
            let m = match &self.on_meta_data {
                Some(c) => copy_tag(c),
                None => return Err(RemuxError::MissingSequenceHeader(HeaderKind::OnMetaData)),
            };
            let v = match &self.h264_sequence_header {
                Some(c) => copy_tag(c),
                None => return Err(RemuxError::MissingSequenceHeader(HeaderKind::AvcSequenceHeader)),
            };
            let a = match &self.aac_sequence_header {
                Some(c) => copy_tag(c),
                None => return Err(RemuxError::MissingSequenceHeader(HeaderKind::AacSequenceHeader)),
            };
            Some((m, v, a))
        } else {
            None
        };
        let ghost old_files = self.files@;
        let ghost vt = views(self.pending@);
        let ghost n = old_files.len() - 1;
        proof {
            let c = content(self.files@);
            assert forall|k: int| 0 <= k < vt.len() implies self.input@.contains(#[trigger] vt[k]) by {
                assert(self.kept@[c.len() + k] == vt[k]);
            }
        }
        let mut out: Vec<Emit> = Vec::new();
        let mut taken: Vec<RawTag> = Vec::new();
        std::mem::swap(&mut taken, &mut self.pending);
        let ghost f0 = self.files@;
        proof {
            assert(emit_views(out@) =~= Seq::<EmitView>::empty());
        }
        let flushed = flush_writes(&taken, &mut out, self.files, Ghost(self.kept@), Ghost(self.input@), Ghost(f0));
        self.files = flushed;
        proof {
            assert forall|i: int| 0 <= i < self.files@.len() implies headers_consistent(#[trigger] self.files@[i]) by {
                if i != n {
                    assert(self.files@[i] == old_files[i]);
                }
            }
        }
        if let Some((m, v, a)) = replay {
            let ghost before = emit_views(out@);
            let ghost replay_es = seq![EmitView::NewFile, EmitView::Write(m@), EmitView::Write(v@), EmitView::Write(a@)];
            proof {
                lemma_new_file(self.files@, self.input@, m@, v@, a@);
                lemma_apply_concat(f0, before, replay_es);
                lemma_replay_matches(m@, v@, a@, t@);
                let f2 = self.files@.push(seq![m@, v@, a@]);
                assert forall|i: int| 0 <= i < f2.len() implies headers_consistent(#[trigger] f2[i]) by {
                    if i < self.files@.len() {
                        assert(f2[i] == self.files@[i]);
                    }
                }
                self.files@ = f2;
            }
            out.push(Emit::NewFile);
            out.push(Emit::Write(m));
            out.push(Emit::Write(v));
            out.push(Emit::Write(a));
            proof {
                assert(emit_views(out@) =~= before + replay_es);
            }
            self.segment.reset();
            self.create_new = false;
        } else {
            proof {
                assert(self.files@.last() == old_files.last() + vt);
                lemma_push_plain(
                    opt_view(self.on_meta_data),
                    opt_view(self.h264_sequence_header),
                    opt_view(self.aac_sequence_header),
                    self.files@.last(),
                    t@,
                    true,
                );
            }
        }
        account_tag(&mut self.segment, &mut self.prev_timestamp, &t.header);
        proof {
            lemma_from_input_grow(self.files@, self.input@, t@);
            self.input@ = self.input@.push(t@);
            self.kept@ = self.kept@.push(t@);
        }
        let ghost tv = t@;
        let mut fresh: Vec<RawTag> = Vec::new();
        fresh.push(t);
        self.pending = fresh;
        proof {
            assert(views(self.pending@) =~= seq![tv]);
            assert(self.files@.last() + views(self.pending@) =~= self.files@.last().push(tv));
            assert(content(self.files@) + views(self.pending@) =~= self.kept@);
        }
        self.has_keyframe = true;
        Ok(out)
    }

    fn push_other(&mut self, t: RawTag, kind: Option<HeaderKind>)
        requires
            old(self).wf(),
            tag_error(t@) is None,
            framed(t@),
            !is_keyframe(t@),
            kind == header_kind(t@),
            old(self).input@.push(t@).contains(t@),
            files_from_input(old(self).files@, old(self).input@.push(t@)),
            forall|k: int| 0 <= k < old(self).input@.push(t@).len() ==> framed(#[trigger] old(self).input@.push(t@)[k]),
            forall|k: int| 0 <= k < old(self).kept@.len() ==> old(self).input@.push(t@).contains(#[trigger] old(self).kept@[k]),
            old(self).on_meta_data matches Some(c) ==> old(self).input@.push(t@).contains(c@),
            old(self).h264_sequence_header matches Some(c) ==> old(self).input@.push(t@).contains(c@),
            old(self).aac_sequence_header matches Some(c) ==> old(self).input@.push(t@).contains(c@),
        ensures
            final(self).wf(),
            final(self).reject_non_monotonic == old(self).reject_non_monotonic,
            final(self).input@ == old(self).input@.push(t@),
            final(self).kept@ == if old(self).defers(t@) { old(self).kept@ } else { old(self).kept@.push(t@) },
            final(self).header_changed@ == (old(self).header_changed@ || old(self).defers(t@)),
            final(self).files == old(self).files,
            views(final(self).pending@) == if old(self).defers(t@) {
                views(old(self).pending@)
            } else {
                views(old(self).pending@).push(t@)
            },
            final(self).segment == account(old(self).segment, old(self).prev_timestamp, t.header),
            final(self).prev_timestamp == Some(t.header.timestamp),
            final(self).has_keyframe == old(self).has_keyframe,
            forall|k: HeaderKind| #[trigger] final(self).slot(k) == if header_kind(t@) == Some(k) {
                cache_update(old(self).slot(k), t@).0
            } else {
                old(self).slot(k)
            },
            final(self).create_new == (old(self).create_new || (header_kind(t@) matches Some(k) && cache_update(
                old(self).slot(k),
                t@,
            ).1)),
    {
        let deferred: bool = match kind {
            Some(HeaderKind::OnMetaData) => {
                if update_slot(&mut self.on_meta_data, &t) {
                    self.create_new = true;
                }
                self.create_new
            },
            Some(HeaderKind::AvcSequenceHeader) => {
                if update_slot(&mut self.h264_sequence_header, &t) {
                    self.create_new = true;
                }
                self.create_new
            },
            Some(HeaderKind::AacSequenceHeader) => {
                if update_slot(&mut self.aac_sequence_header, &t) {
                    self.create_new = true;
                }
                self.create_new
            },
            None => false,
        };
        proof {
            assert(deferred == old_self_defers(
                opt_view(old(self).on_meta_data),
                opt_view(old(self).h264_sequence_header),
                opt_view(old(self).aac_sequence_header),
                old(self).create_new,
                t@,
            ));
        }
        account_tag(&mut self.segment, &mut self.prev_timestamp, &t.header);
        proof {
            self.input@ = self.input@.push(t@);
        }
        if deferred {
            proof {
                self.header_changed@ = true;
            }
        } else {
            let ghost pv = views(self.pending@);
            proof {
                let c = content(self.files@);
                assert(self.kept@.push(t@) =~= c + pv.push(t@));
                self.kept@ = self.kept@.push(t@);
                assert((self.files@.last() + pv).push(t@) =~= self.files@.last() + pv.push(t@));
                if kind is None {
                    lemma_push_plain(
                        opt_view(self.on_meta_data),
                        opt_view(self.h264_sequence_header),
                        opt_view(self.aac_sequence_header),
                        self.files@.last() + pv,
                        t@,
                        !self.create_new,
                    );
                } else {
                    lemma_push_header(
                        opt_view(old(self).on_meta_data),
                        opt_view(old(self).h264_sequence_header),
                        opt_view(old(self).aac_sequence_header),
                        opt_view(self.on_meta_data),
                        opt_view(self.h264_sequence_header),
                        opt_view(self.aac_sequence_header),
                        self.files@.last() + pv,
                        t@,
                    );
                    lemma_matches_consistent(
                        opt_view(self.on_meta_data),
                        opt_view(self.h264_sequence_header),
                        opt_view(self.aac_sequence_header),
                        (self.files@.last() + pv).push(t@),
                    );
                }
            }
            self.pending.push(t);
            proof {
                assert(views(self.pending@) =~= pv.push(t@));
            }
        }
    }

    /// Ends the stream: the tags buffered since the last keyframe go to the
    /// current file, so that the files then hold every tag kept in the
    /// stream, which are all tags received where no header changed.
    pub fn finish(self) -> (r: Vec<Emit>)
        requires
            self.wf(),
        ensures
            emit_views(r@) == writes(views(self.pending@)),
            content(apply_emits(self.files@, emit_views(r@))) == self.kept@,
            !self.header_changed@ ==> content(apply_emits(self.files@, emit_views(r@))) == self.input@,
            files_start_well(apply_emits(self.files@, emit_views(r@))),
            files_from_input(apply_emits(self.files@, emit_views(r@)), self.input@),
            forall|i: int| 0 <= i < apply_emits(self.files@, emit_views(r@)).len() ==>
                headers_consistent(#[trigger] apply_emits(self.files@, emit_views(r@))[i]),
    {
        let mut out: Vec<Emit> = Vec::new();
        let ghost vt = views(self.pending@);
        let ghost n = self.files@.len() - 1;
        proof {
            assert(emit_views(out@) =~= Seq::<EmitView>::empty());
            let c = content(self.files@);
            assert forall|k: int| 0 <= k < vt.len() implies self.input@.contains(#[trigger] vt[k]) by {
                assert(self.kept@[c.len() + k] == vt[k]);
            }
        }
        let flushed = flush_writes(&self.pending, &mut out, self.files, Ghost(self.kept@), Ghost(self.input@), Ghost(self.files@));
        proof {
            assert(emit_views(out@) =~= writes(views(self.pending@)));
            let f = flushed@;
            assert forall|i: int| 0 <= i < f.len() implies headers_consistent(#[trigger] f[i]) by {
                if i != n {
                    assert(f[i] == self.files@[i]);
                }
            }
        }
        out
    }

    /// Copies of the cached script tag, AVC and AAC sequence headers, each
    /// where one has been seen.
    pub fn snapshot_all(&self) -> (r: (Option<RawTag>, Option<RawTag>, Option<RawTag>))
        ensures
            opt_view(r.0) == opt_view(self.on_meta_data),
            opt_view(r.1) == opt_view(self.h264_sequence_header),
            opt_view(r.2) == opt_view(self.aac_sequence_header),
    {
        let m = match &self.on_meta_data {
            Some(t) => Some(copy_tag(t)),
            None => None,
        };
        let v = match &self.h264_sequence_header {
            Some(t) => Some(copy_tag(t)),
            None => None,
        };
        let a = match &self.aac_sequence_header {
            Some(t) => Some(copy_tag(t)),
            None => None,
        };
        (m, v, a)
    }

    /// A re-muxer whose caller has opened the first output file.
    pub fn new(segment: Segmentable, reject_non_monotonic: bool) -> (r: Self)
        ensures
            r.wf(),
            r.segment == segment,
            r.reject_non_monotonic == reject_non_monotonic,
            r.prev_timestamp is None,
            r.files@ == seq![Seq::<TagView>::empty()],
            r.input@ == Seq::<TagView>::empty(),
            r.kept@ == Seq::<TagView>::empty(),
            !r.header_changed@,
            r.pending@.len() == 0,
            r.on_meta_data is None,
            r.h264_sequence_header is None,
            r.aac_sequence_header is None,
            !r.create_new,
            !r.has_keyframe,
    {
        let ghost first: Seq<Seq<TagView>> = seq![Seq::empty()];
        let r = Remuxer {
            segment,
            on_meta_data: None,
            h264_sequence_header: None,
            aac_sequence_header: None,
            pending: Vec::new(),
            create_new: false,
            has_keyframe: false,
            prev_timestamp: None,
            reject_non_monotonic,
            input: Ghost(Seq::empty()),
            kept: Ghost(Seq::empty()),
            header_changed: Ghost(false),
            files: Ghost(first),
        };
        proof {
            assert(content(r.files@.drop_last()) == Seq::<TagView>::empty());
            assert(content(r.files@) =~= Seq::<TagView>::empty());
            assert(views(r.pending@) =~= Seq::<TagView>::empty());
            assert(r.files@.last() + views(r.pending@) =~= Seq::<TagView>::empty());
        }
        r
    }
}

/// A copy of a tag.
pub fn copy_tag(t: &RawTag) -> (r: RawTag)
    ensures
        r@ == t@,
{
    let body = t.body.clone();
    let trailer = t.trailer.clone();
    assert(body@ =~= t.body@);
    assert(trailer@ =~= t.trailer@);
    RawTag { header: t.header, body, trailer }
}

pub fn bytes_equal(a: &Vec<u8>, b: &Vec<u8>) -> (r: bool)
    ensures
        r == (a@ == b@),
{
    if a.len() != b.len() {
        return false;
    }
    let mut i: usize = 0;
    while i < a.len()
        invariant
            a@.len() == b@.len(),
            i <= a@.len(),
            forall|k: int| 0 <= k < i ==> a@[k] == b@[k],
        decreases a@.len() - i,
    {
        if a[i] != b[i] {
            return false;
        }
        i += 1;
    }
    assert(a@ =~= b@);
    true
}

} // verus!
