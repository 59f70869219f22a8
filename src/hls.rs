//! HLS capture decisions: which playlist entries are new, where segments
//! are fetched from, and when the output file is split.
use vstd::prelude::*;
use crate::segment::{needed_spec, sat_add, Segmentable};

verus! {

/// One entry of a media playlist.
pub struct MediaSegment {
    pub uri: String,
    /// The nominal duration, whole seconds.
    pub duration_secs: u64,
    /// Marked `#EXT-X-DISCONTINUITY`.
    pub discontinuity: bool,
}

pub struct MediaPlaylist {
    pub media_sequence: u64,
    pub segments: Vec<MediaSegment>,
}

pub enum Playlist {
    /// The URIs of the variant streams.
    Master(Vec<String>),
    Media(MediaPlaylist),
}

/// The model of a parsed playlist.
pub enum PlaylistView {
    Master(Seq<Seq<char>>),
    Media(u64, Seq<(Seq<char>, u64, bool)>),
}

pub open spec fn segment_view(s: MediaSegment) -> (Seq<char>, u64, bool) {
    (s.uri@, s.duration_secs, s.discontinuity)
}

pub open spec fn playlist_view(p: Option<Playlist>) -> Option<PlaylistView> {
    match p {
        Some(Playlist::Master(v)) => Some(PlaylistView::Master(v@.map_values(|s: String| s@))),
        Some(Playlist::Media(m)) => Some(PlaylistView::Media(
            m.media_sequence,
            m.segments@.map_values(|s: MediaSegment| segment_view(s)),
        )),
        None => None,
    }
}

pub open spec fn string_view(s: Option<String>) -> Option<Seq<char>> {
    match s {
        Some(s) => Some(s@),
        None => None,
    }
}

/// What m3u8-rs reads from playlist bytes.
pub uninterp spec fn playlist_of(b: Seq<u8>) -> Option<PlaylistView>;

/// The URL that a reference resolves to against a base URL: the base is
/// parsed as an absolute URL (`url::Url::parse`), then the reference is
/// joined to it (`url::Url::join`).
pub uninterp spec fn joined_url(base: Seq<char>, reference: Seq<char>) -> Option<Seq<char>>;

/// Relies on m3u8_rs::parse_playlist: reads a master or media playlist; the
/// result depends on the bytes alone. Durations are cut to whole seconds.
#[verifier::external_body]
fn parse_playlist_bytes(b: &[u8]) -> (r: Option<Playlist>)
    ensures
        playlist_view(r) == playlist_of(b@),
{
    match m3u8_rs::parse_playlist(b) {
        Ok((_, m3u8_rs::Playlist::MasterPlaylist(pl))) => Some(Playlist::Master(
            pl.variants.into_iter().map(|v| v.uri).collect(),
        )),
        Ok((_, m3u8_rs::Playlist::MediaPlaylist(pl))) => Some(Playlist::Media(MediaPlaylist {
            media_sequence: pl.media_sequence,
            segments: pl.segments.into_iter().map(|s| MediaSegment {
                uri: s.uri,
                duration_secs: s.duration as u64,
                discontinuity: s.discontinuity,
            }).collect(),
        })),
        Err(_) => None,
    }
}

/// Relies on url::Url::parse and url::Url::join: resolves a reference
/// against an absolute base URL; the result depends on the two strings alone.
#[verifier::external_body]
fn join_url(base: &str, reference: &str) -> (r: Option<String>)
    ensures
        string_view(r) == joined_url(base@, reference@),
{
    match url::Url::parse(base) {
        Ok(u) => match u.join(reference) {
            Ok(j) => Some(j.to_string()),
            Err(_) => None,
        },
        Err(_) => None,
    }
}

/// Where a fetched playlist leads.
pub enum PlaylistStep {
    /// A media playlist: its segments can be fetched.
    Media(MediaPlaylist),
    /// A master playlist: fetch this variant's media playlist next.
    Variant(String),
    /// Nothing usable.
    Unreadable,
}

/// The step for a parsed playlist fetched from `url`: a media playlist is
/// used as it is; a master playlist leads to its first variant, resolved
/// against `url`.
pub fn playlist_step(url: &str, parsed: Option<Playlist>) -> (r: PlaylistStep)
    ensures
        playlist_step_spec(url@, parsed, r),
{
    match parsed {
        Some(Playlist::Media(m)) => PlaylistStep::Media(m),
        Some(Playlist::Master(v)) => {
            if v.len() == 0 {
                PlaylistStep::Unreadable
            } else {
                match join_url(url, v[0].as_str()) {
                    Some(u) => PlaylistStep::Variant(u),
                    None => PlaylistStep::Unreadable,
                }
            }
        },
        None => PlaylistStep::Unreadable,
    }
}

/// Reads playlist bytes fetched from `url` and says where they lead.
pub fn read_playlist(url: &str, body: &[u8]) -> (r: PlaylistStep)
    ensures
        exists|p: Option<Playlist>| playlist_view(p) == playlist_of(body@) && #[trigger] playlist_step_spec(url@, p, r),
{
    let parsed = parse_playlist_bytes(body);
    let ghost p = parsed;
    let r = playlist_step(url, parsed);
    assert(playlist_step_spec(url@, p, r));
    r
}

/// The contract of `playlist_step`, as a predicate.
pub open spec fn playlist_step_spec(url: Seq<char>, parsed: Option<Playlist>, r: PlaylistStep) -> bool {
    match parsed {
        Some(Playlist::Media(m)) => r == PlaylistStep::Media(m),
        Some(Playlist::Master(v)) => if v@.len() == 0 {
            r is Unreadable
        } else {
            match joined_url(url, v@[0]@) {
                Some(u) => (r matches PlaylistStep::Variant(s) && s@ == u),
                None => r is Unreadable,
            }
        },
        None => r is Unreadable,
    }
}

/// What to do before fetching a segment.
#[derive(PartialEq, Eq, Structural, Clone, Copy, Debug)]
pub struct SegmentStart {
    /// Sequence numbers were skipped since the last segment taken.
    pub gap: bool,
    /// A discontinuity: open a new output file first.
    pub new_file: bool,
}

/// The first playlist index whose sequence number is beyond `prev`.
pub open spec fn first_new(prev: u64, ms: u64) -> int {
    if ms > prev { 0 } else { prev - ms + 1 }
}

/// The number of playlist indices whose sequence number fits in a u64.
pub open spec fn index_end(ms: u64, n: int) -> int {
    if n <= u64::MAX - ms + 1 { n } else { u64::MAX - ms + 1 }
}

/// Seconds as milliseconds, saturating.
pub open spec fn secs_to_millis(s: u64) -> u64 {
    if s * 1000 > u64::MAX { u64::MAX } else { (s * 1000) as u64 }
}

/// The state of an HLS capture.
pub struct HlsRecorder {
    /// The sequence number of the last segment taken; 0 before the first.
    pub previous_last_segment: u64,
    pub splitting: Segmentable,
}

impl HlsRecorder {
    pub fn new(splitting: Segmentable) -> (r: Self)
        ensures
            r.previous_last_segment == 0,
            r.splitting == splitting,
    {
        HlsRecorder { previous_last_segment: 0, splitting }
    }

    /// The indices of the playlist's segments not taken yet, in order: those
    /// whose sequence number (the media sequence plus the index) is beyond
    /// the last one taken.
    pub fn new_segments(&self, pl: &MediaPlaylist) -> (r: Vec<usize>)
        ensures
            r@.len() == if index_end(pl.media_sequence, pl.segments@.len() as int)
                > first_new(self.previous_last_segment, pl.media_sequence) {
                index_end(pl.media_sequence, pl.segments@.len() as int)
                    - first_new(self.previous_last_segment, pl.media_sequence)
            } else {
                0
            },
            forall|j: int| 0 <= j < r@.len() ==> r@[j] == first_new(self.previous_last_segment, pl.media_sequence) + j,
    {
        let ms = pl.media_sequence;
        let prev = self.previous_last_segment;
        let n = pl.segments.len();
        let room: u64 = u64::MAX - ms;
        let end: usize = if (n as u64) <= room || n == 0 {
            n
        } else {
            (room as usize) + 1
        };
        let mut r: Vec<usize> = Vec::new();
        if ms <= prev && prev - ms >= end as u64 {
            return r;
        }
        let start: usize = if ms > prev { 0 } else { (prev - ms + 1) as usize };
        let mut i: usize = start;
        while i < end
            invariant
                start <= i <= end,
                end == index_end(ms, n as int),
                start == first_new(prev, ms),
                r@.len() == i - start,
                forall|j: int| 0 <= j < r@.len() ==> r@[j] == start + j,
            decreases end - i,
        {
            r.push(i);
            i += 1;
        }
        r
    }

    /// Resolves the URIs of the given playlist entries against the media
    /// playlist's URL.
    pub fn segment_urls(media_url: &str, pl: &MediaPlaylist, indices: &Vec<usize>) -> (r: Vec<Option<String>>)
        requires
            forall|j: int| 0 <= j < indices@.len() ==> indices@[j] < pl.segments@.len(),
        ensures
            r@.len() == indices@.len(),
            forall|j: int| 0 <= j < r@.len() ==>
                string_view(#[trigger] r@[j]) == joined_url(media_url@, pl.segments@[indices@[j] as int].uri@),
    {
        let mut r: Vec<Option<String>> = Vec::new();
        let mut j: usize = 0;
        while j < indices.len()
            invariant
                j <= indices@.len(),
                r@.len() == j,
                forall|j: int| 0 <= j < indices@.len() ==> indices@[j] < pl.segments@.len(),
                forall|k: int| 0 <= k < j ==>
                    string_view(#[trigger] r@[k]) == joined_url(media_url@, pl.segments@[indices@[k] as int].uri@),
            decreases indices@.len() - j,
        {
            let idx = indices[j];
            r.push(join_url(media_url, pl.segments[idx].uri.as_str()));
            j += 1;
        }
        r
    }

    /// Before fetching segment `seq`: a gap is reported where numbers were
    /// skipped since a segment was last taken; a discontinuity asks for a new
    /// file and resets the policy.
    pub fn begin_segment(&mut self, seq: u64, discontinuity: bool) -> (r: SegmentStart)
        ensures
            r.gap == (old(self).previous_last_segment > 0 && seq > old(self).previous_last_segment + 1),
            r.new_file == discontinuity,
            final(self).previous_last_segment == old(self).previous_last_segment,
            final(self).splitting == if discontinuity {
                Segmentable { current_size: 0, current_time: 0, start_time: 0, ..old(self).splitting }
            } else {
                old(self).splitting
            },
    {
        let prev = self.previous_last_segment;
        let gap = prev > 0 && seq > prev && seq - prev > 1;
        if discontinuity {
            self.splitting.reset();
        }
        SegmentStart { gap, new_file: discontinuity }
    }

    /// After segment `seq` was appended: counts its bytes and nominal
    /// duration (in milliseconds, as the policy counts time); where the policy is then due, the caller opens a new file
    /// and the policy starts over.
    pub fn end_segment(&mut self, seq: u64, length: u64, duration_secs: u64) -> (split: bool)
        ensures
            final(self).previous_last_segment == seq,
            ({
                let s = Segmentable {
                    current_size: sat_add(old(self).splitting.current_size, length),
                    current_time: sat_add(old(self).splitting.current_time, secs_to_millis(duration_secs)),
                    ..old(self).splitting
                };
                &&& split == needed_spec(s)
                &&& final(self).splitting == if split {
                    Segmentable { current_size: 0, current_time: 0, start_time: 0, ..s }
                } else {
                    s
                }
            }),
    {
        self.splitting.increase_size(length);
        let millis: u64 = if duration_secs > u64::MAX / 1000 { u64::MAX } else { duration_secs * 1000 };
        self.splitting.increase_time(millis);
        let split = self.splitting.needed();
        if split {
            self.splitting.reset();
        }
        self.previous_last_segment = seq;
        split
    }
}

} // verus!
