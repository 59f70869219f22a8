use biliup::hls::{playlist_step, read_playlist, HlsRecorder, MediaPlaylist, MediaSegment, Playlist, PlaylistStep, SegmentStart};
use biliup::segment::Segmentable;

fn playlist(ms: u64, n: usize) -> MediaPlaylist {
    MediaPlaylist {
        media_sequence: ms,
        segments: (0..n)
            .map(|i| MediaSegment { uri: format!("seg{}.ts", ms + i as u64), duration_secs: 2, discontinuity: false })
            .collect(),
    }
}

#[test]
fn new_segments_skip_taken_ones() {
    let mut h = HlsRecorder::new(Segmentable::new(None, None));
    assert_eq!(h.new_segments(&playlist(5, 3)), vec![0, 1, 2]);
    h.end_segment(6, 10, 2);
    assert_eq!(h.new_segments(&playlist(5, 3)), vec![2]);
    h.end_segment(9, 10, 2);
    assert_eq!(h.new_segments(&playlist(5, 3)), Vec::<usize>::new());
    assert_eq!(h.new_segments(&playlist(u64::MAX - 1, 4)), vec![0, 1]);
}

#[test]
fn gaps_and_discontinuities() {
    let mut h = HlsRecorder::new(Segmentable::new(None, Some(1000)));
    assert_eq!(h.begin_segment(10, false), SegmentStart { gap: false, new_file: false });
    assert!(!h.end_segment(10, 600, 2));
    assert_eq!(h.begin_segment(11, false), SegmentStart { gap: false, new_file: false });
    assert!(h.end_segment(11, 600, 2));
    assert_eq!(h.splitting.current_size, 0);
    assert_eq!(h.begin_segment(14, true), SegmentStart { gap: true, new_file: true });
    h.end_segment(14, 10, 3);
    assert_eq!(h.splitting.current_time, 3000);
    assert_eq!(h.previous_last_segment, 14);
}

#[test]
fn media_playlist_is_read() {
    let text = b"#EXTM3U\n#EXT-X-TARGETDURATION:4\n#EXT-X-MEDIA-SEQUENCE:42\n#EXTINF:3.9,\na.ts\n#EXT-X-DISCONTINUITY\n#EXTINF:4.0,\nb.ts\n";
    match read_playlist("http://host/live/index.m3u8", text) {
        PlaylistStep::Media(m) => {
            assert_eq!(m.media_sequence, 42);
            assert_eq!(m.segments.len(), 2);
            assert_eq!(m.segments[0].uri, "a.ts");
            assert_eq!(m.segments[0].duration_secs, 3);
            assert!(!m.segments[0].discontinuity);
            assert!(m.segments[1].discontinuity);
        }
        _ => panic!("not a media playlist"),
    }
}

#[test]
fn master_playlist_leads_to_first_variant() {
    let text = b"#EXTM3U\n#EXT-X-STREAM-INF:BANDWIDTH=1280000\nlow/index.m3u8\n#EXT-X-STREAM-INF:BANDWIDTH=2560000\nhigh/index.m3u8\n";
    match read_playlist("http://host/live/master.m3u8", text) {
        PlaylistStep::Variant(u) => assert_eq!(u, "http://host/live/low/index.m3u8"),
        _ => panic!("not a master playlist"),
    }
}

#[test]
fn playlist_step_cases() {
    assert!(matches!(playlist_step("http://h/a.m3u8", None), PlaylistStep::Unreadable));
    assert!(matches!(playlist_step("http://h/a.m3u8", Some(Playlist::Master(vec![]))), PlaylistStep::Unreadable));
    match playlist_step("http://h/a.m3u8", Some(Playlist::Media(playlist(3, 1)))) {
        PlaylistStep::Media(m) => assert_eq!(m.media_sequence, 3),
        _ => panic!("not media"),
    }
    assert!(matches!(playlist_step("not a url", Some(Playlist::Master(vec!["x".into()]))), PlaylistStep::Unreadable));
}

#[test]
fn segment_urls_resolve() {
    let pl = playlist(7, 2);
    let urls = HlsRecorder::segment_urls("http://cdn.example/path/index.m3u8", &pl, &vec![1, 0]);
    assert_eq!(urls, vec![Some("http://cdn.example/path/seg8.ts".to_string()), Some("http://cdn.example/path/seg7.ts".to_string())]);
}

#[test]
fn test_url() {
    let pl = MediaPlaylist {
        media_sequence: 0,
        segments: vec![MediaSegment { uri: "http://path.host/remote/resource.ts".into(), duration_secs: 1, discontinuity: false }],
    };
    let urls = HlsRecorder::segment_urls("h://host.path/to/remote/resource.m3u8", &pl, &vec![0]);
    assert_eq!(urls, vec![Some("http://path.host/remote/resource.ts".to_string())]);
    let rel = MediaPlaylist {
        media_sequence: 0,
        segments: vec![MediaSegment { uri: "other/resource.ts".into(), duration_secs: 1, discontinuity: false }],
    };
    let urls = HlsRecorder::segment_urls("h://host.path/to/remote/resource.m3u8", &rel, &vec![0]);
    assert_eq!(urls, vec![Some("h://host.path/to/remote/other/resource.ts".to_string())]);
}
