use vsd::playlist::{
    partition_ranges, EstimateMethod, InitMap, Key, KeyError, KeyMethod, MasterPlaylist,
    MediaPlaylist, MediaType, PartialRangeIter, PlaylistType, Range, Segment,
};

fn bare_stream() -> MediaPlaylist {
    MediaPlaylist {
        bandwidth: None,
        channels: None,
        codecs: None,
        extension: None,
        frame_rate: None,
        id: "1".to_owned(),
        i_frame: false,
        language: None,
        live: false,
        media_sequence: 0,
        media_type: MediaType::Video,
        playlist_type: PlaylistType::Hls,
        resolution: None,
        segments: vec![],
        uri: "stream.m3u8".to_owned(),
    }
}

fn bare_segment(uri: &str) -> Segment {
    Segment {
        duration_ms: 6000,
        key: None,
        map: None,
        range: None,
        uri: uri.to_owned(),
    }
}

fn bare_key() -> Key {
    Key {
        default_kid: None,
        iv: None,
        key_format: None,
        method: KeyMethod::Aes128,
        uri: None,
    }
}

#[test]
fn partition_of_two_and_a_half_chunks() {
    let ranges = partition_ranges(5_242_879);
    assert_eq!(ranges.len(), 3);
    assert_eq!((ranges[0].start, ranges[0].end), (0, 2_097_151));
    assert_eq!((ranges[1].start, ranges[1].end), (2_097_152, 4_194_303));
    assert_eq!((ranges[2].start, ranges[2].end), (4_194_304, 5_242_879));
}

#[test]
fn partition_is_contiguous_for_odd_end() {
    let end = 7_654_321u64;
    let ranges = partition_ranges(end);
    assert_eq!(ranges[0].start, 0);
    assert_eq!(ranges[ranges.len() - 1].end, end);
    for i in 0..ranges.len() - 1 {
        assert_eq!(ranges[i].end + 1, ranges[i + 1].start);
    }
}

#[test]
fn partial_range_iter_restarts() {
    let mut iter = PartialRangeIter { start: 0, end: 10 };
    let first = iter.next().unwrap();
    assert_eq!((first.start, first.end), (0, 10));
    assert!(iter.next().is_none());
}

#[test]
fn key_of_wrong_sizes_fails() {
    let key = bare_key();
    assert_eq!(key.key(&[0u8; 15]), Err(KeyError::InvalidKeySize));
    assert_eq!(key.key(&[0u8; 17]), Err(KeyError::InvalidKeySize));
    assert_eq!(key.key(&[]), Err(KeyError::InvalidKeySize));
    assert_eq!(KeyError::InvalidKeySize.message(), "invalid key size.");
}

#[test]
fn key_of_sixteen_bytes_is_copied() {
    let key = bare_key();
    let bytes: Vec<u8> = (1..=16).collect();
    assert_eq!(key.key(&bytes).unwrap().to_vec(), bytes);
}

#[test]
fn iv_defaults_to_sequence_number() {
    let key = bare_key();
    let iv = key.iv(5).unwrap();
    let mut expected = [0u8; 16];
    expected[15] = 5;
    assert_eq!(iv, expected);
}

#[test]
fn iv_parses_explicit_hex_with_prefix() {
    let mut key = bare_key();
    key.iv = Some("0x00000000000000000000000000000102".to_owned());
    let iv = key.iv(9).unwrap();
    let mut expected = [0u8; 16];
    expected[14] = 1;
    expected[15] = 2;
    assert_eq!(iv, expected);

    key.iv = Some("ff".to_owned());
    let iv = key.iv(9).unwrap();
    let mut expected = [0u8; 16];
    expected[15] = 0xff;
    assert_eq!(iv, expected);
}

#[test]
fn iv_rejects_bad_hex() {
    let mut key = bare_key();
    key.iv = Some("0xzz".to_owned());
    assert_eq!(key.iv(0), Err(KeyError::InvalidIv));
    key.iv = Some("".to_owned());
    assert_eq!(key.iv(0), Err(KeyError::InvalidIv));
    key.iv = Some("1".repeat(40));
    assert_eq!(key.iv(0), Err(KeyError::InvalidIv));
    assert_eq!(KeyError::InvalidIv.message(), "invalid iv size.");
}

#[test]
fn header_value_formats_interval() {
    let range = Range { start: 10, end: 250 };
    assert_eq!(range.as_header_value(), "bytes=10-250");
}

#[test]
fn extension_prefers_explicit_then_mp4_then_kind() {
    let mut stream = bare_stream();
    stream.extension = Some("webm".to_owned());
    assert_eq!(stream.extension(), "webm");

    let mut stream = bare_stream();
    stream.playlist_type = PlaylistType::Hls;
    assert_eq!(stream.extension(), "ts");
    stream.playlist_type = PlaylistType::Dash;
    assert_eq!(stream.extension(), "m4s");

    stream.segments.push(bare_segment("seg-0.mp4"));
    assert_eq!(stream.extension(), "mp4");

    let mut stream = bare_stream();
    let mut seg = bare_segment("seg-0.ts");
    seg.map = Some(InitMap {
        range: None,
        uri: "init.mp4".to_owned(),
    });
    stream.segments.push(seg);
    assert_eq!(stream.extension(), "mp4");

    let mut stream = bare_stream();
    stream.segments.push(bare_segment("seg-0.ts"));
    assert_eq!(stream.extension(), "ts");
}

#[test]
fn default_kid_is_lowercased_and_dash_free() {
    let mut stream = bare_stream();
    let mut seg = bare_segment("a.ts");
    let mut key = bare_key();
    key.default_kid = Some("AB-12-cd-EF".to_owned());
    seg.key = Some(key);
    stream.segments.push(seg);
    assert_eq!(stream.default_kid(), Some("ab12cdef".to_owned()));

    let stream = bare_stream();
    assert_eq!(stream.default_kid(), None);
}

#[test]
fn file_name_probes_deterministically() {
    let mut stream = bare_stream();
    stream.media_type = MediaType::Audio;
    stream.id = "7".to_owned();
    assert_eq!(stream.file_name(None, "m4s"), "vsd-audio-7.m4s");
    assert_eq!(stream.file_name(Some(2), "m4s"), "vsd-audio-7-2.m4s");
}

#[test]
fn split_segment_tiles_the_resource() {
    let mut stream = bare_stream();
    let mut seg = bare_segment("movie.mp4");
    seg.key = Some(bare_key());
    seg.map = Some(InitMap {
        range: None,
        uri: "init.mp4".to_owned(),
    });
    stream.segments.push(seg);
    stream.split_segment(5_242_880);
    assert_eq!(stream.segments.len(), 3);
    for (i, seg) in stream.segments.iter().enumerate() {
        assert_eq!(seg.uri, "movie.mp4");
        assert_eq!(seg.duration_ms, 6000);
        let range = seg.range.clone().unwrap();
        assert_eq!(range.start, i as u64 * 2_097_152);
        if i == 0 {
            assert!(seg.key.is_some());
            assert!(seg.map.is_some());
        } else {
            assert!(seg.key.is_none());
            assert!(seg.map.is_none());
        }
    }
    assert_eq!(stream.segments[2].range.clone().unwrap().end, 5_242_879);
}

#[test]
fn split_segment_leaves_fragmented_streams_alone() {
    let mut stream = bare_stream();
    stream.segments.push(bare_segment("a.ts"));
    stream.segments.push(bare_segment("b.ts"));
    stream.split_segment(5_242_880);
    assert_eq!(stream.segments.len(), 2);
}

#[test]
fn estimate_prefers_last_range_end() {
    let mut stream = bare_stream();
    stream.segments.push(bare_segment("a.ts"));
    let mut last = bare_segment("b.ts");
    last.range = Some(Range { start: 100, end: 999 });
    stream.segments.push(last);
    match stream.estimate_size_method() {
        EstimateMethod::FromLastRange(end) => assert_eq!(end, 999),
        _ => panic!("expected the last range to decide"),
    }
}

#[test]
fn estimate_probes_single_segment_without_range() {
    let mut stream = bare_stream();
    stream.segments.push(bare_segment("movie.mp4"));
    match stream.estimate_size_method() {
        EstimateMethod::Probe(p) => {
            assert_eq!(p.uri, "movie.mp4");
            assert_eq!(p.multiplier, 1);
            assert!(p.range.is_none());
        }
        _ => panic!("expected a probe"),
    }
    assert_eq!(MediaPlaylist::estimate_size_from_probe(3, 1000), 3000);
}

#[test]
fn estimate_of_no_segments_is_empty() {
    let stream = bare_stream();
    assert!(matches!(
        stream.estimate_size_method(),
        EstimateMethod::NoSegments
    ));
}

#[test]
fn video_display_names_standard_resolutions() {
    let mut stream = bare_stream();
    stream.resolution = Some((1920, 1080));
    stream.bandwidth = Some(1_048_576);
    stream.codecs = Some("avc1.64001f".to_owned());
    assert_eq!(
        stream.display_video_stream(),
        "1080p 1.00 MiB/s (codecs: avc1.64001f)"
    );
    stream.resolution = Some((100, 50));
    stream.bandwidth = None;
    stream.codecs = None;
    stream.i_frame = true;
    stream.live = true;
    assert_eq!(
        stream.display_video_stream(),
        "100x50 ? ?/s (codecs: ?, iframe, live)"
    );
}

#[test]
fn audio_display_lists_what_is_known() {
    let mut stream = bare_stream();
    stream.media_type = MediaType::Audio;
    stream.language = Some("en".to_owned());
    stream.channels = Some(2_000);
    stream.live = true;
    assert_eq!(
        stream.display_audio_stream(),
        "language: en, channels: 2, live"
    );
    stream.channels = Some(5_100);
    stream.live = false;
    assert_eq!(
        stream.display_audio_stream(),
        "language: en, channels: 5.100"
    );
}

#[test]
fn display_stream_normalizes_whitespace() {
    let mut stream = bare_stream();
    stream.media_type = MediaType::Subtitles;
    stream.language = Some("en  GB".to_owned());
    assert_eq!(stream.display_stream(), "language: en GB");
    stream.media_type = MediaType::Undefined;
    assert_eq!(stream.display_stream(), "");
}

#[test]
fn media_type_names() {
    assert_eq!(MediaType::Audio.name(), "audio");
    assert_eq!(MediaType::Subtitles.name(), "subs");
    assert_eq!(MediaType::Undefined.name(), "und");
    assert_eq!(MediaType::Video.name(), "video");
}

#[test]
fn master_playlist_holds_streams_in_order() {
    let playlist = MasterPlaylist {
        playlist_type: PlaylistType::Dash,
        streams: vec![bare_stream()],
        uri: "manifest.mpd".to_owned(),
    };
    assert_eq!(playlist.streams.len(), 1);
    assert_eq!(playlist.streams[0].uri, "stream.m3u8");
}
