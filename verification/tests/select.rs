use vsd::playlist::{MasterPlaylist, MediaPlaylist, MediaType, PlaylistType};
use vsd::select::{LangFilter, SelectOptions, VideoFilter, VideoPreference};

fn stream(media_type: MediaType, id: &str) -> MediaPlaylist {
    MediaPlaylist {
        bandwidth: None,
        channels: None,
        codecs: None,
        extension: None,
        frame_rate: None,
        id: id.to_owned(),
        i_frame: false,
        language: None,
        live: false,
        media_sequence: 0,
        media_type,
        playlist_type: PlaylistType::Hls,
        resolution: None,
        segments: vec![],
        uri: format!("{id}.m3u8"),
    }
}

fn video(id: &str, w: u64, h: u64, bandwidth: u64) -> MediaPlaylist {
    let mut s = stream(MediaType::Video, id);
    s.resolution = Some((w, h));
    s.bandwidth = Some(bandwidth);
    s
}

fn audio(id: &str, lang: &str) -> MediaPlaylist {
    let mut s = stream(MediaType::Audio, id);
    s.language = Some(lang.to_owned());
    s
}

fn playlist(streams: Vec<MediaPlaylist>) -> MasterPlaylist {
    MasterPlaylist {
        playlist_type: PlaylistType::Hls,
        streams,
        uri: "master.m3u8".to_owned(),
    }
}

fn default_opts() -> SelectOptions {
    SelectOptions {
        audio: LangFilter {
            all: false,
            languages: vec![],
            skip: false,
        },
        stream_numbers: vec![],
        subs: LangFilter {
            all: false,
            languages: vec![],
            skip: false,
        },
        video: VideoFilter {
            all: false,
            preference: VideoPreference::NoPreference,
            resolutions: vec![],
            skip: false,
        },
    }
}

#[test]
fn best_picks_the_single_highest_resolution() {
    let playlist = playlist(vec![
        video("480", 854, 480, 2_000_000),
        video("720", 1280, 720, 2_000_000),
        video("1080", 1920, 1080, 2_000_000),
    ])
    .sort_streams();
    let mut opts = default_opts();
    opts.video.preference = VideoPreference::Best;
    let selected = playlist.select_streams(&opts);
    assert_eq!(selected.len(), 1);
    assert_eq!(selected[0].resolution, Some((1920, 1080)));
}

#[test]
fn sort_orders_videos_by_area_then_bandwidth() {
    let sorted = playlist(vec![
        video("a", 1280, 720, 1_000_000),
        video("b", 1920, 1080, 1_000_000),
        video("c", 1920, 1080, 3_000_000),
    ])
    .sort_streams();
    assert_eq!(sorted.streams[0].id, "c");
    assert_eq!(sorted.streams[1].id, "b");
    assert_eq!(sorted.streams[2].id, "a");
}

#[test]
fn sort_groups_types_and_keeps_others_in_order() {
    let sorted = playlist(vec![
        stream(MediaType::Subtitles, "s1"),
        audio("a1", "en"),
        video("v1", 1280, 720, 1),
        stream(MediaType::Undefined, "u1"),
        stream(MediaType::Subtitles, "s2"),
    ])
    .sort_streams();
    let ids: Vec<&str> = sorted.streams.iter().map(|s| s.id.as_str()).collect();
    assert_eq!(ids, ["v1", "a1", "s1", "u1", "s2"]);
}

#[test]
fn sort_orders_audios_by_channels() {
    let mut a = audio("a", "en");
    a.channels = Some(2_000);
    a.bandwidth = Some(9_999);
    let mut b = audio("b", "en");
    b.channels = Some(6_000);
    b.bandwidth = Some(1);
    let sorted = playlist(vec![a, b]).sort_streams();
    assert_eq!(sorted.streams[0].id, "b");
}

#[test]
fn all_selects_every_stream_despite_skip() {
    let playlist = playlist(vec![
        video("a", 854, 480, 1),
        video("b", 1280, 720, 1),
    ]);
    let mut opts = default_opts();
    opts.video.all = true;
    opts.video.skip = true;
    let selected = playlist.select_streams(&opts);
    assert_eq!(selected.len(), 2);
}

#[test]
fn unfiltered_type_defaults_to_its_first_stream() {
    let playlist = playlist(vec![audio("a", "en"), audio("b", "fr")]);
    let selected = playlist.select_streams(&default_opts());
    assert_eq!(selected.len(), 1);
    assert_eq!(selected[0].id, "a");
}

#[test]
fn skip_with_no_candidates_selects_nothing() {
    let playlist = playlist(vec![audio("a", "en"), audio("b", "fr")]);
    let mut opts = default_opts();
    opts.audio.skip = true;
    let selected = playlist.select_streams(&opts);
    assert_eq!(selected.len(), 0);
}

#[test]
fn skip_selects_the_complement_of_the_candidates() {
    let playlist = playlist(vec![audio("a", "en"), audio("b", "fr"), audio("c", "de")]);
    let mut opts = default_opts();
    opts.audio.skip = true;
    opts.audio.languages = vec!["fr".to_owned()];
    let selected = playlist.select_streams(&opts);
    let ids: Vec<&str> = selected.iter().map(|s| s.id.as_str()).collect();
    assert_eq!(ids, ["a", "c"]);
}

#[test]
fn languages_match_exactly_and_by_prefix() {
    let playlist = playlist(vec![
        audio("a", "en-US"),
        audio("b", "fr"),
        audio("c", "de"),
    ]);
    let mut opts = default_opts();
    opts.audio.languages = vec!["en".to_owned(), "de".to_owned()];
    let selected = playlist.select_streams(&opts);
    let ids: Vec<&str> = selected.iter().map(|s| s.id.as_str()).collect();
    assert_eq!(ids, ["a", "c"]);
}

#[test]
fn explicit_numbers_pick_streams_of_any_type() {
    let playlist = playlist(vec![
        video("v", 854, 480, 1),
        audio("a", "en"),
        audio("b", "fr"),
    ]);
    let mut opts = default_opts();
    opts.stream_numbers = vec![3];
    let selected = playlist.select_streams(&opts);
    // The explicit pick joins the video default.
    let ids: Vec<&str> = selected.iter().map(|s| s.id.as_str()).collect();
    assert_eq!(ids, ["v", "b"]);
}

#[test]
fn resolutions_filter_video_candidates() {
    let playlist = playlist(vec![
        video("a", 854, 480, 1),
        video("b", 1280, 720, 1),
        video("c", 1920, 1080, 1),
    ]);
    let mut opts = default_opts();
    opts.video.resolutions = vec![(1280, 720), (1920, 1080)];
    let selected = playlist.select_streams(&opts);
    let ids: Vec<&str> = selected.iter().map(|s| s.id.as_str()).collect();
    assert_eq!(ids, ["b", "c"]);
}

#[test]
fn worst_picks_the_last_video() {
    let playlist = playlist(vec![
        video("480", 854, 480, 1),
        video("1080", 1920, 1080, 1),
    ])
    .sort_streams();
    let mut opts = default_opts();
    opts.video.preference = VideoPreference::Worst;
    let selected = playlist.select_streams(&opts);
    assert_eq!(selected.len(), 1);
    assert_eq!(selected[0].id, "480");
}

#[test]
fn undefined_streams_are_never_selected() {
    let playlist = playlist(vec![stream(MediaType::Undefined, "u")]);
    let mut opts = default_opts();
    opts.video.all = true;
    opts.audio.all = true;
    opts.subs.all = true;
    assert_eq!(playlist.select_streams(&opts).len(), 0);
}
