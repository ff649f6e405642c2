use vsd::subtitles::{Cue, Subtitles};
use vsd::text::millis_to_timestamp;

fn cue(start_ms: u64, end_ms: u64, payload: &str, settings: &str) -> Cue {
    Cue {
        end_ms,
        id: String::new(),
        payload: payload.to_owned(),
        settings: settings.to_owned(),
        start_ms,
    }
}

#[test]
fn adjacent_duplicate_cues_merge() {
    let ms = |s: f32| (s * 1000.0) as u64;
    let subs = Subtitles::new(vec![
        cue(ms(0.0), ms(2.0), "hi", ""),
        cue(ms(2.0), ms(4.0), "hi", ""),
    ]);
    let cues = subs.cues();
    assert_eq!(cues.len(), 1);
    assert_eq!(cues[0].start_ms, 0);
    assert_eq!(cues[0].end_ms, 4000);
    assert_eq!(cues[0].payload, "hi");
}

#[test]
fn filtered_cues_never_appear() {
    let subs = Subtitles::new(vec![
        cue(0, 1000, "", ""),
        cue(1000, 1000, "same times", ""),
        cue(1000, 2000, "kept", ""),
    ]);
    let cues = subs.cues();
    assert_eq!(cues.len(), 1);
    assert_eq!(cues[0].payload, "kept");
}

#[test]
fn different_settings_do_not_merge() {
    let subs = Subtitles::new(vec![
        cue(0, 2000, "hi", "align:left"),
        cue(2000, 4000, "hi", "align:right"),
    ]);
    assert_eq!(subs.cues().len(), 2);
}

#[test]
fn gap_between_cues_does_not_merge() {
    let subs = Subtitles::new(vec![cue(0, 2000, "hi", ""), cue(2500, 4000, "hi", "")]);
    assert_eq!(subs.cues().len(), 2);
}

#[test]
fn merge_chains_through_three_cues() {
    let subs = Subtitles::new(vec![
        cue(0, 2000, "hi", ""),
        cue(2000, 4000, "hi", ""),
        cue(4000, 6000, "hi", ""),
    ]);
    let cues = subs.cues();
    assert_eq!(cues.len(), 1);
    assert_eq!(cues[0].end_ms, 6000);
}

#[test]
fn empty_sequence_renders_header_only() {
    let subs = Subtitles::new(vec![]);
    assert_eq!(subs.as_vtt(), "WEBVTT\n\n");
    assert_eq!(subs.as_srt(), "");
}

#[test]
fn vtt_render_is_exact() {
    let subs = Subtitles::new(vec![cue(1000, 2500, "hello", "align:left")]);
    assert_eq!(
        subs.as_vtt(),
        "WEBVTT\n\n00:00:01.000 --> 00:00:02.500 align:left\nhello\n\n"
    );
}

#[test]
fn srt_render_is_exact_and_numbered() {
    let subs = Subtitles::new(vec![
        cue(1000, 2500, "one", ""),
        cue(5000, 7000, "two", ""),
    ]);
    assert_eq!(
        subs.as_srt(),
        "1\n00:00:01,000 --> 00:00:02,500\none\n\n2\n00:00:05,000 --> 00:00:07,000\ntwo\n\n"
    );
}

#[test]
fn extend_keeps_boundary_cues_separate() {
    let mut a = Subtitles::new(vec![cue(0, 2000, "hi", "")]);
    let b = Subtitles::new(vec![cue(2000, 4000, "hi", "")]);
    a.extend(b);
    assert_eq!(a.cues().len(), 2);
}

#[test]
fn timestamp_of_large_time() {
    let ms = (12345.678_f32 * 1000.0) as u64;
    assert_eq!(millis_to_timestamp(ms, "."), "03:25:45.678");
    assert_eq!(millis_to_timestamp(ms, ","), "03:25:45,678");
}

#[test]
fn timestamp_pads_every_field() {
    assert_eq!(millis_to_timestamp(0, "."), "00:00:00.000");
    assert_eq!(millis_to_timestamp(61_007, "."), "00:01:01.007");
    assert_eq!(millis_to_timestamp(360_000_000, "."), "100:00:00.000");
}
