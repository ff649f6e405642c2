use vsd::parsers::{keys_parser, query_parser, Decrypter};
use vsd::sniff::{classify, codec_class, sniff, subtitle_extension, SubtitleType};
use vsd::text::divmod;

#[test]
fn codec_string_overrides_sniffing() {
    let codecs = "wvtt".to_owned();
    let t = classify(Some(&codecs), b"WEBVTT\n\n", "ts", false, false);
    assert_eq!(t, SubtitleType::Mp4Vtt);
    assert_eq!(codec_class("vtt"), Some(SubtitleType::VttText));
    assert_eq!(codec_class("stpp.ttml.im1t"), Some(SubtitleType::Mp4Ttml));
    assert_eq!(codec_class("avc1"), None);
}

#[test]
fn magic_prefixes_classify_plain_dialects() {
    assert_eq!(sniff(b"WEBVTT\n\n00:01", "ts", false, false), SubtitleType::VttText);
    assert_eq!(sniff(b"1\n00:00:01,000", "ts", false, false), SubtitleType::SrtText);
    assert_eq!(sniff(b"<?xml version", "ts", false, false), SubtitleType::TtmlText);
    assert_eq!(sniff(b"<tt xmlns", "ts", false, false), SubtitleType::TtmlText);
}

#[test]
fn extension_hints_classify_like_magic() {
    assert_eq!(sniff(b"\x00\x00", "vtt", false, false), SubtitleType::VttText);
    assert_eq!(sniff(b"\x00\x00", "srt", false, false), SubtitleType::SrtText);
    assert_eq!(sniff(b"\x00\x00", "ttml", false, false), SubtitleType::TtmlText);
}

#[test]
fn init_parses_classify_boxed_formats() {
    assert_eq!(sniff(b"\x00\x00moov", "m4s", true, false), SubtitleType::Mp4Vtt);
    assert_eq!(sniff(b"\x00\x00moov", "m4s", false, true), SubtitleType::Mp4Ttml);
    assert_eq!(sniff(b"\x00\x00moov", "m4s", false, false), SubtitleType::Unknown);
}

#[test]
fn classification_fixes_the_output_extension() {
    assert_eq!(subtitle_extension(SubtitleType::VttText), "vtt");
    assert_eq!(subtitle_extension(SubtitleType::Mp4Vtt), "vtt");
    assert_eq!(subtitle_extension(SubtitleType::SrtText), "srt");
    assert_eq!(subtitle_extension(SubtitleType::TtmlText), "srt");
    assert_eq!(subtitle_extension(SubtitleType::Mp4Ttml), "srt");
    assert_eq!(subtitle_extension(SubtitleType::Unknown), "txt");
}

#[test]
fn empty_key_table_means_no_decryption() {
    assert!(matches!(keys_parser(""), Ok(Decrypter::NoKeys)));
}

#[test]
fn key_pairs_are_canonicalized() {
    let kid = "eb676abb-cb34-5e96-bbcf-616630f1a3da";
    let key = "100B6C20940F779A4589152B57D2DACB";
    let parsed = keys_parser(&format!("{kid}:{key}")).unwrap();
    match parsed {
        Decrypter::Mp4Decrypt(pairs) => {
            assert_eq!(pairs.len(), 1);
            assert_eq!(pairs[0].0, "eb676abbcb345e96bbcf616630f1a3da");
            assert_eq!(pairs[0].1, "100b6c20940f779a4589152b57d2dacb");
        }
        Decrypter::NoKeys => panic!("expected a key table"),
    }
}

#[test]
fn malformed_key_pairs_fail() {
    let err = keys_parser("shortkid:100b6c20940f779a4589152b57d2dacb").unwrap_err();
    assert_eq!(err, "invalid kid key format used.");
    let err = keys_parser("zz676abbcb345e96bbcf616630f1a3da:100b6c20940f779a4589152b57d2dacb")
        .unwrap_err();
    assert_eq!(err, "invalid kid key format used.");
}

#[test]
fn key_pieces_without_separator_are_skipped() {
    let parsed = keys_parser("justtext").unwrap();
    match parsed {
        Decrypter::Mp4Decrypt(pairs) => assert_eq!(pairs.len(), 0),
        Decrypter::NoKeys => panic!("expected an empty key table"),
    }
}

#[test]
fn query_pairs_split_at_the_first_equals() {
    let pairs = query_parser("a=1&b=2=3&noequals&c=");
    assert_eq!(
        pairs,
        vec![
            ("a".to_owned(), "1".to_owned()),
            ("b".to_owned(), "2=3".to_owned()),
            ("c".to_owned(), "".to_owned()),
        ]
    );
    assert_eq!(query_parser(""), vec![]);
}

#[test]
fn divmod_splits_quotient_and_remainder() {
    assert_eq!(divmod(12_345_678, 1000), (12_345, 678));
    assert_eq!(divmod(59, 60), (0, 59));
}
