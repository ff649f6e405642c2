//! The subtitle sniffer: classifies an unlabeled subtitle byte stream by
//! codec string, magic prefix, or init-segment parse outcome, and fixes the
//! output format of each classification.
use vstd::prelude::*;
use crate::text::str_eq;

verus! {

/// How a subtitle stream's bytes are wrapped and encoded.
#[derive(Clone, Copy, PartialEq, Eq, Structural, Debug)]
pub enum SubtitleType {
    Mp4Ttml,
    Mp4Vtt,
    SrtText,
    TtmlText,
    Unknown,
    VttText,
}

/// The ASCII bytes of `WEBVTT`, the plain-WebVTT magic prefix.
pub open spec fn webvtt_magic() -> Seq<u8> {
    seq![87u8, 69u8, 66u8, 86u8, 84u8, 84u8]
}

/// The ASCII bytes of `<?xml`, one plain-TTML magic prefix.
pub open spec fn xml_magic() -> Seq<u8> {
    seq![60u8, 63u8, 120u8, 109u8, 108u8]
}

/// The ASCII bytes of `<tt`, the other plain-TTML magic prefix.
pub open spec fn tt_magic() -> Seq<u8> {
    seq![60u8, 116u8, 116u8]
}

/// `data` starts with `prefix`.
pub open spec fn bytes_start_with(data: Seq<u8>, prefix: Seq<u8>) -> bool {
    prefix.len() <= data.len() && data.subrange(0, prefix.len() as int) == prefix
}

/// The classification a codec string forces, if any: `vtt` is plain WebVTT,
/// `wvtt` boxed WebVTT, and the `stpp` family boxed TTML.
pub open spec fn spec_codec_class(c: Seq<char>) -> Option<SubtitleType> {
    if c == "vtt"@ {
        Some(SubtitleType::VttText)
    } else if c == "wvtt"@ {
        Some(SubtitleType::Mp4Vtt)
    } else if c == "stpp"@ || c == "stpp.ttml"@ || c == "stpp.ttml.im1t"@ || c
        == "stpp.TTML.im1t"@ {
        Some(SubtitleType::Mp4Ttml)
    } else {
        None
    }
}

/// The classification of the first fetched bytes when no codec string
/// decided: magic prefixes or the default extension pick a plain dialect,
/// else whichever init-segment parse succeeded picks a boxed one, else the
/// stream is unknown. `default_ext` is the stream's extension and
/// `vtt_init_ok` / `ttml_init_ok` report the boxed parse attempts.
pub open spec fn spec_sniff(
    data: Seq<u8>,
    default_ext: Seq<char>,
    vtt_init_ok: bool,
    ttml_init_ok: bool,
) -> SubtitleType {
    if bytes_start_with(data, webvtt_magic()) || default_ext == "vtt"@ {
        SubtitleType::VttText
    } else if bytes_start_with(data, seq![49u8]) || default_ext == "srt"@ {
        SubtitleType::SrtText
    } else if bytes_start_with(data, xml_magic()) || bytes_start_with(data, tt_magic())
        || default_ext == "ttml"@ {
        SubtitleType::TtmlText
    } else if vtt_init_ok {
        SubtitleType::Mp4Vtt
    } else if ttml_init_ok {
        SubtitleType::Mp4Ttml
    } else {
        SubtitleType::Unknown
    }
}

/// The full classification: the codec string overrides; else the sniff of
/// the first bytes decides.
pub open spec fn spec_classify(
    codecs: Option<String>,
    data: Seq<u8>,
    default_ext: Seq<char>,
    vtt_init_ok: bool,
    ttml_init_ok: bool,
) -> SubtitleType {
    match codecs {
        Some(c) => match spec_codec_class(c@) {
            Some(t) => t,
            None => spec_sniff(data, default_ext, vtt_init_ok, ttml_init_ok),
        },
        None => spec_sniff(data, default_ext, vtt_init_ok, ttml_init_ok),
    }
}

/// The classification a codec string forces, if any.
pub fn codec_class(c: &str) -> (r: Option<SubtitleType>)
    ensures
        r == spec_codec_class(c@),
{
    if str_eq(c, "vtt") {
        Some(SubtitleType::VttText)
    } else if str_eq(c, "wvtt") {
        Some(SubtitleType::Mp4Vtt)
    } else if str_eq(c, "stpp") || str_eq(c, "stpp.ttml") || str_eq(c, "stpp.ttml.im1t") || str_eq(
        c,
        "stpp.TTML.im1t",
    ) {
        Some(SubtitleType::Mp4Ttml)
    } else {
        None
    }
}

fn starts_with_byte_seq(data: &[u8], p0: u8, rest: &[u8]) -> (r: bool)
    ensures
        r == bytes_start_with(data@, seq![p0] + rest@),
{
    let m = rest.len();
    if data.len() < m || data.len() - m < 1 {
        proof {
            assert(!bytes_start_with(data@, seq![p0] + rest@));
        }
        return false;
    }
    if data[0] != p0 {
        proof {
            assert((seq![p0] + rest@)[0] == p0);
        }
        return false;
    }
    let mut i: usize = 0;
    while i < m
        invariant
            m == rest@.len(),
            m + 1 <= data@.len(),
            i <= m,
            data@[0] == p0,
            forall|j: int| 0 <= j < i ==> data@[j + 1] == rest@[j],
        decreases m - i,
    {
        if data[i + 1] != rest[i] {
            proof {
                assert((seq![p0] + rest@)[i + 1] == rest@[i as int]);
            }
            return false;
        }
        i = i + 1;
    }
    proof {
        assert(data@.subrange(0, m + 1) =~= seq![p0] + rest@);
    }
    true
}

/// Sniffs unclassified first bytes, with the default extension and the two
/// boxed init-segment parse outcomes as tie breakers.
pub fn sniff(data: &[u8], default_ext: &str, vtt_init_ok: bool, ttml_init_ok: bool) -> (r:
    SubtitleType)
    ensures
        r == spec_sniff(data@, default_ext@, vtt_init_ok, ttml_init_ok),
{
    // The byte literals spell "WEBVTT", "1", "<?xml" and "<tt" in ASCII.
    let webvtt_rest: [u8; 5] = [69, 66, 86, 84, 84];
    let xml_rest: [u8; 4] = [63, 120, 109, 108];
    let tt_rest: [u8; 2] = [116, 116];
    proof {
        assert(seq![87u8] + webvtt_rest@ =~= webvtt_magic());
        assert(seq![60u8] + xml_rest@ =~= xml_magic());
        assert(seq![60u8] + tt_rest@ =~= tt_magic());
        assert(seq![49u8] + Seq::<u8>::empty() =~= seq![49u8]);
    }
    let empty_rest: [u8; 0] = [];
    proof {
        assert(empty_rest@ =~= Seq::<u8>::empty());
    }
    if starts_with_byte_seq(data, 87, webvtt_rest.as_slice()) || str_eq(default_ext, "vtt") {
        SubtitleType::VttText
    } else if starts_with_byte_seq(data, 49, empty_rest.as_slice()) || str_eq(default_ext, "srt") {
        SubtitleType::SrtText
    } else if starts_with_byte_seq(data, 60, xml_rest.as_slice()) || starts_with_byte_seq(
        data,
        60,
        tt_rest.as_slice(),
    ) || str_eq(default_ext, "ttml") {
        SubtitleType::TtmlText
    } else if vtt_init_ok {
        SubtitleType::Mp4Vtt
    } else if ttml_init_ok {
        SubtitleType::Mp4Ttml
    } else {
        SubtitleType::Unknown
    }
}

/// The full classification of a subtitle stream's first content.
pub fn classify(
    codecs: Option<&String>,
    data: &[u8],
    default_ext: &str,
    vtt_init_ok: bool,
    ttml_init_ok: bool,
) -> (r: SubtitleType)
    ensures
        r == spec_classify(
            match codecs {
                Some(c) => Some(*c),
                None => None,
            },
            data@,
            default_ext@,
            vtt_init_ok,
            ttml_init_ok,
        ),
{
    if let Some(c) = codecs {
        if let Some(t) = codec_class(c.as_str()) {
            return t;
        }
    }
    sniff(data, default_ext, vtt_init_ok, ttml_init_ok)
}

/// The output extension fixed by a classification: `vtt` for WebVTT paths,
/// `srt` for SubRip and both TTML paths, `txt` for an unknown stream.
pub fn subtitle_extension(t: SubtitleType) -> (r: &'static str)
    ensures
        (t == SubtitleType::VttText || t == SubtitleType::Mp4Vtt) ==> r@ == "vtt"@,
        (t == SubtitleType::SrtText || t == SubtitleType::TtmlText || t == SubtitleType::Mp4Ttml)
            ==> r@ == "srt"@,
        t == SubtitleType::Unknown ==> r@ == "txt"@,
    {
    match t {
        SubtitleType::VttText | SubtitleType::Mp4Vtt => "vtt",
        SubtitleType::SrtText | SubtitleType::TtmlText | SubtitleType::Mp4Ttml => "srt",
        SubtitleType::Unknown => "txt",
    }
}

} // verus!
