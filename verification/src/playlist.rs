//! The playlist data model shared by both manifest kinds, with its derived
//! queries: byte-range partitioning, key and IV derivation, extension
//! inference, size estimation and output naming.
use vstd::prelude::*;
use vstd::string::*;
use vstd::arithmetic::div_mod::lemma_fundamental_div_mod;
use crate::text::{
    all_hex, bytes_unit, bytes_value_chars, dec_digits, ends_with, format_bytes, hex_value,
    lower_nodash, lower_nodash_exec, milli_chars, milli_to_string, norm_ws, normalize_ws,
    parse_hex_u128, size_class, str_ends_with, u64_to_dec,
};

verus! {

/// The manifest format a playlist came from.
#[derive(Clone, Copy, PartialEq, Eq, Structural, Debug)]
pub enum PlaylistType {
    Dash,
    Hls,
}

/// The elementary-stream classification of one media playlist.
#[derive(Clone, Copy, PartialEq, Eq, Structural, Debug)]
pub enum MediaType {
    Audio,
    Subtitles,
    Undefined,
    Video,
}

/// An inclusive byte interval of a remote resource.
#[derive(Clone, Copy, PartialEq, Eq, Structural, Debug)]
pub struct Range {
    pub end: u64,
    pub start: u64,
}

/// How a segment's payload is encrypted.
#[derive(Clone)]
pub enum KeyMethod {
    Aes128,
    Mp4Decrypt,
    NoEncryption,
    Other(String),
    SampleAes,
}

/// Per-segment encryption parameters.
#[derive(Clone)]
pub struct Key {
    pub default_kid: Option<String>,
    pub iv: Option<String>,
    pub key_format: Option<String>,
    pub method: KeyMethod,
    pub uri: Option<String>,
}

/// An initialization segment: decoded before any media segment.
#[derive(Clone)]
pub struct InitMap {
    pub range: Option<Range>,
    pub uri: String,
}

/// One retrievable chunk of a stream. `duration_ms` is the nominal duration
/// in milliseconds.
#[derive(Clone)]
pub struct Segment {
    pub duration_ms: u64,
    pub key: Option<Key>,
    pub map: Option<InitMap>,
    pub range: Option<Range>,
    pub uri: String,
}

/// One elementary stream of a master playlist. `channels` and `frame_rate`
/// are carried in thousandths, so fractional values survive without floats.
pub struct MediaPlaylist {
    pub bandwidth: Option<u64>,
    pub channels: Option<u64>,
    pub codecs: Option<String>,
    pub extension: Option<String>,
    pub frame_rate: Option<u64>,
    pub id: String,
    pub i_frame: bool,
    pub language: Option<String>,
    pub live: bool,
    pub media_sequence: u64,
    pub media_type: MediaType,
    pub playlist_type: PlaylistType,
    pub resolution: Option<(u64, u64)>,
    pub segments: Vec<Segment>,
    pub uri: String,
}

/// A resolved manifest: the ordered streams it describes.
pub struct MasterPlaylist {
    pub playlist_type: PlaylistType,
    pub streams: Vec<MediaPlaylist>,
    pub uri: String,
}

/// A decryption failure.
#[derive(Clone, Copy, PartialEq, Eq, Structural, Debug)]
pub enum KeyError {
    InvalidIv,
    InvalidKeySize,
}

impl KeyError {
    /// The human-readable diagnostic for this failure.
    pub fn message(&self) -> (r: &'static str)
        ensures
            *self == KeyError::InvalidKeySize ==> r@ == "invalid key size."@,
            *self == KeyError::InvalidIv ==> r@ == "invalid iv size."@,
    {
        match self {
            KeyError::InvalidKeySize => "invalid key size.",
            KeyError::InvalidIv => "invalid iv size.",
        }
    }
}

/// The fixed partition chunk size: 2 MiB.
pub const BUFFER_SIZE: u64 = 1024 * 1024 * 2;

/// The first offset of chunk `i`.
pub open spec fn chunk_start(i: nat) -> nat {
    i * (BUFFER_SIZE as nat)
}

/// The last offset of chunk `i` of a resource whose last offset is `end`.
pub open spec fn chunk_end(end: nat, i: nat) -> nat {
    if chunk_start(i) + (BUFFER_SIZE as nat) - 1 < end {
        (chunk_start(i) + (BUFFER_SIZE as nat) - 1) as nat
    } else {
        end
    }
}

/// How many chunks cover `[0, end]`.
pub open spec fn n_chunks(end: nat) -> nat {
    end / (BUFFER_SIZE as nat) + 1
}

/// A restartable generator of contiguous fixed-size byte ranges, 2 MiB at a
/// time, covering `[start, end]`.
pub struct PartialRangeIter {
    pub end: u64,
    pub start: u64,
}

impl PartialRangeIter {
    /// The next range, or nothing once `[start, end]` is exhausted.
    pub fn next(&mut self) -> (r: Option<Range>)
        requires
            old(self).end < u64::MAX,
        ensures
            final(self).end == old(self).end,
            old(self).start > old(self).end ==> r is None && final(self).start == old(self).start,
            old(self).start <= old(self).end ==> {
                &&& r is Some
                &&& r.unwrap().start == old(self).start
                &&& r.unwrap().end == (if old(self).start + BUFFER_SIZE - 1 < old(self).end {
                    old(self).start + BUFFER_SIZE - 1
                } else {
                    old(self).end as int
                })
                &&& final(self).start == r.unwrap().end + 1
            },
    {
        if self.start > self.end {
            None
        } else {
            let prev_start = self.start;
            let advance = if BUFFER_SIZE <= self.end - self.start {
                BUFFER_SIZE
            } else {
                self.end - self.start + 1
            };
            self.start = prev_start + advance;
            Some(Range { start: prev_start, end: self.start - 1 })
        }
    }
}

/// `chunk_start` and `n_chunks` facts that only need the fixed chunk size.
proof fn lemma_chunk_arith(end: nat, k: nat)
    ensures
        chunk_start(k + 1) == chunk_start(k) + BUFFER_SIZE as nat,
        k <= end / (BUFFER_SIZE as nat) ==> chunk_start(k) <= end,
        k < end / (BUFFER_SIZE as nat) ==> chunk_start(k) + (BUFFER_SIZE as nat) <= end,
        k == end / (BUFFER_SIZE as nat) ==> chunk_start(k) + (BUFFER_SIZE as nat) - 1 >= end,
{
    let b = BUFFER_SIZE as nat;
    let q = end / b;
    lemma_fundamental_div_mod(end as int, b as int);
    assert((k + 1) * b == k * b + b) by (nonlinear_arith);
    if k <= q {
        assert(k * b <= q * b) by (nonlinear_arith)
            requires
                k <= q,
                b > 0,
        ;
        assert(b * q == q * b) by (nonlinear_arith);
    }
    if k < q {
        assert(k * b + b <= q * b) by (nonlinear_arith)
            requires
                k < q,
                b > 0,
        ;
        assert(b * q == q * b) by (nonlinear_arith);
    }
    if k == q {
        assert(b * q == q * b) by (nonlinear_arith);
    }
}

/// Partitions `[0, end]` into the fixed-size chunk ranges: contiguous,
/// non-overlapping, in order, starting at offset zero, the last one ending
/// exactly at `end`.
pub fn partition_ranges(end: u64) -> (r: Vec<Range>)
    requires
        end < u64::MAX,
    ensures
        r@.len() == n_chunks(end as nat),
        forall|i: int|
            0 <= i < r@.len() ==> (#[trigger] r@[i]).start == chunk_start(i as nat) && r@[i].end
                == chunk_end(end as nat, i as nat),
        r@[0].start == 0,
        r@[r@.len() - 1].end == end,
        forall|i: int| 0 <= i < r@.len() - 1 ==> (#[trigger] r@[i]).end + 1 == r@[i + 1].start,
{
    let mut iter = PartialRangeIter { start: 0, end };
    let mut out: Vec<Range> = Vec::new();
    while iter.start <= end
        invariant
            iter.end == end,
            end < u64::MAX,
            out@.len() <= n_chunks(end as nat),
            out@.len() < n_chunks(end as nat) ==> iter.start == chunk_start(out@.len() as nat)
                && iter.start <= end,
            out@.len() == n_chunks(end as nat) ==> iter.start == end + 1,
            forall|i: int|
                0 <= i < out@.len() ==> (#[trigger] out@[i]).start == chunk_start(i as nat)
                    && out@[i].end == chunk_end(end as nat, i as nat),
        decreases end + 1 - iter.start,
    {
        let ghost k = out@.len() as nat;
        proof {
            lemma_chunk_arith(end as nat, k);
        }
        let range = iter.next().unwrap();
        out.push(range);
        proof {
            assert(k < n_chunks(end as nat));
            if k + 1 < n_chunks(end as nat) {
                assert(k + 1 <= (end as nat) / (BUFFER_SIZE as nat));
                lemma_chunk_arith(end as nat, (k + 1) as nat);
            } else {
                assert(k == (end as nat) / (BUFFER_SIZE as nat));
            }
        }
    }
    proof {
        assert(out@.len() == n_chunks(end as nat));
        assert(out@[0].start == chunk_start(0));
        assert(chunk_start(0) == 0 * (BUFFER_SIZE as nat));
        assert(0 * (BUFFER_SIZE as nat) == 0) by (nonlinear_arith);
        let last = out@.len() - 1;
        assert(out@[last].end == chunk_end(end as nat, last as nat));
        lemma_chunk_arith(end as nat, last as nat);
        assert(out@[last].end == end);
        assert forall|i: int| 0 <= i < out@.len() - 1 implies (#[trigger] out@[i]).end + 1 == out@[i
            + 1].start by {
            assert(out@[i].end == chunk_end(end as nat, i as nat));
            assert(out@[i + 1].start == chunk_start((i + 1) as nat));
            lemma_chunk_arith(end as nat, i as nat);
            assert((i as nat) < (end as nat) / (BUFFER_SIZE as nat));
        }
    }
    out
}

impl Range {
    /// The HTTP byte-range header value `bytes=<start>-<end>` for this
    /// interval.
    pub fn as_header_value(&self) -> (r: String)
        ensures
            r@ == "bytes="@ + dec_digits(self.start as nat) + "-"@ + dec_digits(self.end as nat),
    {
        let mut s: String = "bytes=".to_owned();
        s.append(u64_to_dec(self.start).as_str());
        s.append("-");
        s.append(u64_to_dec(self.end).as_str());
        proof {
            assert(s@ =~= "bytes="@ + dec_digits(self.start as nat) + "-"@ + dec_digits(
                self.end as nat,
            ));
        }
        s
    }
}

/// The segment or its initialization segment points at an `.mp4` resource.
pub open spec fn seg_is_mp4(s: Segment) -> bool {
    ends_with(s.uri@, ".mp4"@) || (s.map is Some && ends_with(s.map.unwrap().uri@, ".mp4"@))
}

/// Some segment of the sequence points at an `.mp4` resource.
pub open spec fn has_mp4_uri(segs: Seq<Segment>) -> bool {
    exists|i: int| 0 <= i < segs.len() && seg_is_mp4(#[trigger] segs[i])
}

/// The output extension of a stream: the explicit one when set; else `mp4`
/// when any segment or init-segment URI ends in `.mp4`; else the manifest
/// kind's default, `ts` for HLS and `m4s` for DASH.
pub open spec fn spec_extension(p: MediaPlaylist) -> Seq<char> {
    match p.extension {
        Some(e) => e@,
        None => if has_mp4_uri(p.segments@) {
            "mp4"@
        } else if p.playlist_type == PlaylistType::Hls {
            "ts"@
        } else {
            "m4s"@
        },
    }
}

/// The canonical lowercase dash-free KID of the first segment's key, if any.
pub open spec fn spec_default_kid(p: MediaPlaylist) -> Option<Seq<char>> {
    if p.segments.len() > 0 && p.segments[0].key is Some && p.segments[0].key.unwrap().default_kid
        is Some {
        Some(lower_nodash(p.segments[0].key.unwrap().default_kid.unwrap()@))
    } else {
        None
    }
}

/// The output file-name prefix for each media type.
pub open spec fn media_prefix(t: MediaType) -> Seq<char> {
    match t {
        MediaType::Audio => "vsd-audio"@,
        MediaType::Subtitles => "vsd-subtitles"@,
        MediaType::Undefined => "vsd-undefined"@,
        MediaType::Video => "vsd-video"@,
    }
}

fn seg_is_mp4_exec(s: &Segment) -> (r: bool)
    ensures
        r == seg_is_mp4(*s),
{
    if str_ends_with(s.uri.as_str(), ".mp4") {
        return true;
    }
    match &s.map {
        Some(init) => str_ends_with(init.uri.as_str(), ".mp4"),
        None => false,
    }
}

/// How the size of a stream can be estimated without fetching it whole.
pub enum EstimateMethod {
    /// A multi-segment stream whose last segment carries a byte range: its
    /// end offset is the size.
    FromLastRange(u64),
    /// A metadata probe of the first segment is needed.
    Probe(ProbeRequest),
    /// No segments: the size is zero.
    NoSegments,
}

/// The metadata (HEAD) probe for a size estimate: request `uri` (resolved
/// against the stream's base), with `range` as a byte-range header when set,
/// and scale the resulting content length by `multiplier`.
pub struct ProbeRequest {
    pub multiplier: u64,
    pub range: Option<Range>,
    pub uri: String,
}

impl MediaPlaylist {
    /// The output extension of this stream.
    pub fn extension(&self) -> (r: String)
        ensures
            r@ == spec_extension(*self),
    {
        if let Some(ext) = &self.extension {
            return ext.clone();
        }
        let n = self.segments.len();
        let mut found = false;
        let mut i: usize = 0;
        while i < n
            invariant
                n == self.segments@.len(),
                i <= n,
                found == has_mp4_uri(self.segments@.take(i as int)),
            decreases n - i,
        {
            let c = seg_is_mp4_exec(&self.segments[i]);
            proof {
                let pre = self.segments@.take(i as int);
                let post = self.segments@.take(i + 1);
                if c {
                    assert(seg_is_mp4(post[i as int]));
                    assert(has_mp4_uri(post));
                } else if found {
                    let j = choose|j: int| 0 <= j < pre.len() && seg_is_mp4(pre[j]);
                    assert(seg_is_mp4(post[j]));
                    assert(has_mp4_uri(post));
                } else {
                    assert(forall|j: int|
                        0 <= j < post.len() ==> !seg_is_mp4(#[trigger] post[j])) by {
                        assert(forall|j: int|
                            0 <= j < pre.len() ==> !seg_is_mp4(#[trigger] pre[j]));
                        assert(forall|j: int| 0 <= j < pre.len() ==> post[j] == pre[j]);
                        assert(!seg_is_mp4(post[i as int]));
                    }
                }
            }
            if c {
                found = true;
            }
            i = i + 1;
        }
        proof {
            assert(self.segments@.take(n as int) =~= self.segments@);
        }
        if found {
            "mp4".to_owned()
        } else {
            match self.playlist_type {
                PlaylistType::Hls => "ts".to_owned(),
                PlaylistType::Dash => "m4s".to_owned(),
            }
        }
    }

    /// The lowercase dash-free KID of the first segment's key, if one is
    /// set.
    pub fn default_kid(&self) -> (r: Option<String>)
        ensures
            r is Some <==> spec_default_kid(*self) is Some,
            r is Some ==> r.unwrap()@ == spec_default_kid(*self).unwrap(),
    {
        if self.segments.len() > 0 {
            if let Some(key) = &self.segments[0].key {
                if let Some(kid) = &key.default_kid {
                    return Some(lower_nodash_exec(kid.as_str()));
                }
            }
        }
        None
    }

    /// The deterministic output file name `{prefix}-{id}.{ext}`, or
    /// `{prefix}-{id}-{n}.{ext}` when a collision probe number is given.
    pub fn file_name(&self, probe: Option<u64>, ext: &str) -> (r: String)
        ensures
            r@ == media_prefix(self.media_type) + "-"@ + self.id@ + (match probe {
                Some(n) => "-"@ + dec_digits(n as nat),
                None => Seq::<char>::empty(),
            }) + "."@ + ext@,
    {
        let mut s: String = match self.media_type {
            MediaType::Audio => "vsd-audio".to_owned(),
            MediaType::Subtitles => "vsd-subtitles".to_owned(),
            MediaType::Undefined => "vsd-undefined".to_owned(),
            MediaType::Video => "vsd-video".to_owned(),
        };
        s.append("-");
        s.append(self.id.as_str());
        if let Some(n) = probe {
            s.append("-");
            s.append(u64_to_dec(n).as_str());
        }
        s.append(".");
        s.append(ext);
        proof {
            assert(s@ =~= media_prefix(self.media_type) + "-"@ + self.id@ + (match probe {
                Some(n) => "-"@ + dec_digits(n as nat),
                None => Seq::<char>::empty(),
            }) + "."@ + ext@);
        }
        s
    }

    /// How to estimate this stream's total size: a known last-range end for
    /// a ranged multi-segment stream, a metadata probe of the first segment
    /// otherwise, zero without segments. Best-effort, not authoritative.
    pub fn estimate_size_method(&self) -> (r: EstimateMethod)
        ensures
            (self.segments@.len() > 1 && self.segments@.last().range is Some) ==> r
                == EstimateMethod::FromLastRange(self.segments@.last().range.unwrap().end),
            (self.segments@.len() >= 1 && !(self.segments@.len() > 1
                && self.segments@.last().range is Some)) ==> {
                &&& r is Probe
                &&& r->Probe_0.uri == self.segments@[0].uri
                &&& r->Probe_0.range == (if self.segments@.len() > 1 {
                    self.segments@[0].range
                } else {
                    Option::<Range>::None
                })
                &&& r->Probe_0.multiplier == self.segments@.len()
            },
            self.segments@.len() == 0 ==> r is NoSegments,
    {
        let total = self.segments.len();
        if total > 1 {
            if let Some(range) = &self.segments[total - 1].range {
                return EstimateMethod::FromLastRange(range.end);
            }
        }
        if total >= 1 {
            let first = &self.segments[0];
            let range = if total > 1 {
                match &first.range {
                    Some(r) => Some(*r),
                    None => None,
                }
            } else {
                None
            };
            return EstimateMethod::Probe(
                ProbeRequest { multiplier: total as u64, range, uri: first.uri.clone() },
            );
        }
        EstimateMethod::NoSegments
    }

    /// The size estimate once a probe has reported `content_length`: the
    /// length scaled by the probe's multiplier.
    pub fn estimate_size_from_probe(multiplier: u64, content_length: u64) -> (r: u64)
        requires
            multiplier * content_length <= u64::MAX,
        ensures
            r == multiplier * content_length,
    {
        proof {
            assert((multiplier as u128) * (content_length as u128) == (multiplier as int) * (
            content_length as int)) by (nonlinear_arith);
        }
        ((multiplier as u128) * (content_length as u128)) as u64
    }

    /// Replaces the only segment of a non-fragmented stream, of total byte
    /// length `content_length`, with one segment per fixed-size chunk: every
    /// replacement keeps the original URI and duration, only the first keeps
    /// the key and init segment, and the chunk ranges tile `[0,
    /// content_length - 1]`. A stream that is already fragmented is left
    /// unchanged.
    #[verifier::loop_isolation(false)]
    pub fn split_segment(&mut self, content_length: u64)
        requires
            content_length >= 1,
            old(self).segments@.len() >= 1,
        ensures
            old(self).segments@.len() > 1 ==> *final(self) == *old(self),
            old(self).segments@.len() == 1 ==> {
                &&& *final(self) == (MediaPlaylist {
                    segments: final(self).segments,
                    ..*old(self)
                })
                &&& final(self).segments@.len() == n_chunks((content_length - 1) as nat)
                &&& forall|i: int|
                    0 <= i < final(self).segments@.len() ==> {
                        let s = #[trigger] final(self).segments@[i];
                        &&& s.uri == old(self).segments@[0].uri
                        &&& s.duration_ms == old(self).segments@[0].duration_ms
                        &&& s.range == Some(
                            Range {
                                start: chunk_start(i as nat) as u64,
                                end: chunk_end((content_length - 1) as nat, i as nat) as u64,
                            },
                        )
                        &&& (i == 0 ==> s.key == old(self).segments@[0].key && s.map == old(
                            self,
                        ).segments@[0].map)
                        &&& (i > 0 ==> s.key is None && s.map is None)
                    }
            },
    {
        if self.segments.len() > 1 {
            return ;
        }
        let seg = self.segments.remove(0);
        let ranges = partition_ranges(content_length - 1);
        let duration_ms = seg.duration_ms;
        let uri_copy = seg.uri.clone();
        let mut first = seg;
        first.range = Some(ranges[0]);
        self.segments.push(first);
        let mut i: usize = 1;
        while i < ranges.len()
            invariant
                1 <= i <= ranges@.len(),
                self.segments@.len() == i,
                *self == (MediaPlaylist { segments: self.segments, ..*old(self) }),
                ranges@.len() == n_chunks((content_length - 1) as nat),
                forall|j: int|
                    0 <= j < ranges@.len() ==> (#[trigger] ranges@[j]).start == chunk_start(j as nat)
                        && ranges@[j].end == chunk_end((content_length - 1) as nat, j as nat),
                forall|j: int|
                    0 <= j < i ==> {
                        let s = #[trigger] self.segments@[j];
                        &&& s.uri == old(self).segments@[0].uri
                        &&& s.duration_ms == old(self).segments@[0].duration_ms
                        &&& s.range == Some(ranges@[j])
                        &&& (j == 0 ==> s.key == old(self).segments@[0].key && s.map == old(
                            self,
                        ).segments@[0].map)
                        &&& (j > 0 ==> s.key is None && s.map is None)
                    },
            decreases ranges@.len() - i,
        {
            self.segments.push(
                Segment {
                    duration_ms,
                    key: None,
                    map: None,
                    range: Some(ranges[i]),
                    uri: uri_copy.clone(),
                },
            );
            i = i + 1;
        }
    }
}

impl MediaType {
    /// The short label a stream listing prints for this type.
    pub fn name(&self) -> (r: &'static str)
        ensures
            *self == MediaType::Audio ==> r@ == "audio"@,
            *self == MediaType::Subtitles ==> r@ == "subs"@,
            *self == MediaType::Undefined ==> r@ == "und"@,
            *self == MediaType::Video ==> r@ == "video"@,
    {
        match self {
            MediaType::Audio => "audio",
            MediaType::Subtitles => "subs",
            MediaType::Undefined => "und",
            MediaType::Video => "video",
        }
    }
}

/// The friendly name of a video resolution: one of ten standard names, else
/// `WxH`.
pub open spec fn resolution_name(w: nat, h: nat) -> Seq<char> {
    if w == 256 && h == 144 {
        "144p"@
    } else if w == 426 && h == 240 {
        "240p"@
    } else if w == 640 && h == 360 {
        "360p"@
    } else if w == 854 && h == 480 {
        "480p"@
    } else if w == 1280 && h == 720 {
        "720p"@
    } else if w == 1920 && h == 1080 {
        "1080p"@
    } else if w == 2048 && h == 1080 {
        "2K"@
    } else if w == 2560 && h == 1440 {
        "1440p"@
    } else if w == 3840 && h == 2160 {
        "4K"@
    } else if w == 7680 && h == 4320 {
        "8K"@
    } else {
        dec_digits(w) + "x"@ + dec_digits(h)
    }
}

/// The friendly name of a video resolution.
pub fn resolution_name_exec(w: u64, h: u64) -> (r: String)
    ensures
        r@ == resolution_name(w as nat, h as nat),
{
    if w == 256 && h == 144 {
        "144p".to_owned()
    } else if w == 426 && h == 240 {
        "240p".to_owned()
    } else if w == 640 && h == 360 {
        "360p".to_owned()
    } else if w == 854 && h == 480 {
        "480p".to_owned()
    } else if w == 1280 && h == 720 {
        "720p".to_owned()
    } else if w == 1920 && h == 1080 {
        "1080p".to_owned()
    } else if w == 2048 && h == 1080 {
        "2K".to_owned()
    } else if w == 2560 && h == 1440 {
        "1440p".to_owned()
    } else if w == 3840 && h == 2160 {
        "4K".to_owned()
    } else if w == 7680 && h == 4320 {
        "8K".to_owned()
    } else {
        let mut s = u64_to_dec(w);
        s.append("x");
        s.append(u64_to_dec(h).as_str());
        proof {
            assert(s@ =~= dec_digits(w as nat) + "x"@ + dec_digits(h as nat));
        }
        s
    }
}

/// The one-line summary of an audio stream: language, then codec,
/// humanized bandwidth, channel count and live flag where present.
pub open spec fn spec_display_audio(p: MediaPlaylist) -> Seq<char> {
    "language: "@ + (match p.language {
        Some(l) => l@,
        None => "?"@,
    }) + (match p.codecs {
        Some(c) => ", codecs: "@ + c@,
        None => Seq::<char>::empty(),
    }) + (match p.bandwidth {
        Some(b) => ", bandwidth: "@ + bytes_value_chars(b as nat) + " "@ + bytes_unit(
            size_class(b as nat),
        ) + "/s"@,
        None => Seq::<char>::empty(),
    }) + (match p.channels {
        Some(c) => ", channels: "@ + milli_chars(c as nat),
        None => Seq::<char>::empty(),
    }) + (if p.live {
        ", live"@
    } else {
        Seq::<char>::empty()
    })
}

/// The one-line summary of a subtitle stream: language, then codec where
/// present.
pub open spec fn spec_display_subs(p: MediaPlaylist) -> Seq<char> {
    "language: "@ + (match p.language {
        Some(l) => l@,
        None => "?"@,
    }) + (match p.codecs {
        Some(c) => ", codecs: "@ + c@,
        None => Seq::<char>::empty(),
    })
}

/// The one-line summary of a video stream: resolution name, humanized
/// bandwidth, then codec, frame rate, i-frame and live annotations.
pub open spec fn spec_display_video(p: MediaPlaylist) -> Seq<char> {
    (match p.resolution {
        Some(res) => resolution_name(res.0 as nat, res.1 as nat),
        None => "?"@,
    }) + " "@ + (match p.bandwidth {
        Some(b) => bytes_value_chars(b as nat) + " "@ + bytes_unit(size_class(b as nat)),
        None => "? ?"@,
    }) + "/s (codecs: "@ + (match p.codecs {
        Some(c) => c@,
        None => "?"@,
    }) + (match p.frame_rate {
        Some(f) => ", frame_rate: "@ + milli_chars(f as nat),
        None => Seq::<char>::empty(),
    }) + (if p.i_frame {
        ", iframe"@
    } else {
        Seq::<char>::empty()
    }) + (if p.live {
        ", live"@
    } else {
        Seq::<char>::empty()
    }) + ")"@
}

/// The whitespace-normalized single-line summary of a stream, picked by its
/// media type; empty for an undefined stream.
pub open spec fn spec_display_stream(p: MediaPlaylist) -> Seq<char> {
    match p.media_type {
        MediaType::Audio => norm_ws(spec_display_audio(p)),
        MediaType::Subtitles => norm_ws(spec_display_subs(p)),
        MediaType::Undefined => Seq::<char>::empty(),
        MediaType::Video => norm_ws(spec_display_video(p)),
    }
}

impl MediaPlaylist {
    /// The one-line summary of this stream as an audio stream.
    #[verifier::rlimit(80)]
    pub fn display_audio_stream(&self) -> (r: String)
        ensures
            r@ == spec_display_audio(*self),
    {
        let mut extra: String = "language: ".to_owned();
        match &self.language {
            Some(l) => extra.append(l.as_str()),
            None => extra.append("?"),
        }
        if let Some(codecs) = &self.codecs {
            extra.append(", codecs: ");
            extra.append(codecs.as_str());
        }
        if let Some(bandwidth) = self.bandwidth {
            extra.append(", bandwidth: ");
            extra.append(format_bytes(bandwidth).2.as_str());
            extra.append("/s");
        }
        if let Some(channels) = self.channels {
            extra.append(", channels: ");
            extra.append(milli_to_string(channels).as_str());
        }
        if self.live {
            extra.append(", live");
        }
        proof {
            assert(extra@ =~= spec_display_audio(*self));
        }
        extra
    }

    /// The one-line summary of this stream as a subtitle stream.
    pub fn display_subs_stream(&self) -> (r: String)
        ensures
            r@ == spec_display_subs(*self),
    {
        let mut extra: String = "language: ".to_owned();
        match &self.language {
            Some(l) => extra.append(l.as_str()),
            None => extra.append("?"),
        }
        if let Some(codecs) = &self.codecs {
            extra.append(", codecs: ");
            extra.append(codecs.as_str());
        }
        proof {
            assert(extra@ =~= spec_display_subs(*self));
        }
        extra
    }

    /// The one-line summary of this stream as a video stream.
    #[verifier::rlimit(80)]
    pub fn display_video_stream(&self) -> (r: String)
        ensures
            r@ == spec_display_video(*self),
    {
        let mut line: String = match self.resolution {
            Some(res) => resolution_name_exec(res.0, res.1),
            None => "?".to_owned(),
        };
        line.append(" ");
        match self.bandwidth {
            Some(b) => line.append(format_bytes(b).2.as_str()),
            None => line.append("? ?"),
        }
        line.append("/s (codecs: ");
        match &self.codecs {
            Some(c) => line.append(c.as_str()),
            None => line.append("?"),
        }
        if let Some(f) = self.frame_rate {
            line.append(", frame_rate: ");
            line.append(milli_to_string(f).as_str());
        }
        if self.i_frame {
            line.append(", iframe");
        }
        if self.live {
            line.append(", live");
        }
        line.append(")");
        proof {
            assert(line@ =~= spec_display_video(*self));
        }
        line
    }

    /// The whitespace-normalized single-line summary of this stream.
    pub fn display_stream(&self) -> (r: String)
        ensures
            r@ == spec_display_stream(*self),
    {
        match self.media_type {
            MediaType::Audio => normalize_ws(self.display_audio_stream().as_str()),
            MediaType::Subtitles => normalize_ws(self.display_subs_stream().as_str()),
            MediaType::Undefined => String::new(),
            MediaType::Video => normalize_ws(self.display_video_stream().as_str()),
        }
    }
}

/// Byte `i` of the 16-byte big-endian encoding of `v`.
pub open spec fn be_byte(v: u128, i: int) -> u8 {
    (v >> (((15 - i) * 8) as u128)) as u8
}

/// The 16-byte big-endian encoding of `v`.
pub open spec fn be_bytes(v: u128) -> Seq<u8> {
    Seq::new(16, |i: int| be_byte(v, i))
}

fn u128_to_be_bytes(v: u128) -> (r: [u8; 16])
    ensures
        r@ == be_bytes(v),
{
    let r: [u8; 16] = [
        (v >> 120) as u8,
        (v >> 112) as u8,
        (v >> 104) as u8,
        (v >> 96) as u8,
        (v >> 88) as u8,
        (v >> 80) as u8,
        (v >> 72) as u8,
        (v >> 64) as u8,
        (v >> 56) as u8,
        (v >> 48) as u8,
        (v >> 40) as u8,
        (v >> 32) as u8,
        (v >> 24) as u8,
        (v >> 16) as u8,
        (v >> 8) as u8,
        v as u8,
    ];
    proof {
        assert((v >> 0) as u8 == v as u8) by (bit_vector);
        assert(r@ =~= be_bytes(v));
    }
    r
}

/// The hexadecimal digits of an explicit IV, its optional `0x` prefix
/// removed.
pub open spec fn strip_0x(s: Seq<char>) -> Seq<char> {
    if s.len() >= 2 && s[0] == '0' && s[1] == 'x' {
        s.subrange(2, s.len() as int)
    } else {
        s
    }
}

/// The 128-bit IV a key derives for sequence number `seq_no`: the explicit
/// IV parsed as big-endian hexadecimal when one is set, else `seq_no` itself.
/// Nothing when the explicit IV does not parse.
pub open spec fn spec_iv_value(k: Key, seq_no: u64) -> Option<u128> {
    match k.iv {
        Some(s) => {
            let d = strip_0x(s@);
            if d.len() > 0 && all_hex(d) && hex_value(d) <= u128::MAX {
                Some(hex_value(d) as u128)
            } else {
                None
            }
        },
        None => Some(seq_no as u128),
    }
}

impl Key {
    /// Validates raw key material: exactly 16 bytes, returned as an AES-128
    /// key, else the invalid-key-size failure.
    pub fn key(&self, bytes: &[u8]) -> (r: Result<[u8; 16], KeyError>)
        ensures
            r is Ok <==> bytes@.len() == 16,
            r is Ok ==> r.unwrap()@ == bytes@,
            r is Err ==> r == Err::<[u8; 16], KeyError>(KeyError::InvalidKeySize),
    {
        if bytes.len() != 16 {
            return Err(KeyError::InvalidKeySize);
        }
        let key: [u8; 16] = [
            bytes[0],
            bytes[1],
            bytes[2],
            bytes[3],
            bytes[4],
            bytes[5],
            bytes[6],
            bytes[7],
            bytes[8],
            bytes[9],
            bytes[10],
            bytes[11],
            bytes[12],
            bytes[13],
            bytes[14],
            bytes[15],
        ];
        proof {
            assert(key@ =~= bytes@);
        }
        Ok(key)
    }

    /// The 16-byte big-endian IV for sequence number `sequence`: the
    /// explicit IV when set and well-formed (failing with the invalid-IV
    /// error otherwise), else the sequence number — the standard AES-128
    /// HLS fallback.
    pub fn iv(&self, sequence: u64) -> (r: Result<[u8; 16], KeyError>)
        ensures
            r is Ok <==> spec_iv_value(*self, sequence) is Some,
            r is Ok ==> r.unwrap()@ == be_bytes(spec_iv_value(*self, sequence).unwrap()),
            r is Err ==> r == Err::<[u8; 16], KeyError>(KeyError::InvalidIv),
    {
        match &self.iv {
            Some(actual_iv) => {
                let s = actual_iv.as_str();
                let n = s.unicode_len();
                let stripped: &str = if n >= 2 && s.get_char(0) == '0' && s.get_char(1) == 'x' {
                    let sub = s.substring_char(2, n);
                    proof {
                        assert(sub@ =~= strip_0x(s@));
                    }
                    sub
                } else {
                    s
                };
                match parse_hex_u128(stripped) {
                    Some(v) => Ok(u128_to_be_bytes(v)),
                    None => Err(KeyError::InvalidIv),
                }
            },
            None => Ok(u128_to_be_bytes(sequence as u128)),
        }
    }
}

} // verus!
