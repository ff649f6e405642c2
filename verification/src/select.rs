//! The stream selector: reconciles per-type filters, positional preferences
//! and safe defaults into one deterministic selection.
use vstd::prelude::*;
use vstd::string::*;
use crate::playlist::{MasterPlaylist, MediaPlaylist, MediaType};
use crate::text::is_prefix;
use vstd::multiset::Multiset;

verus! {

/// Which end of the sorted video list an unfiltered selection prefers.
#[derive(Clone, Copy, PartialEq, Eq, Structural, Debug)]
pub enum VideoPreference {
    Best,
    NoPreference,
    Worst,
}

/// The filter for the video streams of one selection.
pub struct VideoFilter {
    pub all: bool,
    pub preference: VideoPreference,
    pub resolutions: Vec<(u64, u64)>,
    pub skip: bool,
}

/// The filter for the audio or subtitle streams of one selection.
pub struct LangFilter {
    pub all: bool,
    pub languages: Vec<String>,
    pub skip: bool,
}

/// One parsed filter specification: what to select of each media type, plus
/// explicit 1-based stream numbers that apply to every type.
pub struct SelectOptions {
    pub audio: LangFilter,
    pub stream_numbers: Vec<u64>,
    pub subs: LangFilter,
    pub video: VideoFilter,
}

/// Some listed language equals `l` exactly.
pub open spec fn lang_exact(langs: Seq<String>, l: Seq<char>) -> bool {
    exists|k: int| 0 <= k < langs.len() && (#[trigger] langs[k])@ == l
}

/// Some listed language approximately matches `l`: one is a prefix of the
/// other.
pub open spec fn lang_siml(langs: Seq<String>, l: Seq<char>) -> bool {
    exists|k: int|
        0 <= k < langs.len() && (is_prefix((#[trigger] langs[k])@, l) || is_prefix(l, langs[k]@))
}

impl LangFilter {
    /// Whether `lang` equals one of the filter's languages.
    pub fn contains_exact_lang(&self, lang: &String) -> (r: bool)
        ensures
            r == lang_exact(self.languages@, lang@),
    {
        let n = self.languages.len();
        let mut i: usize = 0;
        while i < n
            invariant
                n == self.languages@.len(),
                i <= n,
                forall|k: int| 0 <= k < i ==> (#[trigger] self.languages@[k])@ != lang@,
            decreases n - i,
        {
            if self.languages[i].eq(lang) {
                return true;
            }
            i = i + 1;
        }
        false
    }

    /// Whether `lang` approximately matches one of the filter's languages.
    pub fn contains_siml_lang(&self, lang: &String) -> (r: bool)
        ensures
            r == lang_siml(self.languages@, lang@),
    {
        let n = self.languages.len();
        let mut i: usize = 0;
        while i < n
            invariant
                n == self.languages@.len(),
                i <= n,
                forall|k: int|
                    0 <= k < i ==> !(is_prefix((#[trigger] self.languages@[k])@, lang@) || is_prefix(
                        lang@,
                        self.languages@[k]@,
                    )),
            decreases n - i,
        {
            let cand = &self.languages[i];
            if crate::text::str_starts_with(lang.as_str(), cand.as_str())
                || crate::text::str_starts_with(cand.as_str(), lang.as_str()) {
                return true;
            }
            i = i + 1;
        }
        false
    }
}

/// Stream `i` (0-based) was named explicitly by its 1-based number.
pub open spec fn explicit_pick(opts: SelectOptions, i: int) -> bool {
    exists|k: int|
        0 <= k < opts.stream_numbers@.len() && (#[trigger] opts.stream_numbers@[k]) == i + 1
}

/// The stream's resolution is one of the filter's resolutions.
pub open spec fn res_pick(opts: SelectOptions, s: MediaPlaylist) -> bool {
    s.resolution is Some && exists|k: int|
        0 <= k < opts.video.resolutions@.len() && (#[trigger] opts.video.resolutions@[k])
            == s.resolution.unwrap()
}

/// `i` is the first stream of type `t`.
pub open spec fn is_first_of_type(streams: Seq<MediaPlaylist>, t: MediaType, i: int) -> bool {
    0 <= i < streams.len() && streams[i].media_type == t && forall|j: int|
        0 <= j < i ==> (#[trigger] streams[j]).media_type != t
}

/// `i` is the last stream of type `t`.
pub open spec fn is_last_of_type(streams: Seq<MediaPlaylist>, t: MediaType, i: int) -> bool {
    0 <= i < streams.len() && streams[i].media_type == t && forall|j: int|
        i < j < streams.len() ==> (#[trigger] streams[j]).media_type != t
}

/// Some stream has type `t`.
pub open spec fn has_type(streams: Seq<MediaPlaylist>, t: MediaType) -> bool {
    exists|i: int| 0 <= i < streams.len() && (#[trigger] streams[i]).media_type == t
}

/// The positional video preference picks stream `i`: the first video for
/// `Best`, the last for `Worst` (the list is pre-sorted best first).
pub open spec fn pref_pick(streams: Seq<MediaPlaylist>, opts: SelectOptions, i: int) -> bool {
    match opts.video.preference {
        VideoPreference::Best => is_first_of_type(streams, MediaType::Video, i),
        VideoPreference::NoPreference => false,
        VideoPreference::Worst => is_last_of_type(streams, MediaType::Video, i),
    }
}

/// Stream `i` is an accumulated candidate of its type: named explicitly, or
/// matched by resolution (video), exact language, approximate language, or
/// the positional preference (video).
pub open spec fn candidate(streams: Seq<MediaPlaylist>, opts: SelectOptions, i: int) -> bool {
    let s = streams[i];
    match s.media_type {
        MediaType::Video => explicit_pick(opts, i) || res_pick(opts, s) || pref_pick(
            streams,
            opts,
            i,
        ),
        MediaType::Audio => explicit_pick(opts, i) || (s.language is Some && (lang_exact(
            opts.audio.languages@,
            s.language.unwrap()@,
        ) || lang_siml(opts.audio.languages@, s.language.unwrap()@))),
        MediaType::Subtitles => explicit_pick(opts, i) || (s.language is Some && (lang_exact(
            opts.subs.languages@,
            s.language.unwrap()@,
        ) || lang_siml(opts.subs.languages@, s.language.unwrap()@))),
        MediaType::Undefined => false,
    }
}

/// The `all` flag of the filter for type `t`.
pub open spec fn type_all(opts: SelectOptions, t: MediaType) -> bool {
    match t {
        MediaType::Video => opts.video.all,
        MediaType::Audio => opts.audio.all,
        MediaType::Subtitles => opts.subs.all,
        MediaType::Undefined => false,
    }
}

/// The `skip` flag of the filter for type `t`.
pub open spec fn type_skip(opts: SelectOptions, t: MediaType) -> bool {
    match t {
        MediaType::Video => opts.video.skip,
        MediaType::Audio => opts.audio.skip,
        MediaType::Subtitles => opts.subs.skip,
        MediaType::Undefined => false,
    }
}

/// Some stream of type `t` is a candidate.
pub open spec fn has_candidate(streams: Seq<MediaPlaylist>, opts: SelectOptions, t: MediaType) -> bool {
    exists|j: int|
        0 <= j < streams.len() && (#[trigger] streams[j]).media_type == t && candidate(
            streams,
            opts,
            j,
        )
}

/// Stream `i` is in the final selection. Per type: `all` selects every
/// stream and ignores `skip`; `skip` with a non-empty candidate set selects
/// the complement within the type; otherwise the candidates are selected,
/// defaulting to the type's first stream when none accumulated. Undefined
/// streams are never selected.
pub open spec fn selected(streams: Seq<MediaPlaylist>, opts: SelectOptions, i: int) -> bool {
    let t = streams[i].media_type;
    if t == MediaType::Undefined {
        false
    } else if type_all(opts, t) {
        true
    } else if type_skip(opts, t) {
        has_candidate(streams, opts, t) && !candidate(streams, opts, i)
    } else {
        candidate(streams, opts, i) || (!has_candidate(streams, opts, t) && is_first_of_type(
            streams,
            t,
            i,
        ))
    }
}

/// The selected streams of type `t` among the first `n`, in stream order.
pub open spec fn select_up_to(
    streams: Seq<MediaPlaylist>,
    opts: SelectOptions,
    t: MediaType,
    n: int,
) -> Seq<MediaPlaylist>
    decreases n,
{
    if n <= 0 {
        Seq::empty()
    } else {
        let pre = select_up_to(streams, opts, t, n - 1);
        if streams[n - 1].media_type == t && selected(streams, opts, n - 1) {
            pre.push(streams[n - 1])
        } else {
            pre
        }
    }
}

/// The whole selection: selected videos, then selected audios, then
/// selected subtitles, each group in stream order.
pub open spec fn spec_selection(streams: Seq<MediaPlaylist>, opts: SelectOptions) -> Seq<
    MediaPlaylist,
> {
    select_up_to(streams, opts, MediaType::Video, streams.len() as int) + select_up_to(
        streams,
        opts,
        MediaType::Audio,
        streams.len() as int,
    ) + select_up_to(streams, opts, MediaType::Subtitles, streams.len() as int)
}

fn contains_number(xs: &Vec<u64>, x: u64) -> (r: bool)
    ensures
        r == exists|k: int| 0 <= k < xs@.len() && (#[trigger] xs@[k]) == x,
{
    let n = xs.len();
    let mut i: usize = 0;
    while i < n
        invariant
            n == xs@.len(),
            i <= n,
            forall|k: int| 0 <= k < i ==> (#[trigger] xs@[k]) != x,
        decreases n - i,
    {
        if xs[i] == x {
            return true;
        }
        i = i + 1;
    }
    false
}

fn contains_resolution(xs: &Vec<(u64, u64)>, w: u64, h: u64) -> (r: bool)
    ensures
        r == exists|k: int| 0 <= k < xs@.len() && (#[trigger] xs@[k]) == (w, h),
{
    let n = xs.len();
    let mut i: usize = 0;
    while i < n
        invariant
            n == xs@.len(),
            i <= n,
            forall|k: int| 0 <= k < i ==> (#[trigger] xs@[k]) != (w, h),
        decreases n - i,
    {
        let (cw, ch) = xs[i];
        if cw == w && ch == h {
            return true;
        }
        i = i + 1;
    }
    false
}

#[verifier::loop_isolation(false)]
fn find_first_of_type(streams: &Vec<MediaPlaylist>, t: MediaType) -> (r: Option<usize>)
    ensures
        match r {
            Some(i) => is_first_of_type(streams@, t, i as int),
            None => !has_type(streams@, t),
        },
{
    let n = streams.len();
    let mut i: usize = 0;
    while i < n
        invariant
            i <= n,
            forall|j: int| 0 <= j < i ==> (#[trigger] streams@[j]).media_type != t,
        decreases n - i,
    {
        if streams[i].media_type == t {
            return Some(i);
        }
        i = i + 1;
    }
    None
}

#[verifier::loop_isolation(false)]
fn find_last_of_type(streams: &Vec<MediaPlaylist>, t: MediaType) -> (r: Option<usize>)
    ensures
        match r {
            Some(i) => is_last_of_type(streams@, t, i as int),
            None => !has_type(streams@, t),
        },
{
    let n = streams.len();
    let mut i: usize = n;
    while i > 0
        invariant
            i <= n,
            forall|j: int| i <= j < n ==> (#[trigger] streams@[j]).media_type != t,
        decreases i,
    {
        i = i - 1;
        if streams[i].media_type == t {
            return Some(i);
        }
    }
    None
}

/// The two first-of-type witnesses coincide.
proof fn lemma_first_unique(streams: Seq<MediaPlaylist>, t: MediaType, i: int, j: int)
    requires
        is_first_of_type(streams, t, i),
        is_first_of_type(streams, t, j),
    ensures
        i == j,
{
}

/// The two last-of-type witnesses coincide.
proof fn lemma_last_unique(streams: Seq<MediaPlaylist>, t: MediaType, i: int, j: int)
    requires
        is_last_of_type(streams, t, i),
        is_last_of_type(streams, t, j),
    ensures
        i == j,
{
}

impl MasterPlaylist {
    /// The headless selection for one filter specification, in selection
    /// order: selected videos, audios, then subtitles, each in stream
    /// order. Never fails; an empty selection is a valid outcome.
    #[verifier::loop_isolation(false)]
    pub fn select_streams(self, opts: &SelectOptions) -> (r: Vec<MediaPlaylist>)
        ensures
            r@ == spec_selection(self.streams@, *opts),
    {
        let ghost all = self.streams@;
        let n = self.streams.len();

        let first_video = find_first_of_type(&self.streams, MediaType::Video);
        let last_video = find_last_of_type(&self.streams, MediaType::Video);
        let first_audio = find_first_of_type(&self.streams, MediaType::Audio);
        let first_subs = find_first_of_type(&self.streams, MediaType::Subtitles);

        // Candidate flags, one per stream index.
        let mut cand: Vec<bool> = Vec::new();
        let mut i: usize = 0;
        while i < n
            invariant
                i <= n,
                cand@.len() == i,
                forall|j: int| 0 <= j < i ==> cand@[j] == candidate(all, *opts, j),
            decreases n - i,
        {
            let s = &self.streams[i];
            let by_number = contains_number(&opts.stream_numbers, (i as u64) + 1);
            let c: bool = match s.media_type {
                MediaType::Video => {
                    let by_res = match &s.resolution {
                        Some(res) => contains_resolution(&opts.video.resolutions, res.0, res.1),
                        None => false,
                    };
                    let by_pref = match opts.video.preference {
                        VideoPreference::Best => {
                            let hit = first_video == Some(i);
                            proof {
                                if hit {
                                    assert(is_first_of_type(all, MediaType::Video, i as int));
                                } else if first_video is Some {
                                    if is_first_of_type(all, MediaType::Video, i as int) {
                                        lemma_first_unique(
                                            all,
                                            MediaType::Video,
                                            i as int,
                                            first_video.unwrap() as int,
                                        );
                                    }
                                }
                            }
                            hit
                        },
                        VideoPreference::NoPreference => false,
                        VideoPreference::Worst => {
                            let hit = last_video == Some(i);
                            proof {
                                if hit {
                                    assert(is_last_of_type(all, MediaType::Video, i as int));
                                } else if last_video is Some {
                                    if is_last_of_type(all, MediaType::Video, i as int) {
                                        lemma_last_unique(
                                            all,
                                            MediaType::Video,
                                            i as int,
                                            last_video.unwrap() as int,
                                        );
                                    }
                                }
                            }
                            hit
                        },
                    };
                    by_number || by_res || by_pref
                },
                MediaType::Audio => {
                    let by_lang = match &s.language {
                        Some(lang) => opts.audio.contains_exact_lang(lang)
                            || opts.audio.contains_siml_lang(lang),
                        None => false,
                    };
                    by_number || by_lang
                },
                MediaType::Subtitles => {
                    let by_lang = match &s.language {
                        Some(lang) => opts.subs.contains_exact_lang(lang)
                            || opts.subs.contains_siml_lang(lang),
                        None => false,
                    };
                    by_number || by_lang
                },
                MediaType::Undefined => false,
            };
            cand.push(c);
            i = i + 1;
        }

        // Whether each type accumulated any candidate.
        let cand_video = exists_candidate(&self.streams, &cand, MediaType::Video, opts);
        let cand_audio = exists_candidate(&self.streams, &cand, MediaType::Audio, opts);
        let cand_subs = exists_candidate(&self.streams, &cand, MediaType::Subtitles, opts);

        // Selection flags, one per stream index.
        let mut sel: Vec<bool> = Vec::new();
        let mut i: usize = 0;
        while i < n
            invariant
                i <= n,
                cand@.len() == n,
                forall|j: int| 0 <= j < n ==> cand@[j] == candidate(all, *opts, j),
                sel@.len() == i,
                forall|j: int| 0 <= j < i ==> sel@[j] == selected(all, *opts, j),
            decreases n - i,
        {
            let s = &self.streams[i];
            let (f_all, f_skip, f_cand, f_first) = match s.media_type {
                MediaType::Video => (
                    opts.video.all,
                    opts.video.skip,
                    cand_video,
                    first_video,
                ),
                MediaType::Audio => (opts.audio.all, opts.audio.skip, cand_audio, first_audio),
                MediaType::Subtitles => (opts.subs.all, opts.subs.skip, cand_subs, first_subs),
                MediaType::Undefined => (false, false, false, None),
            };
            let v: bool = if matches!(s.media_type, MediaType::Undefined) {
                false
            } else if f_all {
                true
            } else if f_skip {
                f_cand && !cand[i]
            } else {
                let is_first = f_first == Some(i);
                proof {
                    let t = all[i as int].media_type;
                    if is_first {
                        assert(is_first_of_type(all, t, i as int));
                    } else {
                        if is_first_of_type(all, t, i as int) {
                            assert(has_type(all, t));
                            assert(f_first is Some);
                            lemma_first_unique(all, t, i as int, f_first.unwrap() as int);
                        }
                    }
                }
                cand[i] || (!f_cand && is_first)
            };
            sel.push(v);
            i = i + 1;
        }

        // Move the selected streams out, grouped by type.
        let mut rest = self.streams;
        let mut vids: Vec<MediaPlaylist> = Vec::new();
        let mut auds: Vec<MediaPlaylist> = Vec::new();
        let mut subs: Vec<MediaPlaylist> = Vec::new();
        let mut i: usize = 0;
        while i < n
            invariant
                i <= n,
                rest@ == all.subrange(i as int, n as int),
                sel@.len() == n,
                forall|j: int| 0 <= j < n ==> sel@[j] == selected(all, *opts, j),
                vids@ == select_up_to(all, *opts, MediaType::Video, i as int),
                auds@ == select_up_to(all, *opts, MediaType::Audio, i as int),
                subs@ == select_up_to(all, *opts, MediaType::Subtitles, i as int),
            decreases n - i,
        {
            let s = rest.remove(0);
            proof {
                assert(all.subrange(i as int, n as int)[0] == all[i as int]);
                assert(rest@ =~= all.subrange(i + 1, n as int));
            }
            let keep = sel[i];
            if keep {
                match s.media_type {
                    MediaType::Video => vids.push(s),
                    MediaType::Audio => auds.push(s),
                    MediaType::Subtitles => subs.push(s),
                    MediaType::Undefined => (),
                }
            }
            i = i + 1;
        }
        let mut result = vids;
        result.append(&mut auds);
        result.append(&mut subs);
        result
    }
}

#[verifier::loop_isolation(false)]
fn exists_candidate(
    streams: &Vec<MediaPlaylist>,
    cand: &Vec<bool>,
    t: MediaType,
    opts: &SelectOptions,
) -> (r: bool)
    requires
        cand@.len() == streams@.len(),
        forall|j: int| 0 <= j < cand@.len() ==> cand@[j] == candidate(streams@, *opts, j),
    ensures
        r == has_candidate(streams@, *opts, t),
{
    let n = streams.len();
    let mut i: usize = 0;
    while i < n
        invariant
            i <= n,
            forall|j: int| 0 <= j < i ==> !((#[trigger] streams@[j]).media_type == t && cand@[j]),
        decreases n - i,
    {
        if streams[i].media_type == t && cand[i] {
            return true;
        }
        i = i + 1;
    }
    false
}

/// The quality metric a sort ranks streams of type `t` by: pixel area for
/// video, channel count for audio, zero when the field is absent.
pub open spec fn stream_quality(s: MediaPlaylist, t: MediaType) -> int {
    if t == MediaType::Video {
        match s.resolution {
            Some(res) => res.0 * res.1,
            None => 0,
        }
    } else {
        match s.channels {
            Some(c) => c as int,
            None => 0,
        }
    }
}

/// The secondary sort metric: bandwidth, zero when absent.
pub open spec fn stream_bandwidth(s: MediaPlaylist) -> int {
    match s.bandwidth {
        Some(b) => b as int,
        None => 0,
    }
}

/// `a` ranks at least as high as `b` for type `t`: higher quality first,
/// ties broken by higher bandwidth.
pub open spec fn rank_ge(a: MediaPlaylist, b: MediaPlaylist, t: MediaType) -> bool {
    stream_quality(a, t) > stream_quality(b, t) || (stream_quality(a, t) == stream_quality(b, t)
        && stream_bandwidth(a) >= stream_bandwidth(b))
}

/// The sequence is ordered best first under `rank_ge` for type `t`.
pub open spec fn sorted_by_rank(s: Seq<MediaPlaylist>, t: MediaType) -> bool {
    forall|p: int, q: int| 0 <= p < q < s.len() ==> rank_ge(#[trigger] s[p], #[trigger] s[q], t)
}

/// The video streams of a sequence, in order.
pub open spec fn videos_of(s: Seq<MediaPlaylist>) -> Seq<MediaPlaylist> {
    s.filter(|x: MediaPlaylist| x.media_type == MediaType::Video)
}

/// The audio streams of a sequence, in order.
pub open spec fn audios_of(s: Seq<MediaPlaylist>) -> Seq<MediaPlaylist> {
    s.filter(|x: MediaPlaylist| x.media_type == MediaType::Audio)
}

/// The subtitle and undefined streams of a sequence, in order.
pub open spec fn others_of(s: Seq<MediaPlaylist>) -> Seq<MediaPlaylist> {
    s.filter(
        |x: MediaPlaylist|
            x.media_type == MediaType::Subtitles || x.media_type == MediaType::Undefined,
    )
}

/// What `sort_streams` promises of the stream order it returns, given the
/// order it consumed: videos first, best first; then audios, best first;
/// then all remaining streams in their original order; each group a
/// permutation of the matching input streams.
pub open spec fn sorted_streams_post(olds: Seq<MediaPlaylist>, news: Seq<MediaPlaylist>) -> bool {
    let nv = videos_of(olds).len() as int;
    let na = audios_of(olds).len() as int;
    &&& news.len() == olds.len()
    &&& nv + na <= news.len()
    &&& news.subrange(0, nv).to_multiset() == videos_of(olds).to_multiset()
    &&& sorted_by_rank(news.subrange(0, nv), MediaType::Video)
    &&& news.subrange(nv, nv + na).to_multiset() == audios_of(olds).to_multiset()
    &&& sorted_by_rank(news.subrange(nv, nv + na), MediaType::Audio)
    &&& news.subrange(nv + na, news.len() as int) == others_of(olds)
}

fn rank_ge_exec(a: &MediaPlaylist, b: &MediaPlaylist, t: MediaType) -> (r: bool)
    ensures
        r == rank_ge(*a, *b, t),
{
    let qa: u128 = stream_quality_exec(a, t);
    let qb: u128 = stream_quality_exec(b, t);
    let ba = match a.bandwidth {
        Some(x) => x,
        None => 0,
    };
    let bb = match b.bandwidth {
        Some(x) => x,
        None => 0,
    };
    qa > qb || (qa == qb && ba >= bb)
}

fn stream_quality_exec(s: &MediaPlaylist, t: MediaType) -> (r: u128)
    ensures
        r == stream_quality(*s, t),
{
    if matches!(t, MediaType::Video) {
        match s.resolution {
            Some(res) => {
                proof {
                    assert((res.0 as int) * (res.1 as int) <= 0xffffffffffffffff
                        * 0xffffffffffffffff) by (nonlinear_arith)
                        requires
                            res.0 <= 0xffffffffffffffffu64,
                            res.1 <= 0xffffffffffffffffu64,
                    ;
                }
                (res.0 as u128) * (res.1 as u128)
            },
            None => 0,
        }
    } else {
        match s.channels {
            Some(c) => c as u128,
            None => 0,
        }
    }
}

/// Sorts the streams best first under `rank_ge` for type `t`, by repeatedly
/// extracting a best remaining stream.
#[verifier::loop_isolation(false)]
fn sort_by_rank(v: &mut Vec<MediaPlaylist>, t: MediaType)
    ensures
        final(v)@.len() == old(v)@.len(),
        final(v)@.to_multiset() == old(v)@.to_multiset(),
        sorted_by_rank(final(v)@, t),
{
    broadcast use vstd::seq_lib::group_to_multiset_ensures, vstd::multiset::group_multiset_axioms;

    let n = v.len();
    let mut rest = Vec::new();
    core::mem::swap(v, &mut rest);
    proof {
        assert(v@ =~= Seq::<MediaPlaylist>::empty());
        assert(v@.to_multiset().add(rest@.to_multiset()) =~= old(v)@.to_multiset());
    }
    while rest.len() > 0
        invariant
            v@.len() + rest@.len() == n,
            v@.to_multiset().add(rest@.to_multiset()) == old(v)@.to_multiset(),
            sorted_by_rank(v@, t),
            forall|p: int, q: int|
                0 <= p < v@.len() && 0 <= q < rest@.len() ==> rank_ge(
                    #[trigger] v@[p],
                    #[trigger] rest@[q],
                    t,
                ),
        decreases rest@.len(),
    {
        let m = rest.len();
        let mut best: usize = 0;
        let mut j: usize = 1;
        while j < m
            invariant
                m == rest@.len(),
                best < j <= m,
                forall|k: int| 0 <= k < j ==> rank_ge(rest@[best as int], #[trigger] rest@[k], t),
            decreases m - j,
        {
            if !rank_ge_exec(&rest[best], &rest[j], t) {
                proof {
                    assert(rank_ge(rest@[j as int], rest@[best as int], t));
                    assert forall|k: int| 0 <= k < j + 1 implies rank_ge(
                        rest@[j as int],
                        #[trigger] rest@[k],
                        t,
                    ) by {
                        assert(rank_ge(rest@[best as int], rest@[k], t) || k == j);
                    }
                }
                best = j;
            }
            j = j + 1;
        }
        let ghost old_v = v@;
        let ghost old_rest = rest@;
        let x = rest.remove(best);
        v.push(x);
        proof {
            assert(v@.to_multiset() =~= old_v.to_multiset().insert(old_rest[best as int]));
            assert(rest@.to_multiset() =~= old_rest.to_multiset().remove(old_rest[best as int]));
            assert(old_rest.to_multiset().count(old_rest[best as int]) > 0);
            assert(v@.to_multiset().add(rest@.to_multiset()) =~= old_v.to_multiset().add(
                old_rest.to_multiset(),
            ));
        }
    }
    proof {
        assert(rest@.to_multiset() =~= Multiset::empty());
        assert(v@.to_multiset() =~= v@.to_multiset().add(rest@.to_multiset()));
    }
}

impl MasterPlaylist {
    /// Reorders the streams for selection: videos first, best first by
    /// pixel area then bandwidth; then audios, best first by channel count
    /// then bandwidth; then every other stream in its original order.
    #[verifier::loop_isolation(false)]
    pub fn sort_streams(self) -> (r: Self)
        ensures
            r.playlist_type == self.playlist_type,
            r.uri == self.uri,
            sorted_streams_post(self.streams@, r.streams@),
    {
        broadcast use Seq::lemma_filter_push, vstd::seq_lib::lemma_multiset_commutative;

        let ghost all = self.streams@;
        let n = self.streams.len();
        let mut rest = self.streams;
        let mut vids: Vec<MediaPlaylist> = Vec::new();
        let mut auds: Vec<MediaPlaylist> = Vec::new();
        let mut others: Vec<MediaPlaylist> = Vec::new();
        let mut i: usize = 0;
        proof {
            assert(all.take(0) =~= Seq::<MediaPlaylist>::empty());
            assert(videos_of(all.take(0)) =~= Seq::<MediaPlaylist>::empty());
            assert(audios_of(all.take(0)) =~= Seq::<MediaPlaylist>::empty());
            assert(others_of(all.take(0)) =~= Seq::<MediaPlaylist>::empty());
        }
        while i < n
            invariant
                i <= n,
                rest@ == all.subrange(i as int, n as int),
                vids@ == videos_of(all.take(i as int)),
                auds@ == audios_of(all.take(i as int)),
                others@ == others_of(all.take(i as int)),
            decreases n - i,
        {
            let s = rest.remove(0);
            proof {
                assert(all.subrange(i as int, n as int)[0] == all[i as int]);
                assert(rest@ =~= all.subrange(i + 1, n as int));
                assert(all.take(i + 1) =~= all.take(i as int).push(all[i as int]));
            }
            match s.media_type {
                MediaType::Video => vids.push(s),
                MediaType::Audio => auds.push(s),
                MediaType::Subtitles => others.push(s),
                MediaType::Undefined => others.push(s),
            }
            i = i + 1;
        }
        proof {
            assert(all.take(n as int) =~= all);
        }
        sort_by_rank(&mut vids, MediaType::Video);
        sort_by_rank(&mut auds, MediaType::Audio);
        let ghost gv = vids@;
        let ghost ga = auds@;
        let ghost go = others@;
        let mut streams = vids;
        streams.append(&mut auds);
        streams.append(&mut others);
        proof {
            let nv = videos_of(all).len() as int;
            let na = audios_of(all).len() as int;
            broadcast use vstd::seq_lib::to_multiset_len;

            assert(gv.len() == nv);
            assert(ga.len() == na);
            assert(streams@.subrange(0, nv) =~= gv);
            assert(streams@.subrange(nv, nv + na) =~= ga);
            assert(streams@.subrange(nv + na, streams@.len() as int) =~= go);
            assert(videos_of(all).len() + audios_of(all).len() + others_of(all).len()
                == all.len()) by {
                lemma_type_partition_lens(all);
            }
        }
        MasterPlaylist { playlist_type: self.playlist_type, streams, uri: self.uri }
    }
}

/// Every stream is exactly one of video, audio, or other, so the three
/// groups partition the sequence.
proof fn lemma_type_partition_lens(s: Seq<MediaPlaylist>)
    ensures
        videos_of(s).len() + audios_of(s).len() + others_of(s).len() == s.len(),
    decreases s.len(),
{
    broadcast use Seq::lemma_filter_push;

    if s.len() > 0 {
        lemma_type_partition_lens(s.drop_last());
        assert(s =~= s.drop_last().push(s.last()));
    }
}

/// A type whose filter sets `all` has every one of its streams selected,
/// whatever `skip` says.
pub proof fn lemma_all_selects_every_stream(
    streams: Seq<MediaPlaylist>,
    opts: SelectOptions,
    i: int,
)
    requires
        0 <= i < streams.len(),
        streams[i].media_type != MediaType::Undefined,
        type_all(opts, streams[i].media_type),
    ensures
        selected(streams, opts, i),
{
}

/// Some stream of type `t` is first of that type whenever any has it.
proof fn lemma_first_of_type_exists(streams: Seq<MediaPlaylist>, t: MediaType)
    requires
        has_type(streams, t),
    ensures
        exists|i: int| #[trigger] is_first_of_type(streams, t, i),
    decreases streams.len(),
{
    if streams[0].media_type == t {
        assert(is_first_of_type(streams, t, 0));
    } else {
        let w = choose|i: int| 0 <= i < streams.len() && (#[trigger] streams[i]).media_type == t;
        let rest = streams.drop_first();
        assert(rest[w - 1] == streams[w]);
        assert(has_type(rest, t));
        lemma_first_of_type_exists(rest, t);
        let i = choose|i: int| #[trigger] is_first_of_type(rest, t, i);
        assert(streams[i + 1] == rest[i]);
        assert forall|j: int| 0 <= j < i + 1 implies (#[trigger] streams[j]).media_type != t by {
            if j > 0 {
                assert(rest[j - 1] == streams[j]);
            }
        }
        assert(is_first_of_type(streams, t, i + 1));
    }
}

/// A type with at least one stream, whose filter does not set `skip`,
/// always has at least one of its streams selected: candidates are selected
/// when any accumulated, and the type's first stream by default otherwise.
pub proof fn lemma_no_skip_selects_some_stream(
    streams: Seq<MediaPlaylist>,
    opts: SelectOptions,
    t: MediaType,
)
    requires
        t != MediaType::Undefined,
        has_type(streams, t),
        !type_skip(opts, t),
    ensures
        exists|i: int|
            0 <= i < streams.len() && (#[trigger] streams[i]).media_type == t && selected(
                streams,
                opts,
                i,
            ),
{
    if type_all(opts, t) {
        let w = choose|i: int| 0 <= i < streams.len() && (#[trigger] streams[i]).media_type == t;
        assert(selected(streams, opts, w));
    } else if has_candidate(streams, opts, t) {
        let w = choose|j: int|
            0 <= j < streams.len() && (#[trigger] streams[j]).media_type == t && candidate(
                streams,
                opts,
                j,
            );
        assert(selected(streams, opts, w));
    } else {
        lemma_first_of_type_exists(streams, t);
        let w = choose|i: int| #[trigger] is_first_of_type(streams, t, i);
        assert(selected(streams, opts, w));
    }
}

} // verus!
