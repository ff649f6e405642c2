//! Subtitle cue sequences: construction-time filter and merge of adjacent
//! duplicate cues, and rendering to WebVTT and SubRip text.
//!
//! Cue times are integer milliseconds, the precision both output formats
//! carry.
use vstd::prelude::*;
use vstd::string::*;
use crate::text::{millis_to_timestamp, timestamp_chars, dec_digits, u64_to_dec};

verus! {

/// One timed subtitle entry. `id` is carried through but never rendered.
pub struct Cue {
    pub end_ms: u64,
    pub id: String,
    pub payload: String,
    pub settings: String,
    pub start_ms: u64,
}

/// A cue survives the construction filter: non-empty payload and non-zero
/// nominal duration.
pub open spec fn keeps(c: Cue) -> bool {
    c.payload@.len() > 0 && c.start_ms != c.end_ms
}

/// `c` continues `prev`: same payload and settings, starting exactly where
/// `prev` ends, so the two render as one longer cue.
pub open spec fn joins(prev: Cue, c: Cue) -> bool {
    prev.end_ms == c.start_ms && prev.settings@ == c.settings@ && prev.payload@ == c.payload@
}

/// `prev` with its end time moved to `end`.
pub open spec fn with_end(prev: Cue, end: u64) -> Cue {
    Cue { end_ms: end, ..prev }
}

/// One step of the construction filter/merge: drop a filtered cue, extend the
/// last retained cue when the new one continues it, else append.
pub open spec fn merge_step(acc: Seq<Cue>, c: Cue) -> Seq<Cue> {
    if !keeps(c) {
        acc
    } else if acc.len() > 0 && joins(acc.last(), c) {
        acc.update(acc.len() - 1, with_end(acc.last(), c.end_ms))
    } else {
        acc.push(c)
    }
}

/// The filtered and merged form of a cue sequence.
pub open spec fn merged(s: Seq<Cue>) -> Seq<Cue>
    decreases s.len(),
{
    if s.len() == 0 {
        Seq::empty()
    } else {
        merge_step(merged(s.drop_last()), s.last())
    }
}

/// A merged cue sequence owning its cues.
pub struct Subtitles {
    cues: Vec<Cue>,
}

impl View for Subtitles {
    type V = Seq<Cue>;

    closed spec fn view(&self) -> Seq<Cue> {
        self.cues@
    }
}

/// The WebVTT body line block for one cue.
pub open spec fn cue_vtt_chars(c: Cue) -> Seq<char> {
    timestamp_chars(c.start_ms as nat, "."@) + " --> "@ + timestamp_chars(c.end_ms as nat, "."@)
        + " "@ + c.settings@ + "\n"@ + c.payload@ + "\n\n"@
}

/// The WebVTT cue blocks of a sequence, in order.
pub open spec fn vtt_body_chars(s: Seq<Cue>) -> Seq<char>
    decreases s.len(),
{
    if s.len() == 0 {
        Seq::empty()
    } else {
        vtt_body_chars(s.drop_last()) + cue_vtt_chars(s.last())
    }
}

/// The SubRip block for one cue carrying 1-based number `n`.
pub open spec fn cue_srt_chars(c: Cue, n: nat) -> Seq<char> {
    dec_digits(n) + "\n"@ + timestamp_chars(c.start_ms as nat, ","@) + " --> "@ + timestamp_chars(
        c.end_ms as nat,
        ","@,
    ) + "\n"@ + c.payload@ + "\n\n"@
}

/// The SubRip blocks of a sequence, numbered from 1 in order.
pub open spec fn srt_body_chars(s: Seq<Cue>) -> Seq<char>
    decreases s.len(),
{
    if s.len() == 0 {
        Seq::empty()
    } else {
        srt_body_chars(s.drop_last()) + cue_srt_chars(s.last(), s.len())
    }
}

fn cue_as_vtt(c: &Cue) -> (r: String)
    ensures
        r@ == cue_vtt_chars(*c),
{
    let mut block = millis_to_timestamp(c.start_ms, ".");
    block.append(" --> ");
    block.append(millis_to_timestamp(c.end_ms, ".").as_str());
    block.append(" ");
    block.append(c.settings.as_str());
    block.append("\n");
    block.append(c.payload.as_str());
    block.append("\n\n");
    proof {
        assert(block@ =~= cue_vtt_chars(*c));
    }
    block
}

fn cue_as_srt(c: &Cue, n: u64) -> (r: String)
    ensures
        r@ == cue_srt_chars(*c, n as nat),
{
    let mut block = u64_to_dec(n);
    block.append("\n");
    block.append(millis_to_timestamp(c.start_ms, ",").as_str());
    block.append(" --> ");
    block.append(millis_to_timestamp(c.end_ms, ",").as_str());
    block.append("\n");
    block.append(c.payload.as_str());
    block.append("\n\n");
    proof {
        assert(block@ =~= cue_srt_chars(*c, n as nat));
    }
    block
}

impl Subtitles {
    /// Builds the merged sequence: cues with empty payload or equal start and
    /// end times are dropped, and a cue that continues the previously
    /// retained one extends it instead of being appended.
    pub fn new(cues: Vec<Cue>) -> (r: Self)
        ensures
            r@ == merged(cues@),
    {
        let ghost orig: Seq<Cue> = cues@;
        let mut rest = cues;
        let mut trimmed: Vec<Cue> = Vec::new();
        let ghost mut done: Seq<Cue> = Seq::empty();

        while rest.len() > 0
            invariant
                orig == done + rest@,
                trimmed@ == merged(done),
            decreases rest.len(),
        {
            let c = rest.remove(0);
            proof {
                assert((done.push(c)).drop_last() =~= done);
                assert(orig =~= (done + rest@).insert(done.len() as int, c));
                assert(orig =~= done.push(c) + rest@);
            }
            let keep = !(c.payload.as_str().is_empty() || c.start_ms == c.end_ms);
            if keep {
                let n = trimmed.len();
                let mut extended = false;
                if n > 0 {
                    let last_joins = trimmed[n - 1].end_ms == c.start_ms && trimmed[n
                        - 1].settings == c.settings && trimmed[n - 1].payload == c.payload;
                    if last_joins {
                        let mut last_cue = trimmed.pop().unwrap();
                        last_cue.end_ms = c.end_ms;
                        trimmed.push(last_cue);
                        proof {
                            assert(trimmed@ =~= merged(done).update(
                                merged(done).len() - 1,
                                with_end(merged(done).last(), c.end_ms),
                            ));
                        }
                        extended = true;
                    }
                }
                if !extended {
                    trimmed.push(c);
                }
            }
            proof {
                done = done.push(c);
            }
        }
        proof {
            assert(orig =~= done);
        }
        Self { cues: trimmed }
    }

    /// Appends an already-merged sequence without re-merging across the
    /// boundary.
    pub fn extend(&mut self, other: Self)
        ensures
            final(self)@ == old(self)@ + other@,
    {
        let mut o = other;
        self.cues.append(&mut o.cues);
    }

    /// The retained cues, in order.
    pub fn cues(&self) -> (r: &Vec<Cue>)
        ensures
            r@ == self@,
    {
        &self.cues
    }

    /// Renders the sequence as WebVTT text: the `WEBVTT` header, a blank
    /// line, then one block per cue.
    pub fn as_vtt(&self) -> (r: String)
        ensures
            r@ == "WEBVTT\n\n"@ + vtt_body_chars(self@),
    {
        let mut subtitles: String = "WEBVTT\n\n".to_owned();
        let n = self.cues.len();
        let mut i: usize = 0;
        while i < n
            invariant
                n == self.cues.len(),
                i <= n,
                subtitles@ == "WEBVTT\n\n"@ + vtt_body_chars(self.cues@.take(i as int)),
            decreases n - i,
        {
            let block = cue_as_vtt(&self.cues[i]);
            subtitles.append(block.as_str());
            proof {
                assert(self.cues@.take(i + 1).drop_last() =~= self.cues@.take(i as int));
                assert(subtitles@ =~= "WEBVTT\n\n"@ + vtt_body_chars(self.cues@.take(i + 1)));
            }
            i = i + 1;
        }
        proof {
            assert(self.cues@.take(n as int) =~= self.cues@);
        }
        subtitles
    }

    /// Renders the sequence as SubRip text: 1-based sequentially numbered
    /// blocks, comma millisecond separator, no settings.
    pub fn as_srt(&self) -> (r: String)
        ensures
            r@ == srt_body_chars(self@),
    {
        let mut subtitles = String::new();
        let n = self.cues.len();
        let mut i: usize = 0;
        while i < n
            invariant
                n == self.cues.len(),
                i <= n,
                subtitles@ == srt_body_chars(self.cues@.take(i as int)),
            decreases n - i,
        {
            let block = cue_as_srt(&self.cues[i], (i + 1) as u64);
            subtitles.append(block.as_str());
            proof {
                assert(self.cues@.take(i + 1).drop_last() =~= self.cues@.take(i as int));
                assert(subtitles@ =~= srt_body_chars(self.cues@.take(i + 1)));
            }
            i = i + 1;
        }
        proof {
            assert(self.cues@.take(n as int) =~= self.cues@);
        }
        subtitles
    }
}

/// No two adjacent cues of a constructed sequence still satisfy the merge
/// condition: the merge is maximal.
pub proof fn lemma_merged_maximal(s: Seq<Cue>)
    ensures
        forall|i: int|
            0 <= i < merged(s).len() - 1 ==> !joins(#[trigger] merged(s)[i], merged(s)[i + 1]),
    decreases s.len(),
{
    if s.len() > 0 {
        lemma_merged_maximal(s.drop_last());
        let m = merged(s.drop_last());
        let c = s.last();
        let r = merged(s);
        assert(r == merge_step(m, c));
        if !keeps(c) {
            assert(r == m);
        } else if m.len() > 0 && joins(m.last(), c) {
            let e = with_end(m.last(), c.end_ms);
            assert(e.start_ms == m.last().start_ms && e.settings == m.last().settings
                && e.payload == m.last().payload);
            assert forall|i: int| 0 <= i < r.len() - 1 implies !joins(
                #[trigger] r[i],
                r[i + 1],
            ) by {
                assert(!joins(m[i], m[i + 1]));
                if i + 1 == r.len() - 1 {
                    assert(r[i] == m[i] && r[i + 1] == e);
                } else {
                    assert(r[i] == m[i] && r[i + 1] == m[i + 1]);
                }
            }
        } else {
            assert(r == m.push(c));
            assert forall|i: int| 0 <= i < r.len() - 1 implies !joins(
                #[trigger] r[i],
                r[i + 1],
            ) by {
                if i + 1 == r.len() - 1 {
                    assert(r[i] == m.last() && r[i + 1] == c);
                } else {
                    assert(r[i] == m[i] && r[i + 1] == m[i + 1]);
                    assert(!joins(m[i], m[i + 1]));
                }
            }
        }
    }
}

/// Every cue of a sequence constructed from cues with `start_ms <= end_ms`
/// has a non-empty payload and strictly increasing times: filtered cues
/// never reappear.
pub proof fn lemma_merged_keeps(s: Seq<Cue>)
    requires
        forall|i: int| 0 <= i < s.len() ==> (#[trigger] s[i]).start_ms <= s[i].end_ms,
    ensures
        forall|i: int|
            0 <= i < merged(s).len() ==> (#[trigger] merged(s)[i]).payload@.len() > 0 && merged(
                s,
            )[i].start_ms < merged(s)[i].end_ms,
    decreases s.len(),
{
    if s.len() > 0 {
        assert(forall|i: int|
            0 <= i < s.drop_last().len() ==> (#[trigger] s.drop_last()[i]).start_ms
                <= s.drop_last()[i].end_ms);
        lemma_merged_keeps(s.drop_last());
        let m = merged(s.drop_last());
        let c = s.last();
        let r = merged(s);
        assert(c == s[s.len() - 1]);
        assert(c.start_ms <= c.end_ms);
        if !keeps(c) {
            assert(r == m);
        } else if m.len() > 0 && joins(m.last(), c) {
            let e = with_end(m.last(), c.end_ms);
            assert(m.last() == m[m.len() - 1]);
            assert(m.last().start_ms < m.last().end_ms);
            assert(c.start_ms < c.end_ms);
            assert(e.start_ms < e.end_ms && e.payload@.len() > 0);
            assert forall|i: int| 0 <= i < r.len() implies (#[trigger] r[i]).payload@.len() > 0
                && r[i].start_ms < r[i].end_ms by {
                if i == r.len() - 1 {
                    assert(r[i] == e);
                } else {
                    assert(r[i] == m[i]);
                }
            }
        } else {
            assert(r == m.push(c));
            assert forall|i: int| 0 <= i < r.len() implies (#[trigger] r[i]).payload@.len() > 0
                && r[i].start_ms < r[i].end_ms by {
                if i == r.len() - 1 {
                    assert(r[i] == c);
                } else {
                    assert(r[i] == m[i]);
                }
            }
        }
    }
}

/// Merging is idempotent: running the construction filter over an already
/// constructed sequence changes nothing, for any input whose cues carry
/// `start_ms <= end_ms`.
pub proof fn lemma_merged_idempotent_on_merged(s: Seq<Cue>)
    requires
        forall|i: int| 0 <= i < s.len() ==> (#[trigger] s[i]).start_ms <= s[i].end_ms,
    ensures
        merged(merged(s)) == merged(s),
{
    lemma_merged_keeps(s);
    lemma_merged_maximal(s);
    let m = merged(s);
    assert(forall|i: int| 0 <= i < m.len() ==> keeps(#[trigger] m[i]));
    lemma_merged_idempotent(m);
}

/// A sequence that already satisfies the merge invariant — every cue
/// retained, no two adjacent cues joinable — is a fixed point of `merged`:
/// the merge is idempotent.
pub proof fn lemma_merged_idempotent(s: Seq<Cue>)
    requires
        forall|i: int| 0 <= i < s.len() ==> keeps(#[trigger] s[i]),
        forall|i: int| 0 <= i < s.len() - 1 ==> !joins(#[trigger] s[i], s[i + 1]),
    ensures
        merged(s) == s,
    decreases s.len(),
{
    if s.len() == 0 {
        assert(merged(s) =~= s);
    } else {
        assert(forall|i: int| 0 <= i < s.drop_last().len() ==> keeps(#[trigger] s.drop_last()[i]));
        assert(forall|i: int|
            0 <= i < s.drop_last().len() - 1 ==> !joins(
                #[trigger] s.drop_last()[i],
                s.drop_last()[i + 1],
            ));
        lemma_merged_idempotent(s.drop_last());
        assert(merged(s) =~= s);
    }
}

} // verus!
