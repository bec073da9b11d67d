//! The causal whole-window baseline: when to decode the rolling window, and
//! how each decode is stitched into the transcript through the prefix
//! stabiliser. The decode itself works on audio samples outside this module
//! and hands its text back.

use vstd::prelude::*;
use crate::snapshot::{appended_text, normalize};
use crate::stabilizer::{accepted, common_token_prefix_of, slide, PrefixStabilizer};
use crate::textual::trim;

verus! {

/// The transcript after one decode of the window ending at `end_sample`,
/// and the text that decode appended.
#[derive(Debug)]
pub struct CausalBaselineSnapshot {
    pub end_sample: usize,
    pub transcript: String,
    pub appended: String,
}

/// The final transcript of a run and the snapshot of every decode.
#[derive(Debug)]
pub struct CausalBaselineTrace {
    pub transcript: String,
    pub snapshots: Vec<CausalBaselineSnapshot>,
}

/// The final transcript of a run.
#[derive(Debug)]
pub struct CausalBaselineOutcome {
    pub transcript: String,
}

/// What admitting one sample asks of the caller: drop the oldest buffered
/// sample first, and decode the window afterwards.
#[derive(Debug, Clone, Copy, PartialEq, Eq, Structural)]
pub struct SampleStep {
    pub evict_oldest: bool,
    pub decode: bool,
}

/// The sample counts that drive the rolling window: its capacity, how full
/// it must be before a decode, how many samples apart decodes are, how many
/// samples it holds, how many arrived since the last decode and in all.
pub struct DecodeSchedule {
    window_samples: usize,
    min_window_samples: usize,
    decode_every_samples: usize,
    buffered: usize,
    since_last_decode: usize,
    processed_samples: usize,
}

impl DecodeSchedule {
    pub closed spec fn window(&self) -> nat {
        self.window_samples as nat
    }

    pub closed spec fn min_window(&self) -> nat {
        self.min_window_samples as nat
    }

    pub closed spec fn every(&self) -> nat {
        self.decode_every_samples as nat
    }

    pub closed spec fn buffered(&self) -> nat {
        self.buffered as nat
    }

    pub closed spec fn since_last(&self) -> nat {
        self.since_last_decode as nat
    }

    pub closed spec fn processed(&self) -> nat {
        self.processed_samples as nat
    }

    /// A window of at least one sample, decoded once it holds at least one
    /// and at most all of them, at least one sample apart, never overfull.
    pub closed spec fn wf(&self) -> bool {
        &&& 1 <= self.min_window_samples <= self.window_samples
        &&& 1 <= self.decode_every_samples
        &&& self.buffered <= self.window_samples
    }

    /// An empty schedule.
    pub fn new(window_samples: usize, min_window_samples: usize, decode_every_samples: usize) -> (s:
        Self)
        requires
            1 <= min_window_samples <= window_samples,
            1 <= decode_every_samples,
        ensures
            s.wf(),
            s.window() == window_samples,
            s.min_window() == min_window_samples,
            s.every() == decode_every_samples,
            s.buffered() == 0,
            s.since_last() == 0,
            s.processed() == 0,
    {
        DecodeSchedule {
            window_samples,
            min_window_samples,
            decode_every_samples,
            buffered: 0,
            since_last_decode: 0,
            processed_samples: 0,
        }
    }

    /// How many samples the window holds.
    pub fn buffered_samples(&self) -> (r: usize)
        ensures
            r == self.buffered(),
    {
        self.buffered
    }

    /// How many samples have arrived.
    pub fn processed_samples(&self) -> (r: usize)
        ensures
            r == self.processed(),
    {
        self.processed_samples
    }

    /// Admits one sample: a full window drops its oldest, and the window is
    /// decoded once it holds `min_window` samples and `every` samples have
    /// arrived since the last decode.
    pub fn admit_sample(&mut self) -> (step: SampleStep)
        requires
            old(self).wf(),
            old(self).processed() < usize::MAX,
            old(self).since_last() < usize::MAX,
        ensures
            final(self).wf(),
            final(self).window() == old(self).window(),
            final(self).min_window() == old(self).min_window(),
            final(self).every() == old(self).every(),
            step.evict_oldest == (old(self).buffered() == old(self).window()),
            final(self).buffered() == (if step.evict_oldest {
                old(self).buffered()
            } else {
                old(self).buffered() + 1
            }),
            final(self).processed() == old(self).processed() + 1,
            step.decode == (final(self).buffered() >= old(self).min_window() && old(self).since_last()
                + 1 >= old(self).every()),
            final(self).since_last() == (if step.decode {
                0
            } else {
                old(self).since_last() + 1
            }),
    {
        let evict_oldest = self.buffered == self.window_samples;
        if !evict_oldest {
            self.buffered = self.buffered + 1;
        }
        self.since_last_decode = self.since_last_decode + 1;
        self.processed_samples = self.processed_samples + 1;
        let decode = self.buffered >= self.min_window_samples && self.since_last_decode
            >= self.decode_every_samples;
        if decode {
            self.since_last_decode = 0;
        }
        SampleStep { evict_oldest, decode }
    }

    /// Whether the end of the stream calls for a last decode: `None` when
    /// the window is empty (nothing to do), else `Some` of whether to decode
    /// once more: when the window is full enough and has new samples (the
    /// count since the last decode restarts), or when it never filled.
    pub fn plan_flush(&mut self) -> (r: Option<bool>)
        requires
            old(self).wf(),
        ensures
            final(self).wf(),
            final(self).window() == old(self).window(),
            final(self).min_window() == old(self).min_window(),
            final(self).every() == old(self).every(),
            final(self).buffered() == old(self).buffered(),
            final(self).processed() == old(self).processed(),
            old(self).buffered() == 0 ==> r.is_none() && final(self).since_last() == old(
                self,
            ).since_last(),
            old(self).buffered() > 0 && old(self).buffered() >= old(self).min_window() && old(
                self,
            ).since_last() > 0 ==> r == Some(true) && final(self).since_last() == 0,
            old(self).buffered() > 0 && old(self).buffered() >= old(self).min_window() && old(
                self,
            ).since_last() == 0 ==> r == Some(false) && final(self).since_last() == 0,
            old(self).buffered() > 0 && old(self).buffered() < old(self).min_window() ==> r == Some(
                true,
            ) && final(self).since_last() == old(self).since_last(),
    {
        if self.buffered == 0 {
            return None;
        }
        if self.buffered >= self.min_window_samples && self.since_last_decode > 0 {
            self.since_last_decode = 0;
            Some(true)
        } else if self.buffered < self.min_window_samples {
            Some(true)
        } else {
            Some(false)
        }
    }
}

/// Stitches the text that a decode of the window ending at `end_sample`
/// produced into the stabiliser's transcript, and records the result.
pub fn record_decode(stabilizer: &mut PrefixStabilizer, end_sample: usize, text: &str) -> (r:
    CausalBaselineSnapshot)
    requires
        old(stabilizer).wf(),
    ensures
        final(stabilizer).wf(),
        final(stabilizer).required() == old(stabilizer).required(),
        final(stabilizer).committed() == old(stabilizer).committed() + r.appended@,
        ({
            let n = normalize(text@);
            if !accepted(old(stabilizer).committed(), n) {
                &&& r.appended@ == Seq::<char>::empty()
                &&& final(stabilizer).recent() == old(stabilizer).recent()
                &&& final(stabilizer).latest() == old(stabilizer).latest()
            } else {
                &&& final(stabilizer).latest() == n
                &&& final(stabilizer).recent() == slide(
                    old(stabilizer).recent(),
                    n,
                    old(stabilizer).required(),
                )
                &&& r.appended@ == if final(stabilizer).recent().len() < old(stabilizer).required() {
                    Seq::<char>::empty()
                } else {
                    appended_text(
                        old(stabilizer).committed(),
                        common_token_prefix_of(final(stabilizer).recent()),
                    )
                }
            }
        }),
        r.end_sample == end_sample,
        r.transcript@ == trim(final(stabilizer).committed()),
        r.transcript@ == final(stabilizer).committed(),
{
    let appended = stabilizer.push_snapshot(text);
    let transcript = stabilizer.transcript();
    CausalBaselineSnapshot { end_sample, transcript, appended }
}

/// Whether the end of the stream adds a closing snapshot: when the last one
/// was not taken at the final sample with the final transcript, or when the
/// latest snapshot appended text in full.
pub open spec fn closing_snapshot_needed(
    last: Option<(nat, Seq<char>)>,
    processed: nat,
    transcript: Seq<char>,
    appended: Seq<char>,
) -> bool {
    let current = match last {
        Some((end, text)) => end == processed && text == transcript,
        None => false,
    };
    !current || appended.len() > 0
}

/// Ends a stream: merges the latest snapshot into the transcript in full
/// and, when that changes what the last snapshot shows, records a closing
/// snapshot at `processed` samples.
pub fn close_trace(stabilizer: &mut PrefixStabilizer, snapshots: &mut Vec<CausalBaselineSnapshot>, processed: usize)
    requires
        old(stabilizer).wf(),
    ensures
        final(stabilizer).wf(),
        final(stabilizer).committed() == old(stabilizer).committed() + appended_text(
            old(stabilizer).committed(),
            old(stabilizer).latest(),
        ),
        ({
            let appended = appended_text(old(stabilizer).committed(), old(stabilizer).latest());
            let transcript = trim(final(stabilizer).committed());
            let last = if old(snapshots)@.len() == 0 {
                None
            } else {
                Some(
                    (
                        old(snapshots)@.last().end_sample as nat,
                        old(snapshots)@.last().transcript@,
                    ),
                )
            };
            if closing_snapshot_needed(last, processed as nat, transcript, appended) {
                &&& final(snapshots)@.len() == old(snapshots)@.len() + 1
                &&& final(snapshots)@.drop_last() == old(snapshots)@
                &&& final(snapshots)@.last().end_sample == processed
                &&& final(snapshots)@.last().transcript@ == transcript
                &&& final(snapshots)@.last().appended@ == appended
            } else {
                final(snapshots)@ == old(snapshots)@
            }
        }),
{
    let appended = stabilizer.finalize_latest();
    let transcript = stabilizer.transcript();
    let n = snapshots.len();
    let current = if n == 0 {
        false
    } else {
        snapshots[n - 1].end_sample == processed && crate::snapshot::chars_eq(
            crate::textual::str_to_chars(snapshots[n - 1].transcript.as_str()).as_slice(),
            crate::textual::str_to_chars(transcript.as_str()).as_slice(),
        )
    };
    if !current || !appended.as_str().is_empty() {
        let ghost before = snapshots@;
        snapshots.push(CausalBaselineSnapshot { end_sample: processed, transcript, appended });
        assert(snapshots@.drop_last() =~= before);
    }
}

/// One event of the text a decode appended: a word gap for each space, a
/// character for anything else.
#[derive(Debug, Clone, Copy, PartialEq, Eq, Structural)]
pub enum DeltaEvent {
    Word,
    Char(char),
}

/// The event for character `c` of appended text.
pub open spec fn delta_event(c: char) -> DeltaEvent {
    if c == ' ' {
        DeltaEvent::Word
    } else {
        DeltaEvent::Char(c)
    }
}

/// The events that report `appended`, character by character.
pub fn transcript_delta_events(appended: &str) -> (r: Vec<DeltaEvent>)
    ensures
        r@ == appended@.map_values(|c: char| delta_event(c)),
{
    let chars = crate::textual::str_to_chars(appended);
    let mut r: Vec<DeltaEvent> = Vec::new();
    let mut i: usize = 0;
    while i < chars.len()
        invariant
            i <= chars@.len(),
            chars@ == appended@,
            r@ == chars@.take(i as int).map_values(|c: char| delta_event(c)),
        decreases chars@.len() - i,
    {
        let c = chars[i];
        r.push(if c == ' ' {
            DeltaEvent::Word
        } else {
            DeltaEvent::Char(c)
        });
        assert(chars@.take(i + 1).map_values(|c: char| delta_event(c)) =~= chars@.take(
            i as int,
        ).map_values(|c: char| delta_event(c)).push(delta_event(c)));
        i = i + 1;
    }
    assert(chars@.take(chars@.len() as int) =~= chars@);
    r
}

} // verus!
