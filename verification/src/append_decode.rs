//! Append-only event-stream decoder: consumes each stable on/off event of the
//! visualiser stream once, in audio order, and appends decoded characters.

use vstd::prelude::*;
use crate::morse::{morse_char, morse_chars_to_char};
use crate::textual::chars_to_string;

verus! {

/// Samples within which an event counts as one already consumed.
pub const EPSILON_SAMPLES: u64 = 16;

/// The class of one on/off bar of the visualiser event stream.
#[derive(Debug, Clone, Copy, PartialEq, Eq, Structural)]
pub enum VizEventKind {
    OnDit,
    OnDah,
    OffIntra,
    OffChar,
    OffWord,
}

/// One event of a frame: where it ends, in samples after the window start,
/// and its class.
#[derive(Debug, Clone, Copy)]
pub struct TimedVizEvent {
    pub end_offset_samples: u64,
    pub kind: VizEventKind,
}

/// The decoded text and raw dit/dah stream after an ingest or a flush.
#[derive(Debug, Clone)]
pub struct AppendDecodeUpdate {
    pub decoded_text: String,
    pub raw_stream: String,
    pub changed: bool,
}

/// The decoder's state as values: the end of the last consumed event, the
/// raw stream (`.`, `-`, `/` after a letter, `//` after a word), the
/// decoded text, and the elements of the letter being keyed.
pub struct AppendState {
    pub last_end: int,
    pub raw: Seq<char>,
    pub decoded: Seq<char>,
    pub pending: Seq<char>,
}

/// `a + b` saturating at `u64::MAX`.
pub open spec fn sat_add(a: int, b: int) -> int {
    if a + b > u64::MAX {
        u64::MAX as int
    } else {
        a + b
    }
}

/// `a - b` saturating at 0.
pub open spec fn sat_sub(a: int, b: int) -> int {
    if a - b < 0 {
        0
    } else {
        a - b
    }
}

/// Closes the pending letter: decodes it (`?` when unknown) onto the text.
pub open spec fn flush_pending(st: AppendState) -> AppendState {
    if st.pending.len() == 0 {
        st
    } else {
        AppendState {
            decoded: st.decoded.push(
                match morse_char(st.pending) {
                    Some(c) => c,
                    None => '?',
                },
            ),
            pending: seq![],
            ..st
        }
    }
}

/// The state after consuming one event that ends at sample `end`.
pub open spec fn apply_event(st: AppendState, end: int, kind: VizEventKind) -> AppendState {
    let moved = match kind {
        VizEventKind::OnDit => AppendState { pending: st.pending.push('.'), raw: st.raw.push('.'), ..st },
        VizEventKind::OnDah => AppendState { pending: st.pending.push('-'), raw: st.raw.push('-'), ..st },
        VizEventKind::OffIntra => st,
        VizEventKind::OffChar => {
            let f = flush_pending(st);
            AppendState { raw: f.raw.push('/'), ..f }
        },
        VizEventKind::OffWord => {
            let f = flush_pending(st);
            let d = if f.decoded.len() > 0 && f.decoded.last() != ' ' {
                f.decoded.push(' ')
            } else {
                f.decoded
            };
            AppendState { raw: f.raw + seq!['/', '/'], decoded: d, ..f }
        },
    };
    AppendState { last_end: end, ..moved }
}

/// An event ending at `end` is consumed: it ends by `stable_end` and after
/// the last consumed event (by more than `EPSILON_SAMPLES`).
pub open spec fn takes(st: AppendState, end: int, stable_end: int) -> bool {
    end <= stable_end && end > sat_add(st.last_end, EPSILON_SAMPLES as int)
}

/// Consuming `events` of a window that starts at `start` with stable events
/// up to `stable_end`: the new state, and whether a letter or word closed.
pub open spec fn ingest(
    st: AppendState,
    start: int,
    stable_end: int,
    events: Seq<TimedVizEvent>,
) -> (AppendState, bool)
    decreases events.len(),
{
    if events.len() == 0 {
        (st, false)
    } else {
        let (prev, changed) = ingest(st, start, stable_end, events.drop_last());
        let ev = events.last();
        let end = sat_add(start, ev.end_offset_samples as int);
        if takes(prev, end, stable_end) {
            (
                apply_event(prev, end, ev.kind),
                changed || ev.kind == VizEventKind::OffChar || ev.kind == VizEventKind::OffWord,
            )
        } else {
            (prev, changed)
        }
    }
}

proof fn lemma_ingest_covers(st: AppendState, start: int, stable_end: int, events: Seq<TimedVizEvent>)
    ensures
        forall|k: int|
            0 <= k < events.len() ==> ({
                let end = sat_add(start, (#[trigger] events[k]).end_offset_samples as int);
                end > stable_end || end <= sat_add(
                    ingest(st, start, stable_end, events).0.last_end,
                    EPSILON_SAMPLES as int,
                )
            }),
    decreases events.len(),
{
    if events.len() > 0 {
        let rest = events.drop_last();
        lemma_ingest_covers(st, start, stable_end, rest);
        let prev = ingest(st, start, stable_end, rest).0;
        let last = ingest(st, start, stable_end, events).0;
        assert(last.last_end >= prev.last_end);
        assert forall|k: int| 0 <= k < events.len() implies ({
            let end = sat_add(start, (#[trigger] events[k]).end_offset_samples as int);
            end > stable_end || end <= sat_add(last.last_end, EPSILON_SAMPLES as int)
        }) by {
            if k < rest.len() {
                assert(events[k] == rest[k]);
            }
        }
    }
}

proof fn lemma_ingest_idle(st: AppendState, start: int, stable_end: int, events: Seq<TimedVizEvent>)
    requires
        forall|k: int|
            0 <= k < events.len() ==> !takes(
                st,
                sat_add(start, (#[trigger] events[k]).end_offset_samples as int),
                stable_end,
            ),
    ensures
        ingest(st, start, stable_end, events) == (st, false),
    decreases events.len(),
{
    if events.len() > 0 {
        let rest = events.drop_last();
        assert forall|k: int| 0 <= k < rest.len() implies !takes(
            st,
            sat_add(start, (#[trigger] rest[k]).end_offset_samples as int),
            stable_end,
        ) by {
            assert(rest[k] == events[k]);
        }
        lemma_ingest_idle(st, start, stable_end, rest);
        assert(events.last() == events[events.len() - 1]);
    }
}

/// `b` starts with `a` (as `str::starts_with`).
pub open spec fn extends(b: Seq<char>, a: Seq<char>) -> bool {
    a.len() <= b.len() && b.take(a.len() as int) == a
}

proof fn lemma_extends_trans(a: Seq<char>, b: Seq<char>, c: Seq<char>)
    requires
        extends(b, a),
        extends(c, b),
    ensures
        extends(c, a),
{
    assert(c.take(a.len() as int) =~= c.take(b.len() as int).take(a.len() as int));
}

proof fn lemma_extends_append(a: Seq<char>, x: Seq<char>)
    ensures
        extends(a + x, a),
{
    assert((a + x).take(a.len() as int) =~= a);
}

proof fn lemma_extends_self(a: Seq<char>)
    ensures
        extends(a, a),
{
    assert(a.take(a.len() as int) =~= a);
}

/// Closing the pending letter only appends to the decoded text and leaves
/// the raw stream as it is.
pub proof fn lemma_flush_only_appends(st: AppendState)
    ensures
        extends(flush_pending(st).decoded, st.decoded),
        flush_pending(st).raw == st.raw,
{
    lemma_extends_self(st.decoded);
    if st.pending.len() > 0 {
        let c = match morse_char(st.pending) {
            Some(c) => c,
            None => '?',
        };
        assert(st.decoded.push(c) =~= st.decoded + seq![c]);
        lemma_extends_append(st.decoded, seq![c]);
    }
}

proof fn lemma_event_only_appends(st: AppendState, end: int, kind: VizEventKind)
    ensures
        extends(apply_event(st, end, kind).decoded, st.decoded),
        extends(apply_event(st, end, kind).raw, st.raw),
{
    let f = flush_pending(st);
    lemma_flush_only_appends(st);
    lemma_extends_self(st.decoded);
    lemma_extends_self(st.raw);
    let r = apply_event(st, end, kind);
    match kind {
        VizEventKind::OnDit => {
            assert(st.raw.push('.') =~= st.raw + seq!['.']);
            lemma_extends_append(st.raw, seq!['.']);
        },
        VizEventKind::OnDah => {
            assert(st.raw.push('-') =~= st.raw + seq!['-']);
            lemma_extends_append(st.raw, seq!['-']);
        },
        VizEventKind::OffIntra => {},
        VizEventKind::OffChar => {
            assert(f.raw.push('/') =~= st.raw + seq!['/']);
            lemma_extends_append(st.raw, seq!['/']);
        },
        VizEventKind::OffWord => {
            lemma_extends_append(st.raw, seq!['/', '/']);
            if f.decoded.len() > 0 && f.decoded.last() != ' ' {
                assert(f.decoded.push(' ') =~= f.decoded + seq![' ']);
                lemma_extends_append(f.decoded, seq![' ']);
                lemma_extends_trans(st.decoded, f.decoded, r.decoded);
            }
        },
    }
}

/// The decoder only appends: consuming the events of a frame leaves the
/// decoded text and the raw stream starting with what they were.
pub proof fn lemma_decoding_only_appends(
    st: AppendState,
    start: int,
    stable_end: int,
    events: Seq<TimedVizEvent>,
)
    ensures
        extends(ingest(st, start, stable_end, events).0.decoded, st.decoded),
        extends(ingest(st, start, stable_end, events).0.raw, st.raw),
    decreases events.len(),
{
    if events.len() == 0 {
        lemma_extends_self(st.decoded);
        lemma_extends_self(st.raw);
    } else {
        let rest = events.drop_last();
        lemma_decoding_only_appends(st, start, stable_end, rest);
        let prev = ingest(st, start, stable_end, rest).0;
        let ev = events.last();
        let end = sat_add(start, ev.end_offset_samples as int);
        if takes(prev, end, stable_end) {
            lemma_event_only_appends(prev, end, ev.kind);
            let next = apply_event(prev, end, ev.kind);
            lemma_extends_trans(st.decoded, prev.decoded, next.decoded);
            lemma_extends_trans(st.raw, prev.raw, next.raw);
        }
    }
}

/// A gap inside a letter does not end it: it leaves the letter being
/// keyed, the decoded text and the raw stream as they are, and only marks
/// the event consumed.
pub proof fn lemma_gap_inside_letter_changes_nothing(st: AppendState, end: int)
    ensures
        apply_event(st, end, VizEventKind::OffIntra).pending == st.pending,
        apply_event(st, end, VizEventKind::OffIntra).decoded == st.decoded,
        apply_event(st, end, VizEventKind::OffIntra).raw == st.raw,
        apply_event(st, end, VizEventKind::OffIntra).last_end == end,
{
}

/// The elements of a letter keyed with gaps inside it all add to one
/// letter: after a dit, a gap and a dah, the letter being keyed is the one
/// before it followed by `.` and `-`, and no text was decoded.
pub proof fn lemma_gapped_elements_form_one_letter(st: AppendState, e1: int, e2: int, e3: int)
    ensures
        ({
            let a = apply_event(st, e1, VizEventKind::OnDit);
            let b = apply_event(a, e2, VizEventKind::OffIntra);
            let c = apply_event(b, e3, VizEventKind::OnDah);
            &&& c.pending == st.pending + seq!['.', '-']
            &&& c.decoded == st.decoded
            &&& c.raw == st.raw + seq!['.', '-']
        }),
{
    let a = apply_event(st, e1, VizEventKind::OnDit);
    let b = apply_event(a, e2, VizEventKind::OffIntra);
    let c = apply_event(b, e3, VizEventKind::OnDah);
    assert(c.pending =~= st.pending + seq!['.', '-']);
    assert(c.raw =~= st.raw + seq!['.', '-']);
}

/// A raw dit/dah stream: only `.`, `-` and `/`.
pub open spec fn dit_dah_stream(raw: Seq<char>) -> bool {
    forall|i: int| 0 <= i < raw.len() ==> (#[trigger] raw[i] == '.' || raw[i] == '-' || raw[i] == '/')
}

proof fn lemma_stream_append(a: Seq<char>, x: Seq<char>)
    requires
        dit_dah_stream(a),
        dit_dah_stream(x),
    ensures
        dit_dah_stream(a + x),
{
    assert forall|i: int| 0 <= i < (a + x).len() implies (#[trigger] (a + x)[i] == '.' || (a
        + x)[i] == '-' || (a + x)[i] == '/') by {
        if i < a.len() {
            assert((a + x)[i] == a[i]);
        } else {
            assert((a + x)[i] == x[i - a.len()]);
        }
    }
}

proof fn lemma_event_keeps_stream(st: AppendState, end: int, kind: VizEventKind)
    requires
        dit_dah_stream(st.raw),
    ensures
        dit_dah_stream(apply_event(st, end, kind).raw),
{
    let f = flush_pending(st);
    assert(f.raw == st.raw);
    match kind {
        VizEventKind::OnDit => {
            assert(st.raw.push('.') =~= st.raw + seq!['.']);
            lemma_stream_append(st.raw, seq!['.']);
        },
        VizEventKind::OnDah => {
            assert(st.raw.push('-') =~= st.raw + seq!['-']);
            lemma_stream_append(st.raw, seq!['-']);
        },
        VizEventKind::OffIntra => {},
        VizEventKind::OffChar => {
            assert(f.raw.push('/') =~= st.raw + seq!['/']);
            lemma_stream_append(st.raw, seq!['/']);
        },
        VizEventKind::OffWord => {
            lemma_stream_append(st.raw, seq!['/', '/']);
        },
    }
}

/// The raw stream holds only `.`, `-` and `/`: consuming a frame keeps it
/// so (closing a letter leaves it as it is).
pub proof fn lemma_raw_stream_is_dits_dahs_and_gaps(
    st: AppendState,
    start: int,
    stable_end: int,
    events: Seq<TimedVizEvent>,
)
    requires
        dit_dah_stream(st.raw),
    ensures
        dit_dah_stream(ingest(st, start, stable_end, events).0.raw),
        dit_dah_stream(flush_pending(st).raw),
    decreases events.len(),
{
    if events.len() > 0 {
        let rest = events.drop_last();
        lemma_raw_stream_is_dits_dahs_and_gaps(st, start, stable_end, rest);
        let prev = ingest(st, start, stable_end, rest).0;
        let ev = events.last();
        let end = sat_add(start, ev.end_offset_samples as int);
        if takes(prev, end, stable_end) {
            lemma_event_keeps_stream(prev, end, ev.kind);
        }
    }
}

/// Each event is consumed once: reading the same frame again, after it has
/// been read, consumes nothing and reports no change.
pub proof fn lemma_frame_consumed_once(
    st: AppendState,
    start: int,
    stable_end: int,
    events: Seq<TimedVizEvent>,
)
    ensures
        ({
            let first = ingest(st, start, stable_end, events).0;
            ingest(first, start, stable_end, events) == (first, false)
        }),
{
    let first = ingest(st, start, stable_end, events).0;
    lemma_ingest_covers(st, start, stable_end, events);
    assert forall|k: int| 0 <= k < events.len() implies !takes(
        first,
        sat_add(start, (#[trigger] events[k]).end_offset_samples as int),
        stable_end,
    ) by {
        let end = sat_add(start, events[k].end_offset_samples as int);
        assert(end > stable_end || end <= sat_add(first.last_end, EPSILON_SAMPLES as int));
    }
    lemma_ingest_idle(first, start, stable_end, events);
}

/// Decodes classified on/off events into text, consuming each event once.
#[derive(Debug, Clone)]
pub struct AppendEventDecoder {
    last_emitted_end_sample: u64,
    raw_stream: Vec<char>,
    decoded_text: Vec<char>,
    pending_morse: Vec<char>,
}

impl AppendEventDecoder {
    /// The decoder's state as values.
    pub closed spec fn state(&self) -> AppendState {
        AppendState {
            last_end: self.last_emitted_end_sample as int,
            raw: self.raw_stream@,
            decoded: self.decoded_text@,
            pending: self.pending_morse@,
        }
    }

    /// A decoder that has consumed nothing.
    pub fn new() -> (d: Self)
        ensures
            d.state() == (AppendState { last_end: 0, raw: seq![], decoded: seq![], pending: seq![] }),
            dit_dah_stream(d.state().raw),
    {
        let d = AppendEventDecoder {
            last_emitted_end_sample: 0,
            raw_stream: Vec::new(),
            decoded_text: Vec::new(),
            pending_morse: Vec::new(),
        };
        assert(d.state().raw =~= seq![]);
        d
    }

    /// The text decoded so far.
    pub fn decoded_text(&self) -> (r: String)
        ensures
            r@ == self.state().decoded,
    {
        chars_to_string(self.decoded_text.as_slice())
    }

    /// The raw dit/dah stream so far.
    pub fn raw_stream(&self) -> (r: String)
        ensures
            r@ == self.state().raw,
    {
        chars_to_string(self.raw_stream.as_slice())
    }

    fn flush_pending_char(&mut self) -> (changed: bool)
        ensures
            final(self).state() == flush_pending(old(self).state()),
            changed == (old(self).state().pending.len() > 0),
    {
        if self.pending_morse.len() == 0 {
            return false;
        }
        let ch = match morse_chars_to_char(self.pending_morse.as_slice()) {
            Some(c) => c,
            None => '?',
        };
        self.decoded_text.push(ch);
        self.pending_morse = Vec::new();
        assert(self.state().pending =~= seq![]);
        true
    }

    fn snapshot(&self, changed: bool) -> (u: AppendDecodeUpdate)
        ensures
            u.decoded_text@ == self.state().decoded,
            u.raw_stream@ == self.state().raw,
            u.changed == changed,
    {
        AppendDecodeUpdate {
            decoded_text: chars_to_string(self.decoded_text.as_slice()),
            raw_stream: chars_to_string(self.raw_stream.as_slice()),
            changed,
        }
    }

    fn apply(&mut self, end: u64, kind: VizEventKind)
        ensures
            final(self).state() == apply_event(old(self).state(), end as int, kind),
    {
        match kind {
            VizEventKind::OnDit => {
                self.pending_morse.push('.');
                self.raw_stream.push('.');
            },
            VizEventKind::OnDah => {
                self.pending_morse.push('-');
                self.raw_stream.push('-');
            },
            VizEventKind::OffIntra => {},
            VizEventKind::OffChar => {
                self.flush_pending_char();
                self.raw_stream.push('/');
            },
            VizEventKind::OffWord => {
                self.flush_pending_char();
                let n = self.decoded_text.len();
                if n > 0 && self.decoded_text[n - 1] != ' ' {
                    self.decoded_text.push(' ');
                }
                let ghost r0 = self.raw_stream@;
                self.raw_stream.push('/');
                self.raw_stream.push('/');
                assert(self.raw_stream@ =~= r0 + seq!['/', '/']);
            },
        }
        self.last_emitted_end_sample = end;
    }

    /// Consumes the events of one frame whose window spans
    /// `[window_start_sample, window_end_sample)`: an event counts once it
    /// ends at least `guard_samples` before the window end and more than
    /// `EPSILON_SAMPLES` after the last consumed one.
    pub fn ingest_events(
        &mut self,
        window_start_sample: u64,
        window_end_sample: u64,
        guard_samples: u64,
        events: &[TimedVizEvent],
    ) -> (u: AppendDecodeUpdate)
        ensures
            window_end_sample <= window_start_sample ==> final(self).state() == old(self).state()
                && !u.changed,
            window_end_sample > window_start_sample ==> ({
                let (st, changed) = ingest(
                    old(self).state(),
                    window_start_sample as int,
                    sat_sub(window_end_sample as int, guard_samples as int),
                    events@,
                );
                final(self).state() == st && u.changed == changed
            }),
            u.decoded_text@ == final(self).state().decoded,
            u.raw_stream@ == final(self).state().raw,
            dit_dah_stream(old(self).state().raw) ==> dit_dah_stream(final(self).state().raw),
    {
        proof {
            if dit_dah_stream(self.state().raw) && window_end_sample > window_start_sample {
                lemma_raw_stream_is_dits_dahs_and_gaps(
                    self.state(),
                    window_start_sample as int,
                    sat_sub(window_end_sample as int, guard_samples as int),
                    events@,
                );
            }
        }
        if window_end_sample <= window_start_sample {
            return self.snapshot(false);
        }
        let stable_end = window_end_sample.saturating_sub(guard_samples);
        let mut changed = false;
        let mut i: usize = 0;
        while i < events.len()
            invariant
                i <= events.len(),
                stable_end == sat_sub(window_end_sample as int, guard_samples as int),
                (self.state(), changed) == ingest(
                    old(self).state(),
                    window_start_sample as int,
                    stable_end as int,
                    events@.take(i as int),
                ),
            decreases events.len() - i,
        {
            let ev = events[i];
            assert(events@.take(i + 1).drop_last() =~= events@.take(i as int));
            let event_end = window_start_sample.saturating_add(ev.end_offset_samples);
            if event_end <= stable_end && event_end > self.last_emitted_end_sample.saturating_add(
                EPSILON_SAMPLES,
            ) {
                self.apply(event_end, ev.kind);
                if ev.kind == VizEventKind::OffChar || ev.kind == VizEventKind::OffWord {
                    changed = true;
                }
            }
            i = i + 1;
        }
        assert(events@.take(events.len() as int) =~= events@);
        self.snapshot(changed)
    }

    /// Closes any letter still being keyed and reports the result.
    pub fn flush(&mut self) -> (u: AppendDecodeUpdate)
        ensures
            final(self).state() == flush_pending(old(self).state()),
            u.changed == (old(self).state().pending.len() > 0),
            u.decoded_text@ == final(self).state().decoded,
            u.raw_stream@ == final(self).state().raw,
            final(self).state().raw == old(self).state().raw,
    {
        let changed = self.flush_pending_char();
        self.snapshot(changed)
    }
}

} // verus!
