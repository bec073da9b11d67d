//! The streaming decoder's confidence labels and the hysteresis of its
//! Morse rhythm filter.
//!
//! Whether the recent intervals look like Morse at a given dot length is a
//! floating-point judgement made outside this module; the filter here keeps
//! the window of intervals and turns each verdict into its open, sticky and
//! maturity state.

use vstd::prelude::*;
use std::collections::VecDeque;

verus! {

/// Whether the decoder is searching, verifying a fresh lock, or locked.
#[derive(Debug, Clone, Copy, PartialEq, Eq, Structural)]
pub enum ConfidenceState {
    Hunting,
    Probation,
    Locked,
}

/// The lower-case label of each confidence state.
pub open spec fn confidence_label(state: ConfidenceState) -> Seq<char> {
    match state {
        ConfidenceState::Hunting => "hunting"@,
        ConfidenceState::Probation => "probation"@,
        ConfidenceState::Locked => "locked"@,
    }
}

impl ConfidenceState {
    /// The stable lower-case label of the state.
    pub fn as_str(self) -> (r: &'static str)
        ensures
            r@ == confidence_label(self),
    {
        match self {
            ConfidenceState::Hunting => "hunting",
            ConfidenceState::Probation => "probation",
            ConfidenceState::Locked => "locked",
        }
    }
}

/// An on or off run of the keyed signal, `len` samples long.
#[derive(Debug, Clone, Copy, PartialEq, Eq, Structural)]
pub struct Interval {
    pub len: usize,
    pub is_on: bool,
}

/// How many intervals the filter looks back over.
pub const RHYTHM_WINDOW: usize = 24;

/// How many failed verdicts in a row close an open filter.
pub const STICKY_BAD: usize = 8;

/// How many passing verdicts in a row make the filter mature.
pub const MATURITY: usize = 4;

/// The filter's state after a verdict on the current window.
pub open spec fn settled(
    is_open: bool,
    bad_streak: nat,
    good_streak: nat,
    mature: bool,
    now_open: bool,
) -> (bool, nat, nat, bool) {
    if is_open && !now_open {
        if bad_streak + 1 < STICKY_BAD {
            (true, bad_streak + 1, good_streak, mature)
        } else {
            (false, 0, 0, false)
        }
    } else if now_open {
        let good = if good_streak == usize::MAX {
            good_streak
        } else {
            good_streak + 1
        };
        (true, 0, good, mature || good >= MATURITY)
    } else {
        (false, bad_streak, good_streak, mature)
    }
}

/// Sliding-window Morse rhythm filter with a sticky close and a maturity
/// wait.
pub struct RhythmGate {
    window: VecDeque<Interval>,
    is_open: bool,
    bad_streak: usize,
    good_streak: usize,
    mature: bool,
}

impl RhythmGate {
    /// The intervals in the window, oldest first.
    pub closed spec fn intervals(&self) -> Seq<Interval> {
        self.window@
    }

    /// The raw open flag, before the maturity wait.
    pub closed spec fn open_flag(&self) -> bool {
        self.is_open
    }

    /// Failed verdicts in a row while open.
    pub closed spec fn bad_streak(&self) -> nat {
        self.bad_streak as nat
    }

    /// Passing verdicts since the filter last closed.
    pub closed spec fn good_streak(&self) -> nat {
        self.good_streak as nat
    }

    /// The latched maturity flag.
    pub closed spec fn mature(&self) -> bool {
        self.mature
    }

    /// At most a window of intervals, a closed filter has no bad streak, an
    /// open one fewer than `STICKY_BAD`, and a long enough good streak has
    /// latched maturity.
    pub closed spec fn wf(&self) -> bool {
        &&& self.window@.len() <= RHYTHM_WINDOW
        &&& self.bad_streak < STICKY_BAD
        &&& !self.is_open ==> self.bad_streak == 0
        &&& self.good_streak >= MATURITY ==> self.mature
    }

    /// A closed, immature filter with an empty window.
    pub fn new() -> (g: Self)
        ensures
            g.wf(),
            g.intervals().len() == 0,
            !g.open_flag(),
            g.bad_streak() == 0,
            g.good_streak() == 0,
            !g.mature(),
    {
        RhythmGate {
            window: VecDeque::new(),
            is_open: false,
            bad_streak: 0,
            good_streak: 0,
            mature: false,
        }
    }

    /// The intervals in the window, oldest first, for the verdict.
    pub fn window(&self) -> (r: Vec<Interval>)
        ensures
            r@ == self.intervals(),
    {
        let mut r: Vec<Interval> = Vec::new();
        let mut i: usize = 0;
        while i < self.window.len()
            invariant
                0 <= i <= self.window@.len(),
                r@ == self.window@.take(i as int),
            decreases self.window@.len() - i,
        {
            r.push(self.window[i]);
            assert(self.window@.take(i + 1) =~= self.window@.take(i as int).push(
                self.window@[i as int],
            ));
            i = i + 1;
        }
        assert(self.window@.take(self.window@.len() as int) =~= self.window@);
        r
    }

    /// Adds an interval to the window, dropping the oldest once the window
    /// is full.
    pub fn record_interval(&mut self, interval: Interval)
        requires
            old(self).wf(),
        ensures
            final(self).wf(),
            final(self).intervals() == (if old(self).intervals().len() == RHYTHM_WINDOW {
                old(self).intervals().drop_first().push(interval)
            } else {
                old(self).intervals().push(interval)
            }),
            final(self).open_flag() == old(self).open_flag(),
            final(self).bad_streak() == old(self).bad_streak(),
            final(self).good_streak() == old(self).good_streak(),
            final(self).mature() == old(self).mature(),
    {
        if self.window.len() == RHYTHM_WINDOW {
            self.window.pop_front();
        }
        self.window.push_back(interval);
    }

    /// Applies the verdict `now_open` on the current window: an open filter
    /// that fails stays open until `STICKY_BAD` failures in a row, then
    /// closes and forgets its streaks and maturity; a passing verdict opens
    /// the filter, clears the bad streak, extends the good streak and latches
    /// maturity at `MATURITY`; a failure of a closed filter changes nothing.
    pub fn apply_verdict(&mut self, now_open: bool)
        requires
            old(self).wf(),
        ensures
            final(self).wf(),
            final(self).intervals() == old(self).intervals(),
            ({
                let after = settled(
                    old(self).open_flag(),
                    old(self).bad_streak(),
                    old(self).good_streak(),
                    old(self).mature(),
                    now_open,
                );
                &&& final(self).open_flag() == after.0
                &&& final(self).bad_streak() == after.1
                &&& final(self).good_streak() == after.2
                &&& final(self).mature() == after.3
            }),
    {
        let was_open = self.is_open;
        if was_open && !now_open {
            self.bad_streak = self.bad_streak + 1;
            self.is_open = self.bad_streak < STICKY_BAD;
            if !self.is_open {
                self.bad_streak = 0;
                self.good_streak = 0;
                self.mature = false;
            }
        } else {
            self.is_open = now_open;
            if now_open {
                self.bad_streak = 0;
                self.good_streak = if self.good_streak == usize::MAX {
                    self.good_streak
                } else {
                    self.good_streak + 1
                };
                if self.good_streak >= MATURITY {
                    self.mature = true;
                }
            }
        }
    }

    /// The filter passes characters: open and mature.
    pub fn is_open(&self) -> (r: bool)
        ensures
            r == (self.open_flag() && self.mature()),
    {
        self.is_open && self.mature
    }

    /// The filter has matured since it last fully closed.
    pub fn was_recently_mature(&self) -> (r: bool)
        ensures
            r == self.mature(),
    {
        self.mature
    }

    /// Empties the window and closes the filter, forgetting its streaks and
    /// maturity.
    pub fn reset(&mut self)
        ensures
            final(self).wf(),
            final(self).intervals().len() == 0,
            !final(self).open_flag(),
            final(self).bad_streak() == 0,
            final(self).good_streak() == 0,
            !final(self).mature(),
    {
        self.window.clear();
        self.is_open = false;
        self.bad_streak = 0;
        self.good_streak = 0;
        self.mature = false;
    }
}

/// A filter lets characters through only once it has seen `MATURITY`
/// passing verdicts in a row since it last closed: from a fresh or reset
/// filter, any run of verdicts that leaves it passing characters has had
/// that many passes in a row, and a single failure of an open, mature
/// filter never hides characters until `STICKY_BAD` failures in a row close
/// it.
pub proof fn lemma_filter_opens_only_after_maturity(
    is_open: bool,
    bad: nat,
    good: nat,
    mature: bool,
    now_open: bool,
)
    requires
        bad < STICKY_BAD,
        !is_open ==> bad == 0,
        good >= MATURITY ==> mature,
        good <= usize::MAX,
    ensures
        ({
            let (o, b, g, m) = settled(is_open, bad, good, mature, now_open);
            &&& b < STICKY_BAD
            &&& !o ==> b == 0
            &&& g >= MATURITY ==> m
            &&& m && !mature ==> now_open && g == MATURITY
            &&& is_open && mature && !now_open && bad + 1 < STICKY_BAD ==> o && m
        }),
{
}

/// The items of `events` whose tag is `tagged`, in order.
pub open spec fn tagged_items<T>(events: Seq<(T, bool)>, tagged: bool) -> Seq<T>
    decreases events.len(),
{
    if events.len() == 0 {
        seq![]
    } else {
        let prev = tagged_items(events.drop_last(), tagged);
        if events.last().1 == tagged {
            prev.push(events.last().0)
        } else {
            prev
        }
    }
}

/// The items of `events`, in order.
pub open spec fn all_items<T>(events: Seq<(T, bool)>) -> Seq<T> {
    events.map_values(|e: (T, bool)| e.0)
}

/// Filtering a stream of events in two batches passes, holds and drops
/// what filtering it as one batch does, in the same order: the items with
/// either tag, and all items, of `a` followed by `b` are those of `a`
/// followed by those of `b`.
pub proof fn lemma_batches_filter_as_one<T>(a: Seq<(T, bool)>, b: Seq<(T, bool)>, tagged: bool)
    ensures
        tagged_items(a + b, tagged) == tagged_items(a, tagged) + tagged_items(b, tagged),
        all_items(a + b) == all_items(a) + all_items(b),
    decreases b.len(),
{
    if b.len() == 0 {
        assert(a + b =~= a);
        assert(tagged_items(b, tagged) =~= Seq::<T>::empty());
        assert(tagged_items(a, tagged) + tagged_items(b, tagged) =~= tagged_items(a, tagged));
    } else {
        let b0 = b.drop_last();
        lemma_batches_filter_as_one(a, b0, tagged);
        assert((a + b).drop_last() =~= a + b0);
        assert((a + b).last() == b.last());
        if b.last().1 == tagged {
            assert(tagged_items(a, tagged) + tagged_items(b, tagged) =~= (tagged_items(a, tagged)
                + tagged_items(b0, tagged)).push(b.last().0));
        } else {
            assert(tagged_items(a, tagged) + tagged_items(b, tagged) =~= tagged_items(a, tagged)
                + tagged_items(b0, tagged));
        }
    }
    assert(all_items(a + b) =~= all_items(a) + all_items(b));
}

/// Holds back decoded output while a fresh pitch lock is on probation:
/// output passes once the lock is confirmed, is dropped while hunting, and
/// is held during probation until the lock is confirmed (then released) or
/// lost (then discarded). Diagnostic events always pass.
pub struct ConfidenceGate<T> {
    state: ConfidenceState,
    held: Vec<T>,
}

impl<T> ConfidenceGate<T> {
    /// The confidence state.
    pub closed spec fn confidence(&self) -> ConfidenceState {
        self.state
    }

    /// The decoded output held back during probation, oldest first.
    pub closed spec fn held(&self) -> Seq<T> {
        self.held@
    }

    /// A gate that is hunting and holds nothing.
    pub fn new() -> (g: Self)
        ensures
            g.confidence() == ConfidenceState::Hunting,
            g.held().len() == 0,
    {
        ConfidenceGate { state: ConfidenceState::Hunting, held: Vec::new() }
    }

    /// The confidence state.
    pub fn state(&self) -> (r: ConfidenceState)
        ensures
            r == self.confidence(),
    {
        self.state
    }

    /// Passes a batch of events, each tagged with whether it carries
    /// decoded output: all of them when locked; the untagged ones when
    /// hunting; the untagged ones when on probation, holding the tagged.
    pub fn filter(&mut self, events: Vec<(T, bool)>) -> (out: Vec<T>)
        ensures
            final(self).confidence() == old(self).confidence(),
            old(self).confidence() == ConfidenceState::Locked ==> out@ == all_items(events@)
                && final(self).held() == old(self).held(),
            old(self).confidence() == ConfidenceState::Hunting ==> out@ == tagged_items(
                events@,
                false,
            ) && final(self).held() == old(self).held(),
            old(self).confidence() == ConfidenceState::Probation ==> out@ == tagged_items(
                events@,
                false,
            ) && final(self).held() == old(self).held() + tagged_items(events@, true),
    {
        let ghost all = events@;
        assert(all.len() == events.len());
        let mut rest = events;
        let mut out: Vec<T> = Vec::new();
        let mut i: usize = 0;
        while rest.len() > 0
            invariant
                all.len() <= usize::MAX,
                i + rest@.len() == all.len(),
                rest@ == all.skip(i as int),
                self.state == old(self).state,
                self.state == ConfidenceState::Locked ==> out@ == all_items(all.take(i as int))
                    && self.held@ == old(self).held@,
                self.state == ConfidenceState::Hunting ==> out@ == tagged_items(
                    all.take(i as int),
                    false,
                ) && self.held@ == old(self).held@,
                self.state == ConfidenceState::Probation ==> out@ == tagged_items(
                    all.take(i as int),
                    false,
                ) && self.held@ == old(self).held@ + tagged_items(all.take(i as int), true),
            decreases rest@.len(),
        {
            let (ev, decoded) = rest.remove(0);
            proof {
                assert(all.take(i + 1).drop_last() =~= all.take(i as int));
                assert(all.take(i + 1).last() == all[i as int]);
                assert(all[i as int] == (ev, decoded));
                assert(all_items(all.take(i + 1)) =~= all_items(all.take(i as int)).push(ev));
                assert(rest@ =~= all.skip(i + 1));
            }
            match self.state {
                ConfidenceState::Locked => {
                    out.push(ev);
                },
                ConfidenceState::Hunting => {
                    if !decoded {
                        out.push(ev);
                    }
                },
                ConfidenceState::Probation => {
                    if decoded {
                        self.held.push(ev);
                        assert(self.held@ =~= old(self).held@ + tagged_items(all.take(i + 1), true));
                    } else {
                        out.push(ev);
                    }
                },
            }
            i = i + 1;
        }
        assert(all.take(all.len() as int) =~= all);
        out
    }

    /// Moves to confidence `next`. A change is announced by appending
    /// `announcement` to `events`; confirming the lock then releases the
    /// held output after it, and losing it discards the held output.
    /// Returns whether the state changed.
    pub fn set_confidence(&mut self, next: ConfidenceState, events: &mut Vec<T>, announcement: T) -> (changed: bool)
        ensures
            changed == (old(self).confidence() != next),
            final(self).confidence() == next,
            !changed ==> final(events)@ == old(events)@ && final(self).held() == old(self).held(),
            changed && next == ConfidenceState::Locked ==> final(events)@ == old(events)@.push(
                announcement,
            ) + old(self).held() && final(self).held().len() == 0,
            changed && next == ConfidenceState::Hunting ==> final(events)@ == old(events)@.push(
                announcement,
            ) && final(self).held().len() == 0,
            changed && next == ConfidenceState::Probation ==> final(events)@ == old(events)@.push(
                announcement,
            ) && final(self).held() == old(self).held(),
    {
        if self.state == next {
            return false;
        }
        self.state = next;
        events.push(announcement);
        match next {
            ConfidenceState::Locked => {
                events.append(&mut self.held);
            },
            ConfidenceState::Hunting => {
                self.held.clear();
            },
            ConfidenceState::Probation => {},
        }
        true
    }

    /// At the end of the stream a lock still on probation is trusted: its
    /// held output is released onto `events`.
    pub fn flush(&mut self, events: &mut Vec<T>)
        ensures
            final(self).confidence() == old(self).confidence(),
            old(self).confidence() == ConfidenceState::Probation ==> final(events)@ == old(events)@
                + old(self).held() && final(self).held().len() == 0,
            old(self).confidence() != ConfidenceState::Probation ==> final(events)@ == old(events)@
                && final(self).held() == old(self).held(),
    {
        if self.state == ConfidenceState::Probation {
            events.append(&mut self.held);
        }
    }
}

} // verus!
