//! Turning a stream of rolling whole-window decodes into one committed,
//! append-only transcript: snapshot screening and the prefix stabiliser.

use vstd::prelude::*;
use std::collections::VecDeque;
use crate::morse::{element_count, morse_element_count};
use crate::snapshot::{
    alnum_count, append_chars, appended_text, chars_eq, contains_chars, contains_seq,
    lemma_merge_keeps_outer_trimmed, lemma_trim_of_trimmed, normalize, normalize_chars,
    outer_trimmed,
};
use crate::textual::{
    ascii_alnum, ascii_alpha, ascii_digit, chars_to_string, copy_chars, is_ascii_alnum,
    is_ascii_alpha, is_ascii_digit, join_with_spaces, join_ws, split_ws,
    str_to_chars, to_upper, tokens, trim, trim_chars, upper_seq, views,
};

verus! {

/// The number of ASCII letters and digits of `s` whose Morse code is a
/// single element (`E` and `T`, either case).
pub open spec fn single_element_count(s: Seq<char>) -> nat
    decreases s.len(),
{
    if s.len() == 0 {
        0
    } else {
        single_element_count(s.drop_last()) + if is_ascii_alnum(s.last()) && element_count(
            s.last(),
        ) == Some(1usize) {
            1nat
        } else {
            0nat
        }
    }
}

/// The number of `?` (undecodable letters) in `s`.
pub open spec fn unknown_count(s: Seq<char>) -> nat
    decreases s.len(),
{
    if s.len() == 0 {
        0
    } else {
        unknown_count(s.drop_last()) + if s.last() == '?' {
            1nat
        } else {
            0nat
        }
    }
}

/// A snapshot that reads like noise: no letters or digits at all, more than
/// 64 of them, or more than 16 of which over 45% are the one-element letters
/// `E`/`T` or over 15% of letters-plus-`?` are `?`.
pub open spec fn noise_dominated(s: Seq<char>) -> bool {
    let a = alnum_count(s);
    let e = single_element_count(s);
    let u = unknown_count(s);
    ||| a == 0
    ||| a > 64
    ||| (a > 16 && (20 * e > 9 * a || 17 * u > 3 * a))
}

/// A token that marks a real CW exchange: anything containing `CQ`, or one
/// of `DE`, `POTA`, `TEST`, `Q`, `SB`, `QSB`, `QST`, `73`.
pub open spec fn is_anchor_token(t: Seq<char>) -> bool {
    ||| contains_seq(t, seq!['C', 'Q'])
    ||| t == seq!['D', 'E']
    ||| t == seq!['P', 'O', 'T', 'A']
    ||| t == seq!['T', 'E', 'S', 'T']
    ||| t == seq!['Q']
    ||| t == seq!['S', 'B']
    ||| t == seq!['Q', 'S', 'B']
    ||| t == seq!['Q', 'S', 'T']
    ||| t == seq!['7', '3']
}

/// Four to eight ASCII letters and digits with at least one of each.
pub open spec fn looks_like_callsign(t: Seq<char>) -> bool {
    &&& 4 <= t.len() <= 8
    &&& exists|i: int| 0 <= i < t.len() && is_ascii_digit(#[trigger] t[i])
    &&& exists|i: int| 0 <= i < t.len() && is_ascii_alpha(#[trigger] t[i])
    &&& forall|i: int| 0 <= i < t.len() ==> is_ascii_alnum(#[trigger] t[i])
}

/// The upper-cased snapshot holds an anchor token, or, once the stream is
/// active, a token that looks like a callsign.
pub open spec fn stream_anchor(s: Seq<char>, stream_is_active: bool) -> bool {
    let toks = tokens(upper_seq(s));
    &&& toks.len() > 0
    &&& {
        ||| exists|i: int| 0 <= i < toks.len() && is_anchor_token(#[trigger] toks[i])
        ||| (stream_is_active && exists|i: int|
            0 <= i < toks.len() && looks_like_callsign(#[trigger] toks[i]))
    }
}

fn is_noise_dominated_snapshot(text: &[char]) -> (r: bool)
    ensures
        r == noise_dominated(text@),
{
    let mut alnum: usize = 0;
    let mut single: usize = 0;
    let mut unknown: usize = 0;
    let mut i: usize = 0;
    while i < text.len()
        invariant
            i <= text.len(),
            alnum == alnum_count(text@.take(i as int)),
            single == single_element_count(text@.take(i as int)),
            unknown == unknown_count(text@.take(i as int)),
            alnum + unknown <= i,
            single <= alnum,
        decreases text.len() - i,
    {
        let ch = text[i];
        assert(text@.take(i + 1).drop_last() =~= text@.take(i as int));
        if ch == '?' {
            unknown = unknown + 1;
        } else if ascii_alnum(ch) {
            alnum = alnum + 1;
            if morse_element_count(ch) == Some(1usize) {
                single = single + 1;
            }
        }
        i = i + 1;
    }
    assert(text@.take(text.len() as int) =~= text@);
    if alnum == 0 {
        return true;
    }
    if alnum > 64 {
        return true;
    }
    // The noise rule's ratios `single / alnum > 0.45` and
    // `unknown / (alnum + unknown) > 0.15`, taken in `f32` with at most 64
    // letters, decide exactly as these integer comparisons: no fraction with
    // such small terms lies within rounding distance of either bound
    // without equalling it.
    alnum > 16 && (20 * single > 9 * alnum || 17 * (unknown as u128) > 3 * (alnum as u128))
}

fn is_anchor(t: &[char]) -> (r: bool)
    ensures
        r == is_anchor_token(t@),
{
    if contains_chars(t, &['C', 'Q']) {
        return true;
    }
    if t.len() == 1 {
        assert(t@ =~= seq![t@[0]]);
        return t[0] == 'Q';
    }
    chars_eq(t, &['D', 'E']) || chars_eq(t, &['P', 'O', 'T', 'A']) || chars_eq(
        t,
        &['T', 'E', 'S', 'T'],
    ) || chars_eq(t, &['S', 'B']) || chars_eq(t, &['Q', 'S', 'B']) || chars_eq(
        t,
        &['Q', 'S', 'T'],
    ) || chars_eq(t, &['7', '3'])
}

fn looks_like_callsign_token(t: &[char]) -> (r: bool)
    ensures
        r == looks_like_callsign(t@),
{
    if t.len() < 4 || t.len() > 8 {
        return false;
    }
    let mut has_digit = false;
    let mut has_alpha = false;
    let mut all_alnum = true;
    let mut i: usize = 0;
    while i < t.len()
        invariant
            i <= t.len(),
            has_digit == exists|j: int| 0 <= j < i && is_ascii_digit(#[trigger] t@[j]),
            has_alpha == exists|j: int| 0 <= j < i && is_ascii_alpha(#[trigger] t@[j]),
            all_alnum == forall|j: int| 0 <= j < i ==> is_ascii_alnum(#[trigger] t@[j]),
        decreases t.len() - i,
    {
        let c = t[i];
        if ascii_digit(c) {
            has_digit = true;
        }
        if ascii_alpha(c) {
            has_alpha = true;
        }
        if !ascii_alnum(c) {
            all_alnum = false;
        }
        i = i + 1;
    }
    has_digit && has_alpha && all_alnum
}

fn upper_chars(s: &[char]) -> (r: Vec<char>)
    ensures
        r@ == upper_seq(s@),
{
    let mut r: Vec<char> = Vec::new();
    let mut i: usize = 0;
    while i < s.len()
        invariant
            i <= s.len(),
            r@ == upper_seq(s@.take(i as int)),
        decreases s.len() - i,
    {
        r.push(to_upper(s[i]));
        assert(upper_seq(s@.take(i + 1)) =~= upper_seq(s@.take(i as int)).push(
            crate::textual::upper(s@[i as int]),
        ));
        i = i + 1;
    }
    assert(s@.take(s.len() as int) =~= s@);
    r
}

fn has_stream_anchor(text: &[char], stream_is_active: bool) -> (r: bool)
    ensures
        r == stream_anchor(text@, stream_is_active),
{
    let up = upper_chars(text);
    let toks = split_ws(up.as_slice());
    let ghost tv = views(toks@);
    if toks.len() == 0 {
        return false;
    }
    let mut i: usize = 0;
    while i < toks.len()
        invariant
            i <= toks.len(),
            tv == views(toks@),
            tv == tokens(upper_seq(text@)),
            tv.len() > 0,
            forall|j: int| 0 <= j < i ==> !is_anchor_token(#[trigger] tv[j]),
        decreases toks.len() - i,
    {
        if is_anchor(toks[i].as_slice()) {
            assert(is_anchor_token(tv[i as int]));
            return true;
        }
        i = i + 1;
    }
    if !stream_is_active {
        return false;
    }
    let mut k: usize = 0;
    while k < toks.len()
        invariant
            k <= toks.len(),
            tv == views(toks@),
            tv == tokens(upper_seq(text@)),
            tv.len() > 0,
            stream_is_active,
            forall|j: int| 0 <= j < k ==> !looks_like_callsign(#[trigger] tv[j]),
        decreases toks.len() - k,
    {
        if looks_like_callsign_token(toks[k].as_slice()) {
            assert(looks_like_callsign(tv[k as int]));
            return true;
        }
        k = k + 1;
    }
    false
}


/// Every token list has a token at `k`, the same as the first list's.
pub open spec fn all_extend(lists: Seq<Seq<Seq<char>>>, k: int) -> bool {
    forall|j: int| 0 <= j < lists.len() ==> k < #[trigger] lists[j].len() && lists[j][k] == lists[0][k]
}

/// Scanning up from `k`, the first position at which the token lists stop
/// agreeing (or the first list ends).
pub open spec fn common_len_from(lists: Seq<Seq<Seq<char>>>, k: int) -> int
    decreases lists[0].len() - k,
{
    if lists.len() == 0 || k < 0 || k >= lists[0].len() || !all_extend(lists, k) {
        k
    } else {
        common_len_from(lists, k + 1)
    }
}

/// The longest run of leading tokens shared by every text of `values`,
/// joined by single spaces.
pub open spec fn common_token_prefix_of(values: Seq<Seq<char>>) -> Seq<char> {
    if values.len() == 0 {
        seq![]
    } else {
        let lists = values.map_values(|v: Seq<char>| tokens(v));
        join_ws(lists[0].take(common_len_from(lists, 0)))
    }
}

pub open spec fn views2(l: Seq<Vec<Vec<char>>>) -> Seq<Seq<Seq<char>>> {
    l.map_values(|x: Vec<Vec<char>>| views(x@))
}

fn common_token_prefix(values: &VecDeque<Vec<char>>) -> (r: Vec<char>)
    ensures
        r@ == common_token_prefix_of(views(values@)),
{
    if values.len() == 0 {
        return Vec::new();
    }
    let ghost vals = views(values@);
    let ghost want = vals.map_values(|v: Seq<char>| tokens(v));
    let mut lists: Vec<Vec<Vec<char>>> = Vec::new();
    let mut j: usize = 0;
    while j < values.len()
        invariant
            j <= values@.len(),
            vals == views(values@),
            want == vals.map_values(|v: Seq<char>| tokens(v)),
            views2(lists@) == want.take(j as int),
        decreases values@.len() - j,
    {
        let toks = split_ws(values[j].as_slice());
        let ghost prev = lists@;
        lists.push(toks);
        assert(views2(lists@) =~= views2(prev).push(views(toks@)));
        assert(want.take(j + 1) =~= want.take(j as int).push(want[j as int]));
        j = j + 1;
    }
    assert(want.take(values@.len() as int) =~= want);
    let ghost lv = views2(lists@);
    assert(lv == want);
    let n = lists.len();
    let mut k: usize = 0;
    let mut go = true;
    while go && k < lists[0].len()
        invariant
            !go ==> !all_extend(lv, k as int),
            n == lists.len(),
            n > 0,
            lv == views2(lists@),
            lv.len() == n,
            k <= lists@[0]@.len(),
            lv[0].len() == lists@[0]@.len(),
            common_len_from(lv, 0) == common_len_from(lv, k as int),
        decreases lists@[0]@.len() - k + if go { 1int } else { 0int },
    {
        let mut all = true;
        let mut j2: usize = 0;
        while j2 < n
            invariant
                n == lists.len(),
                n > 0,
                lv == views2(lists@),
                k < lists@[0]@.len(),
                j2 <= n,
                all == forall|m: int|
                    0 <= m < j2 ==> k < #[trigger] lv[m].len() && lv[m][k as int] == lv[0][k as int],
            decreases n - j2,
        {
            assert(lv[j2 as int] == views(lists@[j2 as int]@));
            assert(lv[0] == views(lists@[0]@));
            if all {
                if k >= lists[j2].len() {
                    all = false;
                } else if !chars_eq(lists[j2][k].as_slice(), lists[0][k].as_slice()) {
                    all = false;
                }
            }
            j2 = j2 + 1;
        }
        assert(all == all_extend(lv, k as int));
        if !all {
            go = false;
        } else {
            k = k + 1;
        }
    }
    assert(common_len_from(lv, k as int) == k);
    let mut first: Vec<Vec<char>> = Vec::new();
    let mut i: usize = 0;
    while i < k
        invariant
            i <= k,
            k <= lists@[0]@.len(),
            n == lists.len(),
            n > 0,
            lv == views2(lists@),
            views(first@) == lv[0].take(i as int),
        decreases k - i,
    {
        let t = copy_chars(lists[0][i].as_slice());
        let ghost prev = first@;
        first.push(t);
        assert(views(first@) =~= views(prev).push(t@));
        assert(lv[0].take(i + 1) =~= lv[0].take(i as int).push(lv[0][i as int]));
        i = i + 1;
    }
    join_with_spaces(&first)
}


/// The stabiliser takes a normalised snapshot `n` given the committed text `c`:
/// it is non-empty, not noise, and anchored in a CW exchange.
pub open spec fn accepted(c: Seq<char>, n: Seq<char>) -> bool {
    n.len() > 0 && !noise_dominated(n) && stream_anchor(n, c.len() > 0)
}

/// The window of recent snapshots after `n` arrives: the last `req` of them.
pub open spec fn slide(recent: Seq<Seq<char>>, n: Seq<char>, req: nat) -> Seq<Seq<char>> {
    let w = recent.push(n);
    if w.len() > req {
        w.skip(w.len() - req)
    } else {
        w
    }
}

/// A non-noise snapshot is taken, however much is committed, as soon as one
/// of its words (upper-cased) is an exchange word: `DE`, `POTA`, `TEST`,
/// `Q`, `SB`, `QSB`, `QST`, `73`, or any word containing `CQ`.
pub proof fn lemma_exchange_word_is_accepted(c: Seq<char>, n: Seq<char>, k: int)
    requires
        n.len() > 0,
        !noise_dominated(n),
        0 <= k < tokens(upper_seq(n)).len(),
        ({
            let w = tokens(upper_seq(n))[k];
            ||| w == seq!['D', 'E']
            ||| w == seq!['P', 'O', 'T', 'A']
            ||| w == seq!['T', 'E', 'S', 'T']
            ||| w == seq!['Q']
            ||| w == seq!['S', 'B']
            ||| w == seq!['Q', 'S', 'B']
            ||| w == seq!['Q', 'S', 'T']
            ||| w == seq!['7', '3']
            ||| contains_seq(w, seq!['C', 'Q'])
        }),
    ensures
        accepted(c, n),
{
    let toks = tokens(upper_seq(n));
    assert(is_anchor_token(toks[k]));
}

/// Commits decoded text only once it has been seen as the common leading
/// tokens of several consecutive snapshots.
pub struct PrefixStabilizer {
    required_confirmations: usize,
    recent_snapshots: VecDeque<Vec<char>>,
    committed: Vec<char>,
    latest_snapshot: Vec<char>,
}

impl PrefixStabilizer {
    /// How many consecutive snapshots must agree before text is committed.
    pub closed spec fn required(&self) -> nat {
        self.required_confirmations as nat
    }

    /// The accepted snapshots still in the confirmation window, oldest first.
    pub closed spec fn recent(&self) -> Seq<Seq<char>> {
        views(self.recent_snapshots@)
    }

    /// The committed transcript, before trimming.
    pub closed spec fn committed(&self) -> Seq<char> {
        self.committed@
    }

    /// The latest accepted snapshot (empty before the first).
    pub closed spec fn latest(&self) -> Seq<char> {
        self.latest_snapshot@
    }

    /// At least one confirmation is required, the window holds no more
    /// snapshots than that, and the committed text has no whitespace at
    /// either end.
    pub closed spec fn wf(&self) -> bool {
        &&& 1 <= self.required_confirmations
        &&& self.recent_snapshots@.len() <= self.required_confirmations
        &&& outer_trimmed(self.committed@)
    }

    /// A stabiliser that commits text seen in `required_confirmations`
    /// consecutive snapshots (at least one).
    pub fn new(required_confirmations: usize) -> (s: Self)
        ensures
            s.wf(),
            s.required() == if required_confirmations == 0 {
                1
            } else {
                required_confirmations as nat
            },
            s.recent() == Seq::<Seq<char>>::empty(),
            s.committed() == Seq::<char>::empty(),
            s.latest() == Seq::<char>::empty(),
    {
        let s = PrefixStabilizer {
            required_confirmations: if required_confirmations == 0 {
                1
            } else {
                required_confirmations
            },
            recent_snapshots: VecDeque::new(),
            committed: Vec::new(),
            latest_snapshot: Vec::new(),
        };
        assert(s.recent() =~= Seq::<Seq<char>>::empty());
        s
    }

    /// Offers one decoded snapshot. A non-empty, anchored, non-noise snapshot
    /// joins the confirmation window; once the window is full, the tokens all
    /// of its snapshots share are merged into the transcript. Returns the text
    /// that was appended.
    pub fn push_snapshot(&mut self, snapshot_text: &str) -> (r: String)
        requires
            old(self).wf(),
        ensures
            final(self).wf(),
            final(self).required() == old(self).required(),
            final(self).committed() == old(self).committed() + r@,
            ({
                let n = normalize(snapshot_text@);
                if !accepted(old(self).committed(), n) {
                    &&& r@ == Seq::<char>::empty()
                    &&& final(self).recent() == old(self).recent()
                    &&& final(self).latest() == old(self).latest()
                } else {
                    &&& final(self).latest() == n
                    &&& final(self).recent() == slide(old(self).recent(), n, old(self).required())
                    &&& r@ == if final(self).recent().len() < old(self).required() {
                        Seq::<char>::empty()
                    } else {
                        appended_text(
                            old(self).committed(),
                            common_token_prefix_of(final(self).recent()),
                        )
                    }
                }
            }),
    {
        let raw = str_to_chars(snapshot_text);
        let normalized = normalize_chars(raw.as_slice());
        if normalized.len() == 0 || is_noise_dominated_snapshot(normalized.as_slice())
            || !has_stream_anchor(normalized.as_slice(), self.committed.len() > 0) {
            return String::new();
        }
        self.latest_snapshot = copy_chars(normalized.as_slice());
        let ghost before = self.recent();
        self.recent_snapshots.push_back(normalized);
        assert(self.recent() =~= before.push(normalized@));
        if self.recent_snapshots.len() > self.required_confirmations {
            let ghost w = self.recent();
            self.recent_snapshots.pop_front();
            assert(self.recent() =~= w.skip(w.len() - self.required()));
        }
        if self.recent_snapshots.len() < self.required_confirmations {
            proof {
                assert(self.committed@ =~= self.committed@ + Seq::<char>::empty());
            }
            return String::new();
        }
        let stable_prefix = common_token_prefix(&self.recent_snapshots);
        proof {
            lemma_merge_keeps_outer_trimmed(self.committed@, stable_prefix@);
        }
        let appended = append_chars(&mut self.committed, stable_prefix.as_slice());
        chars_to_string(appended.as_slice())
    }

    /// Merges the latest accepted snapshot into the transcript in full
    /// (used when the stream ends) and returns the text that was appended.
    pub fn finalize_latest(&mut self) -> (r: String)
        requires
            old(self).wf(),
        ensures
            final(self).wf(),
            final(self).required() == old(self).required(),
            final(self).recent() == old(self).recent(),
            final(self).latest() == old(self).latest(),
            r@ == appended_text(old(self).committed(), old(self).latest()),
            final(self).committed() == old(self).committed() + r@,
    {
        proof {
            lemma_merge_keeps_outer_trimmed(self.committed@, self.latest_snapshot@);
        }
        let appended = append_chars(&mut self.committed, self.latest_snapshot.as_slice());
        chars_to_string(appended.as_slice())
    }

    /// The committed transcript without surrounding whitespace; committed
    /// text never has any, so this is all the text that the calls of
    /// `push_snapshot` and `finalize_latest` returned, in order.
    pub fn transcript(&self) -> (r: String)
        ensures
            r@ == trim(self.committed()),
            self.wf() ==> r@ == self.committed(),
    {
        proof {
            if self.wf() {
                lemma_trim_of_trimmed(self.committed@);
            }
        }
        let t = trim_chars(self.committed.as_slice());
        chars_to_string(t.as_slice())
    }
}

} // verus!
