//! Reading the decoder's speed, threshold and pitch out of its log lines:
//! `Best fit: WPM = <wpm>, Threshold = <threshold>` and
//! `Estimated pitch: <pitch> Hz`. The numbers are handed back as text.

use vstd::prelude::*;
use crate::textual::{chars_to_string, str_to_chars, trim, trim_chars};

verus! {

/// The number texts a log line carries, each already trimmed.
#[derive(Debug)]
pub struct StatsFields {
    pub wpm: Option<String>,
    pub threshold: Option<String>,
    pub pitch: Option<String>,
}

/// The first position of `c` in `s`, if any.
pub open spec fn first_index(s: Seq<char>, c: char) -> Option<int>
    decreases s.len(),
{
    if s.len() == 0 {
        None
    } else if s[0] == c {
        Some(0)
    } else {
        match first_index(s.drop_first(), c) {
            Some(i) => Some(i + 1),
            None => None,
        }
    }
}

/// `s` with every trailing `suffix` removed (`str::trim_end_matches`).
pub open spec fn trim_end_matches(s: Seq<char>, suffix: Seq<char>) -> Seq<char>
    decreases s.len(),
{
    if suffix.len() > 0 && s.len() >= suffix.len() && s.subrange(s.len() - suffix.len(), s.len() as int)
        == suffix {
        trim_end_matches(s.subrange(0, s.len() - suffix.len()), suffix)
    } else {
        s
    }
}

/// The speed and threshold texts of a fit line's remainder `rest` (after
/// its prefix): nothing unless it has a comma; the speed before the first
/// comma; the threshold after `Threshold = ` in what follows.
pub open spec fn fit_fields(rest: Seq<char>) -> (Option<Seq<char>>, Option<Seq<char>>) {
    match first_index(rest, ',') {
        None => (None, None),
        Some(i) => {
            let after = trim(rest.skip(i + 1));
            let key = "Threshold = "@;
            (
                Some(trim(rest.take(i))),
                if key.is_prefix_of(after) {
                    Some(trim(after.skip(key.len() as int)))
                } else {
                    None
                },
            )
        },
    }
}

/// What a log line carries: speed, threshold and pitch texts.
pub open spec fn stats_fields(msg: Seq<char>) -> (Option<Seq<char>>, Option<Seq<char>>, Option<
    Seq<char>,
>) {
    let fit = "Best fit: WPM = "@;
    let pitch = "Estimated pitch: "@;
    if fit.is_prefix_of(msg) {
        let (w, t) = fit_fields(msg.skip(fit.len() as int));
        (w, t, None)
    } else if pitch.is_prefix_of(msg) {
        (None, None, Some(trim(trim_end_matches(msg.skip(pitch.len() as int), " Hz"@))))
    } else {
        (None, None, None)
    }
}

fn starts_with(s: &[char], p: &[char]) -> (r: bool)
    ensures
        r == p@.is_prefix_of(s@),
{
    if p.len() > s.len() {
        return false;
    }
    let mut i: usize = 0;
    while i < p.len()
        invariant
            i <= p@.len() <= s@.len(),
            forall|k: int| 0 <= k < i ==> p@[k] == s@[k],
        decreases p@.len() - i,
    {
        if p[i] != s[i] {
            return false;
        }
        i = i + 1;
    }
    true
}

fn slice_chars(s: &[char], from: usize, to: usize) -> (r: Vec<char>)
    requires
        from <= to <= s@.len(),
    ensures
        r@ == s@.subrange(from as int, to as int),
{
    let mut r: Vec<char> = Vec::new();
    let mut i: usize = from;
    while i < to
        invariant
            from <= i <= to <= s@.len(),
            r@ == s@.subrange(from as int, i as int),
        decreases to - i,
    {
        r.push(s[i]);
        assert(s@.subrange(from as int, i + 1) =~= s@.subrange(from as int, i as int).push(
            s@[i as int],
        ));
        i = i + 1;
    }
    r
}

fn find_char(s: &[char], c: char) -> (r: Option<usize>)
    ensures
        match r {
            Some(i) => first_index(s@, c) == Some(i as int) && i < s@.len(),
            None => first_index(s@, c).is_none(),
        },
{
    let mut i: usize = 0;
    while i < s.len()
        invariant
            i <= s@.len(),
            forall|k: int| 0 <= k < i ==> s@[k] != c,
        decreases s@.len() - i,
    {
        if s[i] == c {
            proof {
                lemma_first_index_at(s@, c, i as int);
            }
            return Some(i);
        }
        i = i + 1;
    }
    proof {
        lemma_first_index_none(s@, c);
    }
    None
}

proof fn lemma_first_index_at(s: Seq<char>, c: char, i: int)
    requires
        0 <= i < s.len(),
        s[i] == c,
        forall|k: int| 0 <= k < i ==> s[k] != c,
    ensures
        first_index(s, c) == Some(i),
    decreases i,
{
    if i > 0 {
        lemma_first_index_at(s.drop_first(), c, i - 1);
    }
}

proof fn lemma_first_index_none(s: Seq<char>, c: char)
    requires
        forall|k: int| 0 <= k < s.len() ==> s[k] != c,
    ensures
        first_index(s, c).is_none(),
    decreases s.len(),
{
    if s.len() > 0 {
        lemma_first_index_none(s.drop_first(), c);
    }
}

fn strip_hz_suffixes(s: &[char]) -> (r: Vec<char>)
    ensures
        r@ == trim_end_matches(s@, " Hz"@),
{
    proof {
        reveal_strlit(" Hz");
    }
    let mut end = s.len();
    assert(s@.subrange(0, end as int) =~= s@);
    while end >= 3 && s[end - 3] == ' ' && s[end - 2] == 'H' && s[end - 1] == 'z'
        invariant
            end <= s@.len(),
            " Hz"@ == seq![' ', 'H', 'z'],
            trim_end_matches(s@, " Hz"@) == trim_end_matches(s@.subrange(0, end as int), " Hz"@),
        decreases end,
    {
        let ghost t = s@.subrange(0, end as int);
        assert(t.subrange(t.len() - 3, t.len() as int) =~= " Hz"@);
        assert(t.subrange(0, t.len() - 3) =~= s@.subrange(0, end - 3));
        end = end - 3;
    }
    proof {
        let t = s@.subrange(0, end as int);
        if t.len() >= 3 {
            assert(t.subrange(t.len() - 3, t.len() as int) != " Hz"@) by {
                if t.subrange(t.len() - 3, t.len() as int) == " Hz"@ {
                    assert(t.subrange(t.len() - 3, t.len() as int)[0] == s@[end - 3]);
                    assert(t.subrange(t.len() - 3, t.len() as int)[1] == s@[end - 2]);
                    assert(t.subrange(t.len() - 3, t.len() as int)[2] == s@[end - 1]);
                }
            }
        }
    }
    slice_chars(s, 0, end)
}

/// The speed, threshold and pitch texts that the log line `msg` carries.
pub fn parse_stats_line(msg: &str) -> (r: StatsFields)
    ensures
        (
            match r.wpm {
                Some(s) => Some(s@),
                None => None,
            },
            match r.threshold {
                Some(s) => Some(s@),
                None => None,
            },
            match r.pitch {
                Some(s) => Some(s@),
                None => None,
            },
        ) == stats_fields(msg@),
{
    let m = str_to_chars(msg);
    let fit = str_to_chars("Best fit: WPM = ");
    let pitch = str_to_chars("Estimated pitch: ");
    let key = str_to_chars("Threshold = ");
    if starts_with(m.as_slice(), fit.as_slice()) {
        let rest = slice_chars(m.as_slice(), fit.len(), m.len());
        assert(rest@ =~= m@.skip(fit@.len() as int));
        match find_char(rest.as_slice(), ',') {
            None => StatsFields { wpm: None, threshold: None, pitch: None },
            Some(i) => {
                let head = slice_chars(rest.as_slice(), 0, i);
                assert(head@ =~= rest@.take(i as int));
                let tail = slice_chars(rest.as_slice(), i + 1, rest.len());
                assert(tail@ =~= rest@.skip(i + 1));
                let after = trim_chars(tail.as_slice());
                let wpm = chars_to_string(trim_chars(head.as_slice()).as_slice());
                let threshold = if starts_with(after.as_slice(), key.as_slice()) {
                    let value = slice_chars(after.as_slice(), key.len(), after.len());
                    assert(value@ =~= after@.skip(key@.len() as int));
                    Some(chars_to_string(trim_chars(value.as_slice()).as_slice()))
                } else {
                    None
                };
                StatsFields { wpm: Some(wpm), threshold, pitch: None }
            },
        }
    } else if starts_with(m.as_slice(), pitch.as_slice()) {
        let rest = slice_chars(m.as_slice(), pitch.len(), m.len());
        assert(rest@ =~= m@.skip(pitch@.len() as int));
        let bare = strip_hz_suffixes(rest.as_slice());
        let value = trim_chars(bare.as_slice());
        StatsFields { wpm: None, threshold: None, pitch: Some(chars_to_string(value.as_slice())) }
    } else {
        StatsFields { wpm: None, threshold: None, pitch: None }
    }
}

} // verus!
