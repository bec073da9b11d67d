//! Text stitching for rolling whole-window decodes: snapshot normalisation,
//! overlap detection and the append-only transcript merge.

use vstd::prelude::*;
use crate::textual::{
    ascii_alnum, chars_to_string, is_ascii_alnum, join_with_spaces, join_ws, split_ws, str_to_chars, upper,
    tokens, views, is_ws, to_upper, extend_chars, trim, trim_end, trim_start,
};

verus! {

/// Every non-overlapping `GT` of `t`, from the left, replaced by `Q`
/// (`str::replace("GT", "Q")`).
pub open spec fn replace_gt(t: Seq<char>) -> Seq<char>
    decreases t.len(),
{
    if t.len() == 0 {
        seq![]
    } else if t.len() >= 2 && t[0] == 'G' && t[1] == 'T' {
        seq!['Q'] + replace_gt(t.skip(2))
    } else {
        seq![t[0]] + replace_gt(t.skip(1))
    }
}

/// The tokens of `s`, each with `GT` read as `Q`, joined by single spaces.
pub open spec fn repair(s: Seq<char>) -> Seq<char> {
    join_ws(tokens(s).map_values(|t: Seq<char>| replace_gt(t)))
}

/// What `normalize_snapshot_text` makes of `s`.
pub open spec fn normalize(s: Seq<char>) -> Seq<char> {
    repair(join_ws(tokens(s)))
}

/// The number of ASCII letters and digits in `s`.
pub open spec fn alnum_count(s: Seq<char>) -> nat
    decreases s.len(),
{
    if s.len() == 0 {
        0
    } else {
        alnum_count(s.drop_last()) + if is_ascii_alnum(s.last()) {
            1nat
        } else {
            0nat
        }
    }
}

/// `needle` occurs in `hay` at position `i`.
pub open spec fn occurs_at(hay: Seq<char>, needle: Seq<char>, i: int) -> bool {
    0 <= i && i + needle.len() <= hay.len() && hay.subrange(i, i + needle.len()) == needle
}

/// `hay` contains `needle` (`str::contains`).
pub open spec fn contains_seq(hay: Seq<char>, needle: Seq<char>) -> bool {
    exists|i: int| occurs_at(hay, needle, i)
}

/// The first position at or after `k` where `needle` occurs in `hay`, or -1.
pub open spec fn find_from(hay: Seq<char>, needle: Seq<char>, k: int) -> int
    decreases hay.len() + 1 - k,
{
    if k < 0 || k + needle.len() > hay.len() {
        -1
    } else if hay.subrange(k, k + needle.len()) == needle {
        k
    } else {
        find_from(hay, needle, k + 1)
    }
}

/// The longest `n` with `1 <= n <= m` such that the last `n` characters of
/// `left` are the first `n` of `right`; 0 if there is none.
pub open spec fn char_overlap_from(left: Seq<char>, right: Seq<char>, m: int) -> int
    decreases m,
{
    if m <= 0 {
        0
    } else if left.subrange(left.len() - m, left.len() as int) == right.take(m) {
        m
    } else {
        char_overlap_from(left, right, m - 1)
    }
}

pub open spec fn min(a: int, b: int) -> int {
    if a <= b {
        a
    } else {
        b
    }
}

/// The longest suffix of `left` that is a prefix of `right`, in characters.
pub open spec fn char_overlap(left: Seq<char>, right: Seq<char>) -> int {
    char_overlap_from(left, right, min(left.len() as int, right.len() as int))
}

/// The largest `n <= m` such that the last `n` tokens of `lt` are the first
/// `n` tokens of `rt`; 0 if there is none.
pub open spec fn token_overlap_from(lt: Seq<Seq<char>>, rt: Seq<Seq<char>>, m: int) -> int
    decreases m,
{
    if m <= 0 {
        0
    } else if lt.subrange(lt.len() - m, lt.len() as int) == rt.take(m) {
        m
    } else {
        token_overlap_from(lt, rt, m - 1)
    }
}

/// The length, within `right`, of the longest run of whole tokens that ends
/// `left` and begins `right`.
pub open spec fn token_overlap(left: Seq<char>, right: Seq<char>) -> int {
    let lt = tokens(left);
    let rt = tokens(right);
    let n = token_overlap_from(lt, rt, min(lt.len() as int, rt.len() as int));
    if n == 0 {
        0
    } else {
        join_ws(rt.take(n)).len() as int
    }
}

fn replace_gt_q(t: &[char]) -> (r: Vec<char>)
    ensures
        r@ == replace_gt(t@),
{
    let mut r: Vec<char> = Vec::new();
    let mut i: usize = 0;
    assert(t@.skip(0) =~= t@);
    assert(r@ + t@ =~= t@);
    assert(replace_gt(t@) == r@ + replace_gt(t@.skip(0)));
    while i < t.len()
        invariant
            i <= t.len(),
            replace_gt(t@) == r@ + replace_gt(t@.skip(i as int)),
        decreases t.len() - i,
    {
        let ghost rest = t@.skip(i as int);
        let ghost prev = r@;
        if i + 1 < t.len() && t[i] == 'G' && t[i + 1] == 'T' {
            assert(rest.skip(2) =~= t@.skip(i + 2));
            r.push('Q');
            assert(prev + replace_gt(rest) =~= r@ + replace_gt(t@.skip(i + 2)));
            i = i + 2;
        } else {
            assert(rest.skip(1) =~= t@.skip(i + 1));
            r.push(t[i]);
            assert(prev + replace_gt(rest) =~= r@ + replace_gt(t@.skip(i + 1)));
            i = i + 1;
        }
    }
    assert(t@.skip(i as int) =~= seq![]);
    assert(r@ + seq![] =~= r@);
    r
}

/// `repair_common_split_morse` on characters.
fn repair_chars(s: &[char]) -> (r: Vec<char>)
    ensures
        r@ == repair(s@),
{
    let toks = split_ws(s);
    let mut fixed: Vec<Vec<char>> = Vec::new();
    let mut i: usize = 0;
    while i < toks.len()
        invariant
            i <= toks.len(),
            views(toks@) == tokens(s@),
            views(fixed@) == views(toks@).take(i as int).map_values(|t: Seq<char>| replace_gt(t)),
        decreases toks.len() - i,
    {
        let f = replace_gt_q(toks[i].as_slice());
        let ghost prev = fixed@;
        fixed.push(f);
        assert(views(toks@)[i as int] == toks@[i as int]@);
        assert(views(fixed@) =~= views(prev).push(f@));
        assert(views(toks@).take(i + 1) =~= views(toks@).take(i as int).push(toks@[i as int]@));
        assert(views(fixed@) =~= views(toks@).take(i + 1).map_values(|t: Seq<char>| replace_gt(t)));
        i = i + 1;
    }
    assert(views(toks@).take(toks.len() as int) =~= views(toks@));
    join_with_spaces(&fixed)
}

/// `normalize_snapshot_text` on characters.
pub fn normalize_chars(s: &[char]) -> (r: Vec<char>)
    ensures
        r@ == normalize(s@),
{
    let toks = split_ws(s);
    let joined = join_with_spaces(&toks);
    repair_chars(joined.as_slice())
}

/// Collapses every run of whitespace in `text` to one space, trims both ends,
/// and reads each `GT` inside a word as `Q` (a common mis-split of `--.-`).
pub fn normalize_snapshot_text(text: &str) -> (r: String)
    ensures
        r@ == normalize(text@),
        clean_text(r@),
{
    proof {
        lemma_normalize_is_clean(text@);
    }
    let v = str_to_chars(text);
    let n = normalize_chars(v.as_slice());
    chars_to_string(n.as_slice())
}

/// Reads each `GT` inside a whitespace-separated word of `text` as `Q` and
/// rejoins the words with single spaces.
pub fn repair_common_split_morse(text: &str) -> (r: String)
    ensures
        r@ == repair(text@),
{
    let v = str_to_chars(text);
    let n = repair_chars(v.as_slice());
    chars_to_string(n.as_slice())
}

/// The number of ASCII letters and digits in `text`.
pub fn normalized_len(text: &str) -> (r: usize)
    ensures
        r == alnum_count(text@),
{
    let v = str_to_chars(text);
    let mut n: usize = 0;
    let mut i: usize = 0;
    while i < v.len()
        invariant
            i <= v.len(),
            n == alnum_count(v@.take(i as int)),
            n <= i,
        decreases v.len() - i,
    {
        assert(v@.take(i + 1).drop_last() =~= v@.take(i as int));
        if ascii_alnum(v[i]) {
            n = n + 1;
        }
        i = i + 1;
    }
    assert(v@.take(v.len() as int) =~= v@);
    n
}


/// `a` and `b` are equal up to ASCII case (`str::eq_ignore_ascii_case`).
pub open spec fn ci_eq(a: Seq<char>, b: Seq<char>) -> bool {
    a.len() == b.len() && forall|i: int| 0 <= i < a.len() ==> upper(#[trigger] a[i]) == upper(b[i])
}

/// Among the first `j` of the last `n` tokens of `tt` and the first `n`
/// tokens of `ct`, the number of positions where the two agree up to case.
pub open spec fn run_matches(tt: Seq<Seq<char>>, ct: Seq<Seq<char>>, n: int, j: int) -> nat
    decreases j,
{
    if j <= 0 {
        0
    } else {
        run_matches(tt, ct, n, j - 1) + if ci_eq(tt[tt.len() - n + j - 1], ct[j - 1]) {
            1nat
        } else {
            0nat
        }
    }
}

/// At least 80% of the last `n` tokens of `tt` agree with the first `n` of `ct`.
pub open spec fn run_repeats(tt: Seq<Seq<char>>, ct: Seq<Seq<char>>, n: int) -> bool {
    5 * run_matches(tt, ct, n, n) >= 4 * n
}

pub open spec fn max_run(tt: Seq<Seq<char>>, ct: Seq<Seq<char>>) -> int {
    min(min(tt.len() as int, ct.len() as int), 8)
}

/// Appending `appended` to `transcript` would repeat, at the join, a run of
/// three to eight tokens that already ends the transcript.
pub open spec fn repeats_at_join(transcript: Seq<char>, appended: Seq<char>) -> bool {
    let ct = tokens(appended);
    let tt = tokens(transcript);
    &&& ct.len() > 0
    &&& tt.len() > 0
    &&& exists|n: int| 3 <= n <= max_run(tt, ct) && #[trigger] run_repeats(tt, ct, n)
}

/// What `append_snapshot_text` appends to `t` for the raw snapshot `raw`.
pub open spec fn appended_text(t: Seq<char>, raw: Seq<char>) -> Seq<char> {
    let s = normalize(raw);
    if s.len() == 0 {
        seq![]
    } else if t.len() == 0 {
        s
    } else if contains_seq(t, s) {
        seq![]
    } else if t.is_prefix_of(s) {
        s.skip(t.len() as int)
    } else if token_overlap(t, s) > 0 {
        let a = s.skip(token_overlap(t, s));
        if repeats_at_join(t, a) {
            seq![]
        } else {
            a
        }
    } else if char_overlap(t, s) > 0 {
        let a = s.skip(char_overlap(t, s));
        if repeats_at_join(t, a) {
            seq![]
        } else {
            a
        }
    } else if find_from(s, t, 0) >= 0 {
        s.skip(find_from(s, t, 0) + t.len())
    } else if repeats_at_join(t, s) {
        seq![]
    } else if t.last() == ' ' || s[0] == ' ' {
        s
    } else {
        seq![' '] + s
    }
}

proof fn lemma_find_from(hay: Seq<char>, needle: Seq<char>, k: int)
    requires
        0 <= k,
    ensures
        find_from(hay, needle, k) == -1 ==> forall|j: int| k <= j ==> !occurs_at(hay, needle, j),
        find_from(hay, needle, k) != -1 ==> {
            let f = find_from(hay, needle, k);
            &&& k <= f
            &&& occurs_at(hay, needle, f)
            &&& forall|j: int| k <= j < f ==> !occurs_at(hay, needle, j)
        },
    decreases hay.len() + 1 - k,
{
    if k + needle.len() > hay.len() {
    } else if hay.subrange(k, k + needle.len()) == needle {
    } else {
        lemma_find_from(hay, needle, k + 1);
        assert(!occurs_at(hay, needle, k));
    }
}

/// `a` and `b` hold the same characters.
pub fn chars_eq(a: &[char], b: &[char]) -> (r: bool)
    ensures
        r == (a@ == b@),
{
    if a.len() != b.len() {
        return false;
    }
    let mut i: usize = 0;
    while i < a.len()
        invariant
            i <= a.len(),
            a.len() == b.len(),
            a@.take(i as int) == b@.take(i as int),
        decreases a.len() - i,
    {
        if a[i] != b[i] {
            assert(a@[i as int] != b@[i as int]);
            return false;
        }
        assert(a@.take(i + 1) =~= a@.take(i as int).push(a@[i as int]));
        assert(b@.take(i + 1) =~= b@.take(i as int).push(b@[i as int]));
        i = i + 1;
    }
    assert(a@.take(a.len() as int) =~= a@);
    assert(b@.take(b.len() as int) =~= b@);
    true
}

/// `needle` occurs in `hay` at `k`.
fn matches_at(hay: &[char], needle: &[char], k: usize) -> (r: bool)
    requires
        k + needle.len() <= hay.len(),
    ensures
        r == (hay@.subrange(k as int, k + needle.len()) == needle@),
{
    let mut i: usize = 0;
    while i < needle.len()
        invariant
            i <= needle.len(),
            k + needle.len() <= hay.len(),
            hay@.subrange(k as int, k + i) == needle@.take(i as int),
        decreases needle.len() - i,
    {
        if hay[k + i] != needle[i] {
            assert(hay@.subrange(k as int, k + needle.len())[i as int] != needle@[i as int]);
            return false;
        }
        assert(hay@.subrange(k as int, k + i + 1) =~= hay@.subrange(k as int, k + i).push(
            hay@[k + i],
        ));
        assert(needle@.take(i + 1) =~= needle@.take(i as int).push(needle@[i as int]));
        i = i + 1;
    }
    assert(needle@.take(needle.len() as int) =~= needle@);
    true
}

/// The first position where `needle` occurs in `hay` (`str::find`).
pub fn find_chars(hay: &[char], needle: &[char]) -> (r: Option<usize>)
    ensures
        match r {
            Some(i) => find_from(hay@, needle@, 0) == i,
            None => find_from(hay@, needle@, 0) == -1,
        },
{
    if needle.len() > hay.len() {
        return None;
    }
    let last = hay.len() - needle.len();
    let mut k: usize = 0;
    while k <= last
        invariant
            last == hay.len() - needle.len(),
            k <= last + 1,
            find_from(hay@, needle@, 0) == find_from(hay@, needle@, k as int),
        decreases last + 1 - k,
    {
        if matches_at(hay, needle, k) {
            return Some(k);
        }
        if k == last {
            assert(find_from(hay@, needle@, k as int + 1) == -1);
            return None;
        }
        k = k + 1;
    }
    None
}

/// `hay` contains `needle`.
pub fn contains_chars(hay: &[char], needle: &[char]) -> (r: bool)
    ensures
        r == contains_seq(hay@, needle@),
{
    let f = find_chars(hay, needle);
    proof {
        lemma_find_from(hay@, needle@, 0);
        if f.is_none() {
            assert forall|j: int| !occurs_at(hay@, needle@, j) by {
                if j >= 0 {
                    assert(!occurs_at(hay@, needle@, j));
                }
            }
        }
    }
    f.is_some()
}

/// `pre` is a prefix of `s`.
fn is_prefix_chars(pre: &[char], s: &[char]) -> (r: bool)
    ensures
        r == pre@.is_prefix_of(s@),
{
    if pre.len() > s.len() {
        return false;
    }
    let r = matches_at(s, pre, 0);
    proof {
        assert(s@.subrange(0, pre.len() as int) =~= s@.take(pre.len() as int));
    }
    r
}

/// The longest suffix of `left` that is a prefix of `right`, in characters.
fn longest_suffix_prefix_overlap(left: &[char], right: &[char]) -> (r: usize)
    ensures
        r == char_overlap(left@, right@),
        r <= right.len(),
{
    let max = if left.len() < right.len() {
        left.len()
    } else {
        right.len()
    };
    let mut len = max;
    while len > 0
        invariant
            len <= max,
            max <= left.len(),
            max <= right.len(),
            char_overlap(left@, right@) == char_overlap_from(left@, right@, len as int),
        decreases len,
    {
        let start = left.len() - len;
        let mut ok = true;
        let mut i: usize = 0;
        assert(left@.subrange(start as int, start as int) =~= right@.take(0));
        while i < len
            invariant
                i <= len,
                len <= left.len(),
                len <= right.len(),
                start == left.len() - len,
                ok == (left@.subrange(start as int, start + i) == right@.take(i as int)),
            decreases len - i,
        {
            if ok && left[start + i] != right[i] {
                ok = false;
                assert(left@.subrange(start as int, start + i + 1)[i as int] != right@.take(
                    i + 1,
                )[i as int]);
            }
            proof {
                if ok {
                    assert(left@.subrange(start as int, start + i + 1) =~= left@.subrange(
                        start as int,
                        start + i,
                    ).push(left@[start + i]));
                    assert(right@.take(i + 1) =~= right@.take(i as int).push(right@[i as int]));
                } else {
                    if left@.subrange(start as int, start + i + 1) == right@.take(i + 1) {
                        assert(left@.subrange(start as int, start + i) =~= left@.subrange(
                            start as int,
                            start + i + 1,
                        ).take(i as int));
                        assert(right@.take(i as int) =~= right@.take(i + 1).take(i as int));
                    }
                }
            }
            i = i + 1;
        }
        if ok {
            assert(left@.subrange(start as int, left.len() as int) == right@.take(len as int));
            return len;
        }
        len = len - 1;
    }
    0
}

/// The last `n` tokens of `lt` are the first `n` tokens of `rt`.
fn token_run_eq(lt: &Vec<Vec<char>>, rt: &Vec<Vec<char>>, n: usize) -> (r: bool)
    requires
        n <= lt.len(),
        n <= rt.len(),
    ensures
        r == (views(lt@).subrange(lt.len() - n, lt.len() as int) == views(rt@).take(n as int)),
{
    let start = lt.len() - n;
    let ghost a = views(lt@).subrange(start as int, lt.len() as int);
    let ghost b = views(rt@).take(n as int);
    let mut i: usize = 0;
    while i < n
        invariant
            i <= n,
            n <= lt.len(),
            n <= rt.len(),
            start == lt.len() - n,
            a == views(lt@).subrange(start as int, lt.len() as int),
            b == views(rt@).take(n as int),
            a.take(i as int) == b.take(i as int),
        decreases n - i,
    {
        if !chars_eq(lt[start + i].as_slice(), rt[i].as_slice()) {
            assert(a[i as int] != b[i as int]);
            return false;
        }
        assert(a.take(i + 1) =~= a.take(i as int).push(a[i as int]));
        assert(b.take(i + 1) =~= b.take(i as int).push(b[i as int]));
        i = i + 1;
    }
    assert(a.take(n as int) =~= a);
    assert(b.take(n as int) =~= b);
    true
}

/// The length of the first `n` tokens of `ts` joined by single spaces.
fn joined_len(ts: &Vec<Vec<char>>, n: usize) -> (r: usize)
    requires
        n <= ts.len(),
        join_ws(views(ts@).take(n as int)).len() <= usize::MAX,
    ensures
        r == join_ws(views(ts@).take(n as int)).len(),
{
    let mut total: usize = 0;
    let mut j: usize = 0;
    proof {
        lemma_join_len_mono(views(ts@).take(n as int), 0);
    }
    while j < n
        invariant
            j <= n,
            n <= ts.len(),
            total == join_ws(views(ts@).take(j as int)).len(),
            join_ws(views(ts@).take(n as int)).len() <= usize::MAX,
        decreases n - j,
    {
        let ghost tj = views(ts@).take(j + 1);
        assert(tj.drop_last() =~= views(ts@).take(j as int));
        assert(views(ts@).take(j + 1) =~= views(ts@).take(n as int).take(j + 1));
        proof {
            lemma_join_len_mono(views(ts@).take(n as int), j + 1);
        }
        if j == 0 {
            total = ts[0].len();
        } else {
            total = total + 1 + ts[j].len();
        }
        j = j + 1;
    }
    total
}

/// Joining more tokens never gives a shorter text.
proof fn lemma_join_len_mono(ts: Seq<Seq<char>>, k: int)
    requires
        0 <= k <= ts.len(),
    ensures
        join_ws(ts.take(k)).len() <= join_ws(ts).len(),
    decreases ts.len() - k,
{
    if k < ts.len() {
        lemma_join_len_mono(ts, k + 1);
        let t1 = ts.take(k + 1);
        assert(t1.drop_last() =~= ts.take(k));
    } else {
        assert(ts.take(k) =~= ts);
    }
}

/// Joining the tokens of `s` with single spaces gives a text no longer than
/// `s`; one shorter when `s` ends in whitespace after a word.
pub proof fn lemma_join_tokens_len(s: Seq<char>)
    ensures
        join_ws(tokens(s)).len() + (if s.len() > 0 && is_ws(s.last()) && tokens(s).len() > 0 {
            1int
        } else {
            0int
        }) <= s.len(),
    decreases s.len(),
{
    if s.len() > 0 {
        let sp = s.drop_last();
        lemma_join_tokens_len(sp);
        let prev = tokens(sp);
        let c = s.last();
        if is_ws(c) {
        } else if s.len() >= 2 && !is_ws(s[s.len() - 2]) {
            lemma_tokens_nonempty_when_last_word(sp);
            lemma_join_update_last(prev, prev.last().push(c));
        } else {
            let np = prev.push(seq![c]);
            if prev.len() > 0 {
                assert(np.drop_last() =~= prev);
            }
        }
    }
}

proof fn lemma_tokens_nonempty_when_last_word(s: Seq<char>)
    requires
        s.len() > 0,
        !is_ws(s.last()),
    ensures
        tokens(s).len() > 0,
    decreases s.len(),
{
    if s.len() >= 2 && !is_ws(s[s.len() - 2]) {
        lemma_tokens_nonempty_when_last_word(s.drop_last());
    }
}

proof fn lemma_join_update_last(ts: Seq<Seq<char>>, t: Seq<char>)
    requires
        ts.len() > 0,
    ensures
        join_ws(ts.update(ts.len() - 1, t)).len() == join_ws(ts).len() - ts.last().len() + t.len(),
{
    let u = ts.update(ts.len() - 1, t);
    if ts.len() > 1 {
        assert(u.drop_last() =~= ts.drop_last());
    }
}


/// The length, within `right`, of the longest run of whole tokens that ends
/// `left` and begins `right`; 0 when no token run is shared.
fn longest_token_suffix_prefix_overlap(left: &[char], right: &[char]) -> (r: usize)
    ensures
        r == token_overlap(left@, right@),
        r <= right.len(),
{
    let lt = split_ws(left);
    let rt = split_ws(right);
    if lt.len() == 0 || rt.len() == 0 {
        return 0;
    }
    let max = if lt.len() < rt.len() {
        lt.len()
    } else {
        rt.len()
    };
    let mut n = max;
    while n > 0
        invariant
            n <= max,
            max <= lt.len(),
            max <= rt.len(),
            max == min(views(lt@).len() as int, views(rt@).len() as int),
            views(lt@) == tokens(left@),
            views(rt@) == tokens(right@),
            token_overlap_from(views(lt@), views(rt@), max as int) == token_overlap_from(
                views(lt@),
                views(rt@),
                n as int,
            ),
        decreases n,
    {
        if token_run_eq(&lt, &rt, n) {
            proof {
                lemma_join_len_mono(views(rt@), n as int);
                lemma_join_tokens_len(right@);
                assert(views(rt@) == tokens(right@));
                assert(join_ws(views(rt@)).len() <= right@.len());
                assert(token_overlap_from(views(lt@), views(rt@), n as int) == n);
                assert(right@.len() == right.len());
                assert(join_ws(views(rt@).take(n as int)).len() <= right.len());
            }
            let k = joined_len(&rt, n);
            proof {
                assert(views(lt@) == tokens(left@));
                assert(views(lt@).len() == lt.len());
                assert(views(rt@).len() == rt.len());
            }
            return k;
        }
        n = n - 1;
    }
    0
}

/// `a` and `b` are equal up to ASCII case.
fn eq_ignore_case(a: &[char], b: &[char]) -> (r: bool)
    ensures
        r == ci_eq(a@, b@),
{
    if a.len() != b.len() {
        return false;
    }
    let mut i: usize = 0;
    while i < a.len()
        invariant
            i <= a.len(),
            a.len() == b.len(),
            forall|j: int| 0 <= j < i ==> upper(#[trigger] a@[j]) == upper(b@[j]),
        decreases a.len() - i,
    {
        if to_upper(a[i]) != to_upper(b[i]) {
            return false;
        }
        i = i + 1;
    }
    true
}

/// How many of the last `n` tokens of `tt` agree, up to case, with the
/// first `n` tokens of `ct`, position by position.
fn run_match_count(tt: &Vec<Vec<char>>, ct: &Vec<Vec<char>>, n: usize) -> (r: usize)
    requires
        n <= tt.len(),
        n <= ct.len(),
    ensures
        r == run_matches(views(tt@), views(ct@), n as int, n as int),
        r <= n,
{
    let start = tt.len() - n;
    let mut count: usize = 0;
    let mut j: usize = 0;
    while j < n
        invariant
            j <= n,
            n <= tt.len(),
            n <= ct.len(),
            start == tt.len() - n,
            count == run_matches(views(tt@), views(ct@), n as int, j as int),
            count <= j,
        decreases n - j,
    {
        if eq_ignore_case(tt[start + j].as_slice(), ct[j].as_slice()) {
            count = count + 1;
        }
        j = j + 1;
    }
    count
}

/// Appending `appended` to `transcript` would repeat, at the join, a run of
/// three or more tokens that already ends the transcript (at least 80% of the
/// positions agreeing up to case).
fn dedup_blocks(transcript: &[char], appended: &[char]) -> (r: bool)
    ensures
        r == repeats_at_join(transcript@, appended@),
{
    let cand = split_ws(appended);
    if cand.len() == 0 {
        return false;
    }
    let trans = split_ws(transcript);
    if trans.len() == 0 {
        return false;
    }
    let ghost tt = views(trans@);
    let ghost ct = views(cand@);
    let mut cap = if trans.len() < cand.len() {
        trans.len()
    } else {
        cand.len()
    };
    if cap > 8 {
        cap = 8;
    }
    assert(cap == max_run(tt, ct));
    let mut n = cap;
    while n >= 3
        invariant
            n <= cap,
            cap <= trans.len(),
            cap <= cand.len(),
            cap <= 8,
            tt == views(trans@),
            ct == views(cand@),
            tt == tokens(transcript@),
            ct == tokens(appended@),
            tt.len() > 0,
            ct.len() > 0,
            cap == max_run(tt, ct),
            forall|m: int| n < m <= cap ==> !#[trigger] run_repeats(tt, ct, m),
        decreases n,
    {
        let matches = run_match_count(&trans, &cand, n);
        if 5 * matches >= 4 * n {
            assert(run_repeats(tt, ct, n as int));
            assert(tt == tokens(transcript@));
            assert(ct == tokens(appended@));
            assert(tt.len() == trans.len());
            assert(ct.len() == cand.len());
            assert(3 <= n <= max_run(tt, ct));
            return true;
        }
        n = n - 1;
    }
    assert forall|m: int| 3 <= m <= max_run(tt, ct) implies !#[trigger] run_repeats(tt, ct, m) by {
    }
    false
}


/// The characters of `v` from position `k` on.
fn skip_chars(v: &[char], k: usize) -> (r: Vec<char>)
    requires
        k <= v.len(),
    ensures
        r@ == v@.skip(k as int),
{
    let mut r: Vec<char> = Vec::new();
    let mut i: usize = k;
    while i < v.len()
        invariant
            k <= i <= v.len(),
            r@ == v@.subrange(k as int, i as int),
        decreases v.len() - i,
    {
        r.push(v[i]);
        assert(v@.subrange(k as int, i + 1) =~= v@.subrange(k as int, i as int).push(v@[i as int]));
        i = i + 1;
    }
    assert(v@.subrange(k as int, v.len() as int) =~= v@.skip(k as int));
    r
}

/// Merges the raw snapshot `raw` into `transcript` and returns what was
/// appended; the transcript only ever grows at its end.
pub fn append_chars(transcript: &mut Vec<char>, raw: &[char]) -> (r: Vec<char>)
    ensures
        r@ == appended_text(old(transcript)@, raw@),
        final(transcript)@ == old(transcript)@ + r@,
{
    let ghost t = transcript@;
    let snapshot = normalize_chars(raw);
    if snapshot.len() == 0 {
        assert(transcript@ =~= t + seq![]);
        return Vec::new();
    }
    if transcript.len() == 0 {
        extend_chars(transcript, snapshot.as_slice());
        return snapshot;
    }
    if contains_chars(transcript.as_slice(), snapshot.as_slice()) {
        assert(transcript@ =~= t + seq![]);
        return Vec::new();
    }
    if is_prefix_chars(transcript.as_slice(), snapshot.as_slice()) {
        let rest = skip_chars(snapshot.as_slice(), transcript.len());
        extend_chars(transcript, rest.as_slice());
        return rest;
    }
    let tok = longest_token_suffix_prefix_overlap(transcript.as_slice(), snapshot.as_slice());
    if tok > 0 {
        let appended = skip_chars(snapshot.as_slice(), tok);
        if dedup_blocks(transcript.as_slice(), appended.as_slice()) {
            assert(transcript@ =~= t + seq![]);
            return Vec::new();
        }
        extend_chars(transcript, appended.as_slice());
        return appended;
    }
    let ov = longest_suffix_prefix_overlap(transcript.as_slice(), snapshot.as_slice());
    if ov > 0 {
        let appended = skip_chars(snapshot.as_slice(), ov);
        if dedup_blocks(transcript.as_slice(), appended.as_slice()) {
            assert(transcript@ =~= t + seq![]);
            return Vec::new();
        }
        extend_chars(transcript, appended.as_slice());
        return appended;
    }
    match find_chars(snapshot.as_slice(), transcript.as_slice()) {
        Some(pos) => {
            proof {
                lemma_find_from(snapshot@, t, 0);
            }
            let appended = skip_chars(snapshot.as_slice(), pos + transcript.len());
            extend_chars(transcript, appended.as_slice());
            return appended;
        },
        None => {},
    }
    if dedup_blocks(transcript.as_slice(), snapshot.as_slice()) {
        assert(transcript@ =~= t + seq![]);
        return Vec::new();
    }
    let last = transcript[transcript.len() - 1];
    let mut appended: Vec<char> = Vec::new();
    if !(last == ' ' || snapshot[0] == ' ') {
        appended.push(' ');
    }
    extend_chars(&mut appended, snapshot.as_slice());
    proof {
        if !(last == ' ' || snapshot@[0] == ' ') {
            assert(appended@ =~= seq![' '] + snapshot@);
        } else {
            assert(appended@ =~= snapshot@);
        }
    }
    extend_chars(transcript, appended.as_slice());
    appended
}

/// Merges the decoded snapshot `snapshot_text` into `transcript`, which only
/// ever grows at its end, and returns the text that was appended.
pub fn append_snapshot_text(transcript: &mut String, snapshot_text: &str) -> (r: String)
    ensures
        r@ == appended_text(old(transcript)@, snapshot_text@),
        final(transcript)@ == old(transcript)@ + r@,
{
    let mut t = str_to_chars(transcript.as_str());
    let raw = str_to_chars(snapshot_text);
    let app = append_chars(&mut t, raw.as_slice());
    *transcript = chars_to_string(t.as_slice());
    chars_to_string(app.as_slice())
}

/// A word: non-empty, with no whitespace.
pub open spec fn is_word(t: Seq<char>) -> bool {
    t.len() > 0 && forall|i: int| 0 <= i < t.len() ==> !is_ws(#[trigger] t[i])
}

proof fn lemma_tokens_are_words(s: Seq<char>)
    ensures
        forall|k: int| 0 <= k < tokens(s).len() ==> is_word(#[trigger] tokens(s)[k]),
    decreases s.len(),
{
    if s.len() > 0 {
        let prev = tokens(s.drop_last());
        lemma_tokens_are_words(s.drop_last());
        let c = s.last();
        if !is_ws(c) && s.len() >= 2 && !is_ws(s[s.len() - 2]) {
            assert(s.drop_last().last() == s[s.len() - 2]);
            lemma_tokens_nonempty_when_last_word(s.drop_last());
            let w = prev.last().push(c);
            assert(is_word(prev[prev.len() - 1]));
            assert forall|i: int| 0 <= i < w.len() implies !is_ws(#[trigger] w[i]) by {
                if i < w.len() - 1 {
                    assert(w[i] == prev[prev.len() - 1][i]);
                }
            }
        }
    }
}

proof fn lemma_tokens_append_word(y: Seq<char>, t: Seq<char>)
    requires
        is_word(t),
        y.len() == 0 || is_ws(y.last()),
    ensures
        tokens(y + t) == tokens(y).push(t),
    decreases t.len(),
{
    let s = y + t;
    if t.len() == 1 {
        assert(s.drop_last() =~= y);
        assert(!is_ws(t[0]));
        assert(s.len() >= 2 ==> s[s.len() - 2] == y.last());
        assert(seq![s.last()] =~= t);
    } else {
        let u = t.drop_last();
        assert(!is_ws(t[t.len() - 1]));
        assert forall|i: int| 0 <= i < u.len() implies !is_ws(#[trigger] u[i]) by {
            assert(u[i] == t[i]);
        }
        lemma_tokens_append_word(y, u);
        assert(s.drop_last() =~= y + u);
        assert(s[s.len() - 2] == u.last());
        assert(!is_ws(u[u.len() - 1]));
        assert(u.push(t.last()) =~= t);
        assert(tokens(y).push(u).update(tokens(y).len() as int, t) =~= tokens(y).push(t));
    }
}

/// Splitting words joined by single spaces gives the words back.
proof fn lemma_tokens_of_join(ts: Seq<Seq<char>>)
    requires
        forall|k: int| 0 <= k < ts.len() ==> is_word(#[trigger] ts[k]),
    ensures
        tokens(join_ws(ts)) == ts,
    decreases ts.len(),
{
    if ts.len() == 1 {
        lemma_tokens_append_word(seq![], ts[0]);
        assert(Seq::<char>::empty() + ts[0] =~= ts[0]);
        assert(seq![ts[0]] =~= ts);
    } else if ts.len() > 1 {
        let d = ts.drop_last();
        lemma_tokens_of_join(d);
        let y = join_ws(d) + seq![' '];
        assert(is_ws(' '));
        assert(y.drop_last() =~= join_ws(d));
        assert(tokens(y) == tokens(join_ws(d)));
        assert(is_word(ts[ts.len() - 1]));
        lemma_tokens_append_word(y, ts.last());
        assert(d.push(ts.last()) =~= ts);
    }
}

proof fn lemma_replace_gt_head(t: Seq<char>)
    requires
        t.len() > 0,
    ensures
        replace_gt(t).len() > 0,
        replace_gt(t)[0] == (if t.len() >= 2 && t[0] == 'G' && t[1] == 'T' {
            'Q'
        } else {
            t[0]
        }),
{
}

proof fn lemma_replace_gt_no_ws(t: Seq<char>)
    requires
        forall|i: int| 0 <= i < t.len() ==> !is_ws(#[trigger] t[i]),
    ensures
        forall|i: int| 0 <= i < replace_gt(t).len() ==> !is_ws(#[trigger] replace_gt(t)[i]),
        t.len() > 0 ==> replace_gt(t).len() > 0,
    decreases t.len(),
{
    if t.len() > 0 {
        let k: int = if t.len() >= 2 && t[0] == 'G' && t[1] == 'T' {
            2
        } else {
            1
        };
        let rest = t.skip(k);
        assert forall|i: int| 0 <= i < rest.len() implies !is_ws(#[trigger] rest[i]) by {
            assert(rest[i] == t[i + k]);
        }
        lemma_replace_gt_no_ws(rest);
        assert(is_ws('Q') == false);
        let out = replace_gt(t);
        assert forall|i: int| 0 <= i < out.len() implies !is_ws(#[trigger] out[i]) by {
            if i > 0 {
                assert(out[i] == replace_gt(rest)[i - 1]);
            }
        }
    }
}

/// `GT` occurs nowhere in `u`.
pub open spec fn free_of_gt(u: Seq<char>) -> bool {
    forall|i: int| 0 <= i < u.len() - 1 ==> !(#[trigger] u[i] == 'G' && u[i + 1] == 'T')
}

proof fn lemma_replace_gt_leaves_no_gt(t: Seq<char>)
    ensures
        free_of_gt(replace_gt(t)),
    decreases t.len(),
{
    if t.len() > 0 {
        let k: int = if t.len() >= 2 && t[0] == 'G' && t[1] == 'T' {
            2
        } else {
            1
        };
        let rest = t.skip(k);
        lemma_replace_gt_leaves_no_gt(rest);
        let out = replace_gt(t);
        let r = replace_gt(rest);
        assert(out == seq![out[0]] + r);
        if rest.len() > 0 {
            lemma_replace_gt_head(rest);
            if k == 1 && t[0] == 'G' {
                assert(rest[0] == t[1]);
                assert(r[0] != 'T');
            }
        }
        assert forall|i: int| 0 <= i < out.len() - 1 implies !(#[trigger] out[i] == 'G' && out[i
            + 1] == 'T') by {
            if i > 0 {
                assert(out[i] == r[i - 1]);
                assert(out[i + 1] == r[i]);
            } else {
                assert(out[1] == r[0]);
            }
        }
    }
}

proof fn lemma_replace_gt_fixed(u: Seq<char>)
    requires
        free_of_gt(u),
    ensures
        replace_gt(u) == u,
    decreases u.len(),
{
    if u.len() > 0 {
        if u.len() >= 2 {
            assert(!(u[0] == 'G' && u[1] == 'T'));
        }
        let rest = u.skip(1);
        assert forall|i: int| 0 <= i < rest.len() - 1 implies !(#[trigger] rest[i] == 'G' && rest[i
            + 1] == 'T') by {
            assert(rest[i] == u[i + 1]);
            assert(rest[i + 1] == u[i + 2]);
        }
        lemma_replace_gt_fixed(rest);
        assert(seq![u[0]] + rest =~= u);
    }
}

/// Normalising a snapshot twice gives what normalising it once gives: its
/// words are already split by single spaces and every `GT` is already read
/// as `Q`.
pub proof fn lemma_normalize_idempotent(s: Seq<char>)
    ensures
        normalize(normalize(s)) == normalize(s),
{
    let ts = tokens(s);
    lemma_tokens_are_words(s);
    lemma_tokens_of_join(ts);
    assert(tokens(join_ws(ts)) == ts);
    let rs = ts.map_values(|t: Seq<char>| replace_gt(t));
    assert forall|k: int| 0 <= k < rs.len() implies is_word(#[trigger] rs[k]) by {
        assert(is_word(ts[k]));
        lemma_replace_gt_no_ws(ts[k]);
    }
    assert(normalize(s) == join_ws(rs));
    lemma_tokens_of_join(rs);
    let rrs = rs.map_values(|t: Seq<char>| replace_gt(t));
    assert forall|k: int| 0 <= k < rs.len() implies #[trigger] rrs[k] == rs[k] by {
        lemma_replace_gt_leaves_no_gt(ts[k]);
        lemma_replace_gt_fixed(rs[k]);
    }
    assert(rrs =~= rs);
    lemma_tokens_of_join(rs);
    assert(tokens(join_ws(rs)) == rs);
    assert(normalize(normalize(s)) == repair(join_ws(tokens(join_ws(rs)))));
    assert(tokens(join_ws(tokens(join_ws(rs)))) == rs);
}

/// A snapshot whose normalised text the transcript already contains adds
/// nothing to it.
pub proof fn lemma_contained_snapshot_adds_nothing(t: Seq<char>, raw: Seq<char>)
    requires
        contains_seq(t, normalize(raw)),
    ensures
        appended_text(t, raw) == Seq::<char>::empty(),
{
    let s = normalize(raw);
    let i = choose|i: int| occurs_at(t, s, i);
    assert(occurs_at(t, s, i));
    assert(s.len() > 0 ==> t.len() > 0);
}

/// Text in the shape a normalised snapshot has: its only whitespace is
/// the plain space, it neither starts nor ends with one, no two spaces
/// stand together, and `GT` occurs nowhere.
pub open spec fn clean_text(u: Seq<char>) -> bool {
    &&& forall|i: int| 0 <= i < u.len() && is_ws(#[trigger] u[i]) ==> u[i] == ' '
    &&& u.len() > 0 ==> u[0] != ' ' && u.last() != ' '
    &&& forall|i: int| 0 <= i < u.len() - 1 ==> !(#[trigger] u[i] == ' ' && u[i + 1] == ' ')
    &&& free_of_gt(u)
}

proof fn lemma_join_words_clean(ts: Seq<Seq<char>>)
    requires
        forall|k: int| 0 <= k < ts.len() ==> is_word(#[trigger] ts[k]) && free_of_gt(ts[k]),
    ensures
        clean_text(join_ws(ts)),
        ts.len() > 0 ==> join_ws(ts).len() > 0,
    decreases ts.len(),
{
    if ts.len() == 1 {
        let w = ts[0];
        assert(is_word(w) && free_of_gt(w));
        assert(join_ws(ts) == w);
        assert(!is_ws(w[0]));
        assert(!is_ws(w[w.len() - 1]));
    } else if ts.len() >= 2 {
        let d = ts.drop_last();
        let w = ts.last();
        assert(is_word(ts[ts.len() - 1]) && free_of_gt(ts[ts.len() - 1]));
        assert forall|k: int| 0 <= k < d.len() implies is_word(#[trigger] d[k]) && free_of_gt(d[k]) by {
            assert(d[k] == ts[k]);
        }
        lemma_join_words_clean(d);
        let j = join_ws(d);
        let l = j.len() as int;
        let u = join_ws(ts);
        assert(u == j + seq![' '] + w);
        assert(u.len() == l + 1 + w.len());
        assert(l > 0);
        assert forall|i: int| 0 <= i < u.len() implies #[trigger] u[i] == (if i < l {
            j[i]
        } else if i == l {
            ' '
        } else {
            w[i - l - 1]
        }) by {}
        assert(!is_ws(j[l - 1]) && j[l - 1] != ' ') by {
            assert(j.last() != ' ');
            if is_ws(j[l - 1]) {
                assert(j[l - 1] == ' ');
            }
        }
        assert(!is_ws(w[0]));
        assert(!is_ws(w[w.len() - 1]));
        assert forall|i: int| 0 <= i < u.len() && is_ws(#[trigger] u[i]) implies u[i] == ' ' by {
            if i < l {
                assert(u[i] == j[i]);
            } else if i > l {
                assert(u[i] == w[i - l - 1]);
            }
        }
        assert(u[0] == j[0]);
        assert(u.last() == u[u.len() - 1]);
        assert(u[u.len() - 1] == w[w.len() - 1]);
        assert forall|i: int| 0 <= i < u.len() - 1 implies !(#[trigger] u[i] == ' ' && u[i + 1]
            == ' ') by {
            if i < l - 1 {
                assert(u[i] == j[i] && u[i + 1] == j[i + 1]);
            } else if i == l - 1 {
                assert(u[i] == j[l - 1]);
            } else if i == l {
                assert(u[i + 1] == w[0]);
            } else {
                assert(u[i] == w[i - l - 1]);
            }
        }
        assert forall|i: int| 0 <= i < u.len() - 1 implies !(#[trigger] u[i] == 'G' && u[i + 1]
            == 'T') by {
            if i < l - 1 {
                assert(u[i] == j[i] && u[i + 1] == j[i + 1]);
            } else if i == l - 1 {
                assert(u[i + 1] == ' ');
            } else if i == l {
                assert(u[i] == ' ');
            } else {
                assert(u[i] == w[i - l - 1] && u[i + 1] == w[i - l]);
            }
        }
    }
}

/// A normalised snapshot is clean text: words split by single spaces, no
/// other whitespace, nothing around it, and every `GT` already read as `Q`.
pub proof fn lemma_normalize_is_clean(s: Seq<char>)
    ensures
        clean_text(normalize(s)),
{
    let ts = tokens(s);
    lemma_tokens_are_words(s);
    lemma_tokens_of_join(ts);
    let rs = ts.map_values(|t: Seq<char>| replace_gt(t));
    assert forall|k: int| 0 <= k < rs.len() implies is_word(#[trigger] rs[k]) && free_of_gt(rs[k]) by {
        assert(is_word(ts[k]));
        lemma_replace_gt_no_ws(ts[k]);
        lemma_replace_gt_leaves_no_gt(ts[k]);
    }
    assert(normalize(s) == join_ws(rs));
    lemma_join_words_clean(rs);
}

/// Text with no whitespace at either end (empty text included).
pub open spec fn outer_trimmed(u: Seq<char>) -> bool {
    u.len() == 0 || (!is_ws(u[0]) && !is_ws(u.last()))
}

proof fn lemma_char_overlap_from_bound(left: Seq<char>, right: Seq<char>, m: int)
    ensures
        0 <= char_overlap_from(left, right, m),
        m >= 0 ==> char_overlap_from(left, right, m) <= m,
    decreases m,
{
    if m > 0 {
        lemma_char_overlap_from_bound(left, right, m - 1);
    }
}

proof fn lemma_token_overlap_from_bound(lt: Seq<Seq<char>>, rt: Seq<Seq<char>>, m: int)
    ensures
        0 <= token_overlap_from(lt, rt, m),
        m >= 0 ==> token_overlap_from(lt, rt, m) <= m,
    decreases m,
{
    if m > 0 {
        lemma_token_overlap_from_bound(lt, rt, m - 1);
    }
}

proof fn lemma_join_take_len(ts: Seq<Seq<char>>, n: int)
    requires
        0 <= n <= ts.len(),
    ensures
        join_ws(ts.take(n)).len() <= join_ws(ts).len(),
    decreases ts.len(),
{
    if n < ts.len() {
        let d = ts.drop_last();
        assert(ts.take(n) =~= d.take(n));
        lemma_join_take_len(d, n);
        if ts.len() == 1 {
            assert(d.len() == 0);
        }
    } else {
        assert(ts.take(n) =~= ts);
    }
}

proof fn lemma_overlaps_within(t: Seq<char>, s: Seq<char>)
    ensures
        0 <= token_overlap(t, s) <= s.len(),
        0 <= char_overlap(t, s) <= s.len(),
{
    let lt = tokens(t);
    let rt = tokens(s);
    let m = min(lt.len() as int, rt.len() as int);
    lemma_token_overlap_from_bound(lt, rt, m);
    let n = token_overlap_from(lt, rt, m);
    if n > 0 {
        lemma_join_take_len(rt, n);
        lemma_join_tokens_len(s);
    }
    lemma_char_overlap_from_bound(t, s, min(t.len() as int, s.len() as int));
}

/// What a merge appends to `t` is empty, a tail of the normalised
/// snapshot, or that snapshot after a space.
proof fn lemma_appended_shape(t: Seq<char>, raw: Seq<char>)
    ensures
        ({
            let s = normalize(raw);
            let a = appended_text(t, raw);
            ||| a.len() == 0
            ||| (a.len() > 0 && a.last() == s.last() && (t.len() == 0 ==> a == s))
            ||| (t.len() > 0 && a == seq![' '] + s && s.len() > 0)
        }),
{
    let s = normalize(raw);
    let a = appended_text(t, raw);
    lemma_overlaps_within(t, s);
    lemma_find_from(s, t, 0);
    if s.len() > 0 && t.len() > 0 && !contains_seq(t, s) {
        if t.is_prefix_of(s) {
            assert(a == s.skip(t.len() as int));
        } else if token_overlap(t, s) > 0 {
        } else if char_overlap(t, s) > 0 {
        } else if find_from(s, t, 0) >= 0 {
            let f = find_from(s, t, 0);
            assert(occurs_at(s, t, f));
        }
        if a.len() > 0 && a != seq![' '] + s {
            assert(a.last() == s.last());
        }
    }
}

/// Merging a snapshot into a transcript with no whitespace at either end
/// leaves a transcript with none: committed text never gains outer spaces.
pub proof fn lemma_merge_keeps_outer_trimmed(t: Seq<char>, raw: Seq<char>)
    requires
        outer_trimmed(t),
    ensures
        outer_trimmed(t + appended_text(t, raw)),
{
    let s = normalize(raw);
    let a = appended_text(t, raw);
    lemma_appended_shape(t, raw);
    lemma_normalize_is_clean(raw);
    let u = t + a;
    if s.len() > 0 {
        assert(!is_ws(s[0])) by {
            if is_ws(s[0]) {
                assert(s[0] == ' ');
            }
        }
        assert(!is_ws(s.last())) by {
            if is_ws(s[s.len() - 1]) {
                assert(s[s.len() - 1] == ' ');
            }
        }
    }
    if a.len() > 0 {
        assert(u.last() == a.last());
        if t.len() == 0 {
            assert(u == a);
        } else {
            assert(u[0] == t[0]);
        }
        if a == seq![' '] + s {
            assert(a.last() == s.last());
        }
    } else {
        assert(u =~= t);
    }
}

/// Trimming text with no outer whitespace leaves it as it is.
pub proof fn lemma_trim_of_trimmed(u: Seq<char>)
    requires
        outer_trimmed(u),
    ensures
        trim(u) == u,
{
    assert(trim_start(u) == u);
    assert(trim_end(u) == u);
}

proof fn lemma_tokens_ws_tail(y: Seq<char>, c: char)
    requires
        is_ws(c),
    ensures
        tokens(y.push(c)) == tokens(y),
{
    assert(y.push(c).drop_last() =~= y);
}

proof fn lemma_tokens_concat_join(y: Seq<char>, rs: Seq<Seq<char>>)
    requires
        forall|k: int| 0 <= k < rs.len() ==> is_word(#[trigger] rs[k]),
        y.len() == 0 || is_ws(y.last()),
    ensures
        tokens(y + join_ws(rs)) == tokens(y) + rs,
    decreases rs.len(),
{
    if rs.len() == 0 {
        assert(y + join_ws(rs) =~= y);
        assert(tokens(y) + rs =~= tokens(y));
    } else if rs.len() == 1 {
        assert(is_word(rs[0]));
        lemma_tokens_append_word(y, rs[0]);
        assert(tokens(y) + rs =~= tokens(y).push(rs[0]));
    } else {
        let d = rs.drop_last();
        let w = rs.last();
        assert(is_word(rs[rs.len() - 1]));
        assert forall|k: int| 0 <= k < d.len() implies is_word(#[trigger] d[k]) by {
            assert(d[k] == rs[k]);
        }
        lemma_tokens_concat_join(y, d);
        let z = (y + join_ws(d)).push(' ');
        assert(is_ws(' '));
        lemma_tokens_ws_tail(y + join_ws(d), ' ');
        lemma_tokens_append_word(z, w);
        assert(y + join_ws(rs) =~= z + w);
        assert(tokens(y) + rs =~= (tokens(y) + d).push(w));
    }
}

/// A snapshot that shares nothing with the transcript (it is not inside
/// it, does not extend it, overlaps it by no token or character, does not
/// hold it, and does not repeat its end) is appended whole, as separate
/// words: the words of the new transcript are those of the old one
/// followed by those of the snapshot, so no word of the transcript is
/// glued to one of the snapshot.
pub proof fn lemma_unrelated_snapshot_keeps_words_apart(t: Seq<char>, raw: Seq<char>)
    requires
        t.len() > 0,
        normalize(raw).len() > 0,
        !contains_seq(t, normalize(raw)),
        !t.is_prefix_of(normalize(raw)),
        token_overlap(t, normalize(raw)) == 0,
        char_overlap(t, normalize(raw)) == 0,
        find_from(normalize(raw), t, 0) < 0,
        !repeats_at_join(t, normalize(raw)),
    ensures
        tokens(t + appended_text(t, raw)) == tokens(t) + tokens(normalize(raw)),
{
    let s = normalize(raw);
    let ts = tokens(raw);
    lemma_tokens_are_words(raw);
    let rs = ts.map_values(|x: Seq<char>| replace_gt(x));
    assert forall|k: int| 0 <= k < rs.len() implies is_word(#[trigger] rs[k]) by {
        assert(is_word(ts[k]));
        lemma_replace_gt_no_ws(ts[k]);
    }
    lemma_tokens_of_join(ts);
    assert(s == join_ws(rs));
    lemma_tokens_of_join(rs);
    lemma_normalize_is_clean(raw);
    assert(s[0] != ' ');
    if t.last() == ' ' {
        assert(appended_text(t, raw) == s);
        lemma_tokens_concat_join(t, rs);
    } else {
        assert(appended_text(t, raw) == seq![' '] + s);
        assert(is_ws(' '));
        lemma_tokens_ws_tail(t, ' ');
        lemma_tokens_concat_join(t.push(' '), rs);
        assert(t + (seq![' '] + s) =~= t.push(' ') + join_ws(rs));
    }
}

} // verus!
