//! The evaluator's small deterministic generator and its character error
//! count.

use vstd::prelude::*;

verus! {

/// The state a generator seeded with `seed` starts from:
/// `seed * 0xDEADBEEF + 1`, wrapping.
pub open spec fn seeded_state(seed: u64) -> u64 {
    ((seed * 0xDEADBEEFu64 + 1) % 0x1_0000_0000_0000_0000) as u64
}

/// One xorshift step of the state: shift left 13, right 7, left 17, each
/// folded in with exclusive or.
pub open spec fn xorshift(s: u64) -> u64 {
    let a = s ^ ((s << 13u64) as u64);
    let b = a ^ (a >> 7u64);
    b ^ ((b << 17u64) as u64)
}

/// What a step that leaves the generator in `s` returns: `s` times
/// `0x2545F4914F6CDD1D`, wrapping.
pub open spec fn scrambled(s: u64) -> u64 {
    ((s * 0x2545_F491_4F6C_DD1Du64) % 0x1_0000_0000_0000_0000) as u64
}

/// A xorshift* generator of 64-bit values.
pub struct SmallRng {
    state: u64,
}

impl SmallRng {
    /// The generator's state.
    pub closed spec fn state(&self) -> u64 {
        self.state
    }

    /// A generator seeded with `seed`.
    pub fn new(seed: u64) -> (r: Self)
        ensures
            r.state() == seeded_state(seed),
    {
        SmallRng { state: seed.wrapping_mul(0xDEADBEEF).wrapping_add(1) }
    }

    /// Advances the state by one xorshift step and returns the new state,
    /// scrambled.
    pub fn next_u64(&mut self) -> (r: u64)
        ensures
            final(self).state() == xorshift(old(self).state()),
            r == scrambled(final(self).state()),
    {
        let s = self.state;
        let a = s ^ (s << 13u64);
        let b = a ^ (a >> 7u64);
        let c = b ^ (b << 17u64);
        assert(c == xorshift(s)) by (bit_vector)
            requires
                a == s ^ (s << 13u64),
                b == a ^ (a >> 7u64),
                c == b ^ (b << 17u64),
        ;
        self.state = c;
        c.wrapping_mul(0x2545_F491_4F6C_DD1D)
    }
}

/// The fewest single-character insertions, deletions and substitutions
/// that turn `a` into `b` (Levenshtein distance).
pub open spec fn edit_distance(a: Seq<char>, b: Seq<char>) -> nat
    decreases a.len() + b.len(),
{
    if a.len() == 0 {
        b.len()
    } else if b.len() == 0 {
        a.len()
    } else {
        let delete = edit_distance(a.drop_last(), b) + 1;
        let insert = edit_distance(a, b.drop_last()) + 1;
        let substitute = edit_distance(a.drop_last(), b.drop_last()) + if a.last() == b.last() {
            0nat
        } else {
            1nat
        };
        min3(delete, insert, substitute)
    }
}

/// The least of three naturals.
pub open spec fn min3(x: nat, y: nat, z: nat) -> nat {
    let m = if x <= y {
        x
    } else {
        y
    };
    if m <= z {
        m
    } else {
        z
    }
}

proof fn lemma_edit_distance_bounded(a: Seq<char>, b: Seq<char>)
    ensures
        edit_distance(a, b) <= a.len() + b.len(),
    decreases a.len() + b.len(),
{
    if a.len() > 0 && b.len() > 0 {
        lemma_edit_distance_bounded(a.drop_last(), b);
    }
}

/// The edit distance between `reference` and `hypothesis`, by characters:
/// the numerator of the character error rate.
pub fn char_edit_distance(reference: &str, hypothesis: &str) -> (r: usize)
    requires
        reference@.len() + hypothesis@.len() < usize::MAX,
    ensures
        r == edit_distance(reference@, hypothesis@),
{
    let r = crate::textual::str_to_chars(reference);
    let h = crate::textual::str_to_chars(hypothesis);
    edit_distance_chars(r.as_slice(), h.as_slice())
}

/// The edit distance between two character slices, by the row-by-row
/// dynamic programme.
pub fn edit_distance_chars(r: &[char], h: &[char]) -> (d: usize)
    requires
        r@.len() + h@.len() < usize::MAX,
    ensures
        d == edit_distance(r@, h@),
{
    let n = h.len();
    let mut prev: Vec<usize> = Vec::new();
    let mut j: usize = 0;
    while j <= n
        invariant
            n == h@.len(),
            j <= n + 1,
            r@.len() + h@.len() < usize::MAX,
            prev@.len() == j,
            forall|k: int| 0 <= k < j ==> prev@[k] == edit_distance(r@.take(0), h@.take(k)),
        decreases n + 1 - j,
    {
        prev.push(j);
        j = j + 1;
    }
    let mut i: usize = 0;
    while i < r.len()
        invariant
            n == h@.len(),
            i <= r@.len(),
            r@.len() + h@.len() < usize::MAX,
            prev@.len() == n + 1,
            forall|k: int| 0 <= k <= n ==> prev@[k] == edit_distance(r@.take(i as int), h@.take(k)),
        decreases r@.len() - i,
    {
        let mut cur: Vec<usize> = Vec::new();
        proof {
            assert(h@.take(0).len() == 0);
        }
        cur.push(i + 1);
        let mut j: usize = 0;
        while j < n
            invariant
                n == h@.len(),
                i < r@.len(),
                j <= n,
                r@.len() + h@.len() < usize::MAX,
                prev@.len() == n + 1,
                cur@.len() == j + 1,
                forall|k: int|
                    0 <= k <= n ==> prev@[k] == edit_distance(r@.take(i as int), h@.take(k)),
                forall|k: int|
                    0 <= k <= j ==> cur@[k] == edit_distance(r@.take(i + 1), h@.take(k)),
            decreases n - j,
        {
            let cost: usize = if r[i] == h[j] {
                0
            } else {
                1
            };
            proof {
                lemma_edit_distance_bounded(r@.take(i + 1), h@.take(j + 1));
                lemma_edit_distance_bounded(r@.take(i as int), h@.take(j + 1));
                lemma_edit_distance_bounded(r@.take(i + 1), h@.take(j as int));
                lemma_edit_distance_bounded(r@.take(i as int), h@.take(j as int));
            }
            let a = prev[j + 1] + 1;
            let b = cur[j] + 1;
            let c = prev[j] + cost;
            let m1 = if a <= b {
                a
            } else {
                b
            };
            let m = if m1 <= c {
                m1
            } else {
                c
            };
            proof {
                let ra = r@.take(i + 1);
                let hb = h@.take(j + 1);
                assert(ra.drop_last() =~= r@.take(i as int));
                assert(hb.drop_last() =~= h@.take(j as int));
                assert(ra.last() == r@[i as int]);
                assert(hb.last() == h@[j as int]);
                assert(m == edit_distance(ra, hb));
            }
            cur.push(m);
            j = j + 1;
        }
        prev = cur;
        i = i + 1;
    }
    proof {
        assert(r@.take(r@.len() as int) =~= r@);
        assert(h@.take(n as int) =~= h@);
    }
    prev[n]
}

/// A transcript has no errors against itself.
pub proof fn lemma_edit_distance_to_self(a: Seq<char>)
    ensures
        edit_distance(a, a) == 0,
    decreases a.len(),
{
    if a.len() > 0 {
        lemma_edit_distance_to_self(a.drop_last());
    }
}

} // verus!
