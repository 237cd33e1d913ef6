use vstd::prelude::*;
use vstd::seq_lib::to_multiset_update;
use crate::codec::Record;
use crate::stream::{PhaseSpace, records_valid};
use crate::rng::{SplitMix, draw, state_after, lemma_state_step};

verus! {

/// `s` with the items at `i` and `j` exchanged.
pub open spec fn swapped(s: Seq<Record>, i: int, j: int) -> Seq<Record> {
    s.update(i, s[j]).update(j, s[i])
}

/// A draw is accepted for a choice among `bound` values when the whole block of
/// `bound` consecutive values holding it lies below 2^64, so that every choice is
/// backed by equally many accepted draws.
pub open spec fn accepts(d: u64, bound: u64) -> bool {
    (d as int) - (d as int) % (bound as int) + (bound as int) - 1 <= 0xffff_ffff_ffff_ffff
}

/// A choice in `0..bound` made with draws `k`, `k + 1`, ... of the generator seeded
/// with `seed`: the first accepted draw modulo `bound`, or, once `tries` rejections
/// are used up, the next draw modulo `bound`. Also returns the index of the next unused draw.
pub open spec fn pick(seed: u64, k: nat, bound: u64, tries: nat) -> (u64, nat)
    decreases tries,
{
    let d = draw(seed, k);
    if tries == 0 || accepts(d, bound) {
        ((d % bound) as u64, k + 1)
    } else {
        pick(seed, k + 1, bound, (tries - 1) as nat)
    }
}

/// Rejections allowed per choice; running out has probability below 2^-64.
pub const MAX_REJECTIONS: u64 = 63;

/// `s` after the first `t` steps of a Fisher-Yates shuffle from the back, with the
/// index of the next unused draw: step `k` exchanges position `len - 1 - k` with a
/// position picked in `0..len - k`.
pub open spec fn shuffle_steps(s: Seq<Record>, seed: u64, t: int) -> (Seq<Record>, nat)
    decreases t,
{
    if t <= 0 {
        (s, 0)
    } else {
        let prev = shuffle_steps(s, seed, t - 1);
        let i = s.len() - t;
        let choice = pick(seed, prev.1, (i + 1) as u64, 63);
        (swapped(prev.0, i, choice.0 as int), choice.1)
    }
}

/// The permutation of `s` that the generator seeded with `seed` selects.
pub open spec fn shuffled(s: Seq<Record>, seed: u64) -> Seq<Record> {
    if s.len() <= 1 {
        s
    } else {
        shuffle_steps(s, seed, s.len() - 1).0
    }
}

/// Picks a value below `bound` by rejection sampling.
fn choose_below(rng: &mut SplitMix, bound: u64, Ghost(seed): Ghost<u64>, Ghost(k): Ghost<nat>) -> (r: u64)
    requires
        bound >= 1,
        old(rng).state == state_after(seed, k),
    ensures
        r == pick(seed, k, bound, 63).0,
        r < bound,
        final(rng).state == state_after(seed, pick(seed, k, bound, 63).1),
{
    let mut tries: u64 = MAX_REJECTIONS;
    let ghost mut kk: nat = k;
    loop
        invariant
            bound >= 1,
            rng.state == state_after(seed, kk),
            pick(seed, k, bound, 63) == pick(seed, kk, bound, tries as nat),
        decreases tries,
    {
        proof {
            lemma_state_step(seed, kk);
        }
        let d = rng.next_u64();
        let m = d % bound;
        assert(m <= d) by (nonlinear_arith)
            requires m == d % bound, bound >= 1;
        if tries == 0 || d - m <= u64::MAX - (bound - 1) {
            return m;
        }
        proof {
            kk = kk + 1;
        }
        tries = tries - 1;
    }
}

proof fn lemma_swapped_multiset(s: Seq<Record>, i: int, j: int)
    requires
        0 <= i < s.len(),
        0 <= j < s.len(),
    ensures
        swapped(s, i, j).to_multiset() == s.to_multiset(),
        swapped(s, i, j).len() == s.len(),
{
    let s1 = s.update(i, s[j]);
    to_multiset_update(s, i, s[j]);
    to_multiset_update(s1, j, s[i]);
    assert(s1[j] == s[j]);
    broadcast use vstd::seq_lib::group_to_multiset_ensures;
    assert(s.to_multiset().count(s[i]) > 0);
    assert(s.to_multiset().count(s[j]) > 0);
    let m = s.to_multiset();
    assert(m.insert(s[j]).remove(s[i]).insert(s[i]).remove(s[j]) =~= m);
}

proof fn lemma_same_multiset_valid(a: Seq<Record>, b: Seq<Record>, mode: crate::codec::Mode)
    requires
        a.to_multiset() == b.to_multiset(),
    ensures
        records_valid(a, mode) ==> records_valid(b, mode),
{
    broadcast use vstd::seq_lib::group_to_multiset_ensures;
    if records_valid(a, mode) {
        assert forall|i: int| 0 <= i < b.len() implies (#[trigger] b[i]).valid(mode) by {
            assert(b.to_multiset().count(b[i]) > 0);
            assert(a.contains(b[i]));
        }
    }
}

/// Reorders the records of `ps` by the permutation that `seed` selects; the header
/// and the multiset of records are unchanged.
pub fn randomize(ps: &mut PhaseSpace, seed: u64)
    ensures
        final(ps).header == old(ps).header,
        final(ps).records@ == shuffled(old(ps).records@, seed),
        final(ps).records@.to_multiset() == old(ps).records@.to_multiset(),
        final(ps).records@.len() == old(ps).records@.len(),
        old(ps).wf() ==> final(ps).wf(),
{
    let ghost s0 = ps.records@;
    let n = ps.records.len();
    if n <= 1 {
        return;
    }

    let mut rng = SplitMix::new(seed);
    let mut t: usize = 0;
    let ghost mut k: nat = 0;
    while t + 1 < n
        invariant
            n == s0.len(),
            n >= 2,
            t + 1 <= n,
            ps.header == old(ps).header,
            s0 == old(ps).records@,
            rng.state == state_after(seed, k),
            (ps.records@, k) == shuffle_steps(s0, seed, t as int),
            ps.records@.len() == n,
            ps.records@.to_multiset() == s0.to_multiset(),
        decreases n - t,
    {
        let i = n - 1 - t;
        let j = choose_below(&mut rng, (i + 1) as u64, Ghost(seed), Ghost(k)) as usize;
        proof {
            k = pick(seed, k, (i + 1) as u64, 63).1;
        }
        let a = ps.records[i];
        let b = ps.records[j];
        proof {
            lemma_swapped_multiset(ps.records@, i as int, j as int);
        }
        ps.records.set(i, b);
        ps.records.set(j, a);
        t = t + 1;
    }
    proof {
        lemma_same_multiset_valid(s0, ps.records@, ps.header.mode);
    }
}

} // verus!
