use vstd::prelude::*;
use crate::codec::{PhspError, Record};
use crate::header::Header;
use crate::codec::Mode;
use crate::stream::{PhaseSpace, records_valid};
use crate::combine::{all_records, combined_header, headers_of, combine};
use crate::rng::{SplitMix, GAMMA, mix, draw, state_after, lemma_state_step};

verus! {

/// The record drawn with `d` is kept when the upper half of `d` is below `keep`:
/// the keep probability is `keep / 2^32`, and any `keep >= 2^32` keeps every record.
pub open spec fn keeps(d: u64, keep: u64) -> bool {
    ((d >> 32u64) as u64) < keep
}

/// The records among the first `n` of `rs` whose trial succeeds, in order; trial `k`
/// uses the `k`-th draw of the generator seeded with `seed`.
pub open spec fn sampled_upto(rs: Seq<Record>, seed: u64, keep: u64, n: int) -> Seq<Record>
    decreases n,
{
    if n <= 0 {
        Seq::empty()
    } else if keeps(draw(seed, (n - 1) as nat), keep) {
        sampled_upto(rs, seed, keep, n - 1).push(rs[n - 1])
    } else {
        sampled_upto(rs, seed, keep, n - 1)
    }
}

pub open spec fn sampled(rs: Seq<Record>, seed: u64, keep: u64) -> Seq<Record> {
    sampled_upto(rs, seed, keep, rs.len() as int)
}

/// The number of photons (uncharged records) among the first `n` of `rs`.
pub open spec fn photons_upto(rs: Seq<Record>, n: int) -> nat
    decreases n,
{
    if n <= 0 {
        0
    } else {
        photons_upto(rs, n - 1) + if rs[n - 1].charged { 0nat } else { 1nat }
    }
}

pub open spec fn photon_count(rs: Seq<Record>) -> nat {
    photons_upto(rs, rs.len() as int)
}

/// The header of a sample: that of the combined inputs, with the counts of the
/// records kept.
pub open spec fn sample_header(h: Header, kept: Seq<Record>) -> Header {
    Header { total_particles: kept.len() as u32, total_photons: photon_count(kept) as u32, ..h }
}

proof fn lemma_sampled_len(rs: Seq<Record>, seed: u64, keep: u64, n: int)
    requires
        0 <= n,
    ensures
        sampled_upto(rs, seed, keep, n).len() <= n,
        photons_upto(sampled_upto(rs, seed, keep, n), sampled_upto(rs, seed, keep, n).len() as int)
            <= sampled_upto(rs, seed, keep, n).len(),
    decreases n,
{
    if n > 0 {
        lemma_sampled_len(rs, seed, keep, n - 1);
        lemma_photons_below(sampled_upto(rs, seed, keep, n), sampled_upto(rs, seed, keep, n).len() as int);
    }
}

proof fn lemma_photons_below(rs: Seq<Record>, n: int)
    requires
        0 <= n,
    ensures
        photons_upto(rs, n) <= n,
    decreases n,
{
    if n > 0 {
        lemma_photons_below(rs, n - 1);
    }
}

proof fn lemma_photons_push(rs: Seq<Record>, r: Record)
    ensures
        photon_count(rs.push(r)) == photon_count(rs) + if r.charged { 0nat } else { 1nat },
{
    lemma_photons_prefix(rs, r, rs.len() as int);
}

proof fn lemma_photons_prefix(rs: Seq<Record>, r: Record, n: int)
    requires
        0 <= n <= rs.len(),
    ensures
        photons_upto(rs.push(r), n) == photons_upto(rs, n),
    decreases n,
{
    if n > 0 {
        lemma_photons_prefix(rs, r, n - 1);
        assert(rs.push(r)[n - 1] == rs[n - 1]);
    }
}

/// One Bernoulli trial: advances the generator once and says whether the record it
/// stands for is kept.
pub fn keep_next(rng: &mut SplitMix, keep: u64) -> (r: bool)
    ensures
        final(rng).state == ((old(rng).state + GAMMA) % 0x1_0000_0000_0000_0000) as u64,
        r == keeps(mix(final(rng).state), keep),
{
    let d = rng.next_u64();
    (d >> 32u64) < keep
}

/// The header of a sample of files whose combined header is `combined`, when `kept`
/// records were kept, `photons` of them uncharged.
pub fn sample_header_of(combined: &Header, kept: u32, photons: u32) -> (r: Header)
    ensures
        r == (Header { total_particles: kept, total_photons: photons, ..*combined }),
{
    Header { total_particles: kept, total_photons: photons, ..*combined }
}

proof fn lemma_sampled_valid(rs: Seq<Record>, seed: u64, keep: u64, mode: Mode, n: int)
    requires
        0 <= n <= rs.len(),
        records_valid(rs, mode),
    ensures
        records_valid(sampled_upto(rs, seed, keep, n), mode),
    decreases n,
{
    if n > 0 {
        lemma_sampled_valid(rs, seed, keep, mode, n - 1);
        let p = sampled_upto(rs, seed, keep, n - 1);
        assert(rs[n - 1].valid(mode));
        assert forall|i: int| 0 <= i < p.len() + 1 implies (#[trigger] p.push(rs[n - 1])[i]).valid(mode) by {
            if i < p.len() {
                assert(p.push(rs[n - 1])[i] == p[i]);
            }
        }
    }
}

/// Thins the concatenation of `inputs`: record `k` of it is kept exactly when the
/// `k`-th draw of the generator seeded with `seed` passes `keeps`. The header is
/// that of `combine`, with the counts of what was kept.
pub fn sample_combine(inputs: &Vec<PhaseSpace>, keep: u64, seed: u64, source_total: u32) -> (r: Result<
    PhaseSpace,
    PhspError,
>)
    ensures
        r is Err ==> combined_header(headers_of(inputs@), source_total) == Err::<Header, PhspError>(r->Err_0),
        r is Ok ==> (combined_header(headers_of(inputs@), source_total) is Ok)
            && r->Ok_0.records@ == sampled(all_records(inputs@), seed, keep)
            && r->Ok_0.header == sample_header(
            combined_header(headers_of(inputs@), source_total)->Ok_0,
            r->Ok_0.records@,
        ),
        r is Ok && (forall|i: int| 0 <= i < inputs@.len() ==> (#[trigger] inputs@[i]).wf()) ==> r->Ok_0.wf(),
{
    let all = match combine(inputs, source_total) {
        Err(e) => return Err(e),
        Ok(p) => p,
    };
    let ghost rs = all.records@;
    let mut rng = SplitMix::new(seed);
    let mut kept: Vec<Record> = Vec::new();
    let mut photons: usize = 0;
    let mut i: usize = 0;
    while i < all.records.len()
        invariant
            i <= rs.len(),
            rs == all.records@,
            rng.state == state_after(seed, i as nat),
            kept@ == sampled_upto(rs, seed, keep, i as int),
            photons == photon_count(kept@),
            kept@.len() <= i,
        decreases rs.len() - i,
    {
        proof {
            lemma_state_step(seed, i as nat);
            lemma_sampled_len(rs, seed, keep, i as int);
            lemma_photons_push(kept@, rs[i as int]);
        }
        if keep_next(&mut rng, keep) {
            let rec = all.records[i];
            if !rec.charged {
                photons = photons + 1;
            }
            kept.push(rec);
        }
        i = i + 1;
    }
    proof {
        lemma_sampled_len(rs, seed, keep, i as int);
        if forall|i: int| 0 <= i < inputs@.len() ==> (#[trigger] inputs@[i]).wf() {
            assert(all.wf());
            lemma_sampled_valid(rs, seed, keep, all.header.mode, i as int);
            lemma_photons_below(kept@, kept@.len() as int);
        }
    }
    let header = sample_header_of(&all.header, kept.len() as u32, photons as u32);
    Ok(PhaseSpace { header, records: kept })
}


/// A keep value of `2^32` or more keeps every record; zero keeps none.
pub proof fn lemma_sample_extremes(rs: Seq<Record>, seed: u64, keep: u64, n: int)
    requires
        0 <= n <= rs.len(),
    ensures
        keep >= 0x1_0000_0000 ==> sampled_upto(rs, seed, keep, n) == rs.subrange(0, n),
        keep == 0 ==> sampled_upto(rs, seed, keep, n).len() == 0,
    decreases n,
{
    if n > 0 {
        lemma_sample_extremes(rs, seed, keep, n - 1);
        let d = draw(seed, (n - 1) as nat);
        assert((d >> 32u64) < 0x1_0000_0000u64) by (bit_vector);
        if keep >= 0x1_0000_0000 {
            assert(sampled_upto(rs, seed, keep, n) =~= rs.subrange(0, n));
        }
    } else {
        assert(rs.subrange(0, 0) =~= Seq::<Record>::empty());
    }
}

/// Sampling one consistent file whose photon count matches its records with a keep
/// value of `2^32` or more, and its own source count, reproduces the file exactly,
/// for every seed; sampling with a keep value of zero yields no records.
pub proof fn lemma_sample_identity(a: PhaseSpace, seed: u64, keep: u64)
    requires
        a.wf(),
        photon_count(a.records@) == a.header.total_photons,
        keep >= 0x1_0000_0000,
    ensures
        combined_header(headers_of(seq![a]), a.header.total_particles_in_source) is Ok,
        sampled(all_records(seq![a]), seed, keep) == a.records@,
        sampled(all_records(seq![a]), seed, 0).len() == 0,
        sample_header(
            combined_header(headers_of(seq![a]), a.header.total_particles_in_source)->Ok_0,
            sampled(all_records(seq![a]), seed, keep),
        ) == a.header,
{
    let ps = seq![a];
    let hs = headers_of(ps);
    assert(hs[0] == a.header);
    assert(crate::combine::same_mode(hs));
    assert(crate::combine::particles_upto(hs, 0) == 0);
    assert(crate::combine::photons_upto(hs, 0) == 0);
    assert(crate::combine::records_upto(ps, 0) =~= Seq::<Record>::empty());
    assert(all_records(ps) =~= a.records@);
    lemma_sample_extremes(a.records@, seed, keep, a.records@.len() as int);
    lemma_sample_extremes(a.records@, seed, 0, a.records@.len() as int);
    assert(a.records@.subrange(0, a.records@.len() as int) =~= a.records@);
}

} // verus!
