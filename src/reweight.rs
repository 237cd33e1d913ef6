use vstd::prelude::*;
use crate::codec::{PhspError, Record};
use crate::stream::PhaseSpace;

verus! {

/// The bin of a raw index: indices past the last bin fall into the last bin.
pub open spec fn clamp_bin(raw: usize, bin_count: usize) -> usize {
    if raw >= bin_count { (bin_count - 1) as usize } else { raw }
}

/// How many of the first `n` raw indices of `bins` land in bin `b`.
pub open spec fn bin_count_upto(bins: Seq<usize>, bin_count: usize, b: int, n: int) -> nat
    decreases n,
{
    if n <= 0 {
        0
    } else {
        bin_count_upto(bins, bin_count, b, n - 1) + if clamp_bin(bins[n - 1], bin_count) == b {
            1nat
        } else {
            0nat
        }
    }
}

/// The bin that the raw index `raw` falls in.
pub fn bin_index(raw: usize, bin_count: usize) -> (r: usize)
    requires
        bin_count >= 1,
    ensures
        r == clamp_bin(raw, bin_count),
        r < bin_count,
{
    if raw >= bin_count {
        bin_count - 1
    } else {
        raw
    }
}

proof fn lemma_bin_count_bound(bins: Seq<usize>, bin_count: usize, b: int, n: int)
    requires
        0 <= n,
    ensures
        bin_count_upto(bins, bin_count, b, n) <= n,
    decreases n,
{
    if n > 0 {
        lemma_bin_count_bound(bins, bin_count, b, n - 1);
    }
}

/// Counts one record whose raw bin index is `raw`.
pub fn add_to_histogram(counts: &mut Vec<u64>, raw: usize)
    requires
        old(counts)@.len() >= 1,
        old(counts)@[clamp_bin(raw, old(counts)@.len() as usize) as int] < u64::MAX,
    ensures
        final(counts)@ == old(counts)@.update(
            clamp_bin(raw, old(counts)@.len() as usize) as int,
            (old(counts)@[clamp_bin(raw, old(counts)@.len() as usize) as int] + 1) as u64,
        ),
{
    let c = bin_index(raw, counts.len());
    let v = counts[c];
    counts.set(c, v + 1);
}

/// First pass of reweighting: the number of records in each of `bin_count` bins,
/// given the raw bin index of each record. Fails on zero bins.
pub fn radial_histogram(bins: &Vec<usize>, bin_count: usize) -> (r: Result<Vec<u64>, PhspError>)
    ensures
        bin_count == 0 <==> r == Err::<Vec<u64>, PhspError>(PhspError::Validation),
        r is Ok ==> r->Ok_0@.len() == bin_count && forall|b: int|
            0 <= b < bin_count ==> #[trigger] r->Ok_0@[b] == bin_count_upto(bins@, bin_count, b, bins@.len() as int),
{
    if bin_count == 0 {
        return Err(PhspError::Validation);
    }
    let mut counts: Vec<u64> = Vec::new();
    let mut b: usize = 0;
    while b < bin_count
        invariant
            b <= bin_count,
            counts@.len() == b,
            forall|k: int| 0 <= k < b ==> #[trigger] counts@[k] == 0,
        decreases bin_count - b,
    {
        counts.push(0u64);
        b = b + 1;
    }
    let mut i: usize = 0;
    while i < bins.len()
        invariant
            i <= bins@.len(),
            bin_count >= 1,
            counts@.len() == bin_count,
            forall|k: int| 0 <= k < bin_count ==> #[trigger] counts@[k] == bin_count_upto(bins@, bin_count, k, i as int),
        decreases bins@.len() - i,
    {
        proof {
            lemma_bin_count_bound(bins@, bin_count, clamp_bin(bins@[i as int], bin_count) as int, i as int);
        }
        add_to_histogram(&mut counts, bins[i]);
        i = i + 1;
    }
    Ok(counts)
}

/// `rs` with the weight magnitude of record `i` replaced by `ws[i]`.
pub open spec fn reweighted(rs: Seq<Record>, ws: Seq<u32>) -> Seq<Record> {
    Seq::new(rs.len(), |i: int| Record { weight: ws[i], ..rs[i] })
}

/// `rec` with weight magnitude `w`; fails when `w` carries a sign.
pub fn with_weight(rec: &Record, w: u32) -> (r: Result<Record, PhspError>)
    ensures
        w & 0x8000_0000u32 != 0 ==> r == Err::<Record, PhspError>(PhspError::Validation),
        w & 0x8000_0000u32 == 0 ==> r == Ok::<Record, PhspError>(Record { weight: w, ..*rec }),
{
    if w & 0x8000_0000u32 != 0 {
        Err(PhspError::Validation)
    } else {
        Ok(Record { weight: w, ..*rec })
    }
}

/// Second pass of reweighting: gives each record its new weight magnitude and keeps
/// everything else, the header included. Fails when the weights do not match the
/// records one for one or one of them carries a sign.
pub fn reweight(ps: &PhaseSpace, weights: &Vec<u32>) -> (r: Result<PhaseSpace, PhspError>)
    ensures
        r is Err <==> (weights@.len() != ps.records@.len() || exists|i: int|
            0 <= i < weights@.len() && #[trigger] weights@[i] & 0x8000_0000u32 != 0),
        r is Err ==> r->Err_0 == PhspError::Validation,
        r is Ok ==> r->Ok_0.header == ps.header && r->Ok_0.records@ == reweighted(ps.records@, weights@),
        r is Ok && ps.wf() ==> r->Ok_0.wf(),
{
    let n = ps.records.len();
    if weights.len() != n {
        return Err(PhspError::Validation);
    }
    let mut records: Vec<Record> = Vec::new();
    let mut i: usize = 0;
    while i < n
        invariant
            i <= n,
            n == ps.records@.len(),
            n == weights@.len(),
            records@ == reweighted(ps.records@.subrange(0, i as int), weights@.subrange(0, i as int)),
            forall|k: int| 0 <= k < i ==> #[trigger] weights@[k] & 0x8000_0000u32 == 0,
        decreases n - i,
    {
        let rec = match with_weight(&ps.records[i], weights[i]) {
            Err(e) => return Err(e),
            Ok(r) => r,
        };
        records.push(rec);
        proof {
            assert(records@ =~= reweighted(ps.records@.subrange(0, i + 1), weights@.subrange(0, i + 1)));
        }
        i = i + 1;
    }
    proof {
        assert(ps.records@.subrange(0, n as int) =~= ps.records@);
        assert(weights@.subrange(0, n as int) =~= weights@);
        if ps.wf() {
            assert forall|k: int| 0 <= k < records@.len() implies (#[trigger] records@[k]).valid(ps.header.mode) by {
                assert(ps.records@[k].valid(ps.header.mode));
            }
        }
    }
    Ok(PhaseSpace { header: ps.header, records })
}

} // verus!
