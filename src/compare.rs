use vstd::prelude::*;
use crate::codec::Record;
use crate::header::Header;
use crate::stream::PhaseSpace;

verus! {

/// A header field, in the order in which headers are compared.
#[derive(Clone, Copy, Debug, PartialEq, Eq, Structural)]
pub enum HeaderField {
    Mode,
    TotalParticles,
    TotalPhotons,
    MaxEnergy,
    MinEnergy,
    TotalParticlesInSource,
}

/// The outcome of comparing two files.
#[derive(Clone, Copy, Debug, PartialEq, Eq, Structural)]
pub enum Comparison {
    Equal,
    /// The first header field that differs.
    HeaderDiffers(HeaderField),
    /// The headers agree but the files hold different numbers of records.
    CountDiffers,
    /// The index of the first record that differs.
    RecordDiffers(usize),
}

/// The first field, in header order, on which `a` and `b` differ.
pub open spec fn header_difference(a: Header, b: Header) -> Option<HeaderField> {
    if a.mode != b.mode {
        Some(HeaderField::Mode)
    } else if a.total_particles != b.total_particles {
        Some(HeaderField::TotalParticles)
    } else if a.total_photons != b.total_photons {
        Some(HeaderField::TotalPhotons)
    } else if a.max_energy != b.max_energy {
        Some(HeaderField::MaxEnergy)
    } else if a.min_energy != b.min_energy {
        Some(HeaderField::MinEnergy)
    } else if a.total_particles_in_source != b.total_particles_in_source {
        Some(HeaderField::TotalParticlesInSource)
    } else {
        None
    }
}

/// The first index at or after `k` where `a` and `b` differ, or their length if none.
pub open spec fn first_mismatch(a: Seq<Record>, b: Seq<Record>, k: int) -> int
    decreases a.len() - k,
{
    if k >= a.len() || k < 0 {
        a.len() as int
    } else if a[k] != b[k] {
        k
    } else {
        first_mismatch(a, b, k + 1)
    }
}

/// What comparing header `ha` with records `ra` against `hb`, `rb` reports.
pub open spec fn comparison(ha: Header, ra: Seq<Record>, hb: Header, rb: Seq<Record>) -> Comparison {
    match header_difference(ha, hb) {
        Some(f) => Comparison::HeaderDiffers(f),
        None => if ra.len() != rb.len() {
            Comparison::CountDiffers
        } else if first_mismatch(ra, rb, 0) < ra.len() {
            Comparison::RecordDiffers(first_mismatch(ra, rb, 0) as usize)
        } else {
            Comparison::Equal
        },
    }
}

fn compare_headers(a: &Header, b: &Header) -> (r: Option<HeaderField>)
    ensures
        r == header_difference(*a, *b),
{
    if a.mode != b.mode {
        Some(HeaderField::Mode)
    } else if a.total_particles != b.total_particles {
        Some(HeaderField::TotalParticles)
    } else if a.total_photons != b.total_photons {
        Some(HeaderField::TotalPhotons)
    } else if a.max_energy != b.max_energy {
        Some(HeaderField::MaxEnergy)
    } else if a.min_energy != b.min_energy {
        Some(HeaderField::MinEnergy)
    } else if a.total_particles_in_source != b.total_particles_in_source {
        Some(HeaderField::TotalParticlesInSource)
    } else {
        None
    }
}

/// Compares two files: headers field by field, then record counts, then records by
/// position, by exact bit pattern; the first difference is reported.
pub fn compare(a: &PhaseSpace, b: &PhaseSpace) -> (r: Comparison)
    ensures
        r == comparison(a.header, a.records@, b.header, b.records@),
{
    match compare_headers(&a.header, &b.header) {
        Some(f) => return Comparison::HeaderDiffers(f),
        None => {},
    }
    let n = a.records.len();
    if n != b.records.len() {
        return Comparison::CountDiffers;
    }
    let mut k: usize = 0;
    while k < n
        invariant
            k <= n,
            header_difference(a.header, b.header) is None,
            n == a.records@.len(),
            n == b.records@.len(),
            first_mismatch(a.records@, b.records@, 0) == first_mismatch(a.records@, b.records@, k as int),
        decreases n - k,
    {
        if a.records[k] != b.records[k] {
            assert(a.records@[k as int] != b.records@[k as int]);
            assert(first_mismatch(a.records@, b.records@, k as int) == k);
            return Comparison::RecordDiffers(k);
        }
        k = k + 1;
    }
    Comparison::Equal
}

proof fn lemma_mismatch_self(a: Seq<Record>, k: int)
    requires
        0 <= k <= a.len(),
    ensures
        first_mismatch(a, a, k) == a.len(),
    decreases a.len() - k,
{
    if k < a.len() {
        lemma_mismatch_self(a, k + 1);
    }
}

proof fn lemma_mismatch_at(a: Seq<Record>, b: Seq<Record>, k: int, j: int)
    requires
        0 <= j <= k < a.len(),
        a[k] != b[k],
        forall|i: int| 0 <= i < k ==> a[i] == b[i],
    ensures
        first_mismatch(a, b, j) == k,
    decreases k - j,
{
    if j < k {
        lemma_mismatch_at(a, b, k, j + 1);
    }
}

/// A file compares equal to itself.
pub proof fn lemma_compare_self(a: PhaseSpace)
    ensures
        comparison(a.header, a.records@, a.header, a.records@) == Comparison::Equal,
{
    lemma_mismatch_self(a.records@, 0);
}

/// Two files that agree everywhere but in record `k` compare as differing at `k`.
pub proof fn lemma_compare_altered(a: PhaseSpace, b: PhaseSpace, k: int)
    requires
        a.header == b.header,
        a.records@.len() == b.records@.len(),
        0 <= k < a.records@.len(),
        a.records@[k] != b.records@[k],
        forall|i: int| 0 <= i < a.records@.len() && i != k ==> a.records@[i] == b.records@[i],
    ensures
        comparison(a.header, a.records@, b.header, b.records@) == Comparison::RecordDiffers(k as usize),
{
    lemma_mismatch_at(a.records@, b.records@, k, 0);
}

} // verus!
