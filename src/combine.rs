use vstd::prelude::*;
use crate::codec::{PhspError, Record};
use crate::header::{Header, energy_key, order_key, MAX_COUNT};
use crate::stream::{PhaseSpace, records_valid};

verus! {

/// The headers of a sequence of files.
pub open spec fn headers_of(ps: Seq<PhaseSpace>) -> Seq<Header> {
    Seq::new(ps.len(), |i: int| ps[i].header)
}

/// The records of the first `n` files, one file after another.
pub open spec fn records_upto(ps: Seq<PhaseSpace>, n: int) -> Seq<Record>
    decreases n,
{
    if n <= 0 {
        Seq::empty()
    } else {
        records_upto(ps, n - 1) + ps[n - 1].records@
    }
}

/// The records of all files, in argument order.
pub open spec fn all_records(ps: Seq<PhaseSpace>) -> Seq<Record> {
    records_upto(ps, ps.len() as int)
}

/// Sum of the particle counts of the first `n` headers.
pub open spec fn particles_upto(hs: Seq<Header>, n: int) -> nat
    decreases n,
{
    if n <= 0 {
        0
    } else {
        particles_upto(hs, n - 1) + hs[n - 1].total_particles as nat
    }
}

/// Sum of the photon counts of the first `n` headers.
pub open spec fn photons_upto(hs: Seq<Header>, n: int) -> nat
    decreases n,
{
    if n <= 0 {
        0
    } else {
        photons_upto(hs, n - 1) + hs[n - 1].total_photons as nat
    }
}

/// The larger energy of two, in the total order of `energy_key`; the first on a tie.
pub open spec fn higher(a: u32, b: u32) -> u32 {
    if energy_key(b) > energy_key(a) { b } else { a }
}

/// The smaller energy of two, in the total order of `energy_key`; the first on a tie.
pub open spec fn lower(a: u32, b: u32) -> u32 {
    if energy_key(b) < energy_key(a) { b } else { a }
}

/// The highest maximum energy among the first `n` headers (`n >= 1`).
pub open spec fn max_energy_upto(hs: Seq<Header>, n: int) -> u32
    decreases n,
{
    if n <= 1 {
        hs[0].max_energy
    } else {
        higher(max_energy_upto(hs, n - 1), hs[n - 1].max_energy)
    }
}

/// The lowest minimum energy among the first `n` headers (`n >= 1`).
pub open spec fn min_energy_upto(hs: Seq<Header>, n: int) -> u32
    decreases n,
{
    if n <= 1 {
        hs[0].min_energy
    } else {
        lower(min_energy_upto(hs, n - 1), hs[n - 1].min_energy)
    }
}

pub open spec fn same_mode(hs: Seq<Header>) -> bool {
    forall|i: int| 0 <= i < hs.len() ==> (#[trigger] hs[i]).mode == hs[0].mode
}

/// The header of the concatenation of files with headers `hs`. The accumulated
/// source count is a sum of single-precision values, taken as given.
pub open spec fn combined_header(hs: Seq<Header>, source_total: u32) -> Result<Header, PhspError> {
    if hs.len() == 0 {
        Err(PhspError::Validation)
    } else if !same_mode(hs) {
        Err(PhspError::IncompatibleFormat)
    } else if particles_upto(hs, hs.len() as int) > 0x7fff_ffff || photons_upto(hs, hs.len() as int)
        > particles_upto(hs, hs.len() as int) {
        Err(PhspError::Validation)
    } else {
        Ok(
            Header {
                mode: hs[0].mode,
                total_particles: particles_upto(hs, hs.len() as int) as u32,
                total_photons: photons_upto(hs, hs.len() as int) as u32,
                max_energy: max_energy_upto(hs, hs.len() as int),
                min_energy: min_energy_upto(hs, hs.len() as int),
                total_particles_in_source: source_total,
            },
        )
    }
}

proof fn lemma_particles_monotone(hs: Seq<Header>, i: int, n: int)
    requires
        0 <= i <= n,
    ensures
        particles_upto(hs, i) <= particles_upto(hs, n),
        photons_upto(hs, i) <= photons_upto(hs, n),
    decreases n - i,
{
    if i < n {
        lemma_particles_monotone(hs, i, n - 1);
    }
}

proof fn lemma_photons_below(hs: Seq<Header>, n: int)
    requires
        0 <= n <= hs.len(),
        forall|i: int| 0 <= i < hs.len() ==> (#[trigger] hs[i]).valid(),
    ensures
        photons_upto(hs, n) <= particles_upto(hs, n),
    decreases n,
{
    if n > 0 {
        lemma_photons_below(hs, n - 1);
        assert(hs[n - 1].valid());
    }
}

proof fn lemma_energy_bounds(hs: Seq<Header>, n: int)
    requires
        1 <= n <= hs.len(),
        forall|i: int| 0 <= i < hs.len() ==> (#[trigger] hs[i]).valid(),
    ensures
        energy_key(min_energy_upto(hs, n)) <= energy_key(max_energy_upto(hs, n)),
    decreases n,
{
    assert(hs[n - 1].valid());
    if n > 1 {
        lemma_energy_bounds(hs, n - 1);
    }
}

/// Computes the header of the concatenation of files with headers `headers`, from
/// the headers alone.
pub fn combine_headers(headers: &Vec<Header>, source_total: u32) -> (r: Result<Header, PhspError>)
    ensures
        r == combined_header(headers@, source_total),
{
    let ghost hs = headers@;
    let n = headers.len();
    if n == 0 {
        return Err(PhspError::Validation);
    }
    let mode = headers[0].mode;
    let mut i: usize = 1;
    while i < n
        invariant
            1 <= i <= n,
            n == headers@.len(),
            hs == headers@,
            mode == hs[0].mode,
            forall|k: int| 0 <= k < i ==> (#[trigger] hs[k]).mode == mode,
        decreases n - i,
    {
        if headers[i].mode != mode {
            assert(hs[i as int].mode != hs[0].mode);
            return Err(PhspError::IncompatibleFormat);
        }
        i = i + 1;
    }
    let mut particles: u64 = 0;
    let mut photons: u64 = 0;
    let mut max_energy: u32 = headers[0].max_energy;
    let mut min_energy: u32 = headers[0].min_energy;
    let mut i: usize = 0;
    while i < n
        invariant
            i <= n,
            n == headers@.len(),
            n >= 1,
            hs == headers@,
            same_mode(hs),
            particles == particles_upto(hs, i as int),
            particles <= 0x7fff_ffff,
            photons == photons_upto(hs, i as int),
            photons <= 0x7fff_ffff,
            i >= 1 ==> max_energy == max_energy_upto(hs, i as int),
            i >= 1 ==> min_energy == min_energy_upto(hs, i as int),
            i == 0 ==> max_energy == hs[0].max_energy && min_energy == hs[0].min_energy,
        decreases n - i,
    {
        let h = &headers[i];
        particles = particles + h.total_particles as u64;
        if particles > MAX_COUNT as u64 {
            proof {
                lemma_particles_monotone(hs, i + 1, n as int);
            }
            return Err(PhspError::Validation);
        }
        photons = photons + h.total_photons as u64;
        if photons > MAX_COUNT as u64 {
            proof {
                lemma_particles_monotone(hs, i + 1, n as int);
            }
            return Err(PhspError::Validation);
        }
        if i > 0 {
            if order_key(h.max_energy) > order_key(max_energy) {
                max_energy = h.max_energy;
            }
            if order_key(h.min_energy) < order_key(min_energy) {
                min_energy = h.min_energy;
            }
        }
        i = i + 1;
    }
    if photons > particles {
        return Err(PhspError::Validation);
    }
    Ok(
        Header {
            mode,
            total_particles: particles as u32,
            total_photons: photons as u32,
            max_energy,
            min_energy,
            total_particles_in_source: source_total,
        },
    )
}


/// The headers of `inputs`, in order.
pub fn header_list(inputs: &Vec<PhaseSpace>) -> (r: Vec<Header>)
    ensures
        r@ == headers_of(inputs@),
{
    let mut r: Vec<Header> = Vec::new();
    let mut i: usize = 0;
    while i < inputs.len()
        invariant
            i <= inputs@.len(),
            r@ == headers_of(inputs@).subrange(0, i as int),
        decreases inputs@.len() - i,
    {
        r.push(inputs[i].header);
        assert(r@ =~= headers_of(inputs@).subrange(0, i + 1));
        i = i + 1;
    }
    assert(r@ =~= headers_of(inputs@));
    r
}

proof fn lemma_records_upto(ps: Seq<PhaseSpace>, n: int)
    requires
        0 <= n <= ps.len(),
        forall|i: int| 0 <= i < ps.len() ==> (#[trigger] ps[i]).wf(),
        same_mode(headers_of(ps)),
        ps.len() >= 1,
    ensures
        records_upto(ps, n).len() == particles_upto(headers_of(ps), n),
        records_valid(records_upto(ps, n), ps[0].header.mode),
    decreases n,
{
    if n > 0 {
        lemma_records_upto(ps, n - 1);
        let hs = headers_of(ps);
        assert(ps[n - 1].wf());
        assert(hs[n - 1].mode == hs[0].mode);
        let a = records_upto(ps, n - 1);
        let b = ps[n - 1].records@;
        assert forall|i: int| 0 <= i < (a + b).len() implies (#[trigger] (a + b)[i]).valid(ps[0].header.mode) by {
            if i >= a.len() {
                assert((a + b)[i] == b[i - a.len()]);
            }
        }
    }
}

proof fn lemma_prefix_agree(p: Seq<PhaseSpace>, q: Seq<PhaseSpace>, n: int)
    requires
        0 <= n <= p.len(),
        n <= q.len(),
        forall|i: int| 0 <= i < n ==> p[i] == q[i],
    ensures
        records_upto(p, n) == records_upto(q, n),
        particles_upto(headers_of(p), n) == particles_upto(headers_of(q), n),
        photons_upto(headers_of(p), n) == photons_upto(headers_of(q), n),
        n >= 1 ==> max_energy_upto(headers_of(p), n) == max_energy_upto(headers_of(q), n),
        n >= 1 ==> min_energy_upto(headers_of(p), n) == min_energy_upto(headers_of(q), n),
    decreases n,
{
    if n > 0 {
        lemma_prefix_agree(p, q, n - 1);
        assert(p[n - 1] == q[n - 1]);
        assert(headers_of(p)[n - 1] == headers_of(q)[n - 1]);
        assert(headers_of(p)[0] == headers_of(q)[0]);
    }
}

/// Concatenates `inputs`, in argument order, into one file whose header aggregates
/// theirs. `source_total` is the accumulated source count of the result.
pub fn combine(inputs: &Vec<PhaseSpace>, source_total: u32) -> (r: Result<PhaseSpace, PhspError>)
    ensures
        r is Ok ==> combined_header(headers_of(inputs@), source_total) == Ok::<Header, PhspError>(r->Ok_0.header)
            && r->Ok_0.records@ == all_records(inputs@),
        r is Err ==> combined_header(headers_of(inputs@), source_total) == Err::<Header, PhspError>(r->Err_0),
        r is Ok && (forall|i: int| 0 <= i < inputs@.len() ==> (#[trigger] inputs@[i]).wf()) ==> r->Ok_0.wf(),
{
    let header = match combine_headers(&header_list(inputs), source_total) {
        Err(e) => return Err(e),
        Ok(h) => h,
    };
    let mut records: Vec<Record> = Vec::new();
    let mut i: usize = 0;
    while i < inputs.len()
        invariant
            i <= inputs@.len(),
            records@ == records_upto(inputs@, i as int),
        decreases inputs@.len() - i,
    {
        let src = &inputs[i].records;
        let mut j: usize = 0;
        while j < src.len()
            invariant
                i < inputs@.len(),
                src == inputs@[i as int].records,
                j <= src@.len(),
                records@ == records_upto(inputs@, i as int) + src@.subrange(0, j as int),
            decreases src@.len() - j,
        {
            records.push(src[j]);
            proof {
                assert(records@ =~= records_upto(inputs@, i as int) + src@.subrange(0, j + 1));
            }
            j = j + 1;
        }
        assert(src@.subrange(0, j as int) =~= src@);
        i = i + 1;
    }
    proof {
        if forall|i: int| 0 <= i < inputs@.len() ==> (#[trigger] inputs@[i]).wf() {
            let hs = headers_of(inputs@);
            assert forall|i: int| 0 <= i < hs.len() implies (#[trigger] hs[i]).valid() by {
                assert(inputs@[i].wf());
            }
            lemma_energy_bounds(hs, hs.len() as int);
            lemma_records_upto(inputs@, inputs@.len() as int);
        }
    }
    Ok(PhaseSpace { header, records })
}

/// Combining two files sums their particle counts and yields the records of the
/// first followed by those of the second; it succeeds exactly when both share a
/// mode and the summed counts still form a valid header.
pub proof fn lemma_combine_pair(a: PhaseSpace, b: PhaseSpace, source_total: u32)
    ensures
        all_records(seq![a, b]) == a.records@ + b.records@,
        (combined_header(headers_of(seq![a, b]), source_total) is Ok) <==> (a.header.mode == b.header.mode
            && a.header.total_particles + b.header.total_particles <= 0x7fff_ffff
            && a.header.total_photons + b.header.total_photons <= a.header.total_particles + b.header.total_particles),
        combined_header(headers_of(seq![a, b]), source_total) is Ok ==> combined_header(
            headers_of(seq![a, b]),
            source_total,
        )->Ok_0.total_particles == a.header.total_particles + b.header.total_particles,
{
    let ps = seq![a, b];
    let hs = headers_of(ps);
    assert(hs[0] == a.header && hs[1] == b.header);
    assert(records_upto(ps, 0) =~= Seq::<Record>::empty());
    assert(ps[0] == a && ps[1] == b);
    assert(records_upto(ps, 1) =~= a.records@);
    assert(particles_upto(hs, 0) == 0 && photons_upto(hs, 0) == 0);
    assert(particles_upto(hs, 1) == a.header.total_particles);
    assert(photons_upto(hs, 1) == a.header.total_photons);
    assert(particles_upto(hs, 2) == a.header.total_particles + b.header.total_particles);
    assert(photons_upto(hs, 2) == a.header.total_photons + b.header.total_photons);
    if a.header.mode == b.header.mode {
        assert(same_mode(hs));
    }
}

/// Combining three files at once gives the same file as combining the first two and
/// then combining that result with the third.
pub proof fn lemma_combine_associative(
    a: PhaseSpace,
    b: PhaseSpace,
    c: PhaseSpace,
    ab: PhaseSpace,
    inner_total: u32,
    source_total: u32,
)
    requires
        combined_header(headers_of(seq![a, b]), inner_total) == Ok::<Header, PhspError>(ab.header),
        ab.records@ == all_records(seq![a, b]),
    ensures
        all_records(seq![a, b, c]) == all_records(seq![ab, c]),
        combined_header(headers_of(seq![a, b, c]), source_total) == combined_header(
            headers_of(seq![ab, c]),
            source_total,
        ),
{
    let p3 = seq![a, b, c];
    let p2 = seq![ab, c];
    let h3 = headers_of(p3);
    let h2 = headers_of(p2);
    let hab = headers_of(seq![a, b]);
    assert(h3[0] == a.header && h3[1] == b.header && h3[2] == c.header);
    assert(h2[0] == ab.header && h2[1] == c.header);
    assert(hab[0] == a.header && hab[1] == b.header);
    assert(same_mode(hab));
    assert(hab[1].mode == hab[0].mode);
    assert(p3[0] == a && p3[1] == b && p3[2] == c);
    assert(p2[0] == ab && p2[1] == c);
    lemma_prefix_agree(p3, seq![a, b], 2);
    assert(records_upto(p2, 0) =~= Seq::<Record>::empty());
    assert(records_upto(p2, 1) =~= ab.records@);
    assert(all_records(p3) =~= all_records(p2));
    assert(particles_upto(h2, 0) == 0 && photons_upto(h2, 0) == 0);
    assert(particles_upto(h2, 1) == ab.header.total_particles);
    assert(photons_upto(h2, 1) == ab.header.total_photons);
    assert(max_energy_upto(h2, 1) == ab.header.max_energy);
    assert(min_energy_upto(h2, 1) == ab.header.min_energy);
    assert(particles_upto(h3, 3) == particles_upto(h2, 2));
    assert(photons_upto(h3, 3) == photons_upto(h2, 2));
    assert(max_energy_upto(h3, 3) == max_energy_upto(h2, 2));
    assert(min_energy_upto(h3, 3) == min_energy_upto(h2, 2));
    if same_mode(h3) {
        assert(same_mode(h2));
    } else {
        assert(h3[2].mode != h3[0].mode);
        assert(h2[1].mode != h2[0].mode);
    }
}

} // verus!
