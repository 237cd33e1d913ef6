use vstd::prelude::*;
use crate::codec::{Mode, PhspError, Record, record_len, record_size, record_bytes, record_at, read_record, write_record, lemma_record_round_trip};
use crate::bytes::u32_at;
use crate::header::{Header, header_bytes, header_result, decode_header, write_header, encode_header, lemma_header_round_trip};

verus! {

/// A phase space file held in memory: its header and its records in file order.
pub struct PhaseSpace {
    pub header: Header,
    pub records: Vec<Record>,
}

/// Every record of `rs` is valid under `mode`.
pub open spec fn records_valid(rs: Seq<Record>, mode: Mode) -> bool {
    forall|i: int| 0 <= i < rs.len() ==> (#[trigger] rs[i]).valid(mode)
}

/// A header and records that form a consistent file.
pub open spec fn consistent(h: Header, rs: Seq<Record>) -> bool {
    &&& h.valid()
    &&& rs.len() == h.total_particles
    &&& records_valid(rs, h.mode)
}

impl PhaseSpace {
    pub open spec fn wf(&self) -> bool {
        consistent(self.header, self.records@)
    }
}

/// The bytes of a sequence of records, one after another.
pub open spec fn records_bytes(rs: Seq<Record>, mode: Mode) -> Seq<u8>
    decreases rs.len(),
{
    if rs.len() == 0 {
        Seq::empty()
    } else {
        records_bytes(rs.drop_last(), mode) + record_bytes(rs.last(), mode)
    }
}

/// The bytes of a whole file.
pub open spec fn file_bytes(h: Header, rs: Seq<Record>) -> Seq<u8> {
    header_bytes(h) + records_bytes(rs, h.mode)
}

/// The first `n` records stored after the header in `b`.
pub open spec fn decoded_records(b: Seq<u8>, mode: Mode, n: nat) -> Seq<Record> {
    Seq::new(n, |k: int| record_at(b, record_len(mode) * (k + 1), mode))
}

/// What reading the file `b` yields: the header must decode and hold its invariants,
/// and the size of `b` must be that of the header and the records it counts.
pub open spec fn read_result(b: Seq<u8>) -> Result<(Header, Seq<Record>), PhspError> {
    match header_result(b) {
        Err(e) => Err(e),
        Ok(h) => if !h.valid() {
            Err(PhspError::Validation)
        } else if b.len() != record_len(h.mode) * (h.total_particles + 1) {
            Err(PhspError::Validation)
        } else {
            Ok((h, decoded_records(b, h.mode, h.total_particles as nat)))
        },
    }
}

/// The size in bytes of a file with header `h`: the header and the records it counts.
pub fn expected_file_size(h: &Header) -> (r: u64)
    ensures
        r == record_len(h.mode) * (h.total_particles + 1),
{
    (record_size(h.mode) as u64) * ((h.total_particles as u64) + 1)
}

/// Reads a whole file from its bytes.
pub fn read_phase_space(b: &Vec<u8>) -> (r: Result<PhaseSpace, PhspError>)
    ensures
        r is Ok ==> read_result(b@) == Ok::<(Header, Seq<Record>), PhspError>(
            (r->Ok_0.header, r->Ok_0.records@),
        ),
        r is Err ==> read_result(b@) == Err::<(Header, Seq<Record>), PhspError>(r->Err_0),
{
    let header = match decode_header(b) {
        Err(e) => return Err(e),
        Ok(h) => h,
    };
    if !header.is_valid() {
        return Err(PhspError::Validation);
    }
    let rl = record_size(header.mode);
    let n = header.total_particles;
    if (b.len() as u64) != expected_file_size(&header) {
        return Err(PhspError::Validation);
    }
    let mut records: Vec<Record> = Vec::new();
    let mut i: u32 = 0;
    let mut off: usize = rl;
    while i < n
        invariant
            i <= n,
            n == header.total_particles,
            rl == record_len(header.mode),
            b@.len() == rl * (n + 1),
            b@.len() <= usize::MAX,
            off == rl * (i + 1),
            records@ == decoded_records(b@, header.mode, i as nat),
        decreases n - i,
    {
        proof {
            assert(rl * (i + 2) <= rl * (n + 1)) by (nonlinear_arith)
                requires i < n, rl >= 0;
            assert(rl * (i + 2) == rl * (i + 1) + rl) by (nonlinear_arith);
        }
        let rec = read_record(b, off, header.mode);
        records.push(rec);
        proof {
            assert(records@ =~= decoded_records(b@, header.mode, (i + 1) as nat));
        }
        i = i + 1;
        off = off + rl;
    }
    Ok(PhaseSpace { header, records })
}

/// Writes a whole file to bytes.
pub fn write_phase_space(ps: &PhaseSpace) -> (b: Vec<u8>)
    ensures
        b@ == file_bytes(ps.header, ps.records@),
{
    let mut b: Vec<u8> = Vec::new();
    write_header(&mut b, &ps.header);
    let mut i: usize = 0;
    while i < ps.records.len()
        invariant
            i <= ps.records@.len(),
            b@ == header_bytes(ps.header) + records_bytes(ps.records@.subrange(0, i as int), ps.header.mode),
        decreases ps.records@.len() - i,
    {
        write_record(&mut b, &ps.records[i], ps.header.mode);
        proof {
            let s = ps.records@.subrange(0, i + 1);
            assert(s.drop_last() =~= ps.records@.subrange(0, i as int));
        }
        i = i + 1;
    }
    assert(ps.records@.subrange(0, i as int) =~= ps.records@);
    b
}


proof fn lemma_records_bytes(rs: Seq<Record>, mode: Mode, i: int)
    requires
        0 <= i < rs.len(),
    ensures
        records_bytes(rs, mode).len() == rs.len() * record_len(mode),
        records_bytes(rs, mode).subrange(i * record_len(mode), (i + 1) * record_len(mode)) == record_bytes(
            rs[i],
            mode,
        ),
    decreases rs.len(),
{
    let rl = record_len(mode) as int;
    let init = rs.drop_last();
    let a = records_bytes(init, mode);
    let b = record_bytes(rs.last(), mode);
    lemma_record_round_trip_len(rs.last(), mode);
    if rs.len() == 1 {
        assert(a.len() == 0);
        assert(a + b =~= b);
        assert((rs.len() as int) * rl == rl) by (nonlinear_arith)
            requires rs.len() == 1;
        assert(i == 0);
        assert((a + b).subrange(0, rl) =~= b);
    } else {
        if i < rs.len() - 1 {
            lemma_records_bytes(init, mode, i);
        } else {
            lemma_records_bytes(init, mode, 0);
        }
        assert(a.len() == (rs.len() - 1) * rl);
        assert((rs.len() as int) * rl == (rs.len() - 1) * rl + rl) by (nonlinear_arith);
        assert((i + 1) * rl == i * rl + rl) by (nonlinear_arith);
        if i < rs.len() - 1 {
            assert(i + 1 <= rs.len() - 1);
            assert((i + 1) * rl <= (rs.len() - 1) * rl) by (nonlinear_arith)
                requires i + 1 <= rs.len() - 1, rl >= 0;
            assert(0 <= i * rl) by (nonlinear_arith)
                requires i >= 0, rl >= 0;
            assert((a + b).subrange(i * rl, (i + 1) * rl) =~= a.subrange(i * rl, (i + 1) * rl));
            assert(init[i] == rs[i]);
        } else {
            assert(i * rl == (rs.len() - 1) * rl);
            assert((a + b).subrange(i * rl, (i + 1) * rl) =~= b);
        }
    }
}

proof fn lemma_record_round_trip_len(r: Record, mode: Mode)
    ensures
        record_bytes(r, mode).len() == record_len(mode),
{
}

proof fn lemma_record_at_window(b: Seq<u8>, off: int, mode: Mode)
    requires
        0 <= off,
        off + record_len(mode) <= b.len(),
    ensures
        record_at(b, off, mode) == record_at(b.subrange(off, off + record_len(mode)), 0, mode),
{
    let w = b.subrange(off, off + record_len(mode));
    assert forall|k: int| 0 <= k < record_len(mode) implies #[trigger] w[k] == b[off + k] by {}
    assert(u32_at(w, 0) == u32_at(b, off));
    assert(u32_at(w, 4) == u32_at(b, off + 4));
    assert(u32_at(w, 8) == u32_at(b, off + 8));
    assert(u32_at(w, 12) == u32_at(b, off + 12));
    assert(u32_at(w, 16) == u32_at(b, off + 16));
    assert(u32_at(w, 20) == u32_at(b, off + 20));
    assert(u32_at(w, 24) == u32_at(b, off + 24));
    if mode == Mode::Mode2 {
        assert(u32_at(w, 28) == u32_at(b, off + 28));
    }
}

#[verifier::rlimit(40)]
proof fn lemma_file_record(h: Header, rs: Seq<Record>, k: int)
    requires
        consistent(h, rs),
        0 <= k < rs.len(),
    ensures
        record_at(file_bytes(h, rs), record_len(h.mode) * (k + 1), h.mode) == rs[k],
{
    let mode = h.mode;
    let rl = record_len(mode) as int;
    let rb = records_bytes(rs, mode);
    let b = file_bytes(h, rs);
    lemma_header_round_trip(h, rb);
    lemma_records_bytes(rs, mode, k);
    assert(rl * (k + 1) == rl + k * rl) by (nonlinear_arith);
    assert((k + 1) * rl == k * rl + rl) by (nonlinear_arith);
    assert((k + 1) * rl <= rs.len() * rl) by (nonlinear_arith)
        requires k + 1 <= rs.len(), rl >= 0;
    assert(0 <= k * rl) by (nonlinear_arith)
        requires k >= 0, rl >= 0;
    lemma_record_at_window(b, rl * (k + 1), mode);
    assert(b.subrange(rl * (k + 1), rl * (k + 1) + rl) =~= rb.subrange(k * rl, (k + 1) * rl));
    assert(rs[k].valid(mode));
    lemma_record_round_trip(rs[k], mode);
}

/// Reading the bytes written for a consistent file gives back its header and records.
pub proof fn lemma_file_round_trip(h: Header, rs: Seq<Record>)
    requires
        consistent(h, rs),
    ensures
        read_result(file_bytes(h, rs)) == Ok::<(Header, Seq<Record>), PhspError>((h, rs)),
{
    let mode = h.mode;
    let rl = record_len(mode) as int;
    let rb = records_bytes(rs, mode);
    let b = file_bytes(h, rs);
    lemma_header_round_trip(h, rb);
    if rs.len() > 0 {
        lemma_records_bytes(rs, mode, 0);
    } else {
        assert(rb.len() == 0);
        assert((rs.len() as int) * rl == 0);
    }
    assert(b.len() == rl * (h.total_particles + 1)) by (nonlinear_arith)
        requires b.len() == rl + rs.len() * rl, rs.len() == h.total_particles;
    let d = decoded_records(b, mode, h.total_particles as nat);
    assert forall|k: int| 0 <= k < rs.len() implies #[trigger] d[k] == rs[k] by {
        lemma_file_record(h, rs, k);
    }
    assert(d =~= rs);
}


/// A forward-only position in the records of a file held as bytes.
pub struct RecordCursor {
    pub header: Header,
    pub index: u32,
}

impl RecordCursor {
    /// The cursor belongs to the file `b`: its header is the one that reading `b` yields.
    pub open spec fn reads(&self, b: Seq<u8>) -> bool {
        &&& read_result(b) is Ok
        &&& read_result(b)->Ok_0.0 == self.header
        &&& self.index <= self.header.total_particles
    }

    /// Reads and checks the header of `b` and stands before its first record.
    pub fn open(b: &Vec<u8>) -> (r: Result<RecordCursor, PhspError>)
        ensures
            r is Ok <==> read_result(b@) is Ok,
            r is Err ==> read_result(b@) == Err::<(Header, Seq<Record>), PhspError>(r->Err_0),
            r is Ok ==> r->Ok_0.reads(b@) && r->Ok_0.index == 0,
    {
        let header = match decode_header(b) {
            Err(e) => return Err(e),
            Ok(h) => h,
        };
        if !header.is_valid() {
            return Err(PhspError::Validation);
        }
        let rl = record_size(header.mode);
        if (b.len() as u64) != (rl as u64) * ((header.total_particles as u64) + 1) {
            return Err(PhspError::Validation);
        }
        Ok(RecordCursor { header, index: 0 })
    }

    /// The next record in file order, or `None` at the end.
    pub fn next(&mut self, b: &Vec<u8>) -> (r: Option<Record>)
        requires
            old(self).reads(b@),
        ensures
            final(self).reads(b@),
            final(self).header == old(self).header,
            old(self).index < old(self).header.total_particles ==> r == Some(
                read_result(b@)->Ok_0.1[old(self).index as int],
            ) && final(self).index == old(self).index + 1,
            old(self).index >= old(self).header.total_particles ==> r is None && final(self).index
                == old(self).index,
    {
        if self.index >= self.header.total_particles {
            return None;
        }
        let rl = record_size(self.header.mode);
        let ghost i = self.index as int;
        let ghost n = self.header.total_particles as int;
        proof {
            assert(rl * (i + 2) <= rl * (n + 1)) by (nonlinear_arith)
                requires i < n, rl >= 0;
            assert(rl * (i + 1) + rl == rl * (i + 2)) by (nonlinear_arith);
            assert(rl * (i + 1) <= rl * (n + 1)) by (nonlinear_arith)
                requires i < n, rl >= 0;
        }
        let len = b.len();
        assert(rl * (i + 1) + rl <= len);
        let off = rl * (self.index as usize + 1);
        let rec = read_record(b, off, self.header.mode);
        self.index = self.index + 1;
        Some(rec)
    }
}

/// Rewrites the header at the start of `b`, as when a file is finalized once its
/// aggregate counts are known; the records after it are kept.
pub fn rewrite_header(b: &mut Vec<u8>, h: &Header)
    requires
        old(b)@.len() >= record_len(h.mode),
    ensures
        final(b)@ == header_bytes(*h) + old(b)@.subrange(record_len(h.mode) as int, old(b)@.len() as int),
{
    let hb = encode_header(h);
    let n = hb.len();
    let mut i: usize = 0;
    while i < n
        invariant
            n == hb@.len(),
            n == record_len(h.mode),
            hb@ == header_bytes(*h),
            i <= n,
            b@.len() == old(b)@.len(),
            n <= old(b)@.len(),
            forall|k: int| 0 <= k < i ==> #[trigger] b@[k] == hb@[k],
            forall|k: int| n <= k < b@.len() ==> #[trigger] b@[k] == old(b)@[k],
        decreases n - i,
    {
        b.set(i, hb[i]);
        i = i + 1;
    }
    assert(b@ =~= header_bytes(*h) + old(b)@.subrange(record_len(h.mode) as int, old(b)@.len() as int));
}

} // verus!
