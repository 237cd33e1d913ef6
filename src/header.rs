use vstd::prelude::*;
use crate::bytes::{le_bytes, u32_at, read_u32, push_u32, lemma_u32_of_le_bytes};
use crate::codec::{Mode, PhspError, record_len, record_size, tag_bytes, mode_of_tag};

verus! {

/// The bit pattern of an energy mapped so that unsigned order on the result is the
/// IEEE-754 total order on the encoded single-precision values.
pub open spec fn energy_key(bits: u32) -> u32 {
    if bits & 0x8000_0000u32 != 0 {
        !bits
    } else {
        bits | 0x8000_0000u32
    }
}

/// Computes `energy_key`.
pub fn order_key(bits: u32) -> (r: u32)
    ensures
        r == energy_key(bits),
{
    if bits & 0x8000_0000u32 != 0 {
        !bits
    } else {
        bits | 0x8000_0000u32
    }
}

/// The fixed-size file header. Energies and the source count are IEEE-754 bit patterns.
#[derive(Clone, Copy, Debug, PartialEq, Eq, Structural)]
pub struct Header {
    pub mode: Mode,
    pub total_particles: u32,
    pub total_photons: u32,
    pub max_energy: u32,
    pub min_energy: u32,
    pub total_particles_in_source: u32,
}

/// Largest count that the signed 32-bit count fields of a file can hold.
pub const MAX_COUNT: u32 = 0x7fff_ffff;

impl Header {
    /// The header invariants: counts fit their signed fields, photons do not
    /// outnumber particles, and the maximum energy is not below the minimum.
    pub open spec fn valid(self) -> bool {
        &&& self.total_particles <= 0x7fff_ffffu32
        &&& self.total_photons <= self.total_particles
        &&& energy_key(self.min_energy) <= energy_key(self.max_energy)
    }

    /// Checks the header invariants.
    pub fn is_valid(&self) -> (r: bool)
        ensures
            r == self.valid(),
    {
        self.total_particles <= MAX_COUNT && self.total_photons <= self.total_particles
            && order_key(self.min_energy) <= order_key(self.max_energy)
    }
}

/// The bytes of `h`: tag, counts, energies and source count, zero-padded to one record.
pub open spec fn header_bytes(h: Header) -> Seq<u8> {
    tag_bytes(h.mode) + le_bytes(h.total_particles) + le_bytes(h.total_photons) + le_bytes(
        h.max_energy,
    ) + le_bytes(h.min_energy) + le_bytes(h.total_particles_in_source) + Seq::new(
        (record_len(h.mode) - 25) as nat,
        |i: int| 0u8,
    )
}

/// The header fields stored at the start of `b`, under `mode`.
pub open spec fn header_at(b: Seq<u8>, mode: Mode) -> Header {
    Header {
        mode,
        total_particles: u32_at(b, 5),
        total_photons: u32_at(b, 9),
        max_energy: u32_at(b, 13),
        min_energy: u32_at(b, 17),
        total_particles_in_source: u32_at(b, 21),
    }
}

/// What decoding the header at the start of `b` yields.
pub open spec fn header_result(b: Seq<u8>) -> Result<Header, PhspError> {
    match mode_of_tag(b) {
        None => Err(PhspError::Format),
        Some(m) => if b.len() < record_len(m) {
            Err(PhspError::Format)
        } else {
            Ok(header_at(b, m))
        },
    }
}

fn read_tag(b: &Vec<u8>) -> (r: Option<Mode>)
    ensures
        r == mode_of_tag(b@),
{
    if b.len() < 5 {
        return None;
    }
    let head = b[0] == 77u8 && b[1] == 79u8 && b[2] == 68u8 && b[3] == 69u8;
    proof {
        assert(tag_bytes(Mode::Mode0) == seq![77u8, 79u8, 68u8, 69u8, 48u8]);
        assert(tag_bytes(Mode::Mode2) == seq![77u8, 79u8, 68u8, 69u8, 50u8]);
        assert(head && b@[4] == 48u8 ==> b@.subrange(0, 5) =~= tag_bytes(Mode::Mode0));
        assert(head && b@[4] == 50u8 ==> b@.subrange(0, 5) =~= tag_bytes(Mode::Mode2));
        assert(b@.subrange(0, 5) == tag_bytes(Mode::Mode0) ==> head && b@.subrange(0, 5)[4] == 48u8);
        assert(b@.subrange(0, 5) == tag_bytes(Mode::Mode2) ==> head && b@.subrange(0, 5)[4] == 50u8);
    }
    if head && b[4] == 48u8 {
        Some(Mode::Mode0)
    } else if head && b[4] == 50u8 {
        Some(Mode::Mode2)
    } else {
        None
    }
}

/// Decodes the header at the start of `b`; the bytes after it are not looked at.
pub fn decode_header(b: &Vec<u8>) -> (r: Result<Header, PhspError>)
    ensures
        r == header_result(b@),
{
    match read_tag(b) {
        None => Err(PhspError::Format),
        Some(mode) => {
            if b.len() < record_size(mode) {
                Err(PhspError::Format)
            } else {
                Ok(
                    Header {
                        mode,
                        total_particles: read_u32(b, 5),
                        total_photons: read_u32(b, 9),
                        max_energy: read_u32(b, 13),
                        min_energy: read_u32(b, 17),
                        total_particles_in_source: read_u32(b, 21),
                    },
                )
            }
        },
    }
}

/// Appends the bytes of `h`.
pub fn write_header(out: &mut Vec<u8>, h: &Header)
    ensures
        final(out)@ == old(out)@ + header_bytes(*h),
{
    let start = out.len();
    match h.mode {
        Mode::Mode0 => {
            out.push(77u8); out.push(79u8); out.push(68u8); out.push(69u8); out.push(48u8);
        },
        Mode::Mode2 => {
            out.push(77u8); out.push(79u8); out.push(68u8); out.push(69u8); out.push(50u8);
        },
    }
    push_u32(out, h.total_particles);
    push_u32(out, h.total_photons);
    push_u32(out, h.max_energy);
    push_u32(out, h.min_energy);
    push_u32(out, h.total_particles_in_source);
    let end = record_size(h.mode) - 25;
    let mut i: usize = 0;
    while i < end
        invariant
            i <= end,
            start == old(out)@.len(),
            end == record_len(h.mode) - 25,
            out@.len() == start + 25 + i,
            out@.subrange(0, start + 25) == old(out)@ + tag_bytes(h.mode) + le_bytes(h.total_particles)
                + le_bytes(h.total_photons) + le_bytes(h.max_energy) + le_bytes(h.min_energy)
                + le_bytes(h.total_particles_in_source),
            forall|k: int| start + 25 <= k < out@.len() ==> out@[k] == 0u8,
        decreases end - i,
    {
        proof {
            assert(out@.push(0u8).subrange(0, start + 25) =~= out@.subrange(0, start + 25));
        }
        out.push(0u8);
        i = i + 1;
    }
    proof {
        let zeros = Seq::new((record_len(h.mode) - 25) as nat, |i: int| 0u8);
        assert(out@.subrange(start + 25, out@.len() as int) =~= zeros);
        assert(out@ =~= out@.subrange(0, start + 25) + out@.subrange(start + 25, out@.len() as int));
    }
    assert(final(out)@ =~= old(out)@ + header_bytes(*h));
}

/// Encodes `h` alone.
pub fn encode_header(h: &Header) -> (b: Vec<u8>)
    ensures
        b@ == header_bytes(*h),
        b@.len() == record_len(h.mode),
{
    let mut b: Vec<u8> = Vec::new();
    write_header(&mut b, h);
    assert(b@ =~= header_bytes(*h));
    b
}

proof fn lemma_word_in(b: Seq<u8>, off: int, v: u32)
    requires
        0 <= off,
        off + 4 <= b.len(),
        b.subrange(off, off + 4) == le_bytes(v),
    ensures
        u32_at(b, off) == v,
{
    lemma_u32_of_le_bytes(v);
    assert(b[off] == b.subrange(off, off + 4)[0]);
    assert(b[off + 1] == b.subrange(off, off + 4)[1]);
    assert(b[off + 2] == b.subrange(off, off + 4)[2]);
    assert(b[off + 3] == b.subrange(off, off + 4)[3]);
}

/// Decoding the encoding of a header, followed by anything, gives the header back.
pub proof fn lemma_header_round_trip(h: Header, rest: Seq<u8>)
    ensures
        header_bytes(h).len() == record_len(h.mode),
        header_result(header_bytes(h) + rest) == Ok::<Header, PhspError>(h),
{
    let b = header_bytes(h) + rest;
    assert(b.subrange(0, 5) =~= tag_bytes(h.mode));
    assert(tag_bytes(Mode::Mode0)[4] != tag_bytes(Mode::Mode2)[4]);
    assert(mode_of_tag(b) == Some(h.mode));
    assert(b.subrange(5, 9) =~= le_bytes(h.total_particles));
    assert(b.subrange(9, 13) =~= le_bytes(h.total_photons));
    assert(b.subrange(13, 17) =~= le_bytes(h.max_energy));
    assert(b.subrange(17, 21) =~= le_bytes(h.min_energy));
    assert(b.subrange(21, 25) =~= le_bytes(h.total_particles_in_source));
    lemma_word_in(b, 5, h.total_particles);
    lemma_word_in(b, 9, h.total_photons);
    lemma_word_in(b, 13, h.max_energy);
    lemma_word_in(b, 17, h.min_energy);
    lemma_word_in(b, 21, h.total_particles_in_source);
}

} // verus!
