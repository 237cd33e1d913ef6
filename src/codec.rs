use vstd::prelude::*;
use crate::bytes::{le_bytes, u32_at, read_u32, push_u32, lemma_u32_of_le_bytes, lemma_le_bytes_of_u32};

verus! {

/// What can go wrong when phase space data is read, checked or merged.
#[derive(Clone, Copy, Debug, PartialEq, Eq, Structural)]
pub enum PhspError {
    /// A header or record does not decode: wrong size or unknown mode tag.
    Format,
    /// Inputs that must share a record layout do not.
    IncompatibleFormat,
    /// Reading or writing the underlying storage failed.
    Io,
    /// A header invariant does not hold.
    Validation,
}

/// The record layout: `Mode0` without, `Mode2` with the trailing last-interaction Z.
#[derive(Clone, Copy, Debug, PartialEq, Eq, Structural)]
pub enum Mode {
    Mode0,
    Mode2,
}

pub open spec fn record_len(mode: Mode) -> nat {
    match mode {
        Mode::Mode0 => 28,
        Mode::Mode2 => 32,
    }
}

/// The five bytes of the tag `MODE0` or `MODE2` that open a file.
pub open spec fn tag_bytes(mode: Mode) -> Seq<u8> {
    match mode {
        Mode::Mode0 => seq![77u8, 79u8, 68u8, 69u8, 48u8],
        Mode::Mode2 => seq![77u8, 79u8, 68u8, 69u8, 50u8],
    }
}

/// The mode whose tag opens `b`, if any.
pub open spec fn mode_of_tag(b: Seq<u8>) -> Option<Mode> {
    if b.len() >= 5 && b.subrange(0, 5) == tag_bytes(Mode::Mode0) {
        Some(Mode::Mode0)
    } else if b.len() >= 5 && b.subrange(0, 5) == tag_bytes(Mode::Mode2) {
        Some(Mode::Mode2)
    } else {
        None
    }
}

/// Size in bytes of one record, and of the header, under `mode`.
pub fn record_size(mode: Mode) -> (r: usize)
    ensures
        r == record_len(mode),
{
    match mode {
        Mode::Mode0 => 28,
        Mode::Mode2 => 32,
    }
}

pub const SIGN_BIT: u32 = 0x8000_0000;

pub const MAGNITUDE_MASK: u32 = 0x7fff_ffff;

/// A stored single-precision word whose magnitude is `mag` and whose sign bit is `neg`.
pub open spec fn signed_word(mag: u32, neg: bool) -> u32 {
    (mag & 0x7fff_ffffu32) | (if neg { 0x8000_0000u32 } else { 0u32 })
}

/// One particle crossing. Floating-point quantities are held as their IEEE-754 bit
/// patterns; the sign bits of the stored energy and weight are split off as flags.
#[derive(Clone, Copy, Debug, PartialEq, Eq, Structural)]
pub struct Record {
    pub latch: u32,
    /// The stored energy is negative: a charged particle.
    pub charged: bool,
    /// Bits of the energy magnitude (sign bit clear).
    pub energy: u32,
    pub x_cm: u32,
    pub y_cm: u32,
    pub x_cos: u32,
    pub y_cos: u32,
    /// The stored weight is negative: first record of a new source history.
    pub new_history: bool,
    /// Bits of the weight magnitude (sign bit clear).
    pub weight: u32,
    /// Last-interaction Z, present under `Mode2` only.
    pub zlast: Option<u32>,
}

impl Record {
    /// A record is valid under `mode` when its magnitudes carry no sign and the
    /// optional field is present exactly under the extended layout.
    pub open spec fn valid(self, mode: Mode) -> bool {
        &&& self.energy & 0x8000_0000u32 == 0
        &&& self.weight & 0x8000_0000u32 == 0
        &&& self.zlast.is_some() == (mode == Mode::Mode2)
    }

    /// Whether the record is a secondary from bremsstrahlung or annihilation (latch bit 0).
    pub fn produced(&self) -> (r: bool)
        ensures
            r == (self.latch & 1u32 != 0),
    {
        self.latch & 1u32 != 0
    }
}

/// The bytes of `r` under `mode`.
pub open spec fn record_bytes(r: Record, mode: Mode) -> Seq<u8> {
    let base = le_bytes(r.latch) + le_bytes(signed_word(r.energy, r.charged)) + le_bytes(r.x_cm)
        + le_bytes(r.y_cm) + le_bytes(r.x_cos) + le_bytes(r.y_cos) + le_bytes(
        signed_word(r.weight, r.new_history),
    );
    match mode {
        Mode::Mode0 => base,
        Mode::Mode2 => base + le_bytes(
            match r.zlast {
                Some(z) => z,
                None => 0u32,
            },
        ),
    }
}

/// The record stored at offset `off` of `b` under `mode`.
pub open spec fn record_at(b: Seq<u8>, off: int, mode: Mode) -> Record {
    let e = u32_at(b, off + 4);
    let w = u32_at(b, off + 24);
    Record {
        latch: u32_at(b, off),
        charged: e & 0x8000_0000u32 != 0,
        energy: e & 0x7fff_ffffu32,
        x_cm: u32_at(b, off + 8),
        y_cm: u32_at(b, off + 12),
        x_cos: u32_at(b, off + 16),
        y_cos: u32_at(b, off + 20),
        new_history: w & 0x8000_0000u32 != 0,
        weight: w & 0x7fff_ffffu32,
        zlast: match mode {
            Mode::Mode0 => None,
            Mode::Mode2 => Some(u32_at(b, off + 28)),
        },
    }
}

/// Decodes the record at offset `off` of `b`.
pub fn read_record(b: &Vec<u8>, off: usize, mode: Mode) -> (r: Record)
    requires
        off + record_len(mode) <= b@.len(),
    ensures
        r == record_at(b@, off as int, mode),
{
    let n = b.len();
    assert(off + record_len(mode) <= n);
    let e = read_u32(b, off + 4);
    let w = read_u32(b, off + 24);
    let zlast = match mode {
        Mode::Mode0 => None,
        Mode::Mode2 => Some(read_u32(b, off + 28)),
    };
    Record {
        latch: read_u32(b, off),
        charged: e & SIGN_BIT != 0,
        energy: e & MAGNITUDE_MASK,
        x_cm: read_u32(b, off + 8),
        y_cm: read_u32(b, off + 12),
        x_cos: read_u32(b, off + 16),
        y_cos: read_u32(b, off + 20),
        new_history: w & SIGN_BIT != 0,
        weight: w & MAGNITUDE_MASK,
        zlast,
    }
}

/// Decodes one record from exactly its bytes.
pub fn decode_record(b: &Vec<u8>, mode: Mode) -> (r: Result<Record, PhspError>)
    ensures
        b@.len() == record_len(mode) ==> r == Ok::<Record, PhspError>(record_at(b@, 0, mode)),
        b@.len() != record_len(mode) ==> r == Err::<Record, PhspError>(PhspError::Format),
{
    if b.len() != record_size(mode) {
        Err(PhspError::Format)
    } else {
        Ok(read_record(b, 0, mode))
    }
}

fn signed(mag: u32, neg: bool) -> (r: u32)
    ensures
        r == signed_word(mag, neg),
{
    (mag & MAGNITUDE_MASK) | (if neg { SIGN_BIT } else { 0u32 })
}

/// Appends the bytes of `r` under `mode`.
pub fn write_record(out: &mut Vec<u8>, r: &Record, mode: Mode)
    ensures
        final(out)@ == old(out)@ + record_bytes(*r, mode),
{
    push_u32(out, r.latch);
    push_u32(out, signed(r.energy, r.charged));
    push_u32(out, r.x_cm);
    push_u32(out, r.y_cm);
    push_u32(out, r.x_cos);
    push_u32(out, r.y_cos);
    push_u32(out, signed(r.weight, r.new_history));
    match mode {
        Mode::Mode0 => {},
        Mode::Mode2 => {
            let z = match r.zlast {
                Some(z) => z,
                None => 0u32,
            };
            push_u32(out, z);
        },
    }
    assert(final(out)@ =~= old(out)@ + record_bytes(*r, mode));
}

/// Encodes one record.
pub fn encode_record(r: &Record, mode: Mode) -> (b: Vec<u8>)
    ensures
        b@ == record_bytes(*r, mode),
        b@.len() == record_len(mode),
{
    let mut b: Vec<u8> = Vec::new();
    write_record(&mut b, r, mode);
    assert(b@ =~= record_bytes(*r, mode));
    b
}

proof fn lemma_word_at(s: Seq<u8>, k: int, v: u32, t: Seq<u8>)
    requires
        s.len() == 4 * k,
    ensures
        u32_at(s + le_bytes(v) + t, 4 * k) == v,
{
    lemma_u32_of_le_bytes(v);
    let c = s + le_bytes(v) + t;
    assert(c[4 * k] == le_bytes(v)[0]);
    assert(c[4 * k + 1] == le_bytes(v)[1]);
    assert(c[4 * k + 2] == le_bytes(v)[2]);
    assert(c[4 * k + 3] == le_bytes(v)[3]);
}

proof fn lemma_signed_word(mag: u32, neg: bool)
    requires
        mag & 0x8000_0000u32 == 0,
    ensures
        signed_word(mag, neg) & 0x7fff_ffffu32 == mag,
        (signed_word(mag, neg) & 0x8000_0000u32 != 0) == neg,
{
    let s = if neg { 0x8000_0000u32 } else { 0u32 };
    assert(((mag & 0x7fff_ffffu32) | s) & 0x7fff_ffffu32 == mag) by (bit_vector)
        requires mag & 0x8000_0000u32 == 0, s == 0x8000_0000u32 || s == 0u32;
    assert((((mag & 0x7fff_ffffu32) | s) & 0x8000_0000u32 != 0) == (s == 0x8000_0000u32)) by (bit_vector)
        requires s == 0x8000_0000u32 || s == 0u32;
}

/// Decoding the encoding of a valid record gives the record back.
pub proof fn lemma_record_round_trip(r: Record, mode: Mode)
    requires
        r.valid(mode),
    ensures
        record_bytes(r, mode).len() == record_len(mode),
        record_at(record_bytes(r, mode), 0, mode) == r,
{
    let b = record_bytes(r, mode);
    let e = signed_word(r.energy, r.charged);
    let w = signed_word(r.weight, r.new_history);
    let z = match r.zlast {
        Some(z) => z,
        None => 0u32,
    };
    let w0 = le_bytes(r.latch);
    let w1 = w0 + le_bytes(e);
    let w2 = w1 + le_bytes(r.x_cm);
    let w3 = w2 + le_bytes(r.y_cm);
    let w4 = w3 + le_bytes(r.x_cos);
    let w5 = w4 + le_bytes(r.y_cos);
    let w6 = w5 + le_bytes(w);
    let tail = match mode {
        Mode::Mode0 => Seq::<u8>::empty(),
        Mode::Mode2 => le_bytes(z),
    };
    assert(b =~= w6 + tail);
    lemma_word_at(Seq::empty(), 0, r.latch, le_bytes(e).add(b.subrange(8, b.len() as int)));
    assert(b =~= Seq::<u8>::empty() + le_bytes(r.latch) + le_bytes(e).add(b.subrange(8, b.len() as int)));
    lemma_word_at(w0, 1, e, b.subrange(8, b.len() as int));
    assert(b =~= w0 + le_bytes(e) + b.subrange(8, b.len() as int));
    lemma_word_at(w1, 2, r.x_cm, b.subrange(12, b.len() as int));
    assert(b =~= w1 + le_bytes(r.x_cm) + b.subrange(12, b.len() as int));
    lemma_word_at(w2, 3, r.y_cm, b.subrange(16, b.len() as int));
    assert(b =~= w2 + le_bytes(r.y_cm) + b.subrange(16, b.len() as int));
    lemma_word_at(w3, 4, r.x_cos, b.subrange(20, b.len() as int));
    assert(b =~= w3 + le_bytes(r.x_cos) + b.subrange(20, b.len() as int));
    lemma_word_at(w4, 5, r.y_cos, b.subrange(24, b.len() as int));
    assert(b =~= w4 + le_bytes(r.y_cos) + b.subrange(24, b.len() as int));
    lemma_word_at(w5, 6, w, tail);
    if mode == Mode::Mode2 {
        lemma_word_at(w6, 7, z, Seq::empty());
        assert(b =~= w6 + le_bytes(z) + Seq::<u8>::empty());
    }
    lemma_signed_word(r.energy, r.charged);
    lemma_signed_word(r.weight, r.new_history);
}


proof fn lemma_word_bytes(b: Seq<u8>, off: int)
    requires
        0 <= off,
        off + 4 <= b.len(),
    ensures
        le_bytes(u32_at(b, off)) == b.subrange(off, off + 4),
{
    lemma_le_bytes_of_u32(b[off], b[off + 1], b[off + 2], b[off + 3]);
    assert(b.subrange(off, off + 4) =~= seq![b[off], b[off + 1], b[off + 2], b[off + 3]]);
}

proof fn lemma_split_word(e: u32)
    ensures
        signed_word(e & 0x7fff_ffffu32, e & 0x8000_0000u32 != 0) == e,
{
    let s = if e & 0x8000_0000u32 != 0 { 0x8000_0000u32 } else { 0u32 };
    assert(((e & 0x7fff_ffffu32) & 0x7fff_ffffu32) | s == e) by (bit_vector)
        requires s == (if e & 0x8000_0000u32 != 0 { 0x8000_0000u32 } else { 0u32 });
}

/// Every byte string of a record's size decodes, and encoding the result gives back
/// the same bytes: no bit is lost, unexpected flag bits included.
pub proof fn lemma_record_bytes_preserved(b: Seq<u8>, mode: Mode)
    requires
        b.len() == record_len(mode),
    ensures
        record_bytes(record_at(b, 0, mode), mode) == b,
{
    let r = record_at(b, 0, mode);
    lemma_split_word(u32_at(b, 4));
    lemma_split_word(u32_at(b, 24));
    lemma_word_bytes(b, 0);
    lemma_word_bytes(b, 4);
    lemma_word_bytes(b, 8);
    lemma_word_bytes(b, 12);
    lemma_word_bytes(b, 16);
    lemma_word_bytes(b, 20);
    lemma_word_bytes(b, 24);
    let base = b.subrange(0, 4) + b.subrange(4, 8) + b.subrange(8, 12) + b.subrange(12, 16) + b.subrange(16, 20)
        + b.subrange(20, 24) + b.subrange(24, 28);
    if mode == Mode::Mode2 {
        lemma_word_bytes(b, 28);
        assert(base + b.subrange(28, 32) =~= b);
    } else {
        assert(base =~= b);
    }
}

} // verus!
