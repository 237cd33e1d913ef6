use beamdpr::codec::{decode_record, encode_record, Mode, PhspError, Record};
use beamdpr::combine::{combine, combine_headers};
use beamdpr::compare::{compare, Comparison, HeaderField};
use beamdpr::header::{decode_header, encode_header, Header};
use beamdpr::randomize::randomize;
use beamdpr::reweight::{add_to_histogram, bin_index, radial_histogram, reweight, with_weight};
use beamdpr::rng::SplitMix;
use beamdpr::sample::{keep_next, sample_combine, sample_header_of};
use beamdpr::stream::{expected_file_size, read_phase_space, rewrite_header, write_phase_space, PhaseSpace, RecordCursor};

fn bits(v: f32) -> u32 {
    v.to_bits()
}

fn record(i: u32, mode: Mode) -> Record {
    Record {
        latch: i * 3,
        charged: i % 3 == 0,
        energy: bits(1.0 + i as f32 * 0.25),
        x_cm: bits(i as f32 * 0.5 - 3.0),
        y_cm: bits(2.0 - i as f32 * 0.125),
        x_cos: bits(0.25),
        y_cos: bits(-0.5),
        new_history: i % 2 == 0,
        weight: bits(1.0 + i as f32),
        zlast: match mode {
            Mode::Mode0 => None,
            Mode::Mode2 => Some(bits(10.0 + i as f32)),
        },
    }
}

fn file(first: u32, n: u32, mode: Mode, max_e: f32, min_e: f32, source: f32) -> PhaseSpace {
    let records: Vec<Record> = (first..first + n).map(|i| record(i, mode)).collect();
    let photons = records.iter().filter(|r| !r.charged).count() as u32;
    PhaseSpace {
        header: Header {
            mode,
            total_particles: n,
            total_photons: photons,
            max_energy: bits(max_e),
            min_energy: bits(min_e),
            total_particles_in_source: bits(source),
        },
        records,
    }
}

fn same(a: &PhaseSpace, b: &PhaseSpace) -> bool {
    a.header == b.header && a.records == b.records
}

#[test]
fn record_round_trip_both_modes() {
    for mode in [Mode::Mode0, Mode::Mode2] {
        for i in 0..10 {
            let r = record(i, mode);
            let b = encode_record(&r, mode);
            assert_eq!(b.len(), if mode == Mode::Mode0 { 28 } else { 32 });
            assert_eq!(decode_record(&b, mode), Ok(r));
        }
    }
}

#[test]
fn record_layout_is_little_endian_with_sign_flags() {
    let r = Record {
        latch: 0x0403_0201,
        charged: true,
        energy: bits(2.0),
        x_cm: 0,
        y_cm: 0,
        x_cos: 0,
        y_cos: 0,
        new_history: false,
        weight: bits(0.5),
        zlast: None,
    };
    let b = encode_record(&r, Mode::Mode0);
    assert_eq!(&b[0..4], &[1u8, 2, 3, 4]);
    assert_eq!(&b[4..8], &(-2.0f32).to_le_bytes());
    assert_eq!(&b[24..28], &0.5f32.to_le_bytes());
    let back = decode_record(&b, Mode::Mode0).unwrap();
    assert!(back.charged);
    assert!(!back.new_history);
    assert_eq!(f32::from_bits(back.energy), 2.0);
    assert!(r.produced());
}

#[test]
fn encoding_ignores_stale_sign_bits() {
    let mut r = record(1, Mode::Mode0);
    r.charged = false;
    r.energy = bits(-3.0);
    r.new_history = true;
    r.weight = bits(-4.0);
    let b = encode_record(&r, Mode::Mode0);
    assert_eq!(&b[4..8], &3.0f32.to_le_bytes());
    assert_eq!(&b[24..28], &(-4.0f32).to_le_bytes());
}

#[test]
fn decode_never_fails_on_right_size_and_rejects_wrong_size() {
    let b: Vec<u8> = (0..32u8).map(|x| x.wrapping_mul(37)).collect();
    assert!(decode_record(&b, Mode::Mode2).is_ok());
    assert_eq!(decode_record(&b, Mode::Mode0), Err(PhspError::Format));
    let all_ones = vec![0xffu8; 28];
    let r = decode_record(&all_ones, Mode::Mode0).unwrap();
    assert!(r.charged && r.new_history);
    assert_eq!(encode_record(&r, Mode::Mode0), all_ones);
}

#[test]
fn header_round_trip_and_errors() {
    let f = file(0, 4, Mode::Mode2, 6.0, 0.01, 1234.5);
    let b = encode_header(&f.header);
    assert_eq!(b.len(), 32);
    assert_eq!(&b[0..5], b"MODE2");
    assert_eq!(decode_header(&b), Ok(f.header));
    let mut bad = b.clone();
    bad[4] = b'7';
    assert_eq!(decode_header(&bad), Err(PhspError::Format));
    assert_eq!(decode_header(&b[0..20].to_vec()), Err(PhspError::Format));
    assert!(f.header.is_valid());
}

#[test]
fn file_round_trip() {
    for mode in [Mode::Mode0, Mode::Mode2] {
        let f = file(3, 7, mode, 9.0, 1.0, 7.0);
        let b = write_phase_space(&f);
        let len = if mode == Mode::Mode0 { 28 } else { 32 };
        assert_eq!(b.len(), len * 8);
        let back = read_phase_space(&b).unwrap();
        assert!(same(&back, &f));
    }
}

#[test]
fn read_rejects_invalid_headers_and_sizes() {
    let mut f = file(0, 3, Mode::Mode0, 9.0, 1.0, 7.0);
    let mut b = write_phase_space(&f);
    b.push(0);
    assert_eq!(read_phase_space(&b).err(), Some(PhspError::Validation));
    f.header.total_photons = 5;
    let b = write_phase_space(&f);
    assert_eq!(read_phase_space(&b).err(), Some(PhspError::Validation));
    f.header.total_photons = 1;
    f.header.max_energy = bits(0.5);
    let b = write_phase_space(&f);
    assert_eq!(read_phase_space(&b).err(), Some(PhspError::Validation));
    assert_eq!(read_phase_space(&vec![1u8, 2, 3]).err(), Some(PhspError::Format));
}

#[test]
fn combine_sums_counts_and_concatenates() {
    let a = file(0, 3, Mode::Mode0, 5.0, 1.0, 10.0);
    let b = file(10, 4, Mode::Mode0, 8.0, 0.5, 20.0);
    let out = combine(&vec![a, b], bits(30.0)).unwrap();
    let a = file(0, 3, Mode::Mode0, 5.0, 1.0, 10.0);
    let b = file(10, 4, Mode::Mode0, 8.0, 0.5, 20.0);
    assert_eq!(out.header.total_particles, 7);
    assert_eq!(out.header.total_photons, a.header.total_photons + b.header.total_photons);
    assert_eq!(f32::from_bits(out.header.max_energy), 8.0);
    assert_eq!(f32::from_bits(out.header.min_energy), 0.5);
    assert_eq!(f32::from_bits(out.header.total_particles_in_source), 30.0);
    let expected: Vec<Record> = a.records.iter().chain(b.records.iter()).cloned().collect();
    assert_eq!(out.records, expected);
    assert!(out.header.is_valid());
}

#[test]
fn combine_is_associative_on_records() {
    let mk = || {
        (
            file(0, 2, Mode::Mode2, 5.0, 1.0, 1.0),
            file(5, 3, Mode::Mode2, 6.0, 2.0, 2.0),
            file(9, 4, Mode::Mode2, 4.0, 0.1, 3.0),
        )
    };
    let (a, b, c) = mk();
    let abc = combine(&vec![a, b, c], bits(6.0)).unwrap();
    let (a, b, c) = mk();
    let ab = combine(&vec![a, b], bits(3.0)).unwrap();
    let ab_c = combine(&vec![ab, c], bits(6.0)).unwrap();
    assert!(same(&abc, &ab_c));
}

#[test]
fn combine_errors() {
    let a = file(0, 2, Mode::Mode0, 5.0, 1.0, 1.0);
    let b = file(0, 2, Mode::Mode2, 5.0, 1.0, 1.0);
    assert_eq!(combine(&vec![a, b], 0).err(), Some(PhspError::IncompatibleFormat));
    assert_eq!(combine(&vec![], 0).err(), Some(PhspError::Validation));
    let mut big = file(0, 0, Mode::Mode0, 5.0, 1.0, 1.0);
    big.header.total_particles = 0x7000_0000;
    let mut big2 = file(0, 0, Mode::Mode0, 5.0, 1.0, 1.0);
    big2.header.total_particles = 0x7000_0000;
    assert_eq!(combine_headers(&vec![big.header, big2.header], 0), Err(PhspError::Validation));
}

#[test]
fn sample_keep_all_reproduces_input() {
    let a = file(0, 20, Mode::Mode0, 9.0, 1.0, 5.0);
    let src = a.header.total_particles_in_source;
    let out = sample_combine(&vec![a], 1u64 << 32, 42, src).unwrap();
    let a = file(0, 20, Mode::Mode0, 9.0, 1.0, 5.0);
    assert!(same(&out, &a));
    assert_eq!(write_phase_space(&out), write_phase_space(&a));
}

#[test]
fn sample_keep_none_is_empty() {
    let a = file(0, 20, Mode::Mode0, 9.0, 1.0, 5.0);
    let out = sample_combine(&vec![a], 0, 42, 0).unwrap();
    assert_eq!(out.records.len(), 0);
    assert_eq!(out.header.total_particles, 0);
    assert_eq!(out.header.total_photons, 0);
}

#[test]
fn sample_is_deterministic_and_thins() {
    let mk = || vec![file(0, 300, Mode::Mode2, 9.0, 1.0, 5.0), file(300, 300, Mode::Mode2, 9.0, 1.0, 5.0)];
    let half = 1u64 << 31;
    let x = write_phase_space(&sample_combine(&mk(), half, 7, 0).unwrap());
    let y = write_phase_space(&sample_combine(&mk(), half, 7, 0).unwrap());
    assert_eq!(x, y);
    let out = sample_combine(&mk(), half, 7, 0).unwrap();
    let n = out.records.len();
    assert!(n > 200 && n < 400);
    assert_eq!(out.header.total_particles as usize, n);
    assert_eq!(out.header.total_photons as usize, out.records.iter().filter(|r| !r.charged).count());
    let other = write_phase_space(&sample_combine(&mk(), half, 8, 0).unwrap());
    assert_ne!(x, other);
}

#[test]
fn splitmix_reference_values() {
    let mut g = SplitMix::new(0);
    assert_eq!(g.next_u64(), 0xE220_A839_7B1D_CDAF);
    assert_eq!(g.next_u64(), 0x6E78_9E6A_A1B9_65F4);
}

#[test]
fn randomize_keeps_header_and_multiset() {
    let mut f = file(0, 50, Mode::Mode0, 9.0, 1.0, 5.0);
    let orig = file(0, 50, Mode::Mode0, 9.0, 1.0, 5.0);
    randomize(&mut f, 1);
    assert_eq!(f.header, orig.header);
    assert_ne!(f.records, orig.records);
    let key = |r: &Record| r.latch;
    let mut a: Vec<u32> = f.records.iter().map(key).collect();
    let mut b: Vec<u32> = orig.records.iter().map(key).collect();
    a.sort();
    b.sort();
    assert_eq!(a, b);
    for r in f.records.iter() {
        assert!(orig.records.contains(r));
    }
}

#[test]
fn randomize_seeds_differ_and_repeat() {
    let mut f1 = file(0, 30, Mode::Mode2, 9.0, 1.0, 5.0);
    let mut f2 = file(0, 30, Mode::Mode2, 9.0, 1.0, 5.0);
    let mut f3 = file(0, 30, Mode::Mode2, 9.0, 1.0, 5.0);
    randomize(&mut f1, 11);
    randomize(&mut f2, 12);
    randomize(&mut f3, 11);
    assert_ne!(f1.records, f2.records);
    assert_eq!(f1.records, f3.records);
    let mut one = file(0, 1, Mode::Mode0, 9.0, 1.0, 5.0);
    randomize(&mut one, 5);
    assert_eq!(one.records, file(0, 1, Mode::Mode0, 9.0, 1.0, 5.0).records);
}

#[test]
fn reweight_histogram_of_uniform_radii() {
    let max_radius = 10.0f32;
    let bins_n = 10usize;
    let mut f = file(0, 100, Mode::Mode0, 9.0, 1.0, 5.0);
    for (i, r) in f.records.iter_mut().enumerate() {
        let radius = i as f32 * 0.1 + 0.05;
        let angle = i as f32 * 0.7;
        r.x_cm = bits(radius * angle.cos());
        r.y_cm = bits(radius * angle.sin());
    }
    let raw: Vec<usize> = f
        .records
        .iter()
        .map(|r| {
            let x = f32::from_bits(r.x_cm);
            let y = f32::from_bits(r.y_cm);
            ((x * x + y * y).sqrt() / max_radius * bins_n as f32) as usize
        })
        .collect();
    let counts = radial_histogram(&raw, bins_n).unwrap();
    assert_eq!(counts, vec![10u64; 10]);
    let c = 1.0f32;
    let scales: Vec<f32> = counts.iter().map(|&n| c * n as f32).collect();
    let weights: Vec<u32> = f
        .records
        .iter()
        .zip(raw.iter())
        .map(|(r, &b)| bits(f32::from_bits(r.weight) * scales[bin_index(b, bins_n)]))
        .collect();
    assert!(scales.iter().all(|&s| s == 10.0));
    let out = reweight(&f, &weights).unwrap();
    assert_eq!(out.header, f.header);
    assert_eq!(out.records.len(), 100);
    for (o, r) in out.records.iter().zip(f.records.iter()) {
        assert_eq!(f32::from_bits(o.weight), f32::from_bits(r.weight) * 10.0);
        assert_eq!(o.x_cm, r.x_cm);
        assert_eq!(o.new_history, r.new_history);
    }
}

#[test]
fn histogram_clamps_and_rejects_zero_bins() {
    assert_eq!(radial_histogram(&vec![0, 5, 99, 2, 3], 3).unwrap(), vec![1u64, 0, 4]);
    assert_eq!(radial_histogram(&vec![1, 2], 0).err(), Some(PhspError::Validation));
    assert_eq!(bin_index(7, 4), 3);
    assert_eq!(bin_index(2, 4), 2);
}

#[test]
fn reweight_errors() {
    let f = file(0, 3, Mode::Mode0, 9.0, 1.0, 5.0);
    assert_eq!(reweight(&f, &vec![bits(1.0); 2]).err(), Some(PhspError::Validation));
    assert_eq!(reweight(&f, &vec![bits(1.0), bits(-1.0), bits(1.0)]).err(), Some(PhspError::Validation));
}

#[test]
fn compare_self_and_altered_record() {
    let a = file(0, 10, Mode::Mode2, 9.0, 1.0, 5.0);
    let b = file(0, 10, Mode::Mode2, 9.0, 1.0, 5.0);
    assert_eq!(compare(&a, &b), Comparison::Equal);
    assert_eq!(compare(&a, &a), Comparison::Equal);
    let mut c = file(0, 10, Mode::Mode2, 9.0, 1.0, 5.0);
    c.records[6].weight = bits(123.0);
    assert_eq!(compare(&a, &c), Comparison::RecordDiffers(6));
}

#[test]
fn compare_header_and_count() {
    let a = file(0, 10, Mode::Mode2, 9.0, 1.0, 5.0);
    let mut b = file(0, 10, Mode::Mode2, 9.0, 1.0, 5.0);
    b.header.min_energy = bits(0.9);
    b.header.total_particles_in_source = bits(6.0);
    assert_eq!(compare(&a, &b), Comparison::HeaderDiffers(HeaderField::MinEnergy));
    let mut c = file(0, 10, Mode::Mode2, 9.0, 1.0, 5.0);
    c.records.pop();
    assert_eq!(compare(&a, &c), Comparison::CountDiffers);
    let d = file(0, 10, Mode::Mode0, 9.0, 1.0, 5.0);
    assert_eq!(compare(&a, &d), Comparison::HeaderDiffers(HeaderField::Mode));
}

#[test]
fn cursor_streams_records_in_order() {
    let f = file(2, 5, Mode::Mode2, 9.0, 1.0, 5.0);
    let b = write_phase_space(&f);
    let mut cur = RecordCursor::open(&b).unwrap();
    assert_eq!(cur.header, f.header);
    let mut seen = Vec::new();
    while let Some(r) = cur.next(&b) {
        seen.push(r);
    }
    assert_eq!(seen, f.records);
    assert_eq!(cur.next(&b), None);
    assert_eq!(cur.index, 5);
    let mut short = b.clone();
    short.truncate(b.len() - 1);
    assert_eq!(RecordCursor::open(&short).err(), Some(PhspError::Validation));
}

#[test]
fn rewrite_header_keeps_records() {
    let f = file(0, 3, Mode::Mode0, 9.0, 1.0, 5.0);
    let mut b = write_phase_space(&f);
    let mut h = f.header;
    h.total_particles_in_source = bits(42.0);
    rewrite_header(&mut b, &h);
    let back = read_phase_space(&b).unwrap();
    assert_eq!(back.header, h);
    assert_eq!(back.records, f.records);
}

#[test]
fn per_record_steps_match_whole_file_operations() {
    let mk = || vec![file(0, 40, Mode::Mode0, 9.0, 1.0, 5.0), file(40, 40, Mode::Mode0, 9.0, 1.0, 5.0)];
    let inputs = mk();
    let headers: Vec<Header> = inputs.iter().map(|p| p.header).collect();
    let combined = combine_headers(&headers, bits(10.0)).unwrap();
    let mut rng = SplitMix::new(99);
    let half = 1u64 << 31;
    let mut kept = Vec::new();
    for r in inputs.iter().flat_map(|p| p.records.iter()) {
        if keep_next(&mut rng, half) {
            kept.push(*r);
        }
    }
    let photons = kept.iter().filter(|r| !r.charged).count() as u32;
    let header = sample_header_of(&combined, kept.len() as u32, photons);
    let whole = sample_combine(&mk(), half, 99, bits(10.0)).unwrap();
    assert_eq!(whole.header, header);
    assert_eq!(whole.records, kept);

    let mut counts = vec![0u64; 3];
    for raw in [0usize, 1, 7, 2, 2] {
        add_to_histogram(&mut counts, raw);
    }
    assert_eq!(counts, vec![1, 1, 3]);
    let r = record(4, Mode::Mode0);
    let w = with_weight(&r, bits(2.5)).unwrap();
    assert_eq!(f32::from_bits(w.weight), 2.5);
    assert_eq!(w.latch, r.latch);
    assert_eq!(with_weight(&r, bits(-2.5)), Err(PhspError::Validation));
    let f = file(0, 6, Mode::Mode2, 9.0, 1.0, 5.0);
    assert_eq!(expected_file_size(&f.header), write_phase_space(&f).len() as u64);
}

#[test]
fn shuffle_choices_cover_all_positions() {
    let mut firsts = std::collections::HashSet::new();
    for seed in 0..200u64 {
        let mut f = file(0, 4, Mode::Mode0, 9.0, 1.0, 5.0);
        randomize(&mut f, seed);
        firsts.insert(f.records[0].latch);
    }
    assert_eq!(firsts.len(), 4);
}
