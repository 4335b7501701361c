use oqs_afw::measure::{external_sample, InternalFrodoMeasurments, MeasureSource};
use oqs_afw::oracle::{Measurments, OqsStatus};
use oqs_afw::plaintexts::{modify_ct, tally_rejections, PlaintextStore};
use oqs_afw::spectrum::distance_spectrum;
use oqs_afw::stats::{parse_tagged_flag, parse_tagged_value, starts_with, Statistic, Measurement};
use oqs_afw::kembuf::{KemBuf, Plaintext};
use oqs_afw::oracle::KemWithRejectionSampling;
use oqs_afw::params::{FrodoKemParams, KemLengths};
use oqs_afw::plaintexts::find_min_max_pt;
use oqs_afw::synthetic::SyntheticFrodo;

#[test]
fn statistic_identity_and_combine() {
    let a = Statistic {
        success: 2,
        trials: 3,
        measurements: vec![Measurement { success: true, oracle_calls: 10, wrong_bits: 0 }],
    };
    let b = Statistic {
        success: 1,
        trials: 2,
        measurements: vec![
            Measurement { success: false, oracle_calls: 99, wrong_bits: 5 },
            Measurement { success: true, oracle_calls: 7, wrong_bits: 0 },
        ],
    };
    let id = Statistic::identity();
    assert_eq!(id.success, 0);
    assert_eq!(id.trials, 0);
    assert_eq!(id.measurements.len(), 0);
    let c = id.combine(&a).combine(&b);
    assert_eq!(c.success, 3);
    assert_eq!(c.trials, 5);
    assert_eq!(c.measurements.len(), 3);
    assert_eq!(c.measurements[1].oracle_calls, 99);
}

#[test]
fn result_line_parsing() {
    let succ_prefix = b"Success? ".to_vec();
    let calls_prefix = b"Decryption oracle calls: ".to_vec();
    assert!(starts_with(&b"Success? 1".to_vec(), &succ_prefix));
    assert!(!starts_with(&b"Success?".to_vec(), &succ_prefix));
    assert_eq!(parse_tagged_flag(&b"Success? 1".to_vec(), &succ_prefix), Some(true));
    assert_eq!(parse_tagged_flag(&b"Success? 0".to_vec(), &succ_prefix), Some(false));
    assert_eq!(parse_tagged_flag(&b"Success? x".to_vec(), &succ_prefix), None);
    assert_eq!(parse_tagged_flag(&b"nope".to_vec(), &succ_prefix), None);
    assert_eq!(
        parse_tagged_value(&b"Decryption oracle calls: 1234".to_vec(), &calls_prefix),
        Some(1234)
    );
    assert_eq!(parse_tagged_value(&b"Decryption oracle calls: ".to_vec(), &calls_prefix), None);
    assert_eq!(parse_tagged_value(&b"Decryption oracle calls: 12x".to_vec(), &calls_prefix), None);
}

#[test]
fn oracle_status_taxonomy() {
    assert!(matches!(OqsStatus::from_code(0), OqsStatus::OqsSuccess));
    assert!(matches!(OqsStatus::from_code(50), OqsStatus::OqsExternalLibErrorOpenssl));
    assert!(matches!(OqsStatus::from_code(7), OqsStatus::OqsError));
    assert!(OqsStatus::from_code(0).to_result().is_ok());
    assert!(OqsStatus::from_code(1).to_result().is_err());
}

#[test]
fn external_sample_detects_migration() {
    let same = Measurments { start: 100, stop: 400, cpu_start: 3, cpu_stop: 3, memcmp1: 1, memcmp2: 1 };
    assert_eq!(external_sample(&same), Some(300));
    let moved = Measurments { start: 100, stop: 400, cpu_start: 3, cpu_stop: 4, memcmp1: 1, memcmp2: 1 };
    assert_eq!(external_sample(&moved), None);
}

#[test]
fn oracle_latency_model() {
    // outcomes decoded from raw readings: 0 unequal, 1 equal, 2 not run
    let m = |m1: u8, m2: u8| {
        InternalFrodoMeasurments::new(Measurments {
            start: 0,
            stop: 0,
            cpu_start: 0,
            cpu_stop: 1,
            memcmp1: m1,
            memcmp2: m2,
        })
    };
    assert_eq!(m(2, 2).oracle_latency(), None);
    assert_eq!(m(0, 0).oracle_latency(), Some(100));
    assert_eq!(m(1, 0).oracle_latency(), Some(150));
    assert_eq!(m(1, 1).oracle_latency(), Some(250));
}

#[test]
fn measurments_decoding() {
    let raw = Measurments { start: 5, stop: 15, cpu_start: 0, cpu_stop: 0, memcmp1: 1, memcmp2: 0 };
    let d = InternalFrodoMeasurments::new(raw);
    assert_eq!(d.memcmp_timing(), Some(10));
    assert_eq!(d.memcmp1(), Some(true));
    assert_eq!(d.memcmp2(), Some(false));
    let raw2 = Measurments { start: 5, stop: 15, cpu_start: 0, cpu_stop: 2, memcmp1: 2, memcmp2: 2 };
    let d2 = InternalFrodoMeasurments::new(raw2);
    assert_eq!(d2.memcmp_timing(), None);
    assert_eq!(d2.memcmp1(), None);
}

#[test]
fn prep_thread_oracle_source_never_pins() {
    assert!(MeasureSource::Oracle.prep_thread().is_ok());
}

#[test]
fn plaintext_store_caps_each_bucket() {
    let mut db = PlaintextStore::new(2);
    assert!(db.add_pt(&b"a".to_vec(), 5));
    assert!(db.add_pt(&b"b".to_vec(), 5));
    // the cap is reached: offers are counted but not stored
    assert!(!db.add_pt(&b"c".to_vec(), 5));
    assert_eq!(db.count(5), 2);
    assert_eq!(db.count(6), 0);
    assert!(db.add_pt(&b"d".to_vec(), 6));
    assert_eq!(db.count(6), 1);
}

#[test]
fn plaintext_store_round_robin() {
    let mut db = PlaintextStore::new(10);
    db.add_pt(&b"a".to_vec(), 3);
    db.add_pt(&b"b".to_vec(), 3);
    db.add_pt(&b"c".to_vec(), 3);
    assert_eq!(db.get_next_iter(3, false), Some(b"a".to_vec()));
    assert_eq!(db.get_next_iter(3, false), Some(b"b".to_vec()));
    assert_eq!(db.get_next_iter(3, false), Some(b"c".to_vec()));
    // the walk is exhausted; a reset starts over
    assert_eq!(db.get_next_iter(3, false), None);
    assert_eq!(db.get_next_iter(3, true), Some(b"a".to_vec()));
    // an empty bucket never yields
    assert_eq!(db.get_next_iter(9, false), None);
}

#[test]
fn synthetic_rejection_counts_are_deterministic() {
    let params = FrodoKemParams { PARAM_N: 16, PARAM_NBAR: 8, PARAM_B: 2, PARAM_LOGQ: 15,
        PARAM_QMAX: 32768 };
    let lengths = KemLengths { public_key: 32, secret_key: 32, ciphertext: 360, shared_secret: 16 };
    let mut oracle = SyntheticFrodo::new(params, lengths, vec![0u16; 64], 0).unwrap();
    let mut pt = Plaintext::new(16);
    pt.data[0] = 5;
    let a = oracle.num_rejections(&pt).unwrap();
    let b = oracle.num_rejections(&pt).unwrap();
    assert_eq!(a, b);
    assert_eq!(a, 6);
    let ex = find_min_max_pt(&mut oracle, 50).unwrap();
    assert!(ex.min_rejections <= ex.max_rejections);
    assert_eq!(ex.min_pt.data.len(), 16);
    assert_eq!(ex.max_pt.data.len(), 16);
}

#[test]
fn modify_ct_keeps_length() {
    let mut ct = vec![0u8; 64];
    modify_ct(&mut ct, 20).unwrap();
    assert_eq!(ct.len(), 64);
    let weight: u32 = ct.iter().map(|b| b.count_ones()).sum();
    assert_eq!(weight, 20);
}

#[test]
fn rejection_tally_grows_histogram() {
    let mut counts: Vec<u64> = Vec::new();
    tally_rejections(&mut counts, 3).unwrap();
    tally_rejections(&mut counts, 3).unwrap();
    tally_rejections(&mut counts, 1).unwrap();
    assert_eq!(counts, vec![0, 1, 0, 2]);
}

#[test]
fn distance_spectrum_counts_pairs() {
    // bits set at positions 0, 1 and 4 of a 7-bit cycle:
    // distances 1 (0-1), 3 (1-4) and min(4, 3) = 3 (0-4)
    let bits = vec![0b0001_0011u8];
    let ds = distance_spectrum(&bits, 7).unwrap();
    assert_eq!(ds.len(), 5);
    assert_eq!(ds[1], 1);
    assert_eq!(ds[3], 2);
    assert_eq!(ds[0], 0);
    assert_eq!(ds[2], 0);
    // too short a buffer is rejected
    assert!(distance_spectrum(&bits, 9).is_none());
}
