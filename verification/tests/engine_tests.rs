use oqs_afw::drivers::{baseline_memcmp_frodo, crack_s, fujisaki_okamoto_baseline_cache,
    fujisaki_okamoto_baseline_multipoint_profiling, profile};
use oqs_afw::engine::DiscardSink;
use oqs_afw::engine::{mod_measure, mod_measure_interleaved};
use oqs_afw::kembuf::{Ciphertext, KemBuf, PublicKey, SecretKey, SharedSecret};
use oqs_afw::measure::MeasureSource;
use oqs_afw::oracle::{FrodoKem, Kem};
use oqs_afw::params::{FrodoKemParams, KemLengths};
use oqs_afw::recorder::Recorder;
use oqs_afw::engine::search_modification;
use oqs_afw::synthetic::SyntheticFrodo;

// a small FrodoKEM-like parameter set for fast synthetic campaigns:
// 8x8 C matrix, 15-bit lanes, error-correction limit 4096
fn tiny_params() -> FrodoKemParams {
    FrodoKemParams { PARAM_N: 16, PARAM_NBAR: 8, PARAM_B: 2, PARAM_LOGQ: 15, PARAM_QMAX: 32768 }
}

fn tiny_lengths() -> KemLengths {
    KemLengths { public_key: 32, secret_key: 32, ciphertext: 360, shared_secret: 16 }
}

fn oracle_with_threshold(x0: u16, migrate_every: u64) -> SyntheticFrodo {
    // the injected threshold: the decoder flips at perturbation x0, so the
    // hidden error of the probed coordinate is limit - x0
    let mut eppp = vec![0u16; 64];
    for row7 in 56..64 {
        eppp[row7] = 4096 - x0;
    }
    SyntheticFrodo::new(tiny_params(), tiny_lengths(), eppp, migrate_every).unwrap()
}

fn encapsulated(oracle: &mut SyntheticFrodo) -> (Ciphertext, SharedSecret, SecretKey) {
    let lens = oracle.lengths();
    let mut pk = PublicKey::new(lens.public_key);
    let mut sk = SecretKey::new(lens.secret_key);
    oracle.keypair(&mut pk, &mut sk).unwrap();
    let mut ct = Ciphertext::new(lens.ciphertext);
    let mut ss = SharedSecret::new(lens.shared_secret);
    oracle.encaps(&mut ct, &mut ss, &pk).unwrap();
    (ct, ss, sk)
}

#[test]
fn end_to_end_search_recovers_injected_threshold() {
    // FrodoKEM-640-AES-like buffer configuration for the real parameter
    // set: these are the fixed lengths of that set
    let lens640 = FrodoKemParams::frodokem640aes_lengths();
    assert_eq!(lens640.public_key, 9616);
    assert_eq!(lens640.ciphertext, 9720);
    assert_eq!(lens640.shared_secret, 16);

    // the synthetic campaign itself runs on the small parameter set
    let mut oracle = oracle_with_threshold(37, 0);
    let (mut ct, mut ss, mut sk) = encapsulated(&mut oracle);
    let source = MeasureSource::Internal;
    let index = (8 - 1) * 8;

    // a warmup series fixes the outlier cutoff, as the campaign driver
    // does
    let warm = Recorder::saveall(String::from("warmup"), None);
    let (warm, gate) = mod_measure(
        &mut oracle,
        &source,
        0,
        index,
        1600,
        &tiny_params(),
        &mut ct,
        &mut ss,
        &mut sk,
        warm,
    )
    .unwrap();
    assert!(!gate);
    let mean = warm.aggregated_value().unwrap();
    let minv = warm.min().unwrap();
    let cutoff = mean + (mean - minv);

    let mut recorders = Vec::new();
    let outcome = search_modification(
        &mut oracle,
        &source,
        0,
        index,
        1600,
        1600,
        cutoff,
        &mut ct,
        &mut ss,
        &mut sk,
        37,
        &mut recorders,
        &mut DiscardSink,
    )
    .unwrap();
    assert_eq!(outcome.value, 37);
    // the confirmation pass ran exactly twice: once per bound
    assert_eq!(outcome.confirmation_probes, 2);
}

#[test]
fn crack_s_recovers_every_coordinate() {
    let mut oracle = oracle_with_threshold(37, 0);
    let source = MeasureSource::Internal;
    let mut recorders = Vec::new();
    let stats = crack_s(&mut oracle, 800, 800, 800, &source, 1, &mut recorders, &mut DiscardSink)
        .unwrap();
    assert_eq!(stats.indexes, 8);
    assert_eq!(stats.successes, 8);
    assert_eq!(stats.skipped, 0);
    assert_eq!(stats.outcomes.len(), 8);
    for o in &stats.outcomes {
        assert_eq!(o.recovered_x0, Some(37));
        assert_eq!(o.truth, 4096 - 37);
        assert!(o.matched);
    }
    // the campaign's probe series stay with the caller
    assert!(recorders.len() > 0);
}

#[test]
fn dropout_below_quarter_keeps_quality_gate_silent() {
    // one in five timed samples reports a core migration: 20% dropout
    let mut oracle = oracle_with_threshold(100, 5);
    let (mut ct, mut ss, mut sk) = encapsulated(&mut oracle);
    let rec = Recorder::saveall(String::from("drop20"), None);
    let (rec, gate) = mod_measure(
        &mut oracle,
        &MeasureSource::Internal,
        0,
        0,
        1000,
        &tiny_params(),
        &mut ct,
        &mut ss,
        &mut sk,
        rec,
    )
    .unwrap();
    assert_eq!(rec.len(), 800);
    assert!(!gate);
}

#[test]
fn total_dropout_fires_quality_gate() {
    // every timed sample reports a core migration
    let mut oracle = oracle_with_threshold(100, 1);
    let (mut ct, mut ss, mut sk) = encapsulated(&mut oracle);
    let rec = Recorder::saveall(String::from("drop100"), None);
    let (rec, gate) = mod_measure(
        &mut oracle,
        &MeasureSource::External,
        0,
        0,
        100,
        &tiny_params(),
        &mut ct,
        &mut ss,
        &mut sk,
        rec,
    )
    .unwrap();
    assert_eq!(rec.len(), 0);
    assert!(gate);
}

#[test]
fn interleaved_measurement_keeps_series_apart() {
    let mut oracle = oracle_with_threshold(37, 0);
    let (mut ct, mut ss, mut sk) = encapsulated(&mut oracle);
    // amount 1 stays on the slow path, amount 8191 flips the decoder
    let amounts = vec![1u16, 8191];
    let recs = mod_measure_interleaved(
        &mut oracle,
        &MeasureSource::Internal,
        &amounts,
        56,
        200,
        &tiny_params(),
        &mut ct,
        &mut ss,
        &mut sk,
    )
    .unwrap();
    assert_eq!(recs.len(), 2);
    assert_eq!(recs[0].len(), 200);
    assert_eq!(recs[1].len(), 200);
    assert!(recs[0].aggregated_value().unwrap() >= 250);
    assert!(recs[1].aggregated_value().unwrap() < 150);
}

#[test]
fn profile_separates_the_two_extremes() {
    let mut oracle = oracle_with_threshold(37, 0);
    let (mut ct, _ss, mut sk) = encapsulated(&mut oracle);
    let source = MeasureSource::Internal;
    let p = profile(&mut oracle, 800, 800, &source, &mut sk, &mut ct).unwrap();
    assert_eq!(p.recorders.len(), 3);
    // slow behaviour (~250 cycles) vs fast behaviour (~100 cycles): the
    // threshold sits between them
    assert!(p.threshold > 100 && p.threshold < 270);
    assert!(p.cutoff >= 250);
}

#[test]
fn cache_baseline_collects_two_series_per_encapsulation() {
    let mut oracle = oracle_with_threshold(37, 0);
    let source = MeasureSource::Internal;
    let recs = fujisaki_okamoto_baseline_cache(&mut oracle, 64, 2, 2, 32, &source).unwrap();
    assert_eq!(recs.len(), 8);
    // per encapsulation: the minor series first (slow path), then the
    // major one (fast path)
    assert!(recs[0].aggregated_value().unwrap() >= 250);
    assert!(recs[1].aggregated_value().unwrap() < 150);
    let mut oracle2 = oracle_with_threshold(37, 0);
    let recs2 =
        fujisaki_okamoto_baseline_multipoint_profiling(&mut oracle2, 64, 1, 1, 32).unwrap();
    assert_eq!(recs2.len(), 2);
}

#[test]
fn baseline_collects_three_series_per_trial() {
    let mut oracle = oracle_with_threshold(37, 0);
    let source = MeasureSource::Internal;
    let recs = baseline_memcmp_frodo(&mut oracle, 200, 100, &source, 2).unwrap();
    assert_eq!(recs.len(), 6);
    // unmodified and minimally modified series stay on the slow path, the
    // maximally modified series is fast
    assert!(recs[0].aggregated_value().unwrap() >= 250);
    assert!(recs[1].aggregated_value().unwrap() >= 250);
    assert!(recs[2].aggregated_value().unwrap() < 150);
}
