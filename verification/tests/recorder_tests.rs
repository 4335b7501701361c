use oqs_afw::recorder::Recorder;
use oqs_afw::csvio::{recorder_columns, table_of_columns};

#[test]
fn name() {
    let mut vr = vec![];
    for i in 0..3 {
        vr.push(Recorder::saveall(format!("test {}", i), None));
    }

    for i in 0..3u64 {
        for v in 0..3u64 {
            vr[i as usize].record(v % (i + 1)).unwrap();
        }
    }
    vr[0].record(10).unwrap();

    let cols = recorder_columns(&vr);
    let table = table_of_columns(&cols);

    let mut flat: Vec<Option<u64>> = Vec::new();
    for row in &table {
        for cell in row {
            flat.push(*cell);
        }
    }
    let mut it = flat.into_iter();

    assert_eq!(Some(Some(0)), it.next()); // row 0
    assert_eq!(Some(Some(0)), it.next()); // row 0
    assert_eq!(Some(Some(0)), it.next()); // row 0
    assert_eq!(Some(Some(0)), it.next()); // row 1
    assert_eq!(Some(Some(0)), it.next()); // row 1
    assert_eq!(Some(Some(1)), it.next()); // row 1
    assert_eq!(Some(Some(0)), it.next()); // row 2
    assert_eq!(Some(Some(1)), it.next()); // row 2
    assert_eq!(Some(Some(2)), it.next()); // row 2
    assert_eq!(Some(Some(10)), it.next()); // row 3
    assert_eq!(Some(None), it.next()); // row 3
    assert_eq!(Some(None), it.next()); // row 3
    assert_eq!(None, it.next()); // iterator empty
}

#[test]
fn cutoff_drops_only_from_aggregate() {
    // samples at or above the cutoff leave the aggregate but still drive
    // the minimum
    let mut r = Recorder::saveall(String::from("series"), Some(100));
    r.record(150).unwrap();
    assert_eq!(r.len(), 0);
    assert!(r.min().is_err());
    assert!(r.aggregated_value().is_err());
    r.record(40).unwrap();
    r.record(99).unwrap();
    r.record(100).unwrap();
    assert_eq!(r.len(), 2);
    // the minimum saw every sample, retained or not
    assert_eq!(r.min().unwrap(), 40);
    // the mean is over retained samples only: (40 + 99) / 2
    assert_eq!(r.aggregated_value().unwrap(), 69);
}

#[test]
fn min_tracks_dropped_samples() {
    let mut r = Recorder::saveall(String::from("m"), Some(50));
    r.record(60).unwrap();
    r.record(55).unwrap();
    r.record(10).unwrap();
    // 10 was retained; the running minimum is 10
    assert_eq!(r.min().unwrap(), 10);
    // a dropped sample below the current minimum still lowers it
    let mut r2 = Recorder::saveall(String::from("m2"), Some(5));
    r2.record(3).unwrap();
    r2.record(7).unwrap();
    assert_eq!(r2.min().unwrap(), 3);
    r2.record(1).unwrap();
    assert_eq!(r2.min().unwrap(), 1);
}

#[test]
fn min_is_non_increasing() {
    let mut r = Recorder::saveall(String::from("mono"), None);
    let samples = [50u64, 70, 30, 30, 90, 10, 11];
    let mut last = u64::MAX;
    for s in samples {
        r.record(s).unwrap();
        let m = r.min().unwrap();
        assert!(m <= last);
        last = m;
    }
    assert_eq!(last, 10);
}

#[test]
fn raising_cutoff_only_adds_samples() {
    // the same stream through two cutoffs: the lower cutoff's retained
    // samples are a sub-multiset of the higher cutoff's
    let stream = [10u64, 20, 30, 20, 40, 50, 20, 60];
    let mut low = Recorder::saveall(String::from("low"), Some(30));
    let mut high = Recorder::saveall(String::from("high"), Some(45));
    for s in stream {
        low.record(s).unwrap();
        high.record(s).unwrap();
    }
    let lv = low.values();
    let hv = high.values();
    for v in &lv {
        let in_low = lv.iter().filter(|x| *x == v).count();
        let in_high = hv.iter().filter(|x| *x == v).count();
        assert!(in_low <= in_high);
    }
    assert_eq!(lv, vec![10, 20, 20, 20]);
    assert_eq!(hv, vec![10, 20, 20, 20, 30, 40]);
}

#[test]
fn nth_lowest_yields_distinct_values() {
    let mut r = Recorder::saveall(String::from("n"), None);
    for s in [5u64, 3, 5, 1, 5] {
        r.record(s).unwrap();
    }
    // three distinct values were retained: 1, 3, 5
    assert_eq!(r.nth_lowest_value(0), None);
    assert_eq!(r.nth_lowest_value(1), Some(1));
    assert_eq!(r.nth_lowest_value(2), Some(3));
    assert_eq!(r.nth_lowest_value(3), Some(5));
    assert_eq!(r.nth_lowest_value(4), None);
    let mut r2 = Recorder::saveall(String::from("n2"), None);
    r2.record(5).unwrap();
    r2.record(5).unwrap();
    // only one distinct value exists
    assert_eq!(r2.nth_lowest_value(2), None);
}

#[test]
fn sample_rank_counts_multiplicity() {
    let mut r = Recorder::saveall(String::from("rank"), None);
    for s in [5u64, 3, 5, 1, 5] {
        r.record(s).unwrap();
    }
    assert_eq!(r.sample_at_rank(0), None);
    assert_eq!(r.sample_at_rank(1), Some(1));
    assert_eq!(r.sample_at_rank(2), Some(3));
    assert_eq!(r.sample_at_rank(3), Some(5));
    assert_eq!(r.sample_at_rank(5), Some(5));
    assert_eq!(r.sample_at_rank(6), None);
}

#[test]
fn percentage_lte_exact() {
    let mut r = Recorder::saveall(String::from("p"), None);
    for s in [10u64, 20, 30, 40] {
        r.record(s).unwrap();
    }
    // hundredths of a percent
    assert_eq!(r.percentage_lte(9), 0);
    assert_eq!(r.percentage_lte(10), 2500);
    assert_eq!(r.percentage_lte(25), 5000);
    assert_eq!(r.percentage_lte(40), 10000);
    assert_eq!(r.percentage_lte(1000), 10000);
}

#[test]
fn median_is_the_middle_retained_sample() {
    let mut r = Recorder::saveall(String::from("med"), None);
    assert!(r.median().is_err());
    for s in [50u64, 10, 30] {
        r.record(s).unwrap();
    }
    // sorted: 10, 30, 50
    assert_eq!(r.median().unwrap(), 30);
    r.record(70).unwrap();
    // sorted: 10, 30, 50, 70 — the upper median
    assert_eq!(r.median().unwrap(), 50);
}

#[test]
fn minval_recorder_tracks_minimum_only() {
    let mut r = Recorder::minval();
    assert!(r.min().is_err());
    r.record(30).unwrap();
    r.record(12).unwrap();
    r.record(44).unwrap();
    assert_eq!(r.len(), 3);
    assert_eq!(r.min().unwrap(), 12);
    assert_eq!(r.aggregated_value().unwrap(), 12);
    assert_eq!(r.percentage_lte(13), 10000);
    assert_eq!(r.percentage_lte(12), 0);
}
