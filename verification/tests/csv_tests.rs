use oqs_afw::csvio::{csv_encode, csv_parse, dec_parse, recorder_columns, table_of_columns,
    u64_to_dec, columns_of_table};
use oqs_afw::recorder::Recorder;

fn counts(v: &[u64]) -> std::collections::BTreeMap<u64, usize> {
    let mut m = std::collections::BTreeMap::new();
    for x in v {
        *m.entry(*x).or_insert(0) += 1;
    }
    m
}

#[test]
fn decimal_round_trip() {
    for n in [0u64, 1, 9, 10, 37, 255, 9999, 123456789, u64::MAX] {
        let d = u64_to_dec(n);
        assert_eq!(String::from_utf8(d.clone()).unwrap(), format!("{}", n));
        assert_eq!(dec_parse(&d), Some(n));
    }
    assert_eq!(dec_parse(&vec![]), None);
    assert_eq!(dec_parse(&b"12a".to_vec()), None);
    // one above the largest u64 must be rejected
    assert_eq!(dec_parse(&b"18446744073709551616".to_vec()), None);
    assert_eq!(dec_parse(&b"18446744073709551615".to_vec()), Some(u64::MAX));
}

#[test]
fn csv_round_trip_preserves_counts() {
    // a ragged table of three series
    let names: Vec<Vec<u8>> = vec![
        b"0-WARMUP[56]".to_vec(),
        b"0-BINSEARCH[56](37){4096}".to_vec(),
        b"short".to_vec(),
    ];
    let cols: Vec<Vec<u64>> = vec![
        vec![250, 250, 251, 263, 10],
        vec![100, 101, 102],
        vec![],
    ];
    let bytes = csv_encode(&names, &cols);
    let parsed = csv_parse(&bytes).unwrap();
    assert_eq!(parsed.names, names);
    assert_eq!(parsed.columns, cols);
    for j in 0..cols.len() {
        assert_eq!(counts(&parsed.columns[j]), counts(&cols[j]));
    }
}

#[test]
fn csv_round_trip_from_recorders() {
    let mut r1 = Recorder::saveall(String::from("alpha"), None);
    let mut r2 = Recorder::saveall(String::from("beta"), Some(50));
    for v in [30u64, 10, 20, 10] {
        r1.record(v).unwrap();
    }
    for v in [60u64, 40, 45] {
        r2.record(v).unwrap();
    }
    let recs = vec![r1, r2];
    let names: Vec<Vec<u8>> = recs.iter().map(|r| r.name().clone().into_bytes()).collect();
    let cols = recorder_columns(&recs);
    let bytes = csv_encode(&names, &cols);
    let parsed = csv_parse(&bytes).unwrap();
    assert_eq!(parsed.names, names);
    // the retained multisets survive the round trip
    assert_eq!(counts(&parsed.columns[0]), counts(&[10, 10, 20, 30]));
    assert_eq!(counts(&parsed.columns[1]), counts(&[40, 45]));
}

#[test]
fn csv_matches_the_reference_writer() {
    // the verified encoder produces the same bytes as the reference CSV
    // writer (which appends one trailing newline)
    let names: Vec<Vec<u8>> = vec![b"a".to_vec(), b"b".to_vec()];
    let cols: Vec<Vec<u64>> = vec![vec![1, 3], vec![2]];
    let mine = csv_encode(&names, &cols);

    let mut w = csv::WriterBuilder::new().from_writer(Vec::new());
    w.write_record(["a", "b"]).unwrap();
    w.write_record(["1", "2"]).unwrap();
    w.write_record(["3", ""]).unwrap();
    let reference = w.into_inner().unwrap();
    let mut mine_with_newline = mine.clone();
    mine_with_newline.push(b'\n');
    assert_eq!(mine_with_newline, reference);

    // and the reference reader parses the verified encoder's output back
    // to the same table
    let mut rdr = csv::ReaderBuilder::new().has_headers(false).from_reader(&mine[..]);
    let rows: Vec<Vec<String>> = rdr
        .records()
        .map(|r| r.unwrap().iter().map(|s| s.to_string()).collect())
        .collect();
    assert_eq!(rows[0], vec!["a", "b"]);
    assert_eq!(rows[1], vec!["1", "2"]);
    assert_eq!(rows[2], vec!["3", ""]);
}

#[test]
fn table_round_trip() {
    let cols: Vec<Vec<u64>> = vec![vec![5, 6, 7], vec![], vec![9]];
    let table = table_of_columns(&cols);
    assert_eq!(table.len(), 3);
    let back = columns_of_table(&table, 3).unwrap();
    assert_eq!(back, cols);
}

#[test]
fn malformed_tables_are_rejected() {
    // a filled cell below a blank one is not a ragged column-major table
    let table = vec![vec![None], vec![Some(4u64)]];
    assert!(columns_of_table(&table, 1).is_none());
    // a stray non-numeric cell fails the parse
    assert!(csv_parse(&b"h\n1\nx".to_vec()).is_none());
}
