use oqs_afw::mutbit::mutbit;

#[test]
fn test_mutbit() {
    let mut actual = vec![0b0000_1100u8, 0b0000_0010u8];
    let expect = vec![0b0000_0101u8, 0b0000_0100u8];

    let bit = mutbit(&actual, 0).unwrap();
    assert!(!bit.get(&actual));
    bit.set(&mut actual, true); // change from 0 to 1
    assert!(bit.get(&actual));

    let bit = mutbit(&actual, 1).unwrap();
    assert!(!bit.get(&actual));
    bit.set(&mut actual, false); // change from 0 to 0
    assert!(!bit.get(&actual));

    let bit = mutbit(&actual, 2).unwrap();
    assert!(bit.get(&actual));
    bit.set(&mut actual, true); // change from 1 to 1
    assert!(bit.get(&actual));

    let bit = mutbit(&actual, 3).unwrap();
    assert!(bit.get(&actual));
    bit.set(&mut actual, false); // change from 1 to 0
    assert!(!bit.get(&actual));

    let bit = mutbit(&actual, 9).unwrap();
    assert!(bit.get(&actual));
    bit.flip(&mut actual); // flip from 1 to 0
    assert!(!bit.get(&actual));

    let bit = mutbit(&actual, 10).unwrap();
    assert!(!bit.get(&actual));
    bit.flip(&mut actual); // flip from 0 to 1
    assert!(bit.get(&actual));

    // Out of bounds should return an error
    assert!(mutbit(&actual, 16).is_err());

    assert_eq!(actual, expect);
}
