use oqs_afw::codec::{frodo_pack, frodo_unpack};
use oqs_afw::modify::{modify, Sign};
use oqs_afw::params::{error_correction_limit, FrodoKemParams};

fn sample_ciphertext(len: usize) -> Vec<u8> {
    // a deterministic, irregular byte pattern
    let mut ct = Vec::new();
    let mut x: u64 = 0x12345678;
    for _ in 0..len {
        x = x.wrapping_mul(6364136223846793005).wrapping_add(1442695040888963407);
        ct.push((x >> 33) as u8);
    }
    ct
}

#[test]
fn pack_unpack_identity_on_values() {
    // unpack then pack restores the packed bytes exactly (15-bit lanes)
    let vals: Vec<u16> = (0..64u16).map(|i| (i * 523) % 32768).collect();
    let mut buf = vec![0u8; 120];
    frodo_pack(&vals, 15, &mut buf, 0);
    let back = frodo_unpack(&buf, 0, 64, 15);
    assert_eq!(back, vals);
    let mut buf2 = vec![0u8; 120];
    frodo_pack(&back, 15, &mut buf2, 0);
    assert_eq!(buf, buf2);
}

#[test]
fn pack_unpack_identity_16bit() {
    let vals: Vec<u16> = (0..64u16).map(|i| i.wrapping_mul(40503)).collect();
    let mut buf = vec![0u8; 128];
    frodo_pack(&vals, 16, &mut buf, 0);
    let back = frodo_unpack(&buf, 0, 64, 16);
    assert_eq!(back, vals);
}

#[test]
fn modify_round_trip_is_identity() {
    // adding an amount and subtracting it again restores every byte
    let p = FrodoKemParams::frodokem640aes();
    let len = 9720;
    let original = sample_ciphertext(len);
    for (idx, amount) in [(0usize, 1u16), (17, 4095), (63, 8192), (32, 32768)] {
        let mut ct = original.clone();
        modify(&mut ct, &p, idx, Sign::Plus(amount)).unwrap();
        modify(&mut ct, &p, idx, Sign::Minus(amount)).unwrap();
        assert_eq!(ct, original);
    }
}

#[test]
fn modify_changes_exactly_one_coordinate() {
    let p = FrodoKemParams::frodokem640aes();
    let original = sample_ciphertext(9720);
    let bp_bytes = 15 * 640 * 8 / 8;
    let before = frodo_unpack(&original, bp_bytes, 64, 15);
    let mut ct = original.clone();
    modify(&mut ct, &p, 10, Sign::Plus(100)).unwrap();
    let after = frodo_unpack(&ct, bp_bytes, 64, 15);
    for j in 0..64 {
        if j == 10 {
            assert_eq!(after[j] as u32, (before[j] as u32 + 100) % 32768);
        } else {
            assert_eq!(after[j], before[j]);
        }
    }
    // bytes outside the packed C region are untouched
    assert_eq!(&ct[..bp_bytes], &original[..bp_bytes]);
}

#[test]
fn modify_wraps_modulo_q() {
    let p = FrodoKemParams::frodokem640aes();
    let original = sample_ciphertext(9720);
    let bp_bytes = 15 * 640 * 8 / 8;
    let before = frodo_unpack(&original, bp_bytes, 64, 15);
    let mut ct = original.clone();
    // subtracting more than the current value wraps around q
    modify(&mut ct, &p, 0, Sign::Minus(32767)).unwrap();
    let after = frodo_unpack(&ct, bp_bytes, 64, 15);
    assert_eq!(after[0] as u32, (before[0] as u32 + 32768 - 32767) % 32768);
}

#[test]
fn error_correction_limit_values() {
    let p640 = FrodoKemParams::frodokem640aes();
    assert_eq!(error_correction_limit(&p640), 4096);
    let p1344 = FrodoKemParams::frodokem1344aes();
    assert_eq!(error_correction_limit(&p1344), 2048);
}
