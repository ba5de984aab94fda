//! The 24-byte form of a spending record, in a real host environment.

use payment_router::{pack_spending, unpack_spending};
use soroban_sdk::{BytesN, Env};

#[test]
fn packed_record_is_big_endian() {
    let env = Env::default();
    let packed = pack_spending(&env, 0x0102030405060708, 0x1112131415161718191a1b1c1d1e1f20);
    assert_eq!(
        packed.to_array(),
        [
            0x01, 0x02, 0x03, 0x04, 0x05, 0x06, 0x07, 0x08, 0x11, 0x12, 0x13, 0x14, 0x15, 0x16,
            0x17, 0x18, 0x19, 0x1a, 0x1b, 0x1c, 0x1d, 0x1e, 0x1f, 0x20,
        ]
    );
}

#[test]
fn negative_amounts_are_packed_in_twos_complement() {
    let env = Env::default();
    let mut expected = [0xffu8; 24];
    expected[..8].copy_from_slice(&[0; 8]);
    assert_eq!(pack_spending(&env, 0, -1).to_array(), expected);
}

#[test]
fn unpacking_reads_the_bytes() {
    let env = Env::default();
    let mut bytes = [0u8; 24];
    bytes[7] = 2;
    bytes[22] = 1;
    bytes[23] = 3;
    assert_eq!(unpack_spending(&BytesN::from_array(&env, &bytes)), (2, 259));
    bytes[8] = 0x80;
    bytes[22] = 0;
    bytes[23] = 0;
    assert_eq!(unpack_spending(&BytesN::from_array(&env, &bytes)), (2, i128::MIN));
}

#[test]
fn unpacking_inverts_packing() {
    let env = Env::default();
    for time in [0, 1, 86_400, u64::MAX] {
        for amount in [i128::MIN, -1, 0, 1, 255, 256, 10_000_000_000_000, i128::MAX] {
            let packed = pack_spending(&env, time, amount);
            assert_eq!(unpack_spending(&packed), (time, amount));
        }
    }
}

#[test]
fn packing_inverts_unpacking() {
    let env = Env::default();
    let mut bytes = [0u8; 24];
    for i in 0..24 {
        bytes[i] = (37 * i + 200) as u8;
    }
    let packed = BytesN::from_array(&env, &bytes);
    let (time, amount) = unpack_spending(&packed);
    assert_eq!(pack_spending(&env, time, amount), packed);
    assert_eq!(time, u64::from_be_bytes(bytes[..8].try_into().unwrap()));
    assert_eq!(amount, i128::from_be_bytes(bytes[8..].try_into().unwrap()));
}
