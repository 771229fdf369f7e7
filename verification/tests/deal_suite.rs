use rand::random;
use s6_hcs::deal::{get_round_keys, DEAL128};
use s6_hcs::deal_modes::DEALMode;
use s6_hcs::des::DES;

#[test]
fn test_deal() {
    let key = DEAL128::generate_key();
    let data = random();

    let cr = DEAL128::with_key(key);
    let enc = cr.encrypt(data);
    let dec = cr.decrypt(enc);
    assert_eq!(data, dec);
}

#[test]
fn test_all() {
    let data: Vec<u128> = (0..1024).map(|_| random()).collect();
    let key = DEAL128::generate_key();

    let enc = DEALMode::ECB.encrypt(data.clone(), key);
    let new_data = DEALMode::ECB.decrypt(enc, key).unwrap();
    assert_eq!(new_data, data);

    let enc = DEALMode::CBC.encrypt(data.clone(), key);
    let new_data = DEALMode::CBC.decrypt(enc, key).unwrap();
    assert_eq!(new_data, data);

    let enc = DEALMode::CFB.encrypt(data.clone(), key);
    let new_data = DEALMode::CFB.decrypt(enc, key).unwrap();
    assert_eq!(new_data, data);

    let enc = DEALMode::OFB.encrypt(data.clone(), key);
    let new_data = DEALMode::OFB.decrypt(enc, key).unwrap();
    assert_eq!(new_data, data);

    let enc = DEALMode::CTR.encrypt(data.clone(), key);
    let new_data = DEALMode::CTR.decrypt(enc, key).unwrap();
    assert_eq!(new_data, data);

    let enc = DEALMode::RD.encrypt(data.clone(), key);
    let new_data = DEALMode::RD.decrypt(enc, key).unwrap();
    assert_eq!(new_data, data);

    let enc = DEALMode::RDH.encrypt(data.clone(), key);
    let new_data = DEALMode::RDH.decrypt(enc, key).unwrap();
    assert_eq!(new_data, data);
}

#[test]
fn test_deal_zero_fixture() {
    let cr = DEAL128::with_key(0);
    let enc = cr.encrypt(0);
    assert_eq!(enc, 31936493422289934292326449416370893728u128);
    assert_eq!(cr.decrypt(enc), 0);
}

#[test]
fn test_des_is_deterministic_permutation() {
    let des = DES::new(0x0123_4567_89ab_cdef);
    assert_eq!(des.encrypt(0), des.encrypt(0));
    assert_ne!(des.encrypt(0), des.encrypt(1));
}

#[test]
fn test_round_keys_schedule() {
    let rk = get_round_keys(0);
    assert_eq!(rk[0], rk[1]);
    assert_ne!(rk[2], rk[0]);
}

#[test]
fn test_rdh_tamper() {
    let key = DEAL128::generate_key();
    let data: Vec<u128> = vec![1, 2, 3];
    let mut enc = DEALMode::RDH.encrypt(data, key);
    enc[3] = !enc[3];
    assert!(DEALMode::RDH.decrypt(enc, key).is_err());
}

#[test]
fn test_rdh_every_payload_bit_flip() {
    let key = DEAL128::generate_key();
    let data: Vec<u128> = vec![7, 11, 13];
    let enc = DEALMode::RDH.encrypt(data.clone(), key);
    assert_eq!(enc.len(), 5);
    for block in 2..enc.len() {
        for bit in 0..128 {
            let mut tampered = enc.clone();
            tampered[block] ^= 1u128 << bit;
            assert!(
                DEALMode::RDH.decrypt(tampered, key).is_err(),
                "flip at block {} bit {} went unnoticed",
                block,
                bit
            );
        }
    }
    assert_eq!(DEALMode::RDH.decrypt(enc, key).unwrap(), data);
}

#[test]
fn test_rdh_empty_input() {
    let key = DEAL128::generate_key();
    let enc = DEALMode::RDH.encrypt(Vec::new(), key);
    assert_eq!(enc.len(), 2);
    assert_eq!(DEALMode::RDH.decrypt(enc, key).unwrap(), Vec::<u128>::new());
}
