use s6_hcs::padding::{PaddingAlgorithm, PaddingPKSC7};

#[test]
fn test_pkcs7() {
    let padder = PaddingPKSC7::with_block_size(8);
    let data = vec![vec![5u8; 8], vec![4u8; 5], vec![4u8; 163]];
    for d in data {
        let mut r = d.clone();
        padder.apply_padding(&mut r);
        padder.remove_padding(&mut r);
        assert_eq!(d, r);
    }
}

#[test]
fn test_pkcs7_fifteen_zeroes() {
    let padder = PaddingPKSC7::with_block_size(16);
    let mut data = vec![0u8; 15];
    padder.apply_padding(&mut data);
    assert_eq!(data.len(), 16);
    assert_eq!(data[15], 0x01);
    padder.remove_padding(&mut data);
    assert_eq!(data, vec![0u8; 15]);
}

#[test]
fn test_pkcs7_full_block() {
    let padder = PaddingPKSC7::with_block_size(16);
    let original: Vec<u8> = (0u8..16).collect();
    let mut data = original.clone();
    padder.apply_padding(&mut data);
    assert_eq!(data.len(), 32);
    for i in 16..32 {
        assert_eq!(data[i], 0x10);
    }
    padder.remove_padding(&mut data);
    assert_eq!(data, original);
}

#[test]
fn test_pkcs7_default_block_size() {
    let padder = PaddingPKSC7::default();
    let mut data = vec![7u8; 3];
    padder.apply_padding(&mut data);
    assert_eq!(data.len(), 32);
    assert_eq!(data[31], 29);
}
