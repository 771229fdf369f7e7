use num_bigint::BigInt;
use rand::random;
use s6_hcs::gfp2::GFP2Element;
use s6_hcs::xtr::XTRKeygen;
use s6_hcs::xtr_wrapper::XTREncryptor;

#[test]
fn test_xtr() {
    // server (alice)
    let mut xtr = XTRKeygen::new();
    let (p, q, trace) = xtr.generate_key().unwrap();
    let (k, trace_gk) = xtr.elgamal_key();

    // client (bob)
    let (ck, trace_gb) =
        XTRKeygen::symmetric_key(&p, &q, trace.duplicate(), trace_gk.duplicate());

    // server
    let sk = XTRKeygen::symmetric_key_recall(p.clone(), k.clone(), trace_gb.duplicate());
    assert_eq!(sk, ck);
}

#[test]
fn test_xtr_params() {
    let mut xtr = XTRKeygen::new();
    let (p, q, _) = xtr.generate_key().unwrap();
    assert_eq!(p.clone() % BigInt::from(3), BigInt::from(2));
    assert_eq!(q.clone() % BigInt::from(12), BigInt::from(7));
    // q divides p^2 - p + 1
    let order = p.clone() * p.clone() + BigInt::from(1) - p.clone();
    assert_eq!(order % q, BigInt::from(0));
}

#[test]
fn test_xtr_wrapper_encrypt() {
    let mut server = XTREncryptor::new_at_server().unwrap();
    let client = XTREncryptor::new_at_client(server.share_public_key_with_client());
    server.derive_sym_key_at_server(client.share_trace_with_server());

    let m1 = vec![random(), random(), random(), random()];
    let e = client.encrypt(&m1);
    let m2 = server.encrypt(&e);
    assert_eq!(m1, m2);
}

#[test]
fn test_xtr_wrapper_key_encrypt() {
    let mut server = XTREncryptor::new_at_server().unwrap();
    let client = XTREncryptor::new_at_client(server.share_public_key_with_client());
    server.derive_sym_key_at_server(client.share_trace_with_server());

    let m1 = random();
    let e = client.encrypt_deal128_key(m1);
    let m2 = server.encrypt_deal128_key(e);
    assert_eq!(m1, m2);
}

#[test]
fn test_validate_pub_key() {
    let server = XTREncryptor::new_at_server().unwrap();
    let pk = server.share_public_key_with_client();
    assert!(XTREncryptor::validate_pub_key(&pk));
    let bad = (BigInt::from(0), pk.1, pk.2, pk.3);
    assert!(!XTREncryptor::validate_pub_key(&bad));
}

#[test]
fn test_element_bytes() {
    let e = GFP2Element::new_with_coefficients(BigInt::from(7), (BigInt::from(3), BigInt::from(5)));
    assert_eq!(e.get_bytes(), vec![3u8, 5u8]);
    let f = GFP2Element::new_with_coefficients(
        BigInt::from(1000),
        (BigInt::from(300), BigInt::from(5)),
    );
    assert_eq!(f.get_bytes(), vec![1u8, 44u8, 5u8]);
}

#[test]
fn test_xor_stream_known_key() {
    let server = XTREncryptor {
        p: BigInt::from(7),
        q: BigInt::from(13),
        trace: GFP2Element::new_with_coefficients(BigInt::from(7), (BigInt::from(1), BigInt::from(2))),
        trace_gk: GFP2Element::new_with_coefficients(
            BigInt::from(7),
            (BigInt::from(3), BigInt::from(4)),
        ),
        k: None,
        trace_gb: None,
        sym_key: Some(vec![0x0f, 0xf0]),
    };
    let out = server.encrypt(&vec![0x00, 0x00, 0xff, 0xff, 0xaa]);
    assert_eq!(out, vec![0x0f, 0xf0, 0xf0, 0x0f, 0xa5]);
}
