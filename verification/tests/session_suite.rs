use rand::random;
use s6_hcs::deal::DEAL128;
use s6_hcs::session::{decrypt_file, encrypt_file};
use s6_hcs::store::FileManager;
use s6_hcs::transfer::{u128_to_u8, u8_to_u128};
use s6_hcs::xtr_wrapper::XTREncryptor;

/// A full upload/download exchange without the sockets: the client
/// wraps a fresh cipher key over an XTR session, encrypts and sends;
/// the server unwraps, stores, and later serves the file back.
#[test]
fn test_end_to_end_exchange() {
    let contents: Vec<u8> = (0..200_000u32).map(|_| random()).collect();

    // key-wrap subprotocol
    let mut server = XTREncryptor::new_at_server().unwrap();
    let client = XTREncryptor::new_at_client(server.share_public_key_with_client());
    server.derive_sym_key_at_server(client.share_trace_with_server());

    // client: encrypt and wrap
    let key = DEAL128::generate_key();
    let wrapped = client.encrypt_deal128_key(key);
    let sent = encrypt_file(contents.clone(), key);

    // server: unwrap and store
    let server_key = server.encrypt_deal128_key(wrapped);
    assert_eq!(server_key, key);
    let mut fm = FileManager::new();
    let id = fm.save_file("photo.raw".to_string(), server_key, u8_to_u128(sent));

    // listing advertises exactly this record
    let list = fm.get_file_list();
    assert_eq!(list.len(), 1);
    assert_eq!(list[0].0, id);
    assert_eq!(list[0].2, "photo.raw");

    // download: read back, decrypt, compare
    let (blocks, stored_key) = fm.get_file(id).unwrap();
    let received = u128_to_u8(blocks);
    assert_eq!(list[0].1, received.len());
    let back = decrypt_file(received, stored_key).unwrap();
    assert_eq!(back, contents);
}
