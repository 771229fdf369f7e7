use rand::random;
use s6_hcs::session::{
    decrypt_file, encrypt_file, progress_update, response_to_result, RequestProcessingError,
};
use s6_hcs::transfer::{
    assemble_file, chunk_file, count_dataframes, count_frame_bytes, parse_count_frame,
    u128_to_u8, u8_to_u128, Response, DATAFRAME_SIZE,
};

#[test]
fn test_count_dataframes() {
    assert_eq!(count_dataframes(&Vec::new()), 0);
    assert_eq!(count_dataframes(&vec![0u8; 1]), 1);
    assert_eq!(count_dataframes(&vec![0u8; DATAFRAME_SIZE]), 1);
    assert_eq!(count_dataframes(&vec![0u8; DATAFRAME_SIZE + 1]), 2);
}

#[test]
fn test_chunking_round_trip() {
    let len = 2 * DATAFRAME_SIZE + 12345;
    let mut file: Vec<u8> = Vec::with_capacity(len);
    for i in 0..len {
        file.push((i % 251) as u8);
    }
    let chunks = chunk_file(&file);
    assert_eq!(chunks.len(), 3);
    assert_eq!(chunks[0].len(), DATAFRAME_SIZE);
    assert_eq!(chunks[1].len(), DATAFRAME_SIZE);
    assert_eq!(chunks[2].len(), 12345);
    let back = assemble_file(&chunks);
    assert_eq!(back, file);
}

#[test]
fn test_block_byte_round_trip() {
    let blocks: Vec<u128> = vec![0, 1, u128::MAX, 0x0102_0304_0506_0708_090a_0b0c_0d0e_0f10];
    let bytes = u128_to_u8(blocks.clone());
    assert_eq!(bytes.len(), 64);
    assert_eq!(&bytes[48..64], &[1, 2, 3, 4, 5, 6, 7, 8, 9, 10, 11, 12, 13, 14, 15, 16]);
    assert_eq!(u8_to_u128(bytes), blocks);
}

#[test]
fn test_count_frame() {
    let frame = count_frame_bytes(3);
    assert_eq!(frame, vec![0, 0, 0, 0, 0, 0, 0, 3]);
    assert_eq!(parse_count_frame(&frame), Some(3));
    assert_eq!(parse_count_frame(&vec![1, 2, 3]), None);
    assert_eq!(parse_count_frame(&count_frame_bytes(0x0102_0304_0506_0708)), Some(0x0102_0304_0506_0708));
}

#[test]
fn test_response_mapping() {
    assert_eq!(response_to_result(Response::Success), Ok(()));
    assert_eq!(
        response_to_result(Response::FSFail),
        Err(RequestProcessingError::ServerError)
    );
    assert_eq!(
        response_to_result(Response::CommFail),
        Err(RequestProcessingError::BadRequest)
    );
}

#[test]
fn test_progress_update() {
    assert_eq!(progress_update(1, 2), Some(51));
    assert_eq!(progress_update(2, 2), Some(101));
    assert_eq!(progress_update(1, 200), Some(1));
    assert_eq!(progress_update(2, 200), None);
    assert_eq!(progress_update(3, 200), Some(2));
}

#[test]
fn test_file_pipeline_round_trip() {
    let key: u128 = random();
    let contents: Vec<u8> = (0..100_000u32).map(|_| random()).collect();
    let sent = encrypt_file(contents.clone(), key);
    assert_eq!(sent.len() % 16, 0);
    let back = decrypt_file(sent, key).unwrap();
    assert_eq!(back, contents);
}

#[test]
fn test_file_pipeline_wrong_key() {
    let key: u128 = random();
    let contents: Vec<u8> = (0..4096u32).map(|_| random()).collect();
    let sent = encrypt_file(contents, key);
    let verdict = decrypt_file(sent, key ^ 1);
    assert_eq!(verdict, Err(RequestProcessingError::BadFile));
}

#[test]
fn test_decrypt_file_bad_input() {
    let key: u128 = random();
    assert_eq!(
        decrypt_file(vec![1, 2, 3], key),
        Err(RequestProcessingError::BadFile)
    );
    assert_eq!(
        decrypt_file(vec![0u8; 16], key),
        Err(RequestProcessingError::BadFile)
    );
}
