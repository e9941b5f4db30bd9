use nae::filesystem::FileSystem;

#[test]
fn test_encode_file_id_reversed_hex() {
    // the last byte of the identifier comes first in the text
    let bytes: Vec<u8> = vec![0xAB, 0x01];
    assert_eq!(FileSystem::encode_file_id(&bytes), "01AB");

    let sixteen: Vec<u8> = vec![
        0x00, 0x01, 0x02, 0x03, 0x04, 0x05, 0x06, 0x07, 0x08, 0x09, 0x0A, 0x0B, 0x0C, 0x0D, 0x0E,
        0x0F,
    ];
    assert_eq!(
        FileSystem::encode_file_id(&sixteen),
        "0F0E0D0C0B0A09080706050403020100"
    );
}

#[test]
fn test_decode_file_id_round_trip() {
    let bytes: Vec<u8> = vec![
        0xDE, 0xAD, 0xBE, 0xEF, 0x00, 0x11, 0x22, 0x33, 0x44, 0x55, 0x66, 0x77, 0x88, 0x99, 0xAA,
        0xFF,
    ];
    let text = FileSystem::encode_file_id(&bytes);
    assert_eq!(text.len(), 32);
    let back = FileSystem::decode_file_id(&text).unwrap();
    assert_eq!(back, bytes);
}

#[test]
fn test_decode_file_id_accepts_lowercase() {
    let back = FileSystem::decode_file_id("01ab").unwrap();
    assert_eq!(back, vec![0xAB, 0x01]);
}

#[test]
fn test_decode_file_id_rejects_bad_input() {
    // odd length
    assert!(FileSystem::decode_file_id("ABC").is_err());
    // not hexadecimal
    assert!(FileSystem::decode_file_id("GG").is_err());
    assert!(FileSystem::decode_file_id("0 ").is_err());
}

#[test]
fn test_decode_file_id_empty() {
    assert_eq!(FileSystem::decode_file_id("").unwrap(), Vec::<u8>::new());
}
