use labkit::hex::decode_hex;
use labkit::hex::decode_hex_data;
use labkit::hex::encode_hex;
use labkit::hex::encode_hex_data;

const FOX: &str = "The quick brown fox jumps over the lazy dog.";
const ENCODED_DATA: &[u8] = &[
    0x76, 0x5C, 0x57, 0x30, 0x41, 0x47, 0x5D, 0x52, 0x5E, 0x30, 0x53, 0x43, 0x58, 0x44, 0x59,
    0x30, 0x55, 0x58, 0x4C, 0x30, 0x5F, 0x47, 0x5B, 0x40, 0x42, 0x30, 0x58, 0x45, 0x57, 0x43,
    0x30, 0x46, 0x5C, 0x57, 0x30, 0x5A, 0x51, 0x4F, 0x4D, 0x30, 0x56, 0x58, 0x54, 0x39,
];

#[test]
fn test_encode_hex() {
    assert_eq!(
        (0..16).map(encode_hex).collect::<Vec<_>>(),
        [0x0, 0x1, 0x3, 0x2, 0x6, 0x7, 0x5, 0x4, 0xC, 0xD, 0xF, 0xE, 0xA, 0xB, 0x9, 0x8]
    );
    assert_eq!(encode_hex(0x54), 0x76);
    assert_eq!(encode_hex(0x68), 0x5C);
    let original_data = FOX.as_bytes();
    let encoded_data = ENCODED_DATA;
    assert_eq!(encode_hex_data(original_data), encoded_data);
}

#[test]
fn test_decode_hex() {
    assert_eq!(
        (0..16).map(decode_hex).collect::<Vec<_>>(),
        [0x0, 0x1, 0x3, 0x2, 0x7, 0x6, 0x4, 0x5, 0xF, 0xE, 0xC, 0xD, 0x8, 0x9, 0xB, 0xA]
    );
    assert_eq!(decode_hex(0x76), 0x54);
    assert_eq!(decode_hex(0x5C), 0x68);
    let original_data = FOX.as_bytes();
    let encoded_data = ENCODED_DATA;
    assert_eq!(decode_hex_data(encoded_data), original_data);
}

#[test]
fn decode_inverts_encode_on_every_byte() {
    for b in 0..=255u8 {
        assert_eq!(decode_hex(encode_hex(b)), b);
    }
}
