use solana_messaging::identity::Identity;
use solana_messaging::layout::{decode_record, encode_record, RECORD_LEN};
use solana_messaging::message::Message;

fn sample(content: Vec<u8>, timestamp: i64) -> Message {
    Message {
        sender: Identity::filled(1),
        recipient: Identity::filled(2),
        content,
        timestamp,
        nft_mint: Identity::filled(3),
        bump: 251,
    }
}

#[test]
fn record_len_is_fixed_layout_size() {
    // 8-byte tag + 32 + 32 + (4 + 500) + 8 + 32 + 1.
    assert_eq!(RECORD_LEN, 617);
}

#[test]
fn encode_has_fixed_size_for_any_payload() {
    let short = encode_record(&sample(b"a".to_vec(), 0));
    let long = encode_record(&sample(vec![7u8; 500], 0));
    assert_eq!(short.len(), RECORD_LEN);
    assert_eq!(long.len(), RECORD_LEN);
}

#[test]
fn encode_decode_round_trip() {
    let m = sample(b"hello".to_vec(), 1_700_000_000);
    let bytes = encode_record(&m);
    let back = decode_record(&bytes).expect("a fresh encoding must decode");
    assert!(back.sender.eq_id(&m.sender));
    assert!(back.recipient.eq_id(&m.recipient));
    assert_eq!(back.content, m.content);
    assert_eq!(back.timestamp, m.timestamp);
    assert!(back.nft_mint.eq_id(&m.nft_mint));
    assert_eq!(back.bump, m.bump);
}

#[test]
fn encode_layout_offsets() {
    let m = sample(b"hi".to_vec(), 258);
    let bytes = encode_record(&m);
    // Tag: the ASCII bytes of "message" and one zero byte.
    assert_eq!(&bytes[0..8], &b"message\0"[..]);
    // Sender and recipient identities.
    assert_eq!(&bytes[8..40], &[1u8; 32][..]);
    assert_eq!(&bytes[40..72], &[2u8; 32][..]);
    // Little-endian length prefix of the 2-byte payload.
    assert_eq!(&bytes[72..76], &[2, 0, 0, 0][..]);
    // The payload itself.
    assert_eq!(&bytes[76..78], &b"hi"[..]);
    // Little-endian timestamp 258 = 0x102.
    assert_eq!(&bytes[78..86], &[2, 1, 0, 0, 0, 0, 0, 0][..]);
    // Mint, bump, then zero padding to the fixed size.
    assert_eq!(&bytes[86..118], &[3u8; 32][..]);
    assert_eq!(bytes[118], 251);
    assert!(bytes[119..].iter().all(|&b| b == 0));
}

#[test]
fn decode_rejects_wrong_size() {
    assert!(decode_record(&vec![0u8; 10]).is_none());
    assert!(decode_record(&vec![0u8; RECORD_LEN - 1]).is_none());
    assert!(decode_record(&vec![0u8; RECORD_LEN + 1]).is_none());
}

#[test]
fn decode_rejects_corrupt_tag() {
    let mut bytes = encode_record(&sample(b"x".to_vec(), 1));
    bytes[0] = 77;
    assert!(decode_record(&bytes).is_none());
}

#[test]
fn decode_rejects_bad_length_prefix() {
    let mut bytes = encode_record(&sample(b"x".to_vec(), 1));
    // Zero-length payload is not a valid record.
    bytes[72] = 0;
    assert!(decode_record(&bytes).is_none());
    // A length over 500 is not valid either: 501 = 0x1F5.
    bytes[72] = 0xf5;
    bytes[73] = 0x01;
    assert!(decode_record(&bytes).is_none());
}

#[test]
fn decode_rejects_negative_timestamp_bits() {
    let mut bytes = encode_record(&sample(b"x".to_vec(), 1));
    // Set the top timestamp byte so the value no longer fits a non-negative
    // 64-bit signed integer. The timestamp starts at offset 76 + 1.
    bytes[84] = 0x80;
    assert!(decode_record(&bytes).is_none());
}
