use solana_messaging::errors::{ErrorCode, InstructionError};
use solana_messaging::identity::Identity;
use solana_messaging::ledger::{Ledger, ReceiveMessage, SendMessage};
use solana_messaging::message::validate_content;

fn id(b: u8) -> Identity {
    Identity::filled(b)
}

fn ctx(sender: u8, timestamp: i64) -> SendMessage {
    SendMessage { sender: id(sender), nft_mint: id(200), bump: 254, timestamp }
}

#[test]
fn send_stores_content_round_trip() {
    let mut ledger = Ledger::new();
    let payload = b"hello".to_vec();
    let r = ledger.send_message(ctx(1, 1_700_000_000), payload.clone(), id(2));
    assert!(matches!(r, Ok(())));
    let record = ledger.get_record(&id(1), &id(2)).expect("record must exist");
    assert_eq!(record.content, payload);
    assert!(record.sender.eq_id(&id(1)));
    assert!(record.recipient.eq_id(&id(2)));
    assert!(record.nft_mint.eq_id(&id(200)));
    assert_eq!(record.bump, 254);
}

#[test]
fn send_accepts_boundary_lengths() {
    let mut ledger = Ledger::new();
    let one = vec![7u8; 1];
    let full = vec![9u8; 500];
    assert!(matches!(ledger.send_message(ctx(1, 10), one.clone(), id(2)), Ok(())));
    assert!(matches!(ledger.send_message(ctx(3, 11), full.clone(), id(4)), Ok(())));
    assert_eq!(ledger.get_record(&id(1), &id(2)).unwrap().content, one);
    assert_eq!(ledger.get_record(&id(3), &id(4)).unwrap().content, full);
    assert_eq!(ledger.record_count(), 2);
}

#[test]
fn empty_payload_rejected() {
    let mut ledger = Ledger::new();
    let r = ledger.send_message(ctx(1, 10), Vec::new(), id(2));
    assert_eq!(r, Err(InstructionError::Program(ErrorCode::EmptyMessage)));
    assert_eq!(ledger.record_count(), 0);
    assert!(ledger.get_record(&id(1), &id(2)).is_none());
}

#[test]
fn oversized_payload_rejected() {
    let mut ledger = Ledger::new();
    let r = ledger.send_message(ctx(1, 10), vec![0u8; 501], id(2));
    assert_eq!(r, Err(InstructionError::Program(ErrorCode::MessageTooLong)));
    assert_eq!(ledger.record_count(), 0);
}

#[test]
fn duplicate_send_fails() {
    let mut ledger = Ledger::new();
    let first = b"first".to_vec();
    assert!(matches!(ledger.send_message(ctx(1, 10), first.clone(), id(2)), Ok(())));
    let r = ledger.send_message(ctx(1, 11), b"second".to_vec(), id(2));
    assert_eq!(r, Err(InstructionError::AccountAlreadyExists));
    // The stored record is the first one, untouched.
    assert_eq!(ledger.get_record(&id(1), &id(2)).unwrap().content, first);
    assert_eq!(ledger.record_count(), 1);
}

#[test]
fn same_sender_other_recipient_allowed() {
    let mut ledger = Ledger::new();
    assert!(matches!(ledger.send_message(ctx(1, 10), b"to x".to_vec(), id(2)), Ok(())));
    assert!(matches!(ledger.send_message(ctx(1, 11), b"to y".to_vec(), id(3)), Ok(())));
    assert!(matches!(ledger.send_message(ctx(4, 12), b"from w".to_vec(), id(2)), Ok(())));
    assert_eq!(ledger.record_count(), 3);
}

#[test]
fn receive_by_recipient_succeeds() {
    let mut ledger = Ledger::new();
    assert!(matches!(ledger.send_message(ctx(1, 10), b"hi".to_vec(), id(2)), Ok(())));
    let r = ledger.receive_message(ReceiveMessage {
        message_sender: id(1),
        message_recipient: id(2),
        recipient: id(2),
    });
    assert_eq!(r, Ok(()));
}

#[test]
fn receive_by_other_caller_unauthorized() {
    let mut ledger = Ledger::new();
    assert!(matches!(ledger.send_message(ctx(1, 10), b"hi".to_vec(), id(2)), Ok(())));
    let r = ledger.receive_message(ReceiveMessage {
        message_sender: id(1),
        message_recipient: id(2),
        recipient: id(3),
    });
    assert_eq!(r, Err(InstructionError::Program(ErrorCode::UnauthorizedRecipient)));
}

#[test]
fn receive_without_record_not_found() {
    let ledger = Ledger::new();
    let r = ledger.receive_message(ReceiveMessage {
        message_sender: id(1),
        message_recipient: id(2),
        recipient: id(2),
    });
    assert_eq!(r, Err(InstructionError::AccountNotFound));
}

#[test]
fn timestamp_stored_from_clock_input() {
    let mut ledger = Ledger::new();
    let clock: i64 = 1_700_000_123;
    assert!(matches!(ledger.send_message(ctx(1, clock), b"tick".to_vec(), id(2)), Ok(())));
    let record = ledger.get_record(&id(1), &id(2)).unwrap();
    assert_eq!(record.timestamp, clock);
    assert!(record.timestamp >= 0);
}

#[test]
fn send_then_receive_example() {
    // Send("hello", recipient X) by sender A, then receive by X and by C.
    let mut ledger = Ledger::new();
    let a = 10u8;
    let x = 20u8;
    assert!(matches!(ledger.send_message(ctx(a, 42), b"hello".to_vec(), id(x)), Ok(())));
    let record = ledger.get_record(&id(a), &id(x)).unwrap();
    assert_eq!(record.content, b"hello".to_vec());
    assert!(record.sender.eq_id(&id(a)));
    assert!(record.recipient.eq_id(&id(x)));
    let by_x = ledger.receive_message(ReceiveMessage {
        message_sender: id(a),
        message_recipient: id(x),
        recipient: id(x),
    });
    assert_eq!(by_x, Ok(()));
    let by_c = ledger.receive_message(ReceiveMessage {
        message_sender: id(a),
        message_recipient: id(x),
        recipient: id(30),
    });
    assert_eq!(by_c, Err(InstructionError::Program(ErrorCode::UnauthorizedRecipient)));
}

#[test]
fn validate_content_cases() {
    assert_eq!(validate_content(&b"ok".to_vec()), Ok(()));
    assert_eq!(validate_content(&vec![1u8; 500]), Ok(()));
    assert_eq!(validate_content(&Vec::new()), Err(ErrorCode::EmptyMessage));
    assert_eq!(validate_content(&vec![1u8; 501]), Err(ErrorCode::MessageTooLong));
}

#[test]
fn identity_construction_and_equality() {
    let mut bytes = vec![0u8; 32];
    bytes[0] = 5;
    let a = Identity::from_bytes(bytes.clone()).expect("32 bytes accepted");
    let b = Identity::from_bytes(bytes).expect("32 bytes accepted");
    assert!(a.eq_id(&b));
    assert!(!a.eq_id(&id(5)));
    assert!(Identity::from_bytes(vec![0u8; 31]).is_none());
    assert!(Identity::from_bytes(vec![0u8; 33]).is_none());
    assert_eq!(a.byte_at(0), 5);
    assert_eq!(a.dup().byte_at(0), 5);
}
