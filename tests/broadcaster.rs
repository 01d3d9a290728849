use ln_manager::{BroadcastError, ChainBroadcaster};

fn from_hex(s: &str) -> Vec<u8> {
    (0..s.len()).step_by(2).map(|i| u8::from_str_radix(&s[i..i + 2], 16).unwrap()).collect()
}

/// A transaction with one input and one output, without witness.
const LEGACY_TX: &str = "01000000010000000000000000000000000000000000000000000000000000000000000000000000\
                         0000ffffffff0101000000000000000000000000";
/// The same transaction with a witness: same id, other bytes.
const WITNESS_TX: &str = "01000000000101000000000000000000000000000000000000000000000000000000000000000000\
                          00000000ffffffff0101000000000000000001015100000000";
/// The first transaction with version 2.
const OTHER_TX: &str = "02000000010000000000000000000000000000000000000000000000000000000000000000000000\
                        0000ffffffff0101000000000000000000000000";

const LEGACY_TXID: [u8; 32] = [
    17, 178, 175, 63, 16, 175, 7, 97, 49, 183, 31, 194, 88, 172, 242, 250, 250, 220, 19, 21, 214,
    79, 5, 128, 120, 175, 2, 94, 130, 184, 210, 114,
];
const OTHER_TXID: [u8; 32] = [
    55, 212, 164, 101, 49, 18, 227, 215, 183, 130, 156, 107, 96, 218, 246, 211, 222, 126, 139, 250,
    28, 169, 123, 107, 56, 59, 54, 209, 235, 4, 184, 11,
];

#[test]
fn tracked_transaction_is_sent_and_kept() {
    let mut b = ChainBroadcaster::new();
    let sent = b.broadcast_transaction(from_hex(LEGACY_TX)).unwrap();
    assert_eq!(sent, from_hex(LEGACY_TX));
    assert_eq!(b.len(), 1);
    assert_eq!(b.get(&LEGACY_TXID.to_vec()), Some(from_hex(LEGACY_TX)));
    assert_eq!(b.get(&from_hex(LEGACY_TX)), None);
}

#[test]
fn same_id_twice_keeps_the_later() {
    let mut b = ChainBroadcaster::new();
    b.broadcast_transaction(from_hex(LEGACY_TX)).unwrap();
    b.broadcast_transaction(from_hex(WITNESS_TX)).unwrap();
    assert_eq!(b.len(), 1);
    assert_eq!(b.get(&LEGACY_TXID.to_vec()), Some(from_hex(WITNESS_TX)));
    assert_eq!(b.rebroadcast_txn(), vec![from_hex(WITNESS_TX)]);
}

#[test]
fn rebroadcast_sends_each_pending_once() {
    let mut b = ChainBroadcaster::new();
    assert!(b.rebroadcast_txn().is_empty());
    b.broadcast_transaction(from_hex(LEGACY_TX)).unwrap();
    b.broadcast_transaction(from_hex(OTHER_TX)).unwrap();
    b.broadcast_transaction(from_hex(LEGACY_TX)).unwrap();
    assert_eq!(b.len(), 2);
    assert_eq!(b.get(&OTHER_TXID.to_vec()), Some(from_hex(OTHER_TX)));
    assert_eq!(b.rebroadcast_txn(), vec![from_hex(LEGACY_TX), from_hex(OTHER_TX)]);
    // Nothing is removed by a rebroadcast.
    assert_eq!(b.rebroadcast_txn().len(), 2);
}

#[test]
fn bytes_that_are_no_transaction_are_refused() {
    let mut b = ChainBroadcaster::new();
    assert_eq!(b.broadcast_transaction(vec![1, 2, 3]), Err(BroadcastError::InvalidTransaction));
    let mut trailing = from_hex(LEGACY_TX);
    trailing.push(0);
    assert_eq!(b.broadcast_transaction(trailing), Err(BroadcastError::InvalidTransaction));
    assert_eq!(b.len(), 0);
}
