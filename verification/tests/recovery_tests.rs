use ukweli::append::{AppendEntry, AppendLog};
use ukweli::crypto::sha256_hex_of;
use ukweli::database::DatabaseHeader;
use ukweli::hexcode::hex_decode;
use ukweli::reader::DatabaseReader;
use ukweli::ledger::Ledger;
use ukweli::recovery::RecoveryManager;
use ukweli::user::User;

fn sample_ledger() -> (Ledger, User) {
    let mut ledger = Ledger::new();
    let mut alice = User::new("Alice");
    alice.add_role("editor");
    let bob = User::new("Bob");
    let _ = ledger.register_user(alice.clone());
    let _ = ledger.register_user(bob.clone());
    ledger.add_record("pay 100", vec![alice.clone(), bob]).unwrap();
    (ledger, alice)
}

fn assert_ledgers_equal(a: &Ledger, b: &Ledger) {
    assert_eq!(a.records.len(), b.records.len());
    for (x, y) in a.records.iter().zip(b.records.iter()) {
        assert_eq!(x.index, y.index);
        assert_eq!(x.payload, y.payload);
        assert_eq!(x.payload_hash, y.payload_hash);
        assert_eq!(x.prev_hash, y.prev_hash);
        assert_eq!(x.record_hash, y.record_hash);
        assert_eq!(x.timestamp, y.timestamp);
        assert_eq!(x.nonce, y.nonce);
        assert_eq!(x.signer_ids, y.signer_ids);
        assert_eq!(x.signatures, y.signatures);
    }
    assert_eq!(a.verify_registry.len(), b.verify_registry.len());
    for (x, y) in a.verify_registry.iter().zip(b.verify_registry.iter()) {
        assert_eq!(x.0, y.0);
        assert_eq!(x.1, y.1);
    }
}

#[test]
fn test_recover_from_snapshot() {
    // Persist a ledger, then open a fresh one from the bytes.
    let (ledger, _) = sample_ledger();
    let snapshot = RecoveryManager::create_snapshot(&ledger).unwrap();
    let recovered = RecoveryManager::recover_ledger(snapshot, Vec::new()).unwrap();
    assert_ledgers_equal(&ledger, &recovered);
    assert!(recovered.verify_chain().is_ok());
}

#[test]
fn test_recover_replays_wal() {
    // A record written only to the log is present after recovery.
    let (mut ledger, alice) = sample_ledger();
    let snapshot = RecoveryManager::create_snapshot(&ledger).unwrap();

    let mut wal = AppendLog::new();
    ledger.add_record("sell 50", vec![alice]).unwrap();
    wal.append_record(&ledger.records[2]).unwrap();

    let recovered = RecoveryManager::recover_ledger(snapshot, wal.buf.clone()).unwrap();
    assert_eq!(recovered.records.len(), 3);
    assert_eq!(recovered.records[2].payload, "sell 50");
    assert!(recovered.verify_chain().is_ok());
}

#[test]
fn test_recover_ignores_wal_garbage_tail() {
    // Ten bytes of garbage after the last entry change nothing.
    let (mut ledger, alice) = sample_ledger();
    let snapshot = RecoveryManager::create_snapshot(&ledger).unwrap();

    let mut wal = AppendLog::new();
    ledger.add_record("sell 50", vec![alice]).unwrap();
    wal.append_record(&ledger.records[2]).unwrap();
    let mut wal_bytes = wal.buf.clone();
    wal_bytes.extend_from_slice(&[9, 9, 9, 9, 9, 9, 9, 9, 9, 9]);

    let recovered = RecoveryManager::recover_ledger(snapshot, wal_bytes).unwrap();
    assert_eq!(recovered.records.len(), 3);
}

#[test]
fn test_compact_then_recover_round_trip() {
    // After compaction the log is empty and recovery over the new
    // snapshot returns the same ledger.
    let (mut ledger, alice) = sample_ledger();
    ledger.add_record("sell 50", vec![alice]).unwrap();

    let compacted = RecoveryManager::compact(&ledger).unwrap();
    let mut wal = AppendLog::new();
    wal.append_record(&ledger.records[2]).unwrap();
    wal.truncate().unwrap();
    assert_eq!(wal.buf.len(), 0);

    let recovered = RecoveryManager::recover_ledger(compacted, wal.buf.clone()).unwrap();
    assert_ledgers_equal(&ledger, &recovered);
}

#[test]
fn test_recover_twice_same_ledger() {
    // Recovering again with the same log entries gives the same ledger
    // and no duplicate indices.
    let (mut ledger, alice) = sample_ledger();
    let snapshot = RecoveryManager::create_snapshot(&ledger).unwrap();

    let mut wal = AppendLog::new();
    ledger.add_record("sell 50", vec![alice]).unwrap();
    wal.append_record(&ledger.records[2]).unwrap();

    let first = RecoveryManager::recover_ledger(snapshot.clone(), wal.buf.clone()).unwrap();
    let again_snapshot = RecoveryManager::create_snapshot(&first).unwrap();
    let second = RecoveryManager::recover_ledger(again_snapshot, wal.buf.clone()).unwrap();

    assert_ledgers_equal(&first, &second);
    for i in 0..second.records.len() {
        for j in (i + 1)..second.records.len() {
            assert_ne!(second.records[i].index, second.records[j].index);
        }
    }
}

#[test]
fn test_recover_rejects_tampered_snapshot_body() {
    // A snapshot with a failing body checksum and an empty log cannot
    // be recovered.
    let (ledger, _) = sample_ledger();
    let mut snapshot = RecoveryManager::create_snapshot(&ledger).unwrap();
    let pos = 128 + 9;
    snapshot[pos] = snapshot[pos].wrapping_add(1);
    let result = RecoveryManager::recover_ledger(snapshot, Vec::new());
    assert!(result.is_err());
}

#[test]
fn test_verify_file_accepts_written_snapshot() {
    let (ledger, _) = sample_ledger();
    let snapshot = RecoveryManager::create_snapshot(&ledger).unwrap();
    assert!(RecoveryManager::verify_file(snapshot).unwrap());

    let result = RecoveryManager::verify_file(vec![1, 2, 3]);
    assert!(result.is_err());
}

#[test]
fn test_add_record_without_any_records() {
    // A ledger whose records were cleared cannot accept appends.
    let mut ledger = Ledger::new();
    ledger.records.clear();
    let signer = User::new("lonely");
    let _ = ledger.register_user(signer.clone());
    let result = ledger.add_record("payload", vec![signer]);
    assert!(matches!(
        result,
        Err(ukweli::error::LedgerError::RecordAccessFailed)
    ));
}

#[test]
fn test_reader_rejects_malformed_body() {
    // A checksum that matches garbage body bytes still fails to parse.

    let body = vec![0xFFu8; 10];
    let mut header = DatabaseHeader::new(0, 128, 138);
    header.checksum = hex_decode(&sha256_hex_of(&body));
    let mut bytes = header.region_bytes();
    bytes.extend_from_slice(&body);

    let reader = DatabaseReader::new(bytes);
    match reader.read_and_verify() {
        Err(ukweli::error::StorageError::Deserialization(_)) => {}
        other => panic!("Expected Deserialization, got {:?}", other),
    }
}

#[test]
fn test_recover_rejects_invalid_chain() {
    // A snapshot of a tampered ledger fails re-verification.
    let (mut ledger, _) = sample_ledger();
    ledger.records[1].payload = "evil".to_string();
    let snapshot = RecoveryManager::create_snapshot(&ledger).unwrap();
    match RecoveryManager::recover_ledger(snapshot, Vec::new()) {
        Err(ukweli::error::StorageError::ValidationFailed(_)) => {}
        other => panic!("Expected ValidationFailed, got {:?}", other),
    }
}

#[test]
fn test_recover_rejects_unknown_wal_entry_type() {

    let (ledger, _) = sample_ledger();
    let snapshot = RecoveryManager::create_snapshot(&ledger).unwrap();

    let payload = vec![1u8, 2, 3];
    let checksum = hex_decode(&sha256_hex_of(&payload));
    let entry = AppendEntry::new(7, payload.len() as u32, checksum);
    let mut wal_bytes = entry.to_bytes();
    wal_bytes.extend_from_slice(&payload);

    match RecoveryManager::recover_ledger(snapshot, wal_bytes) {
        Err(ukweli::error::StorageError::Deserialization(_)) => {}
        other => panic!("Expected Deserialization, got {:?}", other),
    }
}

#[test]
fn test_recover_sorts_disordered_snapshot() {
    // A snapshot whose records are stored out of index order is healed
    // by the defensive sort during recovery.
    let (mut ledger, alice) = sample_ledger();
    ledger.add_record("sell 50", vec![alice]).unwrap();
    ledger.records.swap(1, 2);

    let snapshot = RecoveryManager::create_snapshot(&ledger).unwrap();
    let recovered = RecoveryManager::recover_ledger(snapshot, Vec::new()).unwrap();
    assert_eq!(recovered.records.len(), 3);
    for (i, r) in recovered.records.iter().enumerate() {
        assert_eq!(r.index, i);
    }
    assert!(recovered.verify_chain().is_ok());
}
