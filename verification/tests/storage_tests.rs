use ukweli::append::{AppendEntry, AppendLog, ENTRY_HEADER_SIZE};
use ukweli::database::{DatabaseHeader, MAGIC_NUMBER, HEADER_SIZE};
use ukweli::error::StorageError;
use ukweli::ledger::Ledger;
use ukweli::persistence::{SerializableRecord, SerializableUser};
use ukweli::reader::DatabaseReader;
use ukweli::record::Record;
use ukweli::user::User;
use ukweli::writer::DatabaseWriter;

fn create_test_record(index: usize, payload: &str) -> Record {
    let signer = User::new("test_signer");
    Record::new(index, payload, "prev_hash", vec![signer])
}

#[test]
fn test_entry_serialization() {
    let checksum = vec![0u8; 32];
    let entry = AppendEntry::new(1, 100, checksum);

    let bytes = entry.to_bytes();
    let entry2 = AppendEntry::from_bytes(&bytes).unwrap();

    assert_eq!(entry.magic, entry2.magic);
    assert_eq!(entry.entry_type, entry2.entry_type);
    assert_eq!(entry.timestamp, entry2.timestamp);
    assert_eq!(entry.data_size, entry2.data_size);
    assert_eq!(entry.checksum, entry2.checksum);
}

#[test]
fn test_append_and_read_basic() {
    // user append
    let mut append_log = AppendLog::new();
    let user = User::new("test_user");
    append_log.append_user(&user).unwrap();

    let entries = append_log.read_all_entries().unwrap();
    assert_eq!(entries.len(), 1);
    assert_eq!(entries[0].0.entry_type, 2);
}

#[test]
fn test_append_record_basic() {
    let mut append_log = AppendLog::new();
    let record = create_test_record(1, "Test payload");
    append_log.append_record(&record).unwrap();

    let entries = append_log.read_all_entries().unwrap();
    assert_eq!(entries.len(), 1);
    assert_eq!(entries[0].0.entry_type, 1);
}

#[test]
fn test_append_multiple() {
    let mut append_log = AppendLog::new();

    for i in 0..3 {
        let user = User::new(&format!("user_{}", i));
        append_log.append_user(&user).unwrap();
    }

    let entries = append_log.read_all_entries().unwrap();
    assert_eq!(entries.len(), 3);

    for (i, (entry, _)) in entries.iter().enumerate() {
        assert_eq!(entry.entry_type, 2);
        // timestamps should be increasing (or at least not decreasing)
        if i > 0 {
            assert!(entry.timestamp >= entries[i - 1].0.timestamp);
        }
    }
}

#[test]
fn test_truncate() {
    let mut append_log = AppendLog::new();

    let user = User::new("test_user");
    append_log.append_user(&user).unwrap();

    assert_eq!(append_log.read_all_entries().unwrap().len(), 1);

    append_log.truncate().unwrap();

    assert_eq!(append_log.read_all_entries().unwrap().len(), 0);

    let user2 = User::new("test_user2");
    append_log.append_user(&user2).unwrap();
    assert_eq!(append_log.read_all_entries().unwrap().len(), 1);
}

#[test]
fn test_empty_log() {
    let mut append_log = AppendLog::new();

    let entries = append_log.read_all_entries().unwrap();
    assert!(entries.is_empty());
}

#[test]
fn test_file_persistence_simple() {
    // Write entries into one log, then reopen its bytes as a new log.
    let mut append_log = AppendLog::new();
    append_log.append_user(&User::new("persistent_user")).unwrap();
    let stored_bytes = append_log.buf.clone();

    let mut reopened = AppendLog::from_bytes(stored_bytes);
    let entries = reopened.read_all_entries().unwrap();
    assert_eq!(entries.len(), 1);
}

#[test]
fn test_checksum_failure() {
    let mut append_log = AppendLog::new();
    append_log.append_user(&User::new("test_user")).unwrap();

    // Corrupt one byte of the stored checksum (it starts at byte 17)
    let mut bytes = append_log.buf.clone();
    bytes[17] = bytes[17].wrapping_add(1);

    let mut corrupted = AppendLog::from_bytes(bytes);
    let result = corrupted.read_all_entries();

    assert!(result.is_err());
    match result {
        Err(StorageError::ChecksumMismatch) => {}
        other => panic!("Expected ChecksumMismatch, got {:?}", other),
    }
}

#[test]
fn test_mixed_entries() {
    let mut append_log = AppendLog::new();

    let user = User::new("user1");
    let record = create_test_record(1, "Payload 1");

    append_log.append_user(&user).unwrap();
    append_log.append_record(&record).unwrap();
    append_log.append_user(&User::new("user2")).unwrap();

    let entries = append_log.read_all_entries().unwrap();
    assert_eq!(entries.len(), 3);

    // Check order and types
    assert_eq!(entries[0].0.entry_type, 2); // User
    assert_eq!(entries[1].0.entry_type, 1); // Record
    assert_eq!(entries[2].0.entry_type, 2); // User
}

#[test]
fn test_large_data() {
    let mut append_log = AppendLog::new();

    let large_payload = "x".repeat(1000); // 1KB payload
    let record = create_test_record(1, &large_payload);

    append_log.append_record(&record).unwrap();

    let entries = append_log.read_all_entries().unwrap();
    assert_eq!(entries.len(), 1);
    assert!(entries[0].0.data_size > 1000); // larger than the raw payload
}

#[test]
fn test_wal_payloads_kept_in_order() {
    // Every appended payload comes back unchanged and in order.
    let mut ledger = Ledger::new();
    let signer = User::new("writer");
    let _ = ledger.register_user(signer.clone());
    ledger.add_record("first", vec![signer.clone()]).unwrap();
    ledger.add_record("second", vec![signer]).unwrap();

    let mut log = AppendLog::new();
    log.append_record(&ledger.records[1]).unwrap();
    log.append_record(&ledger.records[2]).unwrap();
    let first_len = {
        let entries = log.read_all_entries().unwrap();
        assert_eq!(entries.len(), 2);
        entries[0].1.len()
    };
    assert!(first_len > 0);

    // the payload bytes of entry 0 parse back into the first record
    let entries = log.read_all_entries().unwrap();
    let mut cursor = ukweli::codec::Cursor::new(entries[0].1.as_slice());
    let parsed = ukweli::persistence::read_record(&mut cursor).unwrap();
    assert_eq!(parsed.payload, "first");
    assert_eq!(parsed.record_hash, ledger.records[1].record_hash);
}

#[test]
fn test_wal_bit_flip_fails_checksum() {
    // Flipping one bit inside an entry payload fails the read.
    let mut log = AppendLog::new();
    log.append_user(&User::new("flipped")).unwrap();
    let mut bytes = log.buf.clone();
    let payload_pos = ENTRY_HEADER_SIZE + 3;
    bytes[payload_pos] ^= 0x01;
    let mut corrupted = AppendLog::from_bytes(bytes);
    match corrupted.read_all_entries() {
        Err(StorageError::ChecksumMismatch) => {}
        other => panic!("Expected ChecksumMismatch, got {:?}", other),
    }
}

#[test]
fn test_wal_trailing_garbage_ignored() {
    let mut log = AppendLog::new();
    log.append_user(&User::new("kept")).unwrap();
    let mut bytes = log.buf.clone();
    bytes.extend_from_slice(&[0xDE, 0xAD, 0xBE, 0xEF, 0x00, 0x01, 0x02, 0x03, 0x04, 0x05]);
    let mut log2 = AppendLog::from_bytes(bytes);
    let entries = log2.read_all_entries().unwrap();
    assert_eq!(entries.len(), 1);
}

#[test]
fn test_header_creation() {
    let header = DatabaseHeader::new(100, 128, 5000);

    assert_eq!(header.magic, MAGIC_NUMBER.to_vec());
    assert_eq!(header.version_major, 1);
    assert_eq!(header.version_minor, 0);
    assert_eq!(header.record_count, 100);
    assert_eq!(header.body_offset, 128);
    assert_eq!(header.footer_offset, 5000);
    assert_eq!(header.reserved.len(), 40);

    // all reserved bytes should be zero
    assert!(header.reserved.iter().all(|&b| b == 0));
}

#[test]
fn test_header_serialization() {
    let header = DatabaseHeader::new(50, 128, 2500);
    let bytes = header.region_bytes();

    assert_eq!(bytes.len(), HEADER_SIZE);
    assert_eq!(&bytes[0..4], &MAGIC_NUMBER);
    assert_eq!(bytes[4], header.version_major);
    assert_eq!(bytes[5], header.version_minor);
    assert_eq!(u64::from_le_bytes(bytes[6..14].try_into().unwrap()), header.record_count);
    assert_eq!(u64::from_le_bytes(bytes[30..38].try_into().unwrap()), header.body_offset);
    assert_eq!(u64::from_le_bytes(bytes[38..46].try_into().unwrap()), header.footer_offset);
}

#[test]
fn test_serializable_record_conversion() {
    let mut ledger = Ledger::new();
    let user = User::new("test_user");
    let _ = ledger.register_user(user.clone());
    ledger.add_record("test payload", vec![user]).unwrap();

    let record = &ledger.records[1]; // Skip genesis
    let serializable = SerializableRecord::from(record);

    assert_eq!(serializable.index, record.index);
    assert_eq!(serializable.payload, record.payload);
    assert_eq!(serializable.payload_hash, record.payload_hash);
    assert_eq!(serializable.record_hash, record.record_hash);
    assert_eq!(serializable.signer_ids.len(), 1);
    assert_eq!(serializable.signatures.len(), 1);
}

#[test]
fn test_serializable_record_multi_signer() {
    let mut ledger = Ledger::new();
    let user1 = User::new("signer1");
    let user2 = User::new("signer2");
    let user3 = User::new("signer3");

    let _ = ledger.register_user(user1.clone());
    let _ = ledger.register_user(user2.clone());
    let _ = ledger.register_user(user3.clone());

    ledger.add_record("multi-sig", vec![user1, user2, user3]).unwrap();

    let record = &ledger.records[1];
    let serializable = SerializableRecord::from(record);

    assert_eq!(serializable.signer_ids.len(), 3);
    assert_eq!(serializable.signatures.len(), 3);
}

#[test]
fn test_serializable_user_conversion() {
    let mut user = User::new("test_user");
    user.add_role("admin");
    user.add_role("editor");

    let serializable = SerializableUser::from(&user);

    assert_eq!(serializable.user_id, "test_user");
    assert_eq!(serializable.verifying_key_bytes.len(), 32);
    assert_eq!(serializable.roles.len(), 2);
    assert!(serializable.roles.contains(&"admin".to_string()));
    assert!(serializable.roles.contains(&"editor".to_string()));
}

#[test]
fn test_serializable_user_no_roles() {
    let user = User::new("no_roles");
    let serializable = SerializableUser::from(&user);

    assert_eq!(serializable.user_id, "no_roles");
    assert_eq!(serializable.roles.len(), 0);
}

#[test]
fn test_write_and_read_ledger() {
    let mut ledger = Ledger::new();

    let user1 = User::new("0xElvis");
    let user2 = User::new("0xChege");

    let _ = ledger.register_user(user1.clone());
    let _ = ledger.register_user(user2.clone());

    ledger.add_record("First transaction", vec![user1.clone()]).unwrap();
    ledger.add_record("Second transaction", vec![user1, user2]).unwrap();

    // Write
    let mut writer = DatabaseWriter::new();
    writer.write_ledger(&ledger).unwrap();

    // Read
    let reader = DatabaseReader::new(writer.buffer.clone());
    let (header, body) = reader.read_and_verify().unwrap();

    assert_eq!(header.magic, MAGIC_NUMBER.to_vec());
    assert_eq!(header.version_major, 1);
    assert_eq!(header.version_minor, 0);
    assert_eq!(header.record_count, 3); // Genesis + 2 records
    assert_eq!(body.records.len(), 3);
}

#[test]
fn test_reader_rejects_wrong_magic() {
    let ledger = Ledger::new();
    let mut writer = DatabaseWriter::new();
    writer.write_ledger(&ledger).unwrap();
    let mut bytes = writer.buffer.clone();
    bytes[0] = b'X';
    let reader = DatabaseReader::new(bytes);
    match reader.read_and_verify() {
        Err(StorageError::InvalidMagic) => {}
        other => panic!("Expected InvalidMagic, got {:?}", other),
    }
}

#[test]
fn test_reader_rejects_wrong_major_version() {
    let ledger = Ledger::new();
    let mut writer = DatabaseWriter::new();
    writer.write_ledger(&ledger).unwrap();
    let mut bytes = writer.buffer.clone();
    bytes[4] = 2;
    let reader = DatabaseReader::new(bytes);
    match reader.read_and_verify() {
        Err(StorageError::UnsupportedVersion(2, 0)) => {}
        other => panic!("Expected UnsupportedVersion, got {:?}", other),
    }
}

#[test]
fn test_reader_rejects_checksum_mismatch() {
    let mut ledger = Ledger::new();
    let user = User::new("body_user");
    let _ = ledger.register_user(user.clone());
    ledger.add_record("body data", vec![user]).unwrap();
    let mut writer = DatabaseWriter::new();
    writer.write_ledger(&ledger).unwrap();
    let mut bytes = writer.buffer.clone();
    let body_pos = HEADER_SIZE + 9;
    bytes[body_pos] = bytes[body_pos].wrapping_add(1);
    let reader = DatabaseReader::new(bytes);
    match reader.read_and_verify() {
        Err(StorageError::ChecksumMismatch) => {}
        other => panic!("Expected ChecksumMismatch, got {:?}", other),
    }
}

#[test]
fn test_snapshot_round_trip_hashes() {
    // read(write(L)) preserves every record hash and user.
    let mut ledger = Ledger::new();
    let mut user = User::new("rt_user");
    user.add_role("editor");
    let _ = ledger.register_user(user.clone());
    ledger.add_record("round trip", vec![user]).unwrap();

    let mut writer = DatabaseWriter::new();
    writer.write_ledger(&ledger).unwrap();
    let reader = DatabaseReader::new(writer.buffer.clone());
    let (_, body) = reader.read_and_verify().unwrap();

    assert_eq!(body.records.len(), ledger.records.len());
    for (a, b) in body.records.iter().zip(ledger.records.iter()) {
        assert_eq!(a.index, b.index);
        assert_eq!(a.payload, b.payload);
        assert_eq!(a.payload_hash, b.payload_hash);
        assert_eq!(a.prev_hash, b.prev_hash);
        assert_eq!(a.record_hash, b.record_hash);
        assert_eq!(a.timestamp, b.timestamp);
        assert_eq!(a.nonce, b.nonce);
        assert_eq!(a.signer_ids, b.signer_ids);
        assert_eq!(a.signatures, b.signatures);
    }
    assert_eq!(body.users.len(), ledger.users.len());
    for (a, b) in body.users.iter().zip(ledger.users.iter()) {
        assert_eq!(a.user_id, b.user_id);
        assert_eq!(a.verifying_key_bytes, b.verifying_key);
        assert_eq!(a.roles, b.roles);
    }
}
