use ukweli::config::Config;
use ukweli::entity::Tracker;
use ukweli::error::LedgerError;
use ukweli::ledger::Ledger;
use ukweli::user::User;

fn has_user(ledger: &Ledger, id: &str) -> bool {
    ledger.users.iter().any(|u| u.user_id == id)
}

fn has_registry_entry(ledger: &Ledger, id: &str) -> bool {
    ledger.verify_registry.iter().any(|e| e.0 == id)
}

#[test]
fn test_ledger_init() {
    let db = Ledger::new();

    assert_eq!(db.records[0].index, 0);
    assert_eq!(db.length(), 1);
    assert!(has_user(&db, "GENESIS"));
    assert!(has_registry_entry(&db, "GENESIS"));
}

#[test]
fn test_add_record() {
    let mut ledger = Ledger::new();

    let test_signer = User::new("user1");
    let _ = ledger.register_user(test_signer.clone());
    let result = ledger.add_record("test payload", vec![test_signer]);
    assert!(result.is_ok());
    assert_eq!(ledger.length(), 2);

    let added_record = &ledger.records[1];
    assert_eq!(added_record.payload, "test payload");
    assert_eq!(added_record.index, 1);

    // adding a record with an unregistered user
    let unreg_signer = User::new("unreg_user");
    let result = ledger.add_record("another payload", vec![unreg_signer]);
    assert!(result.is_err());

    // adding a record with an empty payload
    let reg_signer = User::new("reg_user");
    let _ = ledger.register_user(reg_signer.clone());
    let result = ledger.add_record("", vec![reg_signer]);
    assert!(result.is_err());
}

#[test]
fn test_verify_chain_valid() {
    let mut ledger = Ledger::new();

    let test_signer1 = User::new("user1");
    let test_signer2 = User::new("user2");
    let test_signer3 = User::new("user3");

    let _ = ledger.register_user(test_signer1.clone());
    let _ = ledger.register_user(test_signer2.clone());
    let _ = ledger.register_user(test_signer3.clone());

    ledger
        .add_record("pay 100", vec![test_signer1, test_signer2])
        .unwrap();
    ledger.add_record("sell 50", vec![test_signer3]).unwrap();

    assert!(ledger.verify_chain().unwrap());
}

#[test]
fn test_verify_chain_tampered() {
    let mut ledger = Ledger::new();

    let test_signer1 = User::new("user1");
    let test_signer2 = User::new("user2");
    let test_signer3 = User::new("user3");

    let _ = ledger.register_user(test_signer1.clone());
    let _ = ledger.register_user(test_signer2.clone());
    let _ = ledger.register_user(test_signer3.clone());

    ledger
        .add_record("pay 100", vec![test_signer1, test_signer2])
        .unwrap();
    ledger.add_record("sell 50", vec![test_signer3]).unwrap();

    // Tamper with data
    ledger.records[1].payload = "evil data".to_string();

    // Tampered chain should fail verification
    let result = ledger.verify_chain();
    assert!(result.is_err());
}

#[test]
fn test_error_handling() {
    let mut ledger = Ledger::new();
    let unreg_signer = User::new("unreg_user");
    let result = ledger.add_record("test payload", vec![unreg_signer]);
    assert!(matches!(result, Err(LedgerError::UnregisteredUser)));

    let empty_payload_signer = User::new("reg_user");
    let _ = ledger.register_user(empty_payload_signer.clone());
    let result = ledger.add_record("", vec![empty_payload_signer]);
    assert!(matches!(result, Err(LedgerError::EmptyPayload)));
}

#[test]
fn test_hash_calculation() {
    let mut ledger = Ledger::new();
    let test_signer1 = User::new("user1");
    let _ = ledger.register_user(test_signer1.clone());

    let record1_hash = ledger.records[0].record_hash.clone();
    ledger.add_record("test", vec![test_signer1]).unwrap();

    let record2_hash = ledger.records[1].record_hash.clone();

    // Hashes should be different
    assert_ne!(record1_hash, record2_hash);

    assert_eq!(record1_hash.len(), 64);
    assert_eq!(record2_hash.len(), 64);
}

#[test]
fn test_comprehensive_scenario() {
    let mut ledger = Ledger::new();

    let user1 = User::new("Elvis");
    let user2 = User::new("Thabo");
    let user3 = User::new("Kamau");
    let user4 = User::new("Kipchoge");
    let user5 = User::new("Amina");
    let user6 = User::new("Zuri");

    let _ = ledger.register_user(user1.clone());
    let _ = ledger.register_user(user2.clone());
    let _ = ledger.register_user(user3.clone());
    let _ = ledger.register_user(user4.clone());
    let _ = ledger.register_user(user5.clone());
    let _ = ledger.register_user(user6.clone());

    let transactions = [
        "Elvis pays Thabo 100",
        "Kamau pays Kipchoge 50",
        "Amina pays Zuri 200",
    ];

    ledger.add_record(transactions[0], vec![user1, user2]).unwrap();
    ledger.add_record(transactions[1], vec![user3, user4]).unwrap();
    ledger.add_record(transactions[2], vec![user5, user6]).unwrap();

    assert!(ledger.verify_chain().unwrap());

    assert_eq!(ledger.length(), 4);

    ledger.records[2].payload = "HACKED!".to_string();
    let result = ledger.verify_chain();
    assert!(result.is_err());
}

#[test]
fn test_no_signers_rejected() {
    let mut ledger = Ledger::new();
    let result = ledger.add_record("some payload", vec![]);
    assert!(matches!(result, Err(LedgerError::NoSigners)));
}

#[test]
fn test_basic_chain_links() {
    // Register Alice (role editor) and Bob; append two records; the
    // chain links each record to its predecessor's hash.
    let mut ledger = Ledger::new();
    let mut alice = User::new("Alice");
    alice.add_role("editor");
    let bob = User::new("Bob");
    let _ = ledger.register_user(alice.clone());
    let _ = ledger.register_user(bob.clone());

    ledger.add_record("pay 100", vec![alice, bob.clone()]).unwrap();
    ledger.add_record("sell 50", vec![bob]).unwrap();

    assert_eq!(ledger.length(), 3);
    assert!(ledger.verify_chain().is_ok());
    assert_eq!(ledger.records[1].prev_hash, ledger.records[0].record_hash);
    assert_eq!(ledger.records[2].prev_hash, ledger.records[1].record_hash);
}

#[test]
fn test_tamper_payload_message() {
    let mut ledger = Ledger::new();
    let mut alice = User::new("Alice");
    alice.add_role("editor");
    let bob = User::new("Bob");
    let _ = ledger.register_user(alice.clone());
    let _ = ledger.register_user(bob.clone());
    ledger.add_record("pay 100", vec![alice, bob.clone()]).unwrap();
    ledger.add_record("sell 50", vec![bob]).unwrap();

    ledger.records[1].payload = "evil".to_string();
    match ledger.verify_chain() {
        Err(LedgerError::ChainValidation(msg)) => {
            assert_eq!(msg, "Payload tampered at 1");
        }
        other => panic!("expected ChainValidation, got {:?}", other),
    }
}

#[test]
fn test_tamper_prev_hash_detected() {
    let mut ledger = Ledger::new();
    let signer = User::new("user1");
    let _ = ledger.register_user(signer.clone());
    ledger.add_record("first", vec![signer.clone()]).unwrap();
    ledger.add_record("second", vec![signer]).unwrap();

    ledger.records[2].prev_hash = "0000000000000000000000000000000000000000000000000000000000000000".to_string();
    assert!(ledger.verify_chain().is_err());
}

#[test]
fn test_tamper_record_hash_detected() {
    let mut ledger = Ledger::new();
    let signer = User::new("user1");
    let _ = ledger.register_user(signer.clone());
    ledger.add_record("first", vec![signer]).unwrap();

    let mut bad = ledger.records[1].record_hash.clone().into_bytes();
    bad[0] = if bad[0] == b'a' { b'b' } else { b'a' };
    ledger.records[1].record_hash = String::from_utf8(bad).unwrap();
    assert!(ledger.verify_chain().is_err());
}

#[test]
fn test_tamper_signature_detected() {
    let mut ledger = Ledger::new();
    let signer = User::new("user1");
    let _ = ledger.register_user(signer.clone());
    ledger.add_record("first", vec![signer]).unwrap();

    let sig = &mut ledger.records[1].signatures[0].1;
    sig[0] = sig[0].wrapping_add(1);
    assert!(ledger.verify_chain().is_err());
}

#[test]
fn test_register_same_key_is_noop() {
    let mut ledger = Ledger::new();
    let user = User::new("dup");
    assert!(ledger.register_user(user.clone()).is_ok());
    let before = ledger.verify_registry.len();
    assert!(ledger.register_user(user.clone()).is_ok());
    assert_eq!(ledger.verify_registry.len(), before);
}

#[test]
fn test_register_conflicting_key_rejected() {
    let mut ledger = Ledger::new();
    let first = User::new("dup");
    let second = User::new("dup");
    assert!(ledger.register_user(first).is_ok());
    let result = ledger.register_user(second);
    assert!(matches!(result, Err(LedgerError::AlreadyRegistered)));
}

#[test]
fn test_user_roles() {
    let mut user = User::new("role_user");
    assert!(!user.has_role("editor"));
    user.add_role("editor");
    assert!(user.has_role("editor"));
    user.add_role("editor");
    user.add_role("admin");
    assert!(user.has_role("admin"));
    user.remove_role("editor");
    assert!(!user.has_role("editor"));
    assert!(user.has_role("admin"));
}

#[test]
fn test_sign_and_verify_roundtrip() {
    let user = User::new("signer");
    let message = b"some message";
    let sig = user.sign(message);
    assert!(ukweli::crypto::verify_signature(
        &user.verifying_key,
        message,
        &sig
    ));
    assert!(!ukweli::crypto::verify_signature(
        &user.verifying_key,
        b"another message",
        &sig
    ));
}

#[test]
fn test_sha256_known_value() {
    let digest = ukweli::crypto::sha256_hex_of(b"hello");
    assert_eq!(
        digest,
        "2cf24dba5fb0a30e26e83b2ac5b9e29e1b161e5c1fa7425e73043362938b9824"
    );
}

#[test]
fn test_hex_decode_known_value() {
    let bytes = ukweli::hexcode::hex_decode("00ff10");
    assert_eq!(bytes, vec![0x00, 0xff, 0x10]);
}

#[test]
fn test_decimal_rendering() {
    assert_eq!(ukweli::decimal::u64_to_dec_string(0), "0");
    assert_eq!(ukweli::decimal::u64_to_dec_string(7), "7");
    assert_eq!(ukweli::decimal::u64_to_dec_string(90210), "90210");
    assert_eq!(
        ukweli::decimal::u64_to_dec_string(u64::MAX),
        "18446744073709551615"
    );
}

#[test]
fn test_config_paths() {
    assert_eq!(Config::default_db_path("/home/x/.ukweli"), "/home/x/.ukweli/default.ukweli");
    assert_eq!(Config::users_dir("/home/x/.ukweli"), "/home/x/.ukweli/users");
    assert_eq!(Config::workflows_dir("/home/x/.ukweli"), "/home/x/.ukweli/workflows");
    assert_eq!(Config::config_file("/home/x/.ukweli"), "/home/x/.ukweli/config.json");
}

#[test]
fn test_entity_tracker() {
    let mut tracker = Tracker::new("doc-1", "publishing", "draft", 0);
    assert_eq!(tracker.entities.len(), 1);
    assert_eq!(tracker.entities[0].current_state, "draft");

    assert!(tracker.update_entity("doc-1", "review", 4).is_ok());
    assert_eq!(tracker.entities[0].current_state, "review");
    assert_eq!(tracker.entities[0].last_record_index, 4);

    assert!(tracker.update_entity("doc-2", "review", 5).is_err());
}
