use pi_u2f::counter::{advance, read_counter, write_counter};
use pi_u2f::error::{Error, StoreError};
use pi_u2f::key::{eq_consttime, same_application, ApplicationKey};
use pi_u2f::names::{counter_record_name, key_record_name};
use pi_u2f::presence::AutoApproveUserPresence;
use pi_u2f::store::FileSecretStore;
use tempfile::TempDir;

fn fresh_store() -> FileSecretStore {
    FileSecretStore::new(String::from("/var/lib/pi-u2f"))
}

#[test]
fn test_file_secret_store() {
    let temp_dir = TempDir::new().expect("Failed to create temp dir");
    let test_path = temp_dir.path().to_string_lossy().to_string();

    let mut store = FileSecretStore::new(test_path.clone());
    assert_eq!(store.storage_path(), test_path);

    let app_id = [0u8; 32];
    let key_handle = vec![0u8; 64];

    let result = store.retrieve_application_key(&app_id, &key_handle);
    assert!(result.is_none(), "Expected None for non-existent key");

    let counter = store.get_and_increment_counter(&app_id, &key_handle).unwrap();
    assert_eq!(counter, 0, "Initial counter should be 0");

    let counter2 = store.get_and_increment_counter(&app_id, &key_handle).unwrap();
    assert_eq!(counter2, 1, "Counter should have incremented to 1");
}

#[test]
fn test_auto_approve_user_presence() {
    let presence = AutoApproveUserPresence;

    let app_id = [0u8; 32];
    let result = presence.approve_registration(&app_id).unwrap();
    assert!(result, "Expected approval for registration");

    let result = presence.approve_authentication(&app_id).unwrap();
    assert!(result, "Expected approval for authentication");

    let result = presence.wink();
    assert!(result.is_ok(), "Expected OK for wink");
}

#[test]
fn approval_delay_is_200_ms() {
    assert_eq!(AutoApproveUserPresence.approval_delay_millis(), 200);
}

#[test]
fn unregistered_application_has_no_key() {
    let mut store = fresh_store();
    let other = ApplicationKey::new([7u8; 32], vec![1, 2, 3], vec![9]);
    store.add_application_key(other);
    assert!(store.retrieve_application_key(&[8u8; 32], &[1, 2, 3]).is_none());
    assert!(store.retrieve_application_key(&[8u8; 32], &[]).is_none());
}

#[test]
fn put_then_get_returns_the_key() {
    let mut store = fresh_store();
    let key = ApplicationKey::new([3u8; 32], vec![10, 20, 30], vec![1, 2, 3, 4]);
    store.add_application_key(key);
    let found = store.retrieve_application_key(&[3u8; 32], &[10, 20, 30]).unwrap();
    assert_eq!(found.application, [3u8; 32]);
    assert_eq!(found.handle, vec![10, 20, 30]);
    assert_eq!(found.key, vec![1, 2, 3, 4]);
    assert!(store.retrieve_application_key(&[3u8; 32], &[10, 20, 31]).is_none());
    assert!(store.retrieve_application_key(&[3u8; 32], &[10, 20]).is_none());
    assert!(store.retrieve_application_key(&[3u8; 32], &[10, 20, 30, 0]).is_none());
}

#[test]
fn second_registration_replaces_the_first() {
    let mut store = fresh_store();
    store.add_application_key(ApplicationKey::new([3u8; 32], vec![1], vec![11]));
    assert_eq!(store.get_and_increment_counter(&[3u8; 32], &[1]), Ok(0));
    store.add_application_key(ApplicationKey::new([3u8; 32], vec![2], vec![22]));
    assert!(store.retrieve_application_key(&[3u8; 32], &[1]).is_none());
    let found = store.retrieve_application_key(&[3u8; 32], &[2]).unwrap();
    assert_eq!(found.key, vec![22]);
    // The counter belongs to the application and is shared by its handles.
    assert_eq!(store.get_and_increment_counter(&[3u8; 32], &[2]), Ok(1));
}

#[test]
fn consecutive_counters_are_consecutive() {
    let mut store = fresh_store();
    let app = [5u8; 32];
    for expected in 0u32..25 {
        assert_eq!(store.get_and_increment_counter(&app, &[]), Ok(expected));
    }
    assert_eq!(store.counter_record(&app), Some(b"25".to_vec()));
    // Another application counts for itself.
    assert_eq!(store.get_and_increment_counter(&[6u8; 32], &[]), Ok(0));
}

#[test]
fn two_authentications_see_zero_then_one() {
    let mut store = fresh_store();
    let app = [0u8; 32];
    store.add_application_key(ApplicationKey::new(app, vec![4; 64], vec![1]));
    let first = store.get_and_increment_counter(&app, &[4; 64]);
    let second = store.get_and_increment_counter(&app, &[4; 64]);
    assert_eq!((first, second), (Ok(0), Ok(1)));
}

#[test]
fn counter_survives_a_restart() {
    let app = [9u8; 32];
    let mut store = fresh_store();
    assert_eq!(store.get_and_increment_counter(&app, &[]), Ok(0));
    assert_eq!(store.get_and_increment_counter(&app, &[]), Ok(1));
    let persisted = store.counter_record(&app).unwrap();
    assert_eq!(persisted, b"2".to_vec());

    let mut restarted = fresh_store();
    restarted.restore_counter(&app, persisted);
    assert_eq!(restarted.get_and_increment_counter(&app, &[]), Ok(2));
    // Writing a key does not touch the counter.
    restarted.add_application_key(ApplicationKey::new(app, vec![1], vec![2]));
    assert_eq!(restarted.get_and_increment_counter(&app, &[1]), Ok(3));
}

#[test]
fn corrupt_counter_fails_loudly() {
    let app = [1u8; 32];
    let mut store = fresh_store();
    store.restore_counter(&app, b"12x".to_vec());
    assert_eq!(store.get_and_increment_counter(&app, &[]), Err(StoreError::CorruptCounter));
    assert_eq!(store.counter_record(&app), Some(b"12x".to_vec()));
    store.restore_counter(&app, Vec::new());
    assert_eq!(store.get_and_increment_counter(&app, &[]), Err(StoreError::CorruptCounter));
}

#[test]
fn exhausted_counter_is_an_error() {
    let app = [1u8; 32];
    let mut store = fresh_store();
    store.restore_counter(&app, b"4294967294".to_vec());
    assert_eq!(store.get_and_increment_counter(&app, &[]), Ok(4294967294));
    assert_eq!(store.counter_record(&app), Some(b"4294967295".to_vec()));
    assert_eq!(store.get_and_increment_counter(&app, &[]), Err(StoreError::CounterExhausted));
    assert_eq!(store.counter_record(&app), Some(b"4294967295".to_vec()));
}

#[test]
fn counter_text_is_decimal() {
    assert_eq!(write_counter(0), b"0".to_vec());
    assert_eq!(write_counter(7), b"7".to_vec());
    assert_eq!(write_counter(10), b"10".to_vec());
    assert_eq!(write_counter(1234567890), b"1234567890".to_vec());
    assert_eq!(write_counter(u32::MAX), b"4294967295".to_vec());
    assert_eq!(read_counter(b"0"), Some(0));
    assert_eq!(read_counter(b"007"), Some(7));
    assert_eq!(read_counter(b"4294967295"), Some(u32::MAX));
    assert_eq!(read_counter(b"4294967296"), None);
    assert_eq!(read_counter(b"99999999999999999999999999"), None);
    assert_eq!(read_counter(b""), None);
    assert_eq!(read_counter(b"+5"), None);
    assert_eq!(read_counter(b"5\n"), Some(5));
    assert_eq!(read_counter(b" 5"), Some(5));
    assert_eq!(read_counter(b"\t 42\r\n"), Some(42));
    assert_eq!(read_counter(b"4 2"), None);
    assert_eq!(read_counter(b" \n"), None);
    assert_eq!(read_counter(b"-1"), None);
    for n in [0u32, 1, 9, 10, 99, 100, 65535, 65536, u32::MAX] {
        assert_eq!(read_counter(&write_counter(n)), Some(n));
    }
}

#[test]
fn advance_reads_then_increments() {
    assert_eq!(advance(None), Ok((0, b"1".to_vec())));
    assert_eq!(advance(Some(&b"41"[..])), Ok((41, b"42".to_vec())));
    assert_eq!(advance(Some(&b"9"[..])), Ok((9, b"10".to_vec())));
    assert_eq!(advance(Some(&b"9\n"[..])), Ok((9, b"10".to_vec())));
    assert_eq!(advance(Some(&b""[..])), Err(StoreError::CorruptCounter));
    assert_eq!(advance(Some(&b"forty"[..])), Err(StoreError::CorruptCounter));
    assert_eq!(advance(Some(&b"4294967295"[..])), Err(StoreError::CounterExhausted));
}

#[test]
fn record_names_are_hex_of_the_application() {
    let zero = "0".repeat(64);
    assert_eq!(key_record_name(&[0u8; 32]), format!("{}.json", zero));
    assert_eq!(counter_record_name(&[0u8; 32]), format!("{}.counter", zero));
    let mut app = [0u8; 32];
    app[0] = 0xab;
    app[1] = 0x0f;
    app[31] = 0xf0;
    let name = key_record_name(&app);
    assert_eq!(name.len(), 69);
    assert!(name.starts_with("ab0f00"));
    assert!(name.ends_with("00f0.json"));
    assert_ne!(key_record_name(&app), key_record_name(&[0u8; 32]));
    assert_ne!(counter_record_name(&app), counter_record_name(&[0u8; 32]));
}

#[test]
fn handles_compare_by_content() {
    assert!(eq_consttime(&[], &[]));
    assert!(eq_consttime(&[1, 2, 3], &[1, 2, 3]));
    assert!(!eq_consttime(&[1, 2, 3], &[1, 2, 4]));
    assert!(!eq_consttime(&[0, 2, 3], &[1, 2, 3]));
    assert!(!eq_consttime(&[1, 2, 3], &[1, 2]));
    assert!(!eq_consttime(&[0x80], &[0x00]));
    assert!(same_application(&[4u8; 32], &[4u8; 32]));
    let mut other = [4u8; 32];
    other[31] = 5;
    assert!(!same_application(&[4u8; 32], &other));
}

#[test]
fn key_matches_its_application_and_handle_only() {
    let key = ApplicationKey::new([2u8; 32], vec![1, 2], vec![3, 4, 5]);
    assert!(key.matches(&[2u8; 32], &[1, 2]));
    assert!(!key.matches(&[3u8; 32], &[1, 2]));
    assert!(!key.matches(&[2u8; 32], &[1, 3]));
    assert!(!key.matches(&[2u8; 32], &[]));
}

#[test]
fn key_clone_keeps_every_field() {
    let key = ApplicationKey::new([2u8; 32], vec![1, 2], vec![3, 4, 5]);
    let copy = key.clone();
    assert_eq!(copy.application, key.application);
    assert_eq!(copy.handle, key.handle);
    assert_eq!(copy.key, key.key);
}

#[test]
fn error_messages_name_operation_and_cause() {
    assert_eq!(Error::Io(String::from("broken pipe")).message(), "I/O error: broken pipe");
    assert_eq!(
        Error::HidDevice(String::from("no such file")).message(),
        "Failed to open HID device: no such file"
    );
    assert_eq!(
        Error::HomeDirectoryNotFound.message(),
        "Home directory path could not be retrieved from the operating system"
    );
    assert_eq!(StoreError::CorruptCounter.message(), "counter record is corrupt");
    assert_eq!(StoreError::CounterExhausted.message(), "counter cannot be advanced further");
}
