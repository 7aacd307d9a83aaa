use arsync::common::{
    check_passbook_password, create_passbook_password, down_root_action, find_passbook_folder,
    list_remote_folder_file, up_root_action, Passbook, PasswordError, RootAction,
};
use arsync::config::AppConfig;
use arsync::custom_crypto::{
    decrypt_base64, decrypt_file_name, encrypt_buff_to_base64, encrypt_file_name, CryptoError,
};
use arsync::reconcile::{EntryKind, RemoteEntry};

fn listed(name: &str, file_id: &str, kind: EntryKind) -> RemoteEntry {
    RemoteEntry {
        drive_id: "drive".to_string(),
        file_id: file_id.to_string(),
        parent_file_id: "root".to_string(),
        name: name.to_string(),
        kind,
        updated_at: 1_700_000_000,
    }
}

#[test]
fn created_passbook_verifies_under_the_same_password() {
    let (key, passbook) = create_passbook_password("hunter2");
    assert_eq!(key.len(), 64);
    assert!(key.iter().all(|b| b.is_ascii_alphanumeric()));
    assert_eq!(check_passbook_password(&passbook, "hunter2"), Ok(key));
}

#[test]
fn created_passbook_has_the_stated_fields() {
    let (key, passbook) = create_passbook_password("hunter2");
    assert_eq!(passbook.key_encrypted, encrypt_buff_to_base64(&key, b"hunter2").unwrap());
    assert_eq!(passbook.test_encrypted, encrypt_file_name("test", b"hunter2").unwrap());
    assert_eq!(decrypt_file_name(&passbook.test_encrypted, b"hunter2").unwrap(), "test");
    assert_eq!(decrypt_base64(&passbook.key_encrypted, b"hunter2").unwrap(), key);
    // The sync password travels wrapped, never in the clear.
    assert_ne!(passbook.key_encrypted.as_bytes(), &key[..]);
}

#[test]
fn sync_passwords_are_fresh() {
    let (first, _) = create_passbook_password("hunter2");
    let (second, _) = create_passbook_password("hunter2");
    assert_ne!(first, second);
}

#[test]
fn another_password_fails_at_the_known_word() {
    let (_, passbook) = create_passbook_password("pw1");
    assert_eq!(check_passbook_password(&passbook, "pw2"), Err(PasswordError::WrongPassword));
    assert_eq!(check_passbook_password(&passbook, ""), Err(PasswordError::WrongPassword));
}

#[test]
fn known_word_must_be_the_word() {
    let passbook = Passbook {
        key_encrypted: encrypt_buff_to_base64(b"key", b"pw").unwrap(),
        test_encrypted: encrypt_file_name("tess", b"pw").unwrap(),
    };
    assert_eq!(check_passbook_password(&passbook, "pw"), Err(PasswordError::WrongPassword));
    let passbook = Passbook {
        key_encrypted: encrypt_buff_to_base64(b"key", b"pw").unwrap(),
        test_encrypted: "not base64".to_string(),
    };
    assert_eq!(check_passbook_password(&passbook, "pw"), Err(PasswordError::WrongPassword));
}

#[test]
fn damaged_key_is_told_apart_from_a_wrong_password() {
    let passbook = Passbook {
        key_encrypted: "####".to_string(),
        test_encrypted: encrypt_file_name("test", b"pw").unwrap(),
    };
    assert_eq!(
        check_passbook_password(&passbook, "pw"),
        Err(PasswordError::DamagedKey(CryptoError::InvalidBase64))
    );
    let passbook = Passbook {
        key_encrypted: encrypt_buff_to_base64(b"key", b"other").unwrap(),
        test_encrypted: encrypt_file_name("test", b"pw").unwrap(),
    };
    assert_eq!(
        check_passbook_password(&passbook, "pw"),
        Err(PasswordError::DamagedKey(CryptoError::TagMismatch))
    );
}

#[test]
fn existing_passbook_verifies() {
    let passbook = Passbook {
        key_encrypted: "YVY-359tgDPNDJsyaoEC_Ay0qEcZ5PlwddCnslO4xvkGcocEjM9M6e367GDfN4oP21wCYAMb2Cq532MylqhLWCVz1USKpv6Rk6NBJE_C-rE=".to_string(),
        test_encrypted: encrypt_file_name("test", b"isonlypass").unwrap(),
    };
    let key = check_passbook_password(&passbook, "isonlypass").unwrap();
    assert_eq!(key.len(), 64);
}

#[test]
fn passbook_is_split_from_the_user_entries() {
    let entries = vec![
        listed("a.txt", "1", EntryKind::File),
        listed("passbook", "2", EntryKind::File),
        listed("dir", "3", EntryKind::Folder),
    ];
    let (passbook, others) = find_passbook_folder(&entries);
    assert_eq!(passbook.unwrap().file_id, "2");
    let names: Vec<&str> = others.iter().map(|e| e.name.as_str()).collect();
    assert_eq!(names, vec!["a.txt", "dir"]);
    assert_eq!(others[1].file_id, "3");
    assert_eq!(others[1].kind, EntryKind::Folder);
    assert_eq!(others[0].updated_at, 1_700_000_000);
}

#[test]
fn folder_without_passbook() {
    let entries = vec![listed("a.txt", "1", EntryKind::File)];
    let (passbook, others) = find_passbook_folder(&entries);
    assert!(passbook.is_none());
    assert_eq!(others.len(), 1);
    let (passbook, others) = find_passbook_folder(&Vec::new());
    assert!(passbook.is_none());
    assert!(others.is_empty());
}

#[test]
fn last_passbook_of_a_listing_counts() {
    let entries = vec![
        listed("passbook", "1", EntryKind::File),
        listed("x", "2", EntryKind::File),
        listed("passbook", "3", EntryKind::File),
    ];
    let (passbook, others) = find_passbook_folder(&entries);
    assert_eq!(passbook.unwrap().file_id, "3");
    assert_eq!(others.len(), 1);
}

#[test]
fn listings_never_show_the_passbook() {
    let entries = vec![
        listed("passbook", "1", EntryKind::File),
        listed("Passbook", "2", EntryKind::File),
        listed("passbook ", "3", EntryKind::File),
        listed("passbook", "4", EntryKind::Folder),
        listed("b", "5", EntryKind::File),
    ];
    let visible = list_remote_folder_file(&entries);
    let ids: Vec<&str> = visible.iter().map(|e| e.file_id.as_str()).collect();
    assert_eq!(ids, vec!["2", "3", "5"]);
    assert!(visible.iter().all(|e| e.name != "passbook"));
}

#[test]
fn upward_policy() {
    assert_eq!(up_root_action(true, true, true), Ok(RootAction::Verify));
    assert_eq!(up_root_action(true, true, false), Ok(RootAction::Verify));
    assert_eq!(up_root_action(true, false, true), Ok(RootAction::Create));
    assert_eq!(up_root_action(true, false, false), Err(PasswordError::FolderNotEmpty));
    assert_eq!(up_root_action(false, true, true), Ok(RootAction::Unencrypted));
    assert_eq!(up_root_action(false, true, false), Ok(RootAction::Unencrypted));
    assert_eq!(up_root_action(false, false, true), Ok(RootAction::Unencrypted));
    assert_eq!(up_root_action(false, false, false), Ok(RootAction::Unencrypted));
}

#[test]
fn downward_policy() {
    assert_eq!(down_root_action(true, true), Ok(RootAction::Verify));
    assert_eq!(down_root_action(false, true), Err(PasswordError::PasswordRequired));
    assert_eq!(down_root_action(true, false), Err(PasswordError::NoPassbook));
    assert_eq!(down_root_action(false, false), Ok(RootAction::Unencrypted));
}

#[test]
fn wrong_password_stops_a_downward_run_at_the_root() {
    let (_, passbook) = create_passbook_password("pw1");
    assert_eq!(down_root_action(true, true), Ok(RootAction::Verify));
    assert_eq!(check_passbook_password(&passbook, "pw2"), Err(PasswordError::WrongPassword));
}

#[test]
fn fresh_configuration_is_empty() {
    let config = AppConfig::default();
    assert_eq!(config.client_id, "");
    assert_eq!(config.client_secret, "");
}
