//! The vault's entry operations and the encrypted save/open round trip.

use passmate::{PassmateError, Vault};

fn fresh_vault() -> Vault {
    Vault::open("test.vault".to_string(), "testpwd".to_string(), None)
        .unwrap_or_else(|_| panic!("opening a missing vault must succeed"))
}

fn reopen(bytes: Vec<u8>, passphrase: &str) -> Result<Vault, PassmateError> {
    Vault::open("test.vault".to_string(), passphrase.to_string(), Some(bytes))
}

#[test]
fn open_returns_an_empty_vault_for_file_that_doesnt_exist() {
    let vault = Vault::open("doesnotexist".to_string(), "testpwd".to_string(), None)
        .unwrap_or_else(|_| panic!("opening a missing vault must succeed"));
    assert!(vault.entries().is_empty());
}

#[test]
fn open_opens_a_vault_with_existing_data() {
    let mut vault = fresh_vault();
    vault.set("mypass".to_string(), "test".to_string());
    let bytes = vault.save().unwrap_or_else(|_| panic!("save must succeed"));

    let reopened = reopen(bytes, "testpwd").unwrap_or_else(|_| panic!("reopen must succeed"));
    assert_eq!(reopened.entries(), vault.entries());
    assert_eq!(reopened.get("mypass"), vault.get("mypass"));
}

#[test]
fn set_adds_a_new_secret_to_the_vault_with_the_given_name() {
    let mut vault = fresh_vault();

    vault.set("mypass".to_string(), "test".to_string());

    assert_eq!(vault.get("mypass").unwrap(), "test");
}

#[test]
fn entries_returns_the_names_of_the_vault_entries_in_alphabetical_order() {
    let mut vault = fresh_vault();
    vault.set("pass1".to_string(), "test".to_string());
    vault.set("pass2".to_string(), "test".to_string());

    let want: Vec<String> = vec!["pass1".into(), "pass2".into()];
    let got = vault.entries();
    assert_eq!(want, got);
}

#[test]
fn get_retrieves_a_secret_from_the_vault_with_the_given_name() {
    let mut vault = fresh_vault();
    vault.set("mypass".to_string(), "test".to_string());

    assert_eq!(vault.get("mypass"), Some(&"test".to_string()));
}

#[test]
fn get_returns_none_if_a_secret_does_not_exist_by_the_given_name() {
    let vault = fresh_vault();

    assert!(vault.get("mypass").is_none());
}

#[test]
fn set_updates_an_existing_secret_if_it_already_exists_by_the_given_name() {
    let mut vault = fresh_vault();
    vault.set("mypass".to_string(), "test".to_string());
    vault.set("mypass".to_string(), "newtest".to_string());
    assert_eq!(vault.get("mypass").unwrap(), "newtest");
}

#[test]
fn remove_deletes_the_secret_with_the_given_name_from_the_vault() {
    let mut vault = fresh_vault();
    vault.set("mypass".to_string(), "test".to_string());

    vault.remove("mypass");

    assert!(vault.get("mypass").is_none());
}

#[test]
fn save_persists_the_vaults_data_to_disk_as_json() {
    let mut vault = fresh_vault();
    vault.set("mypass".to_string(), "test".to_string());
    let bytes = vault.save().unwrap_or_else(|_| panic!("save must succeed"));

    let got = reopen(bytes, "testpwd").unwrap_or_else(|_| panic!("reopen must succeed"));
    assert_eq!(got.entries(), vec!["mypass".to_string()]);
    assert_eq!(got.get("mypass"), Some(&"test".to_string()));
}

#[test]
fn data_can_be_encrypted_and_decrypted() {
    let mut vault = fresh_vault();
    vault.set("mypass".to_string(), "this is a test".to_string());
    let bytes = vault.save().unwrap_or_else(|_| panic!("save must succeed"));

    let reopened = reopen(bytes, "testpwd").unwrap_or_else(|_| panic!("reopen must succeed"));
    assert_eq!(reopened.get("mypass"), Some(&"this is a test".to_string()));
}

#[test]
fn encrypted_a_value_should_produce_different_results_each_time() {
    let mut vault = fresh_vault();
    vault.set("mypass".to_string(), "this is a test".to_string());
    let first = vault.save().unwrap_or_else(|_| panic!("save must succeed"));
    let second = vault.save().unwrap_or_else(|_| panic!("save must succeed"));
    assert_ne!(first, second);
}

#[test]
fn decrypting_a_tampered_with_ciphertext_should_return_an_error() {
    let mut vault = fresh_vault();
    vault.set("mypass".to_string(), "this is a test".to_string());
    let mut bytes = vault.save().unwrap_or_else(|_| panic!("save must succeed"));
    bytes[28] ^= 0x01;
    assert!(matches!(reopen(bytes, "testpwd"), Err(PassmateError::Decrypt)));
}

#[test]
fn tampering_with_any_region_of_the_container_is_detected() {
    let mut vault = fresh_vault();
    vault.set("mypass".to_string(), "test".to_string());
    let bytes = vault.save().unwrap_or_else(|_| panic!("save must succeed"));

    // One flip in the ciphertext proper, one in the trailing tag.
    let positions = [28, bytes.len() - 1];
    for &pos in positions.iter() {
        let mut tampered = bytes.clone();
        tampered[pos] ^= 0x80;
        assert!(matches!(reopen(tampered, "testpwd"), Err(PassmateError::Decrypt)));
    }
}

#[test]
fn opening_with_a_wrong_passphrase_is_rejected() {
    let mut vault = fresh_vault();
    vault.set("mypass".to_string(), "test".to_string());
    let bytes = vault.save().unwrap_or_else(|_| panic!("save must succeed"));

    assert!(matches!(reopen(bytes, "wrongpwd"), Err(PassmateError::Decrypt)));
}

#[test]
fn a_container_too_short_for_salt_and_nonce_is_rejected() {
    let result = Vault::open("test.vault".to_string(), "testpwd".to_string(), Some(vec![0u8; 10]));
    assert!(matches!(result, Err(PassmateError::Decrypt)));
}

#[test]
fn a_garbage_container_is_rejected() {
    let result = Vault::open("test.vault".to_string(), "testpwd".to_string(), Some(vec![7u8; 64]));
    assert!(matches!(result, Err(PassmateError::Decrypt)));
}

#[test]
fn saving_an_empty_vault_and_reopening_yields_the_empty_map() {
    let vault = fresh_vault();
    let bytes = vault.save().unwrap_or_else(|_| panic!("save must succeed"));
    let reopened = reopen(bytes, "testpwd").unwrap_or_else(|_| panic!("reopen must succeed"));
    assert!(reopened.entries().is_empty());
}

#[test]
fn removing_an_absent_name_changes_nothing() {
    let mut vault = fresh_vault();
    vault.set("mypass".to_string(), "test".to_string());

    vault.remove("nothere");

    assert_eq!(vault.entries(), vec!["mypass".to_string()]);
    assert_eq!(vault.get("mypass"), Some(&"test".to_string()));
}

#[test]
fn entry_names_stay_sorted_whatever_the_insertion_order() {
    let mut vault = fresh_vault();
    vault.set("pass2".to_string(), "test".to_string());
    vault.set("pass1".to_string(), "test".to_string());

    let want: Vec<String> = vec!["pass1".to_string(), "pass2".to_string()];
    assert_eq!(vault.entries(), want);
}

#[test]
fn the_saved_container_does_not_hold_the_plaintext() {
    let mut vault = fresh_vault();
    vault.set("mypass".to_string(), "supersecretvalue".to_string());
    let bytes = vault.save().unwrap_or_else(|_| panic!("save must succeed"));

    let needle = b"supersecretvalue";
    let found = bytes.windows(needle.len()).any(|w| w == needle);
    assert!(!found);
}

#[test]
fn an_end_to_end_scenario_round_trips_and_rejects_a_wrong_passphrase() {
    let mut vault = Vault::open("fresh.vault".to_string(), "testpwd".to_string(), None)
        .unwrap_or_else(|_| panic!("opening a missing vault must succeed"));
    vault.set("mypass".to_string(), "test".to_string());
    let bytes = vault.save().unwrap_or_else(|_| panic!("save must succeed"));

    let reopened = Vault::open("fresh.vault".to_string(), "testpwd".to_string(), Some(bytes.clone()))
        .unwrap_or_else(|_| panic!("reopen must succeed"));
    assert_eq!(reopened.get("mypass"), Some(&"test".to_string()));

    let wrong = Vault::open("fresh.vault".to_string(), "wrongpwd".to_string(), Some(bytes));
    assert!(matches!(wrong, Err(PassmateError::Decrypt)));
}

#[test]
fn the_vault_keeps_the_path_it_was_opened_at() {
    let vault = fresh_vault();
    assert_eq!(vault.path(), "test.vault");
}

#[test]
fn non_ascii_names_sort_by_scalar_value_and_round_trip() {
    let mut vault = fresh_vault();
    vault.set("\u{00e9}clair".to_string(), "pastry".to_string());
    vault.set("zebra".to_string(), "animal".to_string());

    // 'z' (U+007A) comes before 'é' (U+00E9).
    let want: Vec<String> = vec!["zebra".to_string(), "\u{00e9}clair".to_string()];
    assert_eq!(vault.entries(), want);

    let bytes = vault.save().unwrap_or_else(|_| panic!("save must succeed"));
    let reopened = reopen(bytes, "testpwd").unwrap_or_else(|_| panic!("reopen must succeed"));
    assert_eq!(reopened.entries(), want);
    assert_eq!(reopened.get("\u{00e9}clair"), Some(&"pastry".to_string()));
}

#[test]
fn string_comparison_orders_and_equates_as_expected() {
    assert!(passmate::order::str_lt("abc", "abd"));
    assert!(passmate::order::str_lt("ab", "abc"));
    assert!(!passmate::order::str_lt("abc", "abc"));
    assert!(!passmate::order::str_lt("b", "ab"));
    assert!(passmate::order::str_eq("abc", "abc"));
    assert!(!passmate::order::str_eq("abc", "abd"));
}

#[test]
fn empty_names_and_empty_values_are_accepted_and_round_trip() {
    let mut vault = fresh_vault();
    vault.set("".to_string(), "".to_string());
    vault.set("a".to_string(), "".to_string());

    let want: Vec<String> = vec!["".to_string(), "a".to_string()];
    assert_eq!(vault.entries(), want);

    let bytes = vault.save().unwrap_or_else(|_| panic!("save must succeed"));
    let reopened = reopen(bytes, "testpwd").unwrap_or_else(|_| panic!("reopen must succeed"));
    assert_eq!(reopened.entries(), want);
    assert_eq!(reopened.get(""), Some(&"".to_string()));
}
