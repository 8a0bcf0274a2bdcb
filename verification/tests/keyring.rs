//! Keyring records, and the TPM that their keys are sealed with.

use gaze::keyring::{
    begin_enrollment, begin_load, check_directory, confirm_enrollment, confirm_unlock,
    decrypt_with, encrypt, encrypt_with_nonce, enroll, forget, load, read_record, record_path,
    remove_record, sealed_key, temporary_path, temporary_path_of, validate_password, Account,
    Creation, DirectoryFacts, FileFacts, KeyringError, Opening, Removal, Shadow, WriteStep,
    MAX_BLOB, MAX_PASSWORD,
};
use gaze::enrollment::{
    check_core_limit, check_enrollment, enrolled_notice, password_notice, password_prompt, Backend,
};
use gaze::config::StorageConfig;
use gaze::secret::{SealedKey, Secret};
use gaze::tpm::{local_device_context, seal, unseal};
use std::cell::Cell;
use std::collections::BTreeMap;

const KEY: [u8; 32] = [7; 32];

fn key_of(bytes: [u8; 32]) -> SealedKey {
    SealedKey::new(Secret::new(bytes.to_vec())).unwrap()
}

fn key() -> SealedKey {
    key_of(KEY)
}

fn account() -> Account {
    Account::bound_to(1000, "alice", b"shadow-hash")
}

fn blob() -> Vec<u8> {
    encrypt(&key(), &account(), b"test password", b"public", b"private").unwrap()
}

#[test]
fn authenticated_record_round_trips_without_plaintext_on_disk() {
    let blob = blob();
    assert!(!blob.windows(13).any(|w| w == b"test password"));
    let secret = decrypt_with(&blob, &account(), |public: &[u8], private: &[u8]| {
        assert_eq!(public, b"public");
        assert_eq!(private, b"private");
        Ok(key())
    })
    .ok()
    .unwrap();
    assert_eq!(secret.as_slice(), b"test password\0");
    assert_ne!(blob, self::blob(), "fresh nonce on every enrollment");
}

#[test]
fn password_changes_uid_reuse_and_record_swaps_cannot_release_credentials() {
    for changed in [
        Account::bound_to(1000, "alice", b"new-hash"),
        Account::bound_to(1001, "alice", b"shadow-hash"),
        Account::bound_to(1000, "bob", b"shadow-hash"),
    ] {
        assert!(decrypt_with(&blob(), &changed, |_: &[u8], _: &[u8]| Ok(key())).is_err());
    }
}

#[test]
fn missing_reset_or_wrong_tpm_and_tampering_fail_closed() {
    assert!(decrypt_with(&blob(), &account(), |_: &[u8], _: &[u8]| Err(
        KeyringError::Outside("TPM missing/reset".to_string())
    ))
    .is_err());
    assert!(decrypt_with(&blob(), &account(), |_: &[u8], _: &[u8]| Ok(key_of([9; 32]))).is_err());
    let mut corrupt = blob();
    *corrupt.last_mut().unwrap() ^= 1;
    assert!(decrypt_with(&corrupt, &account(), |_: &[u8], _: &[u8]| Ok(key())).is_err());
}

#[test]
fn malformed_records_are_rejected_before_touching_tpm() {
    let mut overflow = blob();
    overflow[4..8].copy_from_slice(&u32::MAX.to_le_bytes());
    let ciphertext_start = 12 + b"public".len() + b"private".len() + 12;
    let mut empty_password = blob();
    empty_password.truncate(ciphertext_start + 1 + 16);
    let mut oversized_password = blob();
    oversized_password.resize(ciphertext_start + MAX_PASSWORD + 2 + 16, 0);
    for invalid in [
        vec![],
        b"plaintext password".to_vec(),
        overflow,
        vec![0; MAX_BLOB + 1],
        empty_password,
        oversized_password,
    ] {
        let touched = Cell::new(false);
        assert!(decrypt_with(&invalid, &account(), |_: &[u8], _: &[u8]| {
            touched.set(true);
            Ok(key())
        })
        .is_err());
        assert!(!touched.get());
    }
    let blob = blob();
    for end in 0..blob.len() {
        assert!(decrypt_with(&blob[..end], &account(), |_: &[u8], _: &[u8]| Ok(key())).is_err());
    }
}

#[test]
fn password_limits_and_c_string_safety() {
    for password in [
        vec![],
        b"embedded\0nul".to_vec(),
        vec![b'x'; MAX_PASSWORD + 1],
    ] {
        assert!(encrypt(&key(), &account(), &password, b"p", b"s").is_err());
    }
    let password = vec![b'x'; MAX_PASSWORD];
    let blob = encrypt(&key(), &account(), &password, b"p", b"s").unwrap();
    assert_eq!(
        decrypt_with(&blob, &account(), |_: &[u8], _: &[u8]| Ok(key()))
            .ok()
            .unwrap()
            .as_slice()
            .len(),
        MAX_PASSWORD + 1
    );
}

fn file(uid: u32, mode: u32, links: u64) -> Opening {
    Opening::File(FileFacts {
        is_file: true,
        uid,
        mode,
        links,
    })
}

#[test]
fn record_writes_are_private_and_replace_without_leaving_temporary_files() {
    assert_eq!(
        record_path("/var/lib/gaze/keyring", 1000),
        "/var/lib/gaze/keyring/1000.keyring"
    );
    let mut step = WriteStep::Create;
    let mut taken = Vec::new();
    while step != WriteStep::Stored && step != WriteStep::Failed {
        taken.push(step);
        step = step.next(true);
    }
    assert_eq!(step, WriteStep::Stored);
    assert_eq!(
        taken,
        vec![
            WriteStep::Create,
            WriteStep::Write,
            WriteStep::SyncFile,
            WriteStep::Rename,
            WriteStep::SyncDirectory
        ]
    );
    let replacement = blob();
    assert_eq!(
        read_record(file(0, 0o100600, 1), replacement.clone(), 0).unwrap(),
        Some(replacement)
    );
}

#[test]
fn failed_record_replacement_removes_only_the_temporary_file() {
    let renaming_failed = WriteStep::Rename.next(false);
    assert_eq!(renaming_failed, WriteStep::RemoveTemporary);
    assert_eq!(renaming_failed.next(true), WriteStep::Failed);
    assert_eq!(
        WriteStep::Create.next(false),
        WriteStep::Failed,
        "a file that was not created is not removed"
    );
}

#[test]
fn unsafe_credential_files_are_rejected() {
    let owner = 0;
    assert!(read_record(file(owner + 1, 0o600, 1), blob(), owner).is_err());
    assert!(read_record(file(owner, 0o644, 1), blob(), owner).is_err());
    assert!(read_record(
        Opening::Failed(KeyringError::Outside("too many links".to_string())),
        Vec::new(),
        owner
    )
    .is_err());
    assert!(read_record(file(owner, 0o600, 2), blob(), owner).is_err());
    assert!(read_record(file(owner, 0o600, 1), vec![0; MAX_BLOB + 1], owner).is_err());
    let fifo = Opening::File(FileFacts {
        is_file: false,
        uid: owner,
        mode: 0o600,
        links: 1,
    });
    assert!(read_record(fifo, Vec::new(), owner).is_err());
}

#[test]
fn removing_a_record_leaves_the_user_unenrolled() {
    assert_eq!(remove_record(Removal::Removed).unwrap(), true);
    assert_eq!(remove_record(Removal::Missing).unwrap(), false);
    assert!(read_record(Opening::Missing, Vec::new(), 0).unwrap().is_none());
}

#[test]
fn a_sealed_record_has_the_documented_layout() {
    let nonce = [5u8; 12];
    let blob = encrypt_with_nonce(&key(), &account(), b"pw", b"public", b"private", &nonce).unwrap();
    assert_eq!(blob.len(), 12 + 6 + 7 + 12 + 3 + 16);
    assert_eq!(&blob[4..8], &6u32.to_le_bytes());
    assert_eq!(&blob[8..12], &7u32.to_le_bytes());
    assert_eq!(&blob[12..18], b"public");
    assert_eq!(&blob[18..25], b"private");
    assert_eq!(&blob[25..37], &nonce);
    // The same inputs give the same record.
    assert_eq!(
        blob,
        encrypt_with_nonce(&key(), &account(), b"pw", b"public", b"private", &nonce).unwrap()
    );
}

#[test]
fn accounts_are_told_apart_by_every_part() {
    let one = account();
    assert!(one.same_binding(&account()));
    assert!(!one.same_binding(&Account::bound_to(1001, "alice", b"shadow-hash")));
    assert!(!one.same_binding(&Account::bound_to(1000, "alic", b"eshadow-hash")));
    assert_eq!(one.record_uid(), 1000);
}

fn shadow(password: Option<&[u8]>, last_change: i64) -> Option<Shadow> {
    Some(Shadow {
        password: password.map(|p| p.to_vec()),
        last_change,
    })
}

#[test]
fn account_lookups_say_what_is_missing() {
    let message = |root, name: &str, uid, record| {
        Account::lookup(root, name, uid, record)
            .err()
            .map(|error: KeyringError| error.message())
    };
    let good = || shadow(Some(b"$6$hash"), 19000);
    assert_eq!(message(true, "alice", Some(1000), good()), None);
    assert_eq!(
        message(false, "alice", Some(1000), good()).as_deref(),
        Some("keyring setup requires root")
    );
    assert_eq!(
        message(true, "al\0ice", Some(1000), good()).as_deref(),
        Some("nul byte found in provided data at position: 2")
    );
    assert_eq!(
        message(true, "alice", None, good()).as_deref(),
        Some("account not found")
    );
    assert_eq!(
        message(true, "root", Some(0), good()).as_deref(),
        Some("root keyring enrollment is not supported")
    );
    assert_eq!(
        message(true, "alice", Some(1000), None).as_deref(),
        Some("a readable shadow password record is required")
    );
    assert_eq!(
        message(true, "alice", Some(1000), shadow(Some(b"$6$hash"), 0)).as_deref(),
        Some("account requires a password change")
    );
    assert_eq!(
        message(true, "alice", Some(1000), shadow(Some(b"!"), 19000)).as_deref(),
        Some("account password is empty or locked")
    );
}

#[test]
fn directories_on_the_way_must_be_private() {
    let safe = DirectoryFacts {
        is_dir: true,
        uid: 0,
        mode: 0o755,
    };
    let writable = DirectoryFacts {
        mode: 0o775,
        ..safe
    };
    let message = |absolute, ancestors: Vec<DirectoryFacts>, mode| {
        check_directory(absolute, &ancestors, None, mode, 0)
            .err()
            .map(|error| error.message())
    };
    assert_eq!(message(true, vec![safe, safe], Ok(0o700)), None);
    assert_eq!(
        message(false, vec![safe], Ok(0o700)).as_deref(),
        Some("credential directory must be absolute")
    );
    assert_eq!(
        message(true, vec![safe, writable], Ok(0o700)).as_deref(),
        Some("credential directory has unsafe ownership, permissions, or a symlink")
    );
    assert_eq!(
        message(true, vec![safe], Ok(0o755)).as_deref(),
        Some("credential directory must be private")
    );
}

#[test]
fn enrollment_verifies_the_record_before_it_is_kept() {
    let opened = enroll(
        &key(),
        &account(),
        b"pw",
        b"public",
        b"private",
        |_: &[u8], _: &[u8]| Ok(key()),
    );
    assert!(opened.is_ok());
    let wrong_key = enroll(
        &key(),
        &account(),
        b"pw",
        b"public",
        b"private",
        |_: &[u8], _: &[u8]| Ok(key_of([1; 32])),
    );
    assert_eq!(
        wrong_key.err().unwrap().message(),
        KeyringError::CredentialUnavailable.message()
    );
    let unopened = enroll(
        &key(),
        &account(),
        b"pw",
        b"public",
        b"private",
        |_: &[u8], _: &[u8]| Err(KeyringError::Outside("TPM missing/reset".to_string())),
    );
    assert_eq!(unopened.err().unwrap().message(), "TPM missing/reset");
    let refused = enroll(&key(), &account(), b"", b"public", b"private", |_: &[u8], _: &[u8]| {
        unreachable!()
    });
    assert_eq!(
        refused.err().unwrap().message(),
        "keyring password must contain 1..=4096 bytes and no NUL"
    );

    let (found, first) = begin_enrollment(Ok(account()), b"pw", Ok(()), Creation::Created, Ok(()))
        .ok()
        .unwrap();
    let (_, second) =
        begin_enrollment(Ok(account()), b"pw", Ok(()), Creation::AlreadyThere, Ok(()))
            .ok()
            .unwrap();
    assert!(found.same_binding(&account()));
    assert_eq!(first.as_slice().len(), 32);
    assert_ne!(first.as_slice(), second.as_slice(), "every record has a key of its own");
    assert!(begin_enrollment(Ok(account()), b"", Ok(()), Creation::Created, Ok(())).is_err());
    assert!(begin_enrollment(
        Ok(account()),
        b"pw",
        Ok(()),
        Creation::Failed(KeyringError::UnsafeDirectory),
        Ok(())
    )
    .is_err());
    assert!(confirm_enrollment(&account(), Ok(account())).is_ok());
    assert_eq!(
        confirm_enrollment(&account(), Ok(Account::bound_to(1000, "alice", b"new")))
            .err()
            .unwrap()
            .message(),
        "account changed during enrollment; retry"
    );
}

#[test]
fn loading_needs_root_and_the_same_account() {
    assert_eq!(
        begin_load(false, Ok(true), Ok(()), Ok(account()))
            .err()
            .unwrap()
            .message(),
        "keyring access requires root"
    );
    assert!(begin_load(true, Ok(false), Ok(()), Ok(account()))
        .ok()
        .unwrap()
        .is_none());
    let (found, path) = begin_load(true, Ok(true), Ok(()), Ok(account()))
        .ok()
        .unwrap()
        .unwrap();
    assert!(path.ends_with("/1000.keyring"));
    assert!(load(None, &found, |_: &[u8], _: &[u8]| Ok(key())).ok().unwrap().is_none());
    let secret = load(Some(blob()), &found, |_: &[u8], _: &[u8]| Ok(key()))
        .ok()
        .unwrap()
        .unwrap();
    assert_eq!(secret.as_slice(), b"test password\0");
    assert!(confirm_unlock(secret, &found, Ok(account())).is_ok());
    assert_eq!(
        confirm_unlock(
            Secret::new(vec![1]),
            &found,
            Ok(Account::bound_to(1000, "alice", b"new"))
        )
        .err()
        .unwrap()
        .message(),
        "account changed during unlock"
    );
}

#[test]
fn forgetting_names_the_record_without_reading_it() {
    assert_eq!(forget(Ok(1000), Ok(false), Ok(())).unwrap(), None);
    assert!(forget(Ok(1000), Ok(true), Ok(()))
        .unwrap()
        .unwrap()
        .ends_with("/1000.keyring"));
    assert!(forget(Err(KeyringError::AccountNotFound), Ok(true), Ok(())).is_err());
    assert!(forget(Ok(1000), Ok(true), Err(KeyringError::UnsafeDirectory)).is_err());
}

#[test]
fn temporary_files_have_random_names() {
    assert_eq!(temporary_path_of("/d", 1000, 7), "/d/.1000-7.tmp");
    let one = temporary_path("/d", &account()).unwrap();
    let two = temporary_path("/d", &account()).unwrap();
    assert!(one.starts_with("/d/.1000-") && one.ends_with(".tmp"));
    assert_ne!(one, two);
}

#[test]
fn passwords_are_c_strings_of_a_bounded_length() {
    assert!(validate_password(b"x").is_ok());
    assert_eq!(
        validate_password(b"").err().unwrap().message(),
        "keyring password must contain 1..=4096 bytes and no NUL"
    );
}

#[test]
fn keys_have_one_length() {
    assert_eq!(sealed_key(Secret::new(vec![3; 32])).ok().unwrap().as_slice(), [3; 32]);
    for n in [0, 31, 33] {
        assert!(SealedKey::new(Secret::new(vec![3; n])).is_none());
        assert_eq!(
            sealed_key(Secret::new(vec![3; n])).err().unwrap().message(),
            format!("unsealed key has unexpected length {n} (expected 32)")
        );
    }
}

#[test]
fn the_first_device_that_opens_is_used() {
    let raw = |device: &'static str| -> Result<Option<&'static str>, String> {
        if device == "/dev/tpm0" {
            Ok(Some(device))
        } else {
            Ok(None)
        }
    };
    assert_eq!(
        local_device_context(|_: &'static str| true, raw),
        Ok("/dev/tpm0")
    );
    assert_eq!(
        local_device_context(|device: &'static str| device == "/dev/tpmrm0", raw),
        Err("no usable local TPM 2.0 device".to_string())
    );
    let unnamed = |_: &'static str| -> Result<Option<u8>, String> { Err("bad name".to_string()) };
    assert_eq!(
        local_device_context(|_: &'static str| true, unnamed),
        Err("bad name".to_string())
    );
    let any = |device: &'static str| -> Result<Option<&'static str>, String> { Ok(Some(device)) };
    let sealed = seal(&key(), |_: &'static str| true, any, |device: &'static str, key: &SealedKey| {
        Ok((device.as_bytes().to_vec(), key.as_slice().to_vec()))
    });
    assert_eq!(sealed, Ok((b"/dev/tpmrm0".to_vec(), KEY.to_vec())));
    assert_eq!(
        seal(&key(), |_: &'static str| false, any, |_: &'static str, _: &SealedKey| {
            Ok((Vec::new(), Vec::new()))
        }),
        Err("no usable local TPM 2.0 device".to_string())
    );
    let unsealed = |bytes: Vec<u8>| {
        unseal(|_: &'static str| true, any, |_: &'static str| Ok(Secret::new(bytes)))
            .map(|key| key.as_slice().to_vec())
    };
    assert_eq!(unsealed(KEY.to_vec()), Ok(KEY.to_vec()));
    assert_eq!(
        unsealed(vec![1]),
        Err("unsealed key has unexpected length 1 (expected 32)".to_string())
    );
}

#[test]
fn only_the_local_devices_are_asked_for_and_in_turn() {
    let asked = std::cell::RefCell::new(Vec::new());
    let opened = std::cell::RefCell::new(Vec::new());
    let present = |device: &'static str| {
        asked.borrow_mut().push(device);
        device == "/dev/tpm0"
    };
    let open = |device: &'static str| -> Result<Option<u8>, String> {
        opened.borrow_mut().push(device);
        Ok(Some(1))
    };
    assert_eq!(local_device_context(present, open), Ok(1));
    assert_eq!(asked.borrow().as_slice(), ["/dev/tpmrm0", "/dev/tpm0"]);
    assert_eq!(opened.borrow().as_slice(), ["/dev/tpm0"]);
    asked.borrow_mut().clear();
    let first = |device: &'static str| {
        asked.borrow_mut().push(device);
        true
    };
    assert_eq!(local_device_context(first, open), Ok(1));
    assert_eq!(asked.borrow().as_slice(), ["/dev/tpmrm0"]);
    assert_eq!(opened.borrow().as_slice(), ["/dev/tpm0", "/dev/tpmrm0"]);
}

/// Forgets an account in a store held in memory.
fn forget_in(store: &mut Option<BTreeMap<String, Vec<u8>>>, uid: u32) -> Result<(), KeyringError> {
    let Some(path) = forget(Ok(uid), Ok(store.is_some()), Ok(()))? else {
        return Ok(());
    };
    let removal = match store.as_mut().unwrap().remove(&path) {
        Some(_) => Removal::Removed,
        None => Removal::Missing,
    };
    remove_record(removal).map(|_| ())
}

#[test]
fn forgetting_keeps_the_records_of_others_and_can_be_repeated() {
    let dir = "/var/lib/gaze/keyring";
    let others = BTreeMap::from([
        (record_path(dir, 100), vec![1]),
        (record_path(dir, 10000), b"not a record".to_vec()),
    ]);
    let mut records = others.clone();
    records.insert(record_path(dir, 1000), blob());
    let mut store = Some(records);
    for _ in 0..2 {
        assert!(forget_in(&mut store, 1000).is_ok());
        assert_eq!(store, Some(others.clone()));
    }
    let mut absent = None;
    assert!(forget_in(&mut absent, 1000).is_ok());
    assert_eq!(absent, None);
}

#[test]
fn enrollment_needs_the_switch_and_sound_settings() {
    let storage = StorageConfig {
        encrypt_templates: true,
        unlock_gnome_keyring: true,
        unlock_kwallet: false,
    };
    assert_eq!(
        check_enrollment(Backend::Gnome, "GNOME Keyring", &storage, None),
        Ok(())
    );
    assert_eq!(
        check_enrollment(Backend::KWallet, "KWallet", &storage, None),
        Err("enable KWallet unlock with gaze config first".to_string())
    );
    assert_eq!(
        check_enrollment(
            Backend::Gnome,
            "GNOME Keyring",
            &storage,
            Some("liveness is off".to_string())
        ),
        Err("liveness is off".to_string())
    );
    assert_eq!(check_core_limit(0), Ok(()));
    assert_eq!(
        check_core_limit(-1),
        Err("cannot disable credential core dumps")
    );
    assert_eq!(
        password_notice("KWallet", "alice"),
        "Enter the KWallet password for alice."
    );
    assert_eq!(password_prompt("KWallet"), "KWallet password");
    assert_eq!(
        enrolled_notice("KWallet", "alice"),
        "KWallet unlock enrolled for alice."
    );
}
