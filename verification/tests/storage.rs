use codex_hosts::credentials::{
    account_name, after_legacy_lookup, after_lookup, credential_error, delete_plan,
    legacy_account_name, restore_outcome, restore_plan, CredentialKind, CredentialSnapshot,
    LoadStep, Lookup, Write,
};
use codex_hosts::id::Id;
use codex_hosts::model::HostProfile;
use codex_hosts::secret::Secret;
use codex_hosts::storage::{
    data_directory, load_primary_or_backup, load_primary_strict, takes_over_legacy_store, FileState,
    HostStore, LoadChoice, RefreshStep, RestoreStep, SaveStep, StorageError, STORE_VERSION,
};

#[test]
fn neutral_alias_does_not_mix_interface_languages() {
    let mut store = HostStore::default();
    assert_eq!(store.next_neutral_alias(), "host-1");
    store.hosts.push(HostProfile::new("host-1".to_owned()));
    assert_eq!(store.next_neutral_alias(), "host-2");
}

#[test]
fn blocked_store_refuses_writes() {
    let error = HostStore::blocked("load failed").to_save().unwrap_err();
    assert!(matches!(error, StorageError::WriteBlocked(_)));
}

#[test]
fn a_damaged_store_is_only_replaced_by_its_backup() {
    assert_eq!(
        load_primary_or_backup(FileState::Damaged, FileState::Readable),
        LoadChoice::RestoreBackup
    );
    assert_eq!(
        load_primary_or_backup(FileState::Missing, FileState::Readable),
        LoadChoice::RestoreBackup
    );
    assert_eq!(
        load_primary_or_backup(FileState::Readable, FileState::Damaged),
        LoadChoice::Primary
    );
    assert_eq!(
        load_primary_or_backup(FileState::Missing, FileState::Missing),
        LoadChoice::Fresh
    );
    assert_eq!(
        load_primary_strict(FileState::Damaged, true),
        LoadChoice::PrimaryFault
    );
    assert_eq!(
        load_primary_strict(FileState::Missing, true),
        LoadChoice::RecoveryRequired
    );
    assert_eq!(
        load_primary_strict(FileState::Missing, false),
        LoadChoice::Fresh
    );
}

#[test]
fn a_save_that_succeeds_everywhere_ends_saved() {
    let mut step = SaveStep::first();
    for _ in 0..20 {
        step = step.next(true);
    }
    assert_eq!(step, SaveStep::Saved);
    let mut step = SaveStep::first().next(false);
    for _ in 0..20 {
        step = step.next(true);
    }
    assert_eq!(step, SaveStep::Failed);
    let mut step = RefreshStep::first();
    for _ in 0..20 {
        step = step.next(true);
    }
    assert_eq!(step, RefreshStep::Renewed);
    let mut step = RestoreStep::first();
    for _ in 0..20 {
        step = step.next(true);
    }
    assert_eq!(step, RestoreStep::Restored);
}

#[test]
fn the_data_directory_is_configured_or_local() {
    let own = data_directory(Some("D:\\data"), Some("C:\\local")).unwrap();
    assert_eq!((own.base.as_str(), own.below), ("D:\\data", None));
    let usual = data_directory(None, Some("C:\\local")).unwrap();
    assert_eq!(usual.base, "C:\\local");
    assert!(usual.below.is_some());
    assert!(matches!(
        data_directory(None, None),
        Err(StorageError::NoDataDirectory)
    ));
    assert!(takes_over_legacy_store(false, true));
    assert!(!takes_over_legacy_store(true, true));
}

#[test]
fn saved_stores_carry_the_current_version() {
    let mut store = HostStore::from_read(Some("ja".into()), vec![HostProfile::new("a".into())]);
    store.version = 1;
    let saved = store.to_save().unwrap();
    assert_eq!(saved.version, STORE_VERSION);
    assert_eq!(saved.hosts, store.hosts);
    assert_eq!(store.find_alias("A").unwrap().alias, "a");
}

#[test]
fn every_storage_error_says_what_is_wrong() {
    let errors = [
        StorageError::NoDataDirectory,
        StorageError::Io("io".into()),
        StorageError::Json("json".into()),
        StorageError::BackupRecoveryRequired("path".into()),
        StorageError::WriteBlocked("why".into()),
        StorageError::RecoveryFailed {
            write: "w".into(),
            recovery: "r".into(),
        },
    ];
    let texts: Vec<String> = errors.iter().map(StorageError::text).collect();
    for (at, text) in texts.iter().enumerate() {
        assert!(!text.is_empty() && !texts[..at].contains(text));
    }
}

#[test]
fn accounts_hold_one_secret_each() {
    let id = Id::new_v4();
    let password = account_name(id, CredentialKind::Password);
    let passphrase = account_name(id, CredentialKind::KeyPassphrase);
    assert_ne!(password, passphrase);
    assert!(password.contains(&id.text()));
    assert_ne!(legacy_account_name(id), passphrase);
    assert!(matches!(
        after_lookup(CredentialKind::Password, Lookup::Missing),
        LoadStep::LookAtLegacy
    ));
    assert!(matches!(
        after_lookup(CredentialKind::KeyPassphrase, Lookup::Missing),
        LoadStep::Answer(None)
    ));
    assert!(matches!(
        after_legacy_lookup(Lookup::Found(Secret::new("x".into()))),
        LoadStep::Migrate(_)
    ));
    assert!(matches!(
        after_legacy_lookup(Lookup::Failed("x".into())),
        LoadStep::Failed(_)
    ));
    let plan = restore_plan(CredentialSnapshot {
        password: Some(Secret::new("pw".into())),
        key_passphrase: None,
    });
    assert_eq!(plan.len(), 2);
    assert!(matches!(
        &plan[0],
        Write::Store { kind: CredentialKind::Password, secret }
            if secret.as_str() == "pw"
    ));
    assert!(matches!(
        &plan[1],
        Write::Delete { kind: CredentialKind::KeyPassphrase }
    ));
    assert_eq!(restore_outcome(&vec![None, None]), None);
    assert_eq!(
        restore_outcome(&vec![Some("a".into()), Some("b".into())]),
        Some("a".into())
    );
    assert_eq!(delete_plan().len(), 2);
    assert!(credential_error("locked").contains("locked"));
}

#[test]
fn ids_are_random_and_read_back() {
    let first = Id::new_v4();
    assert_ne!(first, Id::new_v4());
    assert_eq!(Id::parse(&first.text()), Some(first));
    assert_eq!(Id::parse("not an id"), None);
    assert_eq!(Id::nil().text(), "00000000-0000-0000-0000-000000000000");
    let reference = uuid::Uuid::from_u128(first.value);
    assert_eq!(first.text(), reference.to_string());
}
