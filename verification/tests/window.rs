use codex_hosts::actions::{CloseStep, FingerprintStep, TrustStep};
use codex_hosts::args::LaunchOptions;
use codex_hosts::callback::{
    export_file_name, should_replace_callback, Callback, ExportEvent, ExportStep, Flush,
};
use codex_hosts::commit::{Commit, CommitPhase};
use codex_hosts::editor::{HostEditor, Lookups, PasswordMode};
use codex_hosts::failure::{ObservedHostKey, RemoteFailure};
use codex_hosts::form::{
    advanced_summary, jump_candidates, persistence_label, persistence_options, remote_env_key,
    shows_as_chosen, switch_protocol, warns_of_persistence, Cleanup,
};
use codex_hosts::host_list::{
    available_tags, filter_has_tag, host_row_fill, line_of, selection_bar, set_checked,
    set_filter_tag, HostRowModel, RowMarker, TEST_FAILURE_FILL_DARK, TEST_FAILURE_FILL_LIGHT,
    TEST_SUCCESS_FILL_DARK, TEST_SUCCESS_FILL_LIGHT,
};
use codex_hosts::hosts_app::{
    host_to_load, reconcile_host_editor, should_hide_to_tray, HostsApp, PendingAction,
};
use codex_hosts::i18n::{Catalog, Entry};
use codex_hosts::id::Id;
use codex_hosts::mcp::OwnerCheck;
use codex_hosts::message::{with_rollback_error, Message, Status};
use codex_hosts::model::{AuthPersistence, HostFilter, HostProfile, Protocol, RemoteEnv, SshAuth};
use codex_hosts::opening::Opening;
use codex_hosts::probes::{
    gui_test_limits, gui_test_timeout, judge, test_timed_out, HostTestState, TestBoard, TestEvent,
    TestOperation, GUI_INTERACTIVE_TEST_TIMEOUT, GUI_TEST_TIMEOUT, MAX_CONCURRENT_TESTS,
};
use codex_hosts::remote::{RemoteResult, VerifiedHostKey};
use codex_hosts::removal::{remove_hosts, Removal, RemovalPhase};
use codex_hosts::secret::Secret;
use codex_hosts::selection::{
    batch_all_selected, batch_has_external_dependents, retain_visible_selection,
    toggle_visible_selection,
};
use codex_hosts::status::{status_kind_for_key, StatusKind, StatusMessage, TOAST_DURATION};
use codex_hosts::storage::HostStore;
use codex_hosts::testing::{Conclusion, FinishStep};
use codex_hosts::theme::{font_candidates, section_fill, success_color};
use codex_hosts::tray::{
    action, menu_keys, pixel_offset, procedure, tray_icon_bitmaps, wide, Event, Reaction, CALLBACK,
    WM_CLOSE, WM_COMMAND, WM_LBUTTONUP,
};
use codex_hosts::trust::{apply_verified_host_key, merge_verified_host_keys};

fn nothing_stored() -> Lookups {
    Lookups {
        password: Ok(None),
        key_passphrase: Ok(false),
    }
}

#[test]
fn tray_icon_has_transparent_exterior_and_visible_terminal_mark() {
    let (pixels, mask) = tray_icon_bitmaps();
    assert_eq!(pixels.len(), 32 * 32 * 4);
    assert_eq!(mask.len(), 32 * 4);
    assert_eq!(
        &pixels[pixel_offset(0, 0)..pixel_offset(0, 0) + 4],
        &[0, 0, 0, 0]
    );
    assert_ne!(
        &pixels[pixel_offset(16, 16)..pixel_offset(16, 16) + 3],
        &[0, 0, 0]
    );
    assert_eq!(
        &pixels[pixel_offset(20, 22)..pixel_offset(20, 22) + 3],
        &[255, 255, 255]
    );
    assert_ne!(mask.iter().copied().fold(0_u8, |all, byte| all | byte), 0);
    assert_ne!(
        mask.iter().copied().fold(0xff_u8, |all, byte| all & byte),
        0xff
    );
}

#[test]
fn only_explicit_exit_action_exits() {
    assert_eq!(action(1), Some(Event::Open));
    assert_eq!(action(2), Some(Event::Secrets));
    assert_eq!(action(3), Some(Event::Exit));
    assert_eq!(action(0), None);
}

#[test]
fn window_messages_are_answered_by_what_they_ask() {
    assert_eq!(
        procedure(0xc001, CALLBACK, 0, WM_LBUTTONUP),
        Reaction::Emit(Event::Open)
    );
    assert_eq!(
        procedure(0xc001, WM_COMMAND, 3, 0),
        Reaction::Emit(Event::Exit)
    );
    assert_eq!(procedure(0xc001, WM_CLOSE, 0, 0), Reaction::Close);
    assert_eq!(procedure(0xc001, 0xc001, 0, 0), Reaction::Restore);
    assert_eq!(menu_keys().len(), 3);
    assert_eq!(wide("A"), [65, 0]);
}

#[test]
fn filtered_bulk_selection_never_keeps_hidden_hosts() {
    let visible = HostProfile {
        tags: vec!["prod".into()],
        ..Default::default()
    };
    let hidden = HostProfile::default();
    let filter = HostFilter {
        search: String::new(),
        tags: vec!["PROD".into()],
    };
    let hosts = vec![visible.clone(), hidden.clone()];
    let mut selected = vec![hidden.id];
    toggle_visible_selection(&hosts, &filter, &mut selected);
    assert_eq!(selected, [visible.id]);
    toggle_visible_selection(&hosts, &filter, &mut selected);
    assert!(selected.is_empty());
    selected.extend([visible.id, hidden.id]);
    retain_visible_selection(&hosts, &filter, &mut selected);
    assert_eq!(selected, [visible.id]);
}

#[test]
fn refresh_preserves_dirty_drafts_and_reloads_clean_or_deleted_hosts() {
    let original = HostProfile::new("original".into());
    let mut store = HostStore::default();
    store.hosts.push(original.clone());
    let mut selected = Some(original.id);
    let mut editor = Some(HostEditor::load(original.clone(), nothing_stored()));
    store.hosts[0].address = "external.example".into();
    reconcile_host_editor(&mut editor, &mut selected, &store, nothing_stored());
    assert_eq!(editor.as_ref().unwrap().profile.address, "external.example");
    editor.as_mut().unwrap().profile.alias = "unrelated-local-draft".into();
    store
        .hosts
        .push(HostProfile::new("another-window-host".into()));
    reconcile_host_editor(&mut editor, &mut selected, &store, nothing_stored());
    assert!(editor.as_ref().unwrap().matches_stored_original(&store));
    editor.as_mut().unwrap().profile.alias = "unsaved-draft".into();
    editor
        .as_mut()
        .unwrap()
        .password
        .text
        .push_str("synthetic-draft");
    store.hosts[0].address = "newer.example".into();
    reconcile_host_editor(&mut editor, &mut selected, &store, nothing_stored());
    let draft = editor.as_ref().unwrap();
    assert_eq!(draft.profile.alias, "unsaved-draft");
    assert_eq!(draft.password.as_str(), "synthetic-draft");
    assert!(!draft.matches_stored_original(&store));
    // Explicitly discarding the draft allows the current stored profile to be loaded.
    editor = None;
    assert_eq!(
        host_to_load(&editor, selected, &store),
        Some(original.id)
    );
    reconcile_host_editor(&mut editor, &mut selected, &store, nothing_stored());
    assert!(editor.as_ref().unwrap().matches_stored_original(&store));
    store.hosts.clear();
    reconcile_host_editor(&mut editor, &mut selected, &store, nothing_stored());
    assert!(editor.is_none());
    assert!(selected.is_none());
}

#[test]
fn connection_test_timeout_allows_windows_hardware_prompts() {
    assert!(!test_timed_out(9_999, GUI_TEST_TIMEOUT));
    assert!(test_timed_out(10_000, GUI_TEST_TIMEOUT));
    assert_eq!(
        gui_test_limits(GUI_INTERACTIVE_TEST_TIMEOUT).total_timeout,
        Some(GUI_INTERACTIVE_TEST_TIMEOUT)
    );

    let mut host = HostProfile {
        protocol: Protocol::Ssh,
        ssh_auth: SshAuth::PrivateKey,
        private_key_path: "id_ecdsa_sk".to_owned(),
        ..HostProfile::default()
    };
    assert_eq!(
        gui_test_timeout(&host, &[host.clone()], &vec![]),
        GUI_INTERACTIVE_TEST_TIMEOUT
    );
    host.private_key_path = "id_ed25519".to_owned();
    assert_eq!(
        gui_test_timeout(&host, &[host.clone()], &vec![]),
        GUI_TEST_TIMEOUT
    );
}

#[test]
fn connection_changes_and_new_credentials_invalidate_test_results() {
    let profile = HostProfile {
        address: "127.0.0.1".to_owned(),
        ..HostProfile::default()
    };
    let mut editor = HostEditor {
        tag_input: String::new(),
        profile: profile.clone(),
        original: profile,
        password: Secret::default(),
        key_passphrase: Secret::default(),
        password_mode: PasswordMode::Password,
        saved_password_mode: Some(PasswordMode::Password),
        password_read_error: None,
        has_key_passphrase: false,
        key_passphrase_read_error: None,
        persistence_chosen: true,
        show_required: false,
        focus_first_missing: false,
        first_save: false,
        confirmed_persistence: None,
    };
    assert!(!editor.test_result_is_stale());
    editor.password.text.push_str("replacement");
    assert!(editor.test_result_is_stale());
    editor.password.clear();
    editor.saved_password_mode = None;
    assert!(editor.password_value_missing());
    assert!(!editor.should_store_password());
    editor.password_mode = PasswordMode::NoPassword;
    assert!(editor.should_store_password());
    assert!(editor.test_result_is_stale());
    editor.saved_password_mode = Some(PasswordMode::NoPassword);
    assert!(!editor.should_store_password());
    editor.password_mode = PasswordMode::Password;
    assert!(editor.password_value_missing());
    editor.password_read_error = Some("credential lookup failed".to_owned());
    assert!(!editor.should_store_password());
    editor.password.text.push_str("explicit replacement");
    assert!(editor.should_store_password());
    editor.password.clear();
    editor.profile.address = "127.0.0.2".to_owned();
    assert!(editor.test_result_is_stale());
}

#[test]
fn committed_callback_outcomes_cannot_be_downgraded() {
    assert!(should_replace_callback("cancelled", "saved"));
    assert!(should_replace_callback("saved", "saved"));
    assert!(should_replace_callback("saved", "trusted"));
    assert!(!should_replace_callback("saved", "cancelled"));
    assert!(!should_replace_callback("trusted", "saved"));
    assert!(!should_replace_callback("trusted", "cancelled"));
}

#[test]
fn repeated_host_verification_updates_last_verified_and_requires_save() {
    let id = Id::new_v4();
    let mut host = HostProfile {
        id,
        host_fingerprint: Some("SHA256:example".to_owned()),
        host_key_algorithm: Some("ssh-ed25519".to_owned()),
        host_key_first_seen_unix: Some(10),
        host_key_last_verified_unix: Some(20),
        verified: true,
        ..HostProfile::default()
    };
    let verified = VerifiedHostKey {
        host_id: id,
        alias: "example".to_owned(),
        fingerprint: "SHA256:example".to_owned(),
        algorithm: "ssh-ed25519".to_owned(),
        verified_at_unix: 30,
    };

    assert!(apply_verified_host_key(&mut host, &verified));
    assert_eq!(host.host_key_first_seen_unix, Some(10));
    assert_eq!(host.host_key_last_verified_unix, Some(30));
    assert!(!apply_verified_host_key(&mut host, &verified));

    let stale = VerifiedHostKey {
        verified_at_unix: 25,
        ..verified.clone()
    };
    assert!(!apply_verified_host_key(&mut host, &stale));
    assert_eq!(host.host_key_last_verified_unix, Some(30));

    let unchanged = host.clone();
    let mismatched = VerifiedHostKey {
        fingerprint: "SHA256:different".to_owned(),
        verified_at_unix: 40,
        ..verified
    };
    assert!(!apply_verified_host_key(&mut host, &mismatched));
    assert_eq!(host, unchanged);
}

#[test]
fn rollback_errors_preserve_the_primary_failure() {
    assert_eq!(
        with_rollback_error("delete failed".to_owned(), None),
        "delete failed"
    );
    assert_eq!(
        with_rollback_error(
            "delete failed".to_owned(),
            Some("restore failed".to_owned())
        ),
        "delete failed; rollback failed: restore failed"
    );
}

#[test]
fn batch_delete_rejects_selected_jump_host_used_by_unselected_host() {
    let jump = HostProfile::new("jump".to_owned());
    let mut target = HostProfile::new("target".to_owned());
    target.jump_host = Some(jump.id);
    let selected = vec![jump.id];
    assert!(batch_has_external_dependents(&[jump, target], &selected));
}

#[test]
fn batch_select_all_requires_every_saved_host() {
    let first = HostProfile::default();
    let second = HostProfile::default();
    assert!(!batch_all_selected(&[], &vec![]));
    assert!(!batch_all_selected(
        &[first.clone(), second.clone()],
        &vec![first.id]
    ));
    assert!(batch_all_selected(
        &[first.clone(), second.clone()],
        &vec![first.id, second.id]
    ));
}

#[test]
fn export_file_names_advance_without_reusing_the_default() {
    assert_eq!(export_file_name(0), "codex-hosts-export.csv");
    assert_eq!(export_file_name(1), "codex-hosts-export-1.csv");
    assert_eq!(export_file_name(2), "codex-hosts-export-2.csv");
}

#[test]
fn stale_close_cannot_override_restore_or_explicit_exit() {
    assert!(should_hide_to_tray(true, false, false, false, false));
    assert!(!should_hide_to_tray(true, false, false, true, false));
    assert!(!should_hide_to_tray(true, false, false, false, true));
    assert!(!should_hide_to_tray(true, false, true, false, false));
    assert!(!should_hide_to_tray(true, true, false, false, false));
}

#[test]
fn only_a_changed_value_on_a_saved_ssh_host_needs_confirmation() {
    let mut saved = HostEditor::load(HostProfile::new("box".into()), nothing_stored());
    assert_eq!(saved.persistence_change(), None);
    saved.profile.auth_persistence = AuthPersistence::Session;
    assert_eq!(
        saved.persistence_change(),
        Some((AuthPersistence::PerCall, AuthPersistence::Session))
    );
    saved.confirmed_persistence = Some(AuthPersistence::Session);
    assert_eq!(saved.persistence_change(), None);
    saved.profile.auth_persistence = AuthPersistence::Idle { minutes: 5 };
    assert!(
        saved.persistence_change().is_some(),
        "a different value asks again"
    );
    saved.profile.auth_persistence = AuthPersistence::PerCall;
    assert_eq!(
        saved.persistence_change(),
        None,
        "back to the original is no change"
    );

    let mut relaxed = HostProfile::new("kept".into());
    relaxed.auth_persistence = AuthPersistence::Session;
    let mut tightening = HostEditor::load(relaxed, nothing_stored());
    tightening.profile.auth_persistence = AuthPersistence::PerCall;
    assert!(
        tightening.persistence_change().is_some(),
        "either direction is confirmed"
    );

    let mut fresh = HostEditor::fresh(HostProfile::new("new".into()), nothing_stored());
    fresh.profile.auth_persistence = AuthPersistence::Session;
    assert_eq!(
        fresh.persistence_change(),
        None,
        "the first explicit choice is the confirmation"
    );

    let mut telnet = HostProfile::new("tel".into());
    telnet.protocol = Protocol::Telnet;
    let mut telnet = HostEditor::load(telnet, nothing_stored());
    telnet.profile.auth_persistence = AuthPersistence::Session;
    assert_eq!(telnet.persistence_change(), None);
}

#[test]
fn test_rows_use_requested_result_colors() {
    assert_eq!(
        host_row_fill(Some(HostTestState::Succeeded), true),
        Some(TEST_SUCCESS_FILL_DARK)
    );
    assert_eq!(
        host_row_fill(Some(HostTestState::Failed), true),
        Some(TEST_FAILURE_FILL_DARK)
    );
    assert_eq!(
        host_row_fill(Some(HostTestState::Succeeded), false),
        Some(TEST_SUCCESS_FILL_LIGHT)
    );
    assert_eq!(
        host_row_fill(Some(HostTestState::Failed), false),
        Some(TEST_FAILURE_FILL_LIGHT)
    );
    assert_eq!(host_row_fill(Some(HostTestState::Testing), true), None);
    assert_eq!(host_row_fill(Some(HostTestState::Testing), false), None);
    assert_eq!(host_row_fill(None, false), None);
}

#[test]
fn rows_fall_back_to_the_description_when_there_are_no_tags() {
    let host = HostProfile {
        description: "first line\nsecond".into(),
        ..Default::default()
    };
    let model = HostRowModel::from_profile(&host, None, false, None);
    assert_eq!(model.secondary, "first line");
    let tagged = HostProfile {
        tags: vec!["a".into(), "b".into()],
        description: "ignored".into(),
        ..Default::default()
    };
    assert_eq!(
        HostRowModel::from_profile(&tagged, None, false, None).secondary,
        "a · b"
    );
}

#[test]
fn host_row_says_what_a_host_is() {
    let host = HostProfile {
        alias: "example".into(),
        address: "server.example.com".into(),
        port: 22,
        verified: true,
        auth_persistence: AuthPersistence::Session,
        ..Default::default()
    };
    let row = HostRowModel::from_profile(&host, None, true, Some(false));
    assert_eq!(row.alias, "example");
    assert_eq!(row.detail, "SSH · server.example.com:22");
    assert!(matches!(row.marker, Some(RowMarker::Verified)));
    assert!(row.retained && row.selected);
    let row = HostRowModel::from_profile(&host, Some(HostTestState::Testing), false, None);
    assert!(matches!(row.marker, Some(RowMarker::Testing)));
    assert_eq!(line_of("a\r\nb"), "a");
}

#[test]
fn status_keys_map_to_severity() {
    assert_eq!(status_kind_for_key("storage_error"), StatusKind::Error);
    assert_eq!(status_kind_for_key("import_failed"), StatusKind::Error);
    assert_eq!(status_kind_for_key("validation_alias"), StatusKind::Error);
    assert_eq!(
        status_kind_for_key("status_test_timeout"),
        StatusKind::Error
    );
    assert_eq!(
        status_kind_for_key("import_file_kept_warning"),
        StatusKind::Warning
    );
    assert_eq!(status_kind_for_key("status_saved"), StatusKind::Success);
    assert_eq!(status_kind_for_key("status_ready"), StatusKind::Info);
    assert_eq!(status_kind_for_key("testing"), StatusKind::Info);
}

#[test]
fn info_messages_never_toast() {
    let now = 1_000;
    assert!(!StatusMessage::info("ready".into()).toast_visible(now));
    assert!(StatusMessage::new(StatusKind::Success, "saved".into(), now).toast_visible(now));
    assert!(
        !StatusMessage::new(StatusKind::Error, "old".into(), now)
            .toast_visible(now + TOAST_DURATION + 1)
    );
}

#[test]
fn font_loading_prioritizes_the_active_language_and_keeps_cjk_fallbacks() {
    assert_eq!(font_candidates("en").len(), 4);
    assert_eq!(font_candidates("zh-CN").len(), 4);
    assert_eq!(font_candidates("zh-CN")[1].name, "yahei");
    assert_eq!(font_candidates("zh-TW")[1].name, "jhenghei");
    assert_eq!(font_candidates("ja")[1].name, "meiryo");
    assert_eq!(font_candidates("unknown"), font_candidates("en"));
}

#[test]
fn semantic_colors_stay_readable_in_both_themes() {
    // The panels are drawn in these shades of grey.
    for (dark, panel) in [(true, 0x1b1b1b), (false, 0xf8f8f8)] {
        let contrast = |color: u32| {
            let luminance = |color: u32| {
                let channel = |value: u32| {
                    let value = (value & 0xff) as f64 / 255.0;
                    if value <= 0.03928 {
                        value / 12.92
                    } else {
                        ((value + 0.055) / 1.055).powf(2.4)
                    }
                };
                0.2126 * channel(color >> 16) + 0.7152 * channel(color >> 8) + 0.0722 * channel(color)
            };
            let (a, b) = (luminance(color) + 0.05, luminance(panel) + 0.05);
            a.max(b) / a.min(b)
        };
        assert!(contrast(success_color(dark)) >= 3.0);
        assert!(contrast(section_fill(dark)) < 1.6);
    }
}

#[test]
fn callbacks_are_written_until_they_arrive() {
    let mut callback = Callback::new(Some("out.json".into()));
    let Flush::Write { path, text } = callback.write_callback("saved", Some("web")) else {
        panic!("the result is written");
    };
    assert_eq!(path, "out.json");
    let value: serde_json::Value = serde_json::from_str(&text).unwrap();
    assert_eq!(value["status"], "saved");
    assert_eq!(value["alias"], "web");
    callback.flushed(false);
    assert!(matches!(callback.flush_callback(), Flush::Write { .. }));
    callback.flushed(true);
    assert!(matches!(callback.flush_callback(), Flush::Done));
    assert!(matches!(
        callback.write_callback("cancelled", None),
        Flush::Done
    ));
    let mut silent = Callback::new(None);
    assert!(matches!(silent.write_callback("saved", None), Flush::Done));
}

#[test]
fn exports_take_the_next_free_name() {
    let step = ExportStep::first();
    assert!(matches!(step, ExportStep::Create { index: 0 }));
    let step = step.next(ExportEvent::AlreadyExists);
    assert!(matches!(step, ExportStep::Create { index: 1 }));
    let step = step.next(ExportEvent::Succeeded);
    assert!(matches!(step, ExportStep::Write { index: 1 }));
    assert!(matches!(
        step.next(ExportEvent::Succeeded),
        ExportStep::Done { index: 1 }
    ));
    assert!(matches!(
        step.next(ExportEvent::Failed),
        ExportStep::Remove { index: 1 }
    ));
}

#[test]
fn a_commit_that_fails_is_taken_back() {
    let mut commit = Commit::first(false);
    assert_eq!(commit.phase, CommitPhase::SaveHosts);
    commit.step(None);
    assert_eq!(commit.phase, CommitPhase::Done);
    let mut commit = Commit::first(true);
    assert_eq!(commit.phase, CommitPhase::Snapshot);
    let mut steps = 0;
    while commit.phase != CommitPhase::Done && commit.phase != CommitPhase::Failed {
        commit.step(None);
        steps += 1;
        assert!(steps < 10);
    }
    assert_eq!(commit.phase, CommitPhase::Done);
    let mut commit = Commit::first(true);
    commit.step(Some("locked".into()));
    assert_eq!(commit.phase, CommitPhase::SaveHostsFirst);
    commit.step(None);
    commit.step(Some("locked".into()));
    assert_eq!(commit.phase, CommitPhase::RestoreHosts);
    commit.step(None);
    assert_eq!(commit.phase, CommitPhase::Failed);
    assert!(matches!(
        commit.message(),
        Message::Keyed { key: "credential_error", .. }
    ));
}

#[test]
fn a_removal_that_fails_puts_everything_back() {
    let ids = vec![Id::new_v4(), Id::new_v4()];
    let mut removal = Removal::first(ids.clone());
    let mut steps = 0;
    assert_eq!(removal.current(), Some(ids[0]));
    while removal.phase != RemovalPhase::Done {
        removal.step(None);
        steps += 1;
        assert!(steps < 10);
    }
    let mut removal = Removal::first(ids.clone());
    removal.step(None);
    removal.step(None);
    assert_eq!(removal.phase, RemovalPhase::Delete);
    removal.step(Some("locked".into()));
    assert_eq!(removal.phase, RemovalPhase::RestoreAfterDelete);
    while removal.phase != RemovalPhase::Failed {
        removal.step(None);
    }
    assert!(matches!(removal.message(), Message::Keyed { .. }));
    let kept = HostProfile::new("kept".into());
    let mut gone = HostProfile::new("gone".into());
    gone.id = ids[0];
    assert_eq!(remove_hosts(vec![gone, kept.clone()], &ids), [kept]);
}

#[test]
fn verified_keys_reach_only_unchanged_hosts() {
    let mut host = HostProfile::new("web".into());
    host.address = "10.0.0.1".into();
    host.host_fingerprint = Some("SHA256:a".into());
    host.host_key_algorithm = Some("ssh-ed25519".into());
    let verified = VerifiedHostKey {
        host_id: host.id,
        alias: "web".into(),
        fingerprint: "SHA256:a".into(),
        algorithm: "ssh-ed25519".into(),
        verified_at_unix: 30,
    };
    let snapshot = vec![host.clone()];
    let mut fresh = vec![host.clone()];
    assert!(merge_verified_host_keys(
        &snapshot,
        &mut fresh,
        &vec![verified.clone()]
    ));
    assert!(fresh[0].verified);
    let mut moved = vec![host];
    moved[0].address = "10.0.0.2".into();
    assert!(!merge_verified_host_keys(
        &snapshot,
        &mut moved,
        &vec![verified]
    ));
    assert!(!moved[0].verified);
}

fn opened(hosts: Vec<HostProfile>) -> HostsApp {
    let store = HostStore::from_read(None, hosts);
    let mut opening = Opening::begin(Ok(store));
    let launch = LaunchOptions::default();
    assert!(!opening.choose_host(&launch));
    opening.finish(launch, nothing_stored(), &OwnerCheck::Owned, "", true)
}

fn usable(alias: &str) -> HostProfile {
    HostProfile {
        alias: alias.into(),
        address: "10.0.0.1".into(),
        username: "root".into(),
        ssh_auth: SshAuth::SshAgent,
        ..Default::default()
    }
}

#[test]
fn a_window_opens_on_its_hosts() {
    let app = opened(vec![usable("a"), usable("b")]);
    assert_eq!(app.selected, Some(app.store.hosts[0].id));
    assert!(app.editor.is_some());
    let broken = Opening::begin(Err("unreadable".into()));
    assert!(broken.store.write_blocked.is_some());
    assert_eq!(broken.error.as_deref(), Some("unreadable"));
}

#[test]
fn saving_writes_the_edited_profile_and_keeps_the_others() {
    let mut app = opened(vec![usable("a"), usable("b")]);
    app.editor.as_mut().unwrap().profile.alias = " renamed ".into();
    let plan = app.plan_save().unwrap();
    assert_eq!(plan.updated.hosts[0].alias, "renamed");
    assert_eq!(plan.updated.hosts[1], app.store.hosts[1]);
    assert!(plan.credential.is_none());
    app.finish_save(plan);
    assert_eq!(app.store.hosts[0].alias, "renamed");
    assert!(!app.editor.as_ref().unwrap().has_unsaved_changes());
    app.editor.as_mut().unwrap().profile.alias = "B".into();
    assert!(app.plan_save().is_err());
    app.editor.as_mut().unwrap().profile.alias.clear();
    assert!(app.plan_save().is_err());
    assert!(app.editor.as_ref().unwrap().show_required);
}

#[test]
fn changes_made_elsewhere_are_not_overwritten() {
    let mut app = opened(vec![usable("a")]);
    app.editor.as_mut().unwrap().profile.description = "mine".into();
    app.store.hosts[0].description = "theirs".into();
    assert!(app.plan_save().is_err());
    let mut fresh = app.store.clone();
    assert!(app.is_current(&fresh));
    fresh.hosts[0].port = 2222;
    assert!(!app.is_current(&fresh));
    app.refresh_hosts(fresh, nothing_stored());
    assert_eq!(app.store.hosts[0].port, 2222);
    assert_eq!(app.editor.as_ref().unwrap().profile.description, "mine");
}

#[test]
fn a_persistence_change_is_asked_about_before_it_is_saved() {
    let mut app = opened(vec![usable("a")]);
    app.editor.as_mut().unwrap().profile.auth_persistence = AuthPersistence::Session;
    assert!(app.ask_persistence_confirmation(PendingAction::Save));
    assert!(app.persistence_prompt.is_some());
    assert_eq!(
        app.apply_persistence_choice(true),
        Some(PendingAction::Save)
    );
    assert!(!app.ask_persistence_confirmation(PendingAction::Save));
    app.editor.as_mut().unwrap().profile.auth_persistence = AuthPersistence::Idle { minutes: 5 };
    assert!(app.ask_persistence_confirmation(PendingAction::Test));
    assert_eq!(app.apply_persistence_choice(false), None);
    assert_eq!(
        app.editor.as_ref().unwrap().profile.auth_persistence,
        AuthPersistence::PerCall
    );
}

fn success(host: &HostProfile) -> RemoteResult {
    RemoteResult {
        status: "ok",
        alias: host.alias.clone(),
        exit_code: 0,
        stdout: "box\n".into(),
        stderr: String::new(),
        output_truncated: false,
        host_fingerprint: host.host_fingerprint.clone(),
        host_key_algorithm: host.host_key_algorithm.clone(),
        auth_key_fingerprint: None,
        verified_host_keys: vec![VerifiedHostKey {
            host_id: host.id,
            alias: host.alias.clone(),
            fingerprint: host.host_fingerprint.clone().unwrap_or_default(),
            algorithm: host.host_key_algorithm.clone().unwrap_or_default(),
            verified_at_unix: 7,
        }],
    }
}

#[test]
fn a_test_marks_its_host_and_an_unknown_key_asks() {
    let mut known = usable("a");
    known.host_fingerprint = Some("SHA256:old".into());
    known.host_key_algorithm = Some("ssh-ed25519".into());
    let mut app = opened(vec![known]);
    let host = app.store.hosts[0].clone();
    let hosts = app.store.hosts.clone();
    let operation = app
        .board
        .start_test_host(host.id, &hosts, &vec![], 5)
        .unwrap();
    assert_eq!(operation.started_at, 5);
    assert!(app.board.is_running(host.id));
    assert!(app
        .board
        .start_test_host(host.id, &hosts, &vec![], 6)
        .is_none());
    app.board.drop_operation(host.id);
    match app.finish_test(host.id, Ok(success(&host))) {
        FinishStep::Save { updated, identity } => {
            assert_eq!(identity, "box");
            app.test_saved(host.id, updated, identity, None);
        }
        FinishStep::Nothing => panic!("the host is marked as verified"),
    }
    assert!(app.store.hosts[0].verified);
    assert_eq!(app.board.state(host.id), Some(HostTestState::Succeeded));
    let unknown = RemoteFailure::host_key(
        &host,
        ObservedHostKey {
            fingerprint: "SHA256:new".into(),
            algorithm: "ssh-ed25519".into(),
        },
    );
    assert!(matches!(
        app.finish_test(host.id, Err(unknown)),
        FinishStep::Nothing
    ));
    let prompt = app.fingerprint_prompt.as_ref().unwrap();
    assert_eq!(prompt.observed, "SHA256:new");
    match app.apply_fingerprint_choice(true) {
        FingerprintStep::Save { updated, prompt } => {
            assert_eq!(
                updated.hosts[0].host_fingerprint.as_deref(),
                Some("SHA256:new")
            );
            assert!(matches!(
                app.trust_saved(updated, prompt, None),
                TrustStep::Retry(id) if id == host.id
            ));
        }
        _ => panic!("the key is trusted"),
    }
    assert_eq!(
        app.store.hosts[0].host_fingerprint.as_deref(),
        Some("SHA256:new")
    );
}

#[test]
fn all_hosts_are_tested_a_few_at_a_time() {
    let hosts: Vec<HostProfile> = (0..10).map(|at| usable(&format!("h{at}"))).collect();
    let mut board = TestBoard::new();
    assert!(board.tests_idle());
    board.begin_all(hosts.clone());
    let started = board.start_pending_tests(&vec![], 0);
    assert_eq!(started.len(), MAX_CONCURRENT_TESTS);
    assert_eq!(board.count(HostTestState::Testing), 10);
    board.drop_operation(started[0].id);
    board.set_state(started[0].id, HostTestState::Failed);
    assert_eq!(board.start_pending_tests(&vec![], 1).len(), 1);
    assert_eq!(board.count(HostTestState::Failed), 1);
    board.forget(started[0].id);
    assert_eq!(board.state(started[0].id), None);
    let mut app = opened(hosts);
    assert!(!app.saves_before_tests());
    assert!(app.start_all_tests());
    assert!(matches!(app.conclude_tests(), Conclusion::NotYet));
}

#[test]
fn late_answers_of_a_test_count_as_timeouts() {
    let operation = TestOperation {
        id: Id::new_v4(),
        started_at: 0,
        timeout: 10,
    };
    assert!(judge(&operation, TestEvent::Nothing, 9).is_none());
    assert!(judge(&operation, TestEvent::Nothing, 10).unwrap().is_err());
    assert!(judge(&operation, TestEvent::Disconnected, 1)
        .unwrap()
        .is_err());
    let result = success(&usable("a"));
    assert!(judge(&operation, TestEvent::Finished { at: 5, result: Ok(result) }, 50)
        .unwrap()
        .is_ok());
}

#[test]
fn hosts_are_removed_alone_and_in_batches() {
    let mut app = opened(vec![usable("a"), usable("b"), usable("c")]);
    let first = app.store.hosts[0].id;
    let third = app.store.hosts[2].id;
    app.store.hosts[1].jump_host = Some(first);
    assert!(app.remove_selected().is_none());
    app.store.hosts[1].jump_host = None;
    let removal = app.remove_selected().unwrap();
    assert_eq!(removal.ids, [first]);
    app.hosts_removed(&vec![first], nothing_stored());
    assert_eq!(app.store.hosts.len(), 2);
    app.begin_batch_mode();
    app.batch_selected.push(third);
    app.request_batch_delete();
    assert!(app.batch_delete_prompt);
    assert_eq!(app.remove_batch().ids, [third]);
    assert_eq!(app.store_without(&vec![third]).hosts.len(), 1);
    app.hosts_removed(&vec![third], nothing_stored());
    app.batch_removed();
    assert!(app.batch_selected.is_empty());
    app.cancel_batch_mode();
    assert!(!app.batch_mode);
}

#[test]
fn new_hosts_get_a_neutral_name() {
    let mut app = opened(vec![usable("host-1")]);
    let draft = app.draft_host();
    assert_eq!(draft.alias, "host-2");
    let id = draft.id;
    app.new_host_saved(draft, None, nothing_stored());
    assert_eq!(app.selected, Some(id));
    let editor = app.editor.as_ref().unwrap();
    assert!(editor.first_save && !editor.persistence_chosen);
    assert_eq!(editor.profile.auth_persistence, AuthPersistence::Session);
    assert_eq!(editor.original.auth_persistence, AuthPersistence::PerCall);
    let mut telnet = HostProfile::new("tel".into());
    telnet.protocol = Protocol::Telnet;
    let editor = HostEditor::fresh(telnet, nothing_stored());
    assert_eq!(editor.profile.auth_persistence, AuthPersistence::PerCall);
    let mut app = opened(vec![]);
    let draft = app.draft_host();
    app.new_host_saved(draft, Some("disk full".into()), nothing_stored());
    assert!(app.store.hosts.is_empty());
}

#[test]
fn closing_hides_the_window_unless_it_is_leaving() {
    let mut app = opened(vec![usable("a")]);
    assert!(matches!(
        app.close_requested(true, false),
        CloseStep::Hide
    ));
    assert!(app.hidden);
    let effects = app.tray_events(&vec![Event::Open]);
    assert!(effects.restore && !effects.close);
    app.restore_window(true);
    assert!(!app.hidden);
    let effects = app.tray_events(&vec![Event::Exit]);
    assert!(effects.close && app.exiting);
    assert!(matches!(
        app.close_requested(true, false),
        CloseStep::Nothing
    ));
    assert!(app.take_refresh());
    assert!(!app.take_refresh());
}

#[test]
fn imported_hosts_are_shown_and_their_file_asked_about() {
    let mut app = opened(vec![usable("a")]);
    let new = usable("b");
    let id = new.id;
    app.hosts_imported(vec![new], true, "C:\\hosts.csv".into(), nothing_stored());
    assert_eq!(app.store.hosts.len(), 2);
    assert_eq!(app.selected, Some(id));
    assert_eq!(
        app.import_cleanup_prompt.as_ref().unwrap().path,
        "C:\\hosts.csv"
    );
    app.import_cleaned_up(Cleanup::Deleted);
    assert!(app.import_cleanup_prompt.is_none());
    app.finish_batch_export(Err("disk full".into()));
    assert_eq!(app.status.kind, StatusKind::Error);
}

#[test]
fn the_form_offers_what_a_protocol_has() {
    let mut host = usable("a");
    host.auth_persistence = AuthPersistence::Session;
    let before = host.clone();
    switch_protocol(&mut host, Protocol::Telnet);
    assert_eq!(host.port, 23);
    switch_protocol(&mut host, Protocol::Ssh);
    assert_eq!(host, before);
    assert!(persistence_options(&host).contains(&AuthPersistence::Idle { minutes: 15 }));
    let mut editor = HostEditor::load(host.clone(), nothing_stored());
    editor.persistence_chosen = false;
    assert_eq!(editor.first_missing_field(), Some("auth_persistence"));
    editor.choose_persistence(AuthPersistence::PerCall);
    assert!(!warns_of_persistence(&editor.profile));
    assert_eq!(editor.first_missing_field(), None);
    editor.choose_persistence(AuthPersistence::Idle { minutes: 7 });
    assert!(warns_of_persistence(&editor.profile));
    let shown = AuthPersistence::Idle { minutes: 15 };
    assert!(shows_as_chosen(&editor.profile, shown));
    assert!(!shows_as_chosen(&editor.profile, AuthPersistence::Session));
    let host = editor.profile.clone();
    assert_ne!(
        remote_env_key(RemoteEnv::Posix),
        remote_env_key(RemoteEnv::Windows)
    );
    let mut jump = usable("jump");
    jump.verified = true;
    let hosts = vec![host.clone(), jump.clone()];
    assert_eq!(jump_candidates(&host, &hosts), [jump.id]);
}

#[test]
fn tags_are_added_once() {
    let mut editor = HostEditor::load(usable("a"), nothing_stored());
    editor.tag_input = " prod ".into();
    editor.add_tag();
    editor.tag_input = "PROD".into();
    editor.add_tag();
    assert_eq!(editor.profile.tags, ["prod"]);
    editor.remove_tag(0);
    assert!(editor.profile.tags.is_empty());
}

#[test]
fn filters_offer_every_tag_once() {
    let mut first = usable("a");
    first.tags = vec!["web".into(), "Prod".into()];
    let mut second = usable("b");
    second.tags = vec!["prod".into()];
    let hosts = vec![first.clone(), second.clone()];
    let mut filter = HostFilter::default();
    assert_eq!(available_tags(&hosts, &filter).len(), 2);
    set_filter_tag(&mut filter, "prod", true);
    assert!(filter_has_tag(&filter, "PROD"));
    let mut selected = vec![];
    set_checked(&mut selected, first.id, true);
    let bar = selection_bar(&hosts, &filter, &selected);
    assert_eq!((bar.visible, bar.count, bar.all_selected), (2, 1, false));
    set_checked(&mut selected, first.id, false);
    assert!(selected.is_empty());
    set_filter_tag(&mut filter, "prod", false);
    assert!(!filter_has_tag(&filter, "prod"));
}

#[test]
fn statuses_take_their_severity_from_their_key() {
    assert_eq!(Status::key("status_saved").kind, StatusKind::Success);
    assert_eq!(
        Status::format("storage_error", "error", "x".into()).kind,
        StatusKind::Error
    );
    assert_eq!(
        Status::error(Message::text("status_saved")).kind,
        StatusKind::Error
    );
}

#[test]
fn dialogs_are_open_while_something_is_asked() {
    let mut app = opened(vec![usable("a"), usable("b")]);
    let second = app.store.hosts[1].id;
    assert!(!app.any_dialog_open(false));
    assert!(app.any_dialog_open(true));
    app.request_batch_export();
    assert_eq!(app.status.kind, StatusKind::Warning);
    assert!(!app.any_dialog_open(false));
    app.begin_batch_mode();
    app.batch_selected.push(second);
    app.request_batch_export();
    assert!(app.batch_export_window_open && app.any_dialog_open(false));
    app.finish_batch_export(Ok("C:\\hosts.csv".into()));
    assert!(!app.batch_mode && !app.any_dialog_open(false));
    app.request_delete(second, nothing_stored());
    assert_eq!(app.selected, Some(second));
    assert_eq!(app.editor.as_ref().unwrap().profile.id, second);
    assert!(app.delete_prompt && app.any_dialog_open(false));
}

#[test]
fn a_dismissed_notice_leaves_its_message() {
    let mut message = StatusMessage::new(StatusKind::Error, "offline".into(), 1_000);
    assert!(message.toast_visible(1_000));
    message.dismiss();
    assert!(!message.toast_visible(1_000));
    assert_eq!(message.text, "offline");
    assert_eq!(message.kind, StatusKind::Error);
}

fn named(keys: &[&str]) -> Catalog {
    Catalog {
        locale: "en".into(),
        strings: keys
            .iter()
            .map(|key| Entry {
                key: key.to_string(),
                value: format!("<{key}>"),
            })
            .collect(),
    }
}

#[test]
fn tuned_hosts_are_summed_up_in_a_line() {
    let catalog = named(&[
        "max_channels",
        "connect_timeout_default",
        "command_timeout_default",
        "keepalive_interval",
        "remote_env_auto",
        "remote_env_posix",
        "remote_env_windows",
        "codex_hidden",
        "telnet_prompts",
        "advanced_default_summary",
    ]);
    let mut host = usable("a");
    assert_eq!(advanced_summary(&host, &catalog), "<advanced_default_summary>");
    host.advanced.max_channels = Some(4);
    host.advanced.keepalive_s = Some(30);
    host.advanced.remote_env = RemoteEnv::Windows;
    host.advanced.codex_hidden = true;
    assert_eq!(
        advanced_summary(&host, &catalog),
        "<max_channels> 4 · <keepalive_interval> 30s · <remote_env_windows> · <codex_hidden>"
    );
}

#[test]
fn persistence_is_named_with_its_minutes() {
    let catalog = named(&[
        "persistence_per_call",
        "persistence_session",
        "persistence_idle",
        "persistence_minutes",
    ]);
    assert_eq!(
        persistence_label(&catalog, AuthPersistence::PerCall),
        "<persistence_per_call>"
    );
    assert_eq!(
        persistence_label(&catalog, AuthPersistence::Session),
        "<persistence_session>"
    );
    assert_eq!(
        persistence_label(&catalog, AuthPersistence::Idle { minutes: 15 }),
        "<persistence_idle> (15 <persistence_minutes>)"
    );
}
