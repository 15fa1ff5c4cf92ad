use codex_hosts::auth::{
    agent_plan, agent_refused, auth_route, stored_password, AgentAction, AgentEvent, AgentIdentity,
    AgentLogin, AuthRoute, KeyAction, KeyEvent, KeyLogin, PasswordAction, PasswordEvent,
    PasswordLogin, MAX_INTERACTIVE_ROUNDS,
};
use codex_hosts::capture::{append_limited, CaptureBudget, CommandCapture, MAX_CAPTURE_BYTES};
use codex_hosts::connect::{ConnectAction, ConnectEvent, Connecting};
use codex_hosts::execute::{
    capture_limit, connection_chain, execute_many_route, execute_with_input_route,
    profile_may_require_interaction, session_failed, ManyRun, Route,
};
use codex_hosts::failure::{check_host_key, ObservedHostKey, RemoteFailure};
use codex_hosts::id::Id;
use codex_hosts::model::{AuthPersistence, HostProfile, Protocol, Retention, SshAuth};
use codex_hosts::pool::{
    session_retention, PooledSession, SessionKey, SessionPool, CONNECTION_IDLE_TIMEOUT,
    DEFAULT_RETAINED_CONNECTIONS, MAX_RETAINED_CONNECTIONS,
};
use codex_hosts::remote::{validate_stdin, OperationLimits, VerifiedHostKey, MAX_STDIN_BYTES};
use codex_hosts::report::write_failure;
use codex_hosts::secret::Secret;

#[test]
fn provided_telnet_input_fails_before_credentials_or_network() {
    let host = HostProfile {
        protocol: Protocol::Telnet,
        ..Default::default()
    };
    for input in ["", "data"] {
        let error = execute_with_input_route(&host, Some(input)).unwrap_err();
        assert_eq!(error.code, "STDIN_UNSUPPORTED");
    }
    assert_eq!(
        execute_with_input_route(&host, None).unwrap(),
        Route::Telnet
    );
}

#[test]
fn host_key_error_keeps_the_flat_tool_protocol_fields() {
    let host = HostProfile {
        alias: "server".to_owned(),
        host_fingerprint: Some("SHA256:expected".to_owned()),
        host_key_algorithm: Some("ssh-ed25519".to_owned()),
        ..HostProfile::default()
    };
    let text = write_failure(
        0,
        &RemoteFailure::host_key(
            &host,
            ObservedHostKey {
                fingerprint: "SHA256:observed".to_owned(),
                algorithm: "ssh-rsa".to_owned(),
            },
        ),
    );
    let value: serde_json::Value = serde_json::from_str(&text).unwrap();
    assert_eq!(value["expected_fingerprint"], "SHA256:expected");
    assert_eq!(value["observed_fingerprint"], "SHA256:observed");
    assert_eq!(value["expected_algorithm"], "ssh-ed25519");
    assert_eq!(value["observed_algorithm"], "ssh-rsa");
    assert!(value.get("host_key").is_none());
}

#[test]
fn capture_limit_reports_discarded_bytes() {
    let mut budget = CaptureBudget::new(1);
    let mut output = vec![b'x'; MAX_CAPTURE_BYTES - 1];
    assert!(append_limited(&mut output, b"yz", &mut budget));
    assert_eq!(output.len(), MAX_CAPTURE_BYTES);
    assert_eq!(output.last(), Some(&b'y'));
}

#[test]
fn shared_capture_budget_is_consumed_across_streams() {
    let mut budget = CaptureBudget::new(3);
    let mut stdout = Vec::new();
    let mut stderr = Vec::new();
    assert!(!append_limited(&mut stdout, b"ab", &mut budget));
    assert!(append_limited(&mut stderr, b"cd", &mut budget));
    assert_eq!(stdout, b"ab");
    assert_eq!(stderr, b"c");
}

#[test]
fn connection_pool_limits_match_the_retention_contract() {
    assert_eq!(DEFAULT_RETAINED_CONNECTIONS, 16);
    assert_eq!(MAX_RETAINED_CONNECTIONS, 32);
    assert_eq!(CONNECTION_IDLE_TIMEOUT, 300_000);
}

#[test]
fn hardware_and_agent_profiles_receive_interactive_time() {
    let mut hardware = HostProfile {
        ssh_auth: SshAuth::PrivateKey,
        private_key_path: "id_ecdsa_sk".to_owned(),
        ..HostProfile::default()
    };
    assert!(profile_may_require_interaction(
        &hardware,
        &[hardware.clone()],
        &vec![]
    ));
    hardware.private_key_path = "id_ed25519".to_owned();
    assert!(!profile_may_require_interaction(
        &hardware,
        &[hardware.clone()],
        &vec![]
    ));
    hardware.ssh_auth = SshAuth::SshAgent;
    assert!(profile_may_require_interaction(
        &hardware,
        &[hardware.clone()],
        &vec![]
    ));
}

#[test]
fn batch_scope_blocks_reconnect_until_the_batch_finishes() {
    let mut pool = SessionPool::new();
    let host = HostProfile::default();
    let key = SessionKey::new(&host, None, None);
    let scope = Id::new_v4();
    pool.block_reconnect(Some(scope), &key);
    let Err(error) = pool.ready(&key, Some(scope), false, None, 0) else {
        panic!("the blocked batch connection unexpectedly became available");
    };
    assert_eq!(error.code, "SSH_BATCH_RECONNECT_BLOCKED");
    pool.finish_batch_scope(scope);
    assert!(pool.ready(&key, Some(scope), false, None, 0).unwrap().is_none());
}

#[test]
fn concurrent_requests_for_one_jump_share_the_same_creation_lock() {
    let mut pool = SessionPool::new();
    let key = SessionKey::new(&HostProfile::default(), None, None);
    let first = pool.connection_lock(&key);
    let second = pool.connection_lock(&key);
    assert_eq!(first, second);
    let other = SessionKey::new(&HostProfile::default(), None, None);
    assert_ne!(pool.connection_lock(&other), first);
}

fn session(handle: u64) -> PooledSession {
    let host = HostProfile::default();
    PooledSession {
        key: SessionKey::new(&host, None, None),
        handle,
        verified_host_key: VerifiedHostKey {
            host_id: host.id,
            alias: host.alias.clone(),
            fingerprint: "SHA256:a".into(),
            algorithm: "ssh-ed25519".into(),
            verified_at_unix: 1,
        },
        auth_key_fingerprint: None,
        chain_ids: vec![host.id],
    }
}

#[test]
fn idle_sessions_leave_and_busy_ones_stay() {
    let mut pool = SessionPool::new();
    let sessions: Vec<PooledSession> = (0..3).map(session).collect();
    for (at, session) in sessions.iter().enumerate() {
        assert!(pool.begin_connection(&vec![], 0).unwrap().is_empty());
        pool.finish_connection(session, None, at as u64);
        pool.release_reservation();
    }
    assert_eq!(pool.pending_connections, 0);
    let left = pool.idle_sessions(&vec![0], CONNECTION_IDLE_TIMEOUT + 1);
    let handles: Vec<u64> = left.iter().map(|session| session.handle).collect();
    assert_eq!(handles, [1]);
    assert_eq!(pool.handle_of(&sessions[0].key), Some(0));
    assert_eq!(pool.handle_of(&sessions[1].key), None);
    let gone = pool.invalidate_host(sessions[2].chain_ids[0]);
    assert_eq!(gone.len(), 1);
    assert_eq!(pool.handle_of(&sessions[2].key), None);
}

fn found(pool: &mut SessionPool, session: &PooledSession, now: u64) -> bool {
    pool.ready(&session.key, None, false, None, now)
        .unwrap()
        .is_some()
}

#[test]
fn sessions_stay_for_as_long_as_their_hosts_ask_for() {
    let mut pool = SessionPool::new();
    let kept = session(1);
    let timed = session(2);
    let usual = session(3);
    pool.finish_connection(&kept, Some(Retention::Session), 0);
    pool.finish_connection(&timed, Some(Retention::Idle(60)), 0);
    pool.finish_connection(&usual, None, 0);
    assert!(pool.idle_sessions(&vec![], 59_999).is_empty());
    assert!(pool.idle_sessions(&vec![2], 60_000).is_empty());
    let gone = pool.idle_sessions(&vec![], 60_000);
    assert_eq!(gone.len(), 1);
    assert_eq!(gone[0].handle, 2);
    let gone = pool.idle_sessions(&vec![], CONNECTION_IDLE_TIMEOUT);
    assert_eq!(gone.len(), 1);
    assert_eq!(gone[0].handle, 3);
    assert!(pool.idle_sessions(&vec![], u64::MAX).is_empty());
    assert_eq!(pool.handle_of(&kept.key), Some(1));
}

#[test]
fn the_end_of_a_call_releases_what_no_host_keeps() {
    let mut pool = SessionPool::new();
    let kept = session(1);
    let per_call = session(2);
    let in_use = session(3);
    pool.finish_connection(&kept, Some(Retention::Session), 0);
    pool.finish_connection(&per_call, None, 0);
    pool.finish_connection(&in_use, None, 0);
    let gone = pool.release_unused(&vec![3]);
    assert_eq!(gone.len(), 1);
    assert_eq!(gone[0].handle, 2);
    assert!(!found(&mut pool, &per_call, 1));
    assert_eq!(pool.handle_of(&kept.key), Some(1));
    assert_eq!(pool.handle_of(&in_use.key), Some(3));
    assert_eq!(pool.release_unused(&vec![]).len(), 1);
    assert!(!found(&mut pool, &in_use, 1));
    assert!(found(&mut pool, &kept, 1));
    assert_eq!(pool.release_unused(&vec![]).len(), 1);
    pool.finish_connection(&kept, Some(Retention::Session), 2);
    pool.finish_connection(&per_call, None, 2);
    assert_eq!(pool.take_all().len(), 2);
    assert!(pool.entries.is_empty());
}

#[test]
fn kept_sessions_make_room_last_of_all() {
    let mut pool = SessionPool::new();
    for handle in 0..MAX_RETAINED_CONNECTIONS as u64 {
        assert!(pool.begin_connection(&vec![], handle).unwrap().is_empty());
        pool.finish_connection(&session(handle), Some(Retention::Session), handle);
        pool.release_reservation();
    }
    let gone = pool.begin_connection(&vec![0], 100).unwrap();
    assert_eq!(gone.len(), 1);
    assert_eq!(gone[0].handle, 1);
    let mut pool = SessionPool::new();
    pool.finish_connection(&session(0), Some(Retention::Session), 0);
    for handle in 1..DEFAULT_RETAINED_CONNECTIONS as u64 {
        pool.finish_connection(&session(handle), None, handle);
    }
    let gone = pool.begin_connection(&vec![], 100).unwrap();
    assert_eq!(gone.len(), 1);
    assert_eq!(gone[0].handle, 1);
}

#[test]
fn one_host_that_authenticates_again_decides_for_its_chain() {
    let kept = HostProfile {
        auth_persistence: AuthPersistence::Session,
        ..Default::default()
    };
    let timed = HostProfile {
        auth_persistence: AuthPersistence::Idle { minutes: 5 },
        ..Default::default()
    };
    let per_call = HostProfile::default();
    let limits = OperationLimits {
        retain_sessions: true,
        ..Default::default()
    };
    let of = |chain: Vec<&HostProfile>| session_retention(&limits, &chain);
    assert_eq!(of(vec![&kept]), Some(Retention::Session));
    assert_eq!(of(vec![&kept, &timed]), Some(Retention::Idle(300)));
    assert_eq!(of(vec![&per_call, &kept]), None);
    assert_eq!(of(vec![&kept, &per_call]), None);
    let never = OperationLimits::default();
    assert_eq!(session_retention(&never, &vec![&kept]), None);
}

#[test]
fn the_pool_never_holds_more_than_its_limit() {
    let mut pool = SessionPool::new();
    let busy: Vec<u64> = (0..100).collect();
    for handle in 0..MAX_RETAINED_CONNECTIONS as u64 {
        assert!(pool.begin_connection(&busy, 0).unwrap().is_empty());
        pool.finish_connection(&session(handle), None, 0);
        pool.release_reservation();
    }
    assert_eq!(
        pool.begin_connection(&busy, 0).unwrap_err().code,
        "SSH_CONNECTION_POOL_FULL"
    );
    let closed = pool.begin_connection(&vec![], 0).unwrap();
    assert!(!closed.is_empty());
    pool.release_reservation();
    assert_eq!(pool.pending_connections, 0);
}

#[test]
fn a_failed_session_is_not_used_again_in_its_batch() {
    let mut pool = SessionPool::new();
    let kept = session(1);
    let scope = Id::new_v4();
    pool.begin_connection(&vec![], 0).unwrap();
    pool.finish_connection(&kept, None, 0);
    let limits = OperationLimits {
        batch_scope: Some(scope),
        ..Default::default()
    };
    session_failed(&mut pool, &kept, &limits);
    assert_eq!(
        pool.ready(&kept.key, Some(scope), false, None, 1)
            .unwrap_err()
            .code,
        "SSH_BATCH_RECONNECT_BLOCKED"
    );
    assert!(pool
        .ready(&kept.key, Some(Id::new_v4()), false, None, 1)
        .unwrap()
        .is_none());
}

fn trusted() -> HostProfile {
    HostProfile {
        alias: "server".into(),
        address: "10.0.0.1".into(),
        username: "root".into(),
        host_fingerprint: Some("SHA256:expected".into()),
        host_key_algorithm: Some("ssh-ed25519".into()),
        ..Default::default()
    }
}

#[test]
fn only_the_trusted_host_key_passes() {
    let seen = |fingerprint: &str| ObservedHostKey {
        fingerprint: fingerprint.into(),
        algorithm: "ssh-ed25519".into(),
    };
    let host = trusted();
    assert!(check_host_key(&host, Some(seen("SHA256:expected"))).is_ok());
    let changed = check_host_key(&host, Some(seen("SHA256:other"))).unwrap_err();
    assert_eq!(changed.code, "HOSTKEY_MISMATCH");
    let unknown = check_host_key(&HostProfile::default(), Some(seen("SHA256:other"))).unwrap_err();
    assert_eq!(unknown.code, "HOSTKEY_UNKNOWN");
    let missing = check_host_key(&host, None).unwrap_err();
    assert_eq!(missing.code, "HOSTKEY_MISSING");
}

#[test]
fn a_connection_authenticates_only_after_its_key_was_checked() {
    let host = trusted();
    let key = SessionKey::new(&host, None, None);
    let (mut connecting, action) = Connecting::start(&host, None, OperationLimits::default());
    assert!(matches!(action, ConnectAction::OpenTcp { port: 22, .. }));
    assert!(matches!(
        connecting.step(ConnectEvent::Opened, &key),
        ConnectAction::Handshake { .. }
    ));
    let observed = ObservedHostKey {
        fingerprint: "SHA256:expected".into(),
        algorithm: "ssh-ed25519".into(),
    };
    assert!(matches!(
        connecting.step(ConnectEvent::ShookHands(Some(observed)), &key),
        ConnectAction::Authenticate { .. }
    ));
    let done = connecting.step(
        ConnectEvent::Authenticated {
            auth_key_fingerprint: None,
            handle: 7,
            now_unix: 5,
        },
        &key,
    );
    let ConnectAction::Done(session) = done else {
        panic!("the connection must be usable");
    };
    assert_eq!(session.handle, 7);
    assert_eq!(session.verified_host_key.verified_at_unix, 5);

    let (mut connecting, _) = Connecting::start(&host, None, OperationLimits::default());
    connecting.step(ConnectEvent::Opened, &key);
    let observed = ObservedHostKey {
        fingerprint: "SHA256:other".into(),
        algorithm: "ssh-ed25519".into(),
    };
    assert!(matches!(
        connecting.step(ConnectEvent::ShookHands(Some(observed)), &key),
        ConnectAction::Reject(_)
    ));
    let (mut connecting, _) = Connecting::start(&host, None, OperationLimits::default());
    assert!(matches!(
        connecting.step(ConnectEvent::TimedOut, &key),
        ConnectAction::Fail(_)
    ));
}

#[test]
fn passwords_are_tried_and_then_typed_into_prompts() {
    let host = trusted();
    assert_eq!(
        stored_password(&host, Ok(Some(Secret::new("pw".into()))))
            .unwrap()
            .as_str(),
        "pw"
    );
    assert!(stored_password(&host, Ok(None)).is_err());
    assert!(stored_password(&host, Err("locked".into())).is_err());
    let (mut login, action) = PasswordLogin::start(Secret::new("pw".into()));
    assert!(matches!(action, PasswordAction::TryPassword));
    assert!(matches!(
        login.step(PasswordEvent::Tried(false)),
        PasswordAction::StartInteractive
    ));
    let PasswordAction::Answer { answers } = login.step(PasswordEvent::Prompts(2)) else {
        panic!("the prompts must be answered");
    };
    let answers: Vec<&str> = answers.iter().map(Secret::as_str).collect();
    assert_eq!(answers, ["pw", "pw"]);
    assert!(matches!(
        login.step(PasswordEvent::InteractiveSuccess),
        PasswordAction::Accepted
    ));
    let (mut login, _) = PasswordLogin::start(Secret::new("pw".into()));
    login.step(PasswordEvent::Tried(false));
    let mut rounds = 0;
    while let PasswordAction::Answer { .. } = login.step(PasswordEvent::Prompts(0)) {
        rounds += 1;
    }
    assert!(rounds <= MAX_INTERACTIVE_ROUNDS);
}

#[test]
fn key_files_are_loaded_and_offered() {
    let mut host = trusted();
    host.ssh_auth = SshAuth::PrivateKey;
    host.private_key_path = "id".into();
    assert_eq!(auth_route(&host), AuthRoute::KeyFile);
    let (mut login, action) = KeyLogin::start(&host);
    assert!(matches!(action, KeyAction::LoadPassphrase));
    assert!(matches!(
        login.step(KeyEvent::Passphrase(None)),
        KeyAction::LoadKey { passphrase: None, .. }
    ));
    assert!(matches!(
        login.step(KeyEvent::KeyLoaded {
            fingerprint: "SHA256:k".into(),
            security_key: true,
        }),
        KeyAction::SignWithSecurityKey
    ));
    let KeyAction::Accepted { fingerprint } = login.step(KeyEvent::Answered(true)) else {
        panic!("the key was accepted");
    };
    assert_eq!(fingerprint, "SHA256:k");
    let (mut login, _) = KeyLogin::start(&host);
    login.step(KeyEvent::Passphrase(Some(Secret::new("pp".into()))));
    assert!(matches!(
        login.step(KeyEvent::KeyUnreadable("bad".into())),
        KeyAction::Fail(_)
    ));
}

#[test]
fn a_chosen_agent_key_is_the_only_one_offered() {
    let identity = |text: &str| AgentIdentity {
        fingerprint: text.into(),
        rsa: text == "SHA256:b",
    };
    let agents = vec![
        vec![identity("SHA256:a"), identity("SHA256:b")],
        vec![identity("SHA256:c")],
    ];
    let mut host = trusted();
    host.ssh_auth = SshAuth::SshAgent;
    assert_eq!(agent_plan(&host, &agents).unwrap().len(), 3);
    host.agent_key_fingerprint = "SHA256:b".into();
    let plan = agent_plan(&host, &agents).unwrap();
    assert_eq!((plan.len(), plan[0].agent, plan[0].identity), (1, 0, 1));
    let (mut login, action) = AgentLogin::start(&host, &agents).unwrap();
    assert!(matches!(action, AgentAction::Offer { rsa: true, .. }));
    let AgentAction::Accepted { fingerprint } = login.step(AgentEvent::Answered(true)) else {
        panic!("the key was accepted");
    };
    assert_eq!(fingerprint, "SHA256:b");
    host.agent_key_fingerprint = "SHA256:z".into();
    let (_, action) = AgentLogin::start(&host, &agents).unwrap();
    assert!(matches!(action, AgentAction::Fail(_)));
    assert!(AgentLogin::start(&host, &vec![]).is_err());
    assert_eq!(auth_route(&host), AuthRoute::Agent);
    assert!(!agent_refused(&host, 1).message.is_empty());
}

#[test]
fn commands_run_side_by_side_and_report_in_order() {
    let mut run = ManyRun::new(3, 2);
    assert_eq!(run.start_next(), Some(0));
    assert_eq!(run.start_next(), Some(1));
    assert_eq!(run.start_next(), None);
    let mut capture = CommandCapture::new(capture_limit(&OperationLimits::default()));
    let mut budget = CaptureBudget::new(capture_limit(&OperationLimits::default()));
    capture.data(b"out", &mut budget);
    capture.extended_data(b"err", &mut budget);
    capture.exit_status(3);
    run.finish(1, Ok(capture.finish()));
    assert_eq!(run.start_next(), Some(2));
    run.finish(0, Err(RemoteFailure::new("X", "broken")));
    run.finish(2, Ok(CommandCapture::new(0).finish()));
    assert!(run.is_over());
    let result = run.conclude(&trusted(), vec![], &vec![]);
    let seen: Vec<usize> = result.results.iter().map(|item| item.index).collect();
    assert_eq!(seen, [0, 1, 2]);
    assert_eq!(result.results[0].error_code, Some("X"));
    assert_eq!(result.results[1].exit_code, Some(3));
    assert_eq!(result.results[1].stdout, "out");
    assert_eq!(result.results[1].stderr, "err");
}

#[test]
fn chains_and_input_are_checked_first() {
    let host = trusted();
    let hosts = vec![host.clone()];
    assert_eq!(connection_chain(&host, &hosts).unwrap().len(), 1);
    let mut lost = host.clone();
    lost.jump_host = Some(Id::new_v4());
    assert!(connection_chain(&lost, &hosts).is_err());
    let telnet = HostProfile {
        protocol: Protocol::Telnet,
        ..Default::default()
    };
    assert!(execute_many_route(&telnet).is_err());
    assert_eq!(execute_many_route(&host).unwrap(), Route::Ssh);
    assert!(validate_stdin(Some(&"x".repeat(MAX_STDIN_BYTES))).is_ok());
    assert_eq!(
        validate_stdin(Some(&"x".repeat(MAX_STDIN_BYTES + 1)))
            .unwrap_err()
            .code,
        "STDIN_TOO_LARGE"
    );
}

#[test]
fn one_command_keeps_at_most_a_mebibyte() {
    let limits = OperationLimits {
        output_bytes: Some(8 * 1024 * 1024),
        ..OperationLimits::default()
    };
    assert_eq!(capture_limit(&limits), 8 * 1024 * 1024);
    let mut budget = CaptureBudget::new(capture_limit(&limits));
    let mut loud = CommandCapture::new(capture_limit(&limits));
    loud.data(&vec![b'x'; 1536 * 1024], &mut budget);
    loud.extended_data(b"lost", &mut budget);
    let result = loud.finish();
    assert_eq!(result.stdout.len(), 1_048_576);
    assert!(result.stderr.is_empty() && result.output_truncated);
    assert_eq!(budget.remaining, 7 * 1024 * 1024);
    let mut quiet = CommandCapture::new(capture_limit(&limits));
    quiet.data(b"kept", &mut budget);
    let result = quiet.finish();
    assert_eq!(result.stdout, "kept");
    assert!(!result.output_truncated);
    let small = OperationLimits {
        output_bytes: Some(5),
        ..OperationLimits::default()
    };
    let mut short = CommandCapture::new(capture_limit(&small));
    short.data(b"123456", &mut budget);
    assert_eq!(short.finish().stdout, "12345");
}
