use codex_hosts::id::Id;
use codex_hosts::ipc::{
    discovery_name, frame_length, hash_bytes, keyed_name, own_answer, pipe_access, pipe_name,
    read_frame, write_frame, Call, CallAction, CallEvent, CallFailure, FrameRead, ListenAction,
    ListenEvent, Listener, MAX_CLIENTS, MAX_FRAME,
};
use codex_hosts::secret::Secret;
use codex_hosts::secrets_app::{
    child_deadline, child_step, launch_wait, ChildPoll, ChildStep, OperationState, OperationStatus,
    Response, SecretsApp,
};
use codex_hosts::temporary_secrets::{
    validate_names, EnvBinding, Execution, Request, Vault, APPROVAL_MS, LAUNCH_MS, MAX_OPERATIONS,
    MAX_VALUE_BYTES,
};

fn vault() -> Vault {
    let mut vault = Vault::new();
    vault
        .request(&vec!["project-local-qwen-apikey".into()])
        .unwrap();
    vault
}

fn execution() -> Execution {
    Execution {
        program: "C:/Windows/System32/WindowsPowerShell/v1.0/powershell.exe".into(),
        args: vec![],
        cwd: "C:/Windows".into(),
        env: vec![EnvBinding {
            variable: "API_KEY".into(),
            field: "project-local-qwen-apikey".into(),
        }],
        timeout_ms: 5000,
    }
}

fn app() -> SecretsApp {
    let mut app = SecretsApp::new();
    app.vault = vault();
    app.vault.fields[0].draft.text.push_str("temporary-sentinel");
    app.vault.fields[0].save().unwrap();
    app
}

#[test]
fn names_are_bounded_unique_and_requests_atomic() {
    let mut vault = vault();
    assert!(vault.request(&vec!["new".into(), "\n".into()]).is_err());
    assert_eq!(vault.fields.len(), 1);
    assert!(validate_names(&vec!["x".into(), "x".into()], false).is_err());
    assert!(validate_names(&vec!["x".repeat(257)], false).is_err());
    assert!(validate_names(&vec!["x".into(); 65], false).is_err());
    assert!(validate_names(&vec![], false).is_err());
    vault
        .request(&vec![
            "project-local-qwen-apikey".into(),
            "project-prod-token".into(),
        ])
        .unwrap();
    assert_eq!(vault.fields.len(), 2);
}

#[test]
fn save_preserves_whitespace_and_clear_drops_both_buffers() {
    let mut vault = vault();
    vault.fields[0].draft.text.push_str("  sentinel\nvalue \n");
    vault.fields[0].save().unwrap();
    assert!(vault.fields[0].draft.is_empty());
    assert_eq!(
        vault.fields[0].value.as_ref().map(Secret::as_str),
        Some("  sentinel\nvalue \n")
    );
    assert!(!format!("{:?}", vault.status()).contains("sentinel"));
    vault.fields[0].draft.text.push_str("replacement");
    assert!(vault.clear(&vec!["unknown".into()]).is_err());
    assert!(vault.status()[0].ready);
    vault.clear(&vec![]).unwrap();
    assert!(!vault.status()[0].ready);
    assert!(vault.fields[0].draft.is_empty());
    assert!(Vault::new().fields.is_empty());
}

#[test]
fn invalid_replacement_preserves_saved_value() {
    let mut vault = vault();
    let field = &mut vault.fields[0];
    field.draft.text.push_str("old");
    field.save().unwrap();
    field.draft.text.push('\0');
    assert!(field.save().is_err());
    assert_eq!(field.value.as_ref().unwrap().as_str(), "old");
    field.draft = Secret::new("x".repeat(MAX_VALUE_BYTES + 1));
    assert!(field.save().is_err());
}

#[test]
fn execution_validation_rejects_ambiguous_environment_and_missing_secrets() {
    let mut execution = execution();
    let vault = vault();
    assert_eq!(vault.check(&execution), Err("SECRET_MISSING"));
    assert_eq!(vault.environment(&execution).err(), Some("SECRET_MISSING"));
    execution.env.push(EnvBinding {
        variable: "api_key".into(),
        field: "project-local-qwen-apikey".into(),
    });
    assert_eq!(execution.validate(), Err("ENVIRONMENT_INVALID"));
    execution.env.pop();
    execution.program = "cmd.exe".into();
    assert_eq!(execution.validate(), Err("EXECUTION_INVALID"));
}

#[test]
fn successful_save_returns_saved_status_without_plaintext() {
    let mut app = app();
    app.vault.clear(&vec![]).unwrap();
    app.vault.fields[0].draft.text.push_str("replacement-sentinel");

    app.save_field(0).unwrap();

    let response = app.handle(Request::Status, 0);
    assert_eq!(response.status, "saved");
    assert!(response.fields[0].ready);
    assert!(!response.json().contains("replacement-sentinel"));

    let cleared = app.handle(Request::Clear { fields: vec![] }, 0);
    assert_eq!(cleared.status, "ok");
    assert!(!cleared.fields[0].ready);
}

#[test]
fn saved_fields_can_be_reused_after_reopen_and_execute_without_new_input() {
    let mut app = app();
    let session = app.session;
    let first = app.handle(
        Request::Declare {
            fields: vec!["project-local-qwen-apikey".into()],
        },
        0,
    );
    assert_eq!(first.status, "ok");
    assert_eq!(first.session, session);
    assert!(first.fields[0].ready);
    assert!(app.vault.fields[0].draft.is_empty());
    let first_op = app.handle(Request::Execute(execution()), 0);
    assert!(first_op.operation_id.is_some());
    assert_eq!(first_op.status, "ok");
    let second_op = app.handle(Request::Execute(execution()), 0);
    assert!(second_op.operation_id.is_some());
    assert_ne!(first_op.operation_id, second_op.operation_id);
    assert!(app.running.is_none()); // Reuse never bypasses user approval.
    let more = app.handle(
        Request::Declare {
            fields: vec!["new-project-key".into()],
        },
        0,
    );
    assert!(more.fields[0].ready);
    assert!(!more.fields[1].ready);
    app.handle(
        Request::Clear {
            fields: vec!["project-local-qwen-apikey".into()],
        },
        0,
    );
    assert_eq!(
        app.handle(Request::Execute(execution()), 0).code.as_deref(),
        Some("SECRET_MISSING")
    );
}

#[test]
fn approval_is_required_and_clear_revokes_pending_operations() {
    let mut app = app();
    let response = app.handle(Request::Execute(execution()), 0);
    assert!(response.operation_id.is_some());
    assert!(app.running.is_none());
    assert_eq!(response.operations[0].status.word(), "pending");
    app.handle(Request::Clear { fields: vec![] }, 0);
    let id = response.operation_id.unwrap();
    assert!(app.approve(id).is_none());
    assert!(app.running.is_none());
    assert_eq!(app.operations[0].result.status.word(), "cancelled");
    assert_eq!(
        app.handle(Request::Execute(execution()), 0).code.as_deref(),
        Some("SECRET_MISSING")
    );
}

#[test]
fn pending_approvals_expire_and_operation_count_is_bounded() {
    let mut app = app();
    let now = 1_000_000;
    for _ in 0..MAX_OPERATIONS {
        assert_eq!(app.handle(Request::Execute(execution()), now).status, "ok");
    }
    assert_eq!(
        app.handle(Request::Execute(execution()), now)
            .code
            .as_deref(),
        Some("OPERATION_LIMIT")
    );
    app.operations[0].requested = now - 301_000;
    app.expire(now);
    assert_eq!(app.operations[0].result.status.word(), "expired");
    assert_eq!(app.handle(Request::Execute(execution()), now).status, "ok");
    assert_eq!(app.operations.len(), MAX_OPERATIONS);
    assert_eq!(APPROVAL_MS, 300_000);
}

#[test]
fn separate_sessions_and_new_fields_do_not_mix_values() {
    let mut first = app();
    let mut second = app();
    assert_ne!(first.session, second.session);
    first.handle(
        Request::Declare {
            fields: vec!["project-two-token".into()],
        },
        0,
    );
    assert!(first.vault.status()[0].ready);
    assert!(!first.vault.status()[1].ready);
    second.handle(Request::Clear { fields: vec![] }, 0);
    assert!(first.vault.status()[0].ready);
    assert!(!second.vault.status()[0].ready);
}

#[test]
fn hiding_editor_retains_saved_values_and_same_session() {
    let mut app = app();
    let session = app.session;
    app.visible = true;
    app.visible = false;
    let response = app.handle(Request::Status, 0);
    assert_eq!(response.session, session);
    assert!(response.fields[0].ready);
    assert!(!app.visible);
    app.handle(Request::Show { temporary: true }, 0);
    assert!(app.visible);
    assert!(app.restore_requested);
    assert_eq!(
        app.vault.fields[0].value.as_ref().unwrap().as_str(),
        "temporary-sentinel"
    );
    app.handle(
        Request::Declare {
            fields: vec!["another-project-token".into()],
        },
        0,
    );
    assert_eq!(app.session, session);
    assert!(app.vault.fields[0].value.is_some());
}

#[test]
fn an_approved_operation_runs_once_with_its_values() {
    let mut app = app();
    let id = app
        .handle(Request::Execute(execution()), 0)
        .operation_id
        .unwrap();
    let waiting = app
        .handle(Request::Execute(execution()), 0)
        .operation_id
        .unwrap();
    let launch = app.approve(id).unwrap();
    assert_eq!(launch.id, id);
    assert_eq!(launch.environment[0].variable, "API_KEY");
    assert_eq!(launch.environment[0].value.as_str(), "temporary-sentinel");
    assert_eq!(app.running, Some(id));
    assert!(app.approve(waiting).is_none());
    app.finish(OperationStatus {
        id,
        status: OperationState::Completed,
        exit_code: Some(0),
    });
    assert!(app.running.is_none());
    assert_eq!(app.operations[0].result.status, OperationState::Completed);
    assert!(!app.response().json().contains("temporary-sentinel"));
    app.reject(waiting);
    assert_eq!(app.operations[1].result.status, OperationState::Cancelled);
}

#[test]
fn fields_are_added_edited_and_cleared_by_hand() {
    let mut app = app();
    app.new_name = "second".into();
    app.add_field();
    assert_eq!(app.vault.fields.len(), 2);
    app.new_name = "second\n".into();
    app.add_field();
    assert_eq!(app.vault.fields.len(), 2);
    assert!(app.notice.is_some());
    app.edit_field(1, Secret::new("draft".into()));
    assert_eq!(app.vault.fields[1].draft.as_str(), "draft");
    app.clear_field(0);
    assert!(app.vault.fields[0].value.is_none());
    app.clear_all();
    assert!(app.vault.fields.iter().all(|field| field.draft.is_empty()));
}

#[test]
fn children_are_watched_until_they_end() {
    let id = Id::new_v4();
    let state = |step: ChildStep| match step {
        ChildStep::Wait => None,
        ChildStep::Kill(status) | ChildStep::Report(status) => Some(status.status),
    };
    assert_eq!(
        state(child_step(id, false, 10, 100, ChildPoll::Running)),
        None
    );
    assert_eq!(
        state(child_step(id, true, 10, 100, ChildPoll::Running)),
        Some(OperationState::Cancelled)
    );
    assert_eq!(
        state(child_step(id, false, 100, 100, ChildPoll::Running)),
        Some(OperationState::TimedOut)
    );
    let done = ChildPoll::Exited {
        success: true,
        code: Some(0),
    };
    assert_eq!(
        state(child_step(id, false, 10, 100, done)),
        Some(OperationState::Completed)
    );
    let failed = ChildPoll::Exited {
        success: false,
        code: Some(9),
    };
    assert_eq!(
        state(child_step(id, false, 10, 100, failed)),
        Some(OperationState::Failed)
    );
    assert_eq!(
        state(child_step(id, false, 10, 100, ChildPoll::WaitFailed)),
        Some(OperationState::WaitFailed)
    );
    assert!(child_deadline(id, false, 10, 100).is_none());
    assert!(launch_wait(0).is_ok() && launch_wait(LAUNCH_MS).is_err());
}

#[test]
fn every_state_has_its_own_word() {
    let states = [
        OperationState::Pending,
        OperationState::Running,
        OperationState::Completed,
        OperationState::Failed,
        OperationState::Cancelled,
        OperationState::TimedOut,
        OperationState::SpawnFailed,
        OperationState::WaitFailed,
        OperationState::WorkerFailed,
        OperationState::SecretMissing,
        OperationState::Expired,
    ];
    for state in states {
        assert_eq!(OperationState::parse(state.word()), Some(state));
    }
    assert_eq!(OperationState::parse("unknown"), None);
}

#[test]
fn oversized_frames_are_rejected_before_allocation() {
    let header = ((MAX_FRAME + 1) as u32).to_le_bytes();
    assert!(frame_length(&header).is_err());
    assert!(matches!(read_frame(&header), FrameRead::Limit));
}

#[test]
fn frames_read_back_what_was_written() {
    for message in [&b"x"[..], b"hello"] {
        let framed = write_frame(message).unwrap();
        let FrameRead::Message(read) = read_frame(&framed) else {
            panic!("the frame is whole");
        };
        assert_eq!(read, message);
        assert!(matches!(
            read_frame(&framed[..framed.len() - 1]),
            FrameRead::Incomplete
        ));
    }
    assert!(write_frame(b"").is_err());
    assert!(write_frame(&vec![0; MAX_FRAME]).is_ok());
    assert!(write_frame(&vec![0; MAX_FRAME + 1]).is_err());
}

#[test]
fn pipe_names_do_not_depend_on_how_a_directory_is_written() {
    assert_eq!(hash_bytes(b""), 0xcbf29ce484222325);
    assert_eq!(hash_bytes(b"a"), 0xaf63dc4c8601ec8c);
    assert_eq!(
        discovery_name("C:/Users/Me", "S-1"),
        discovery_name("c:\\users\\me", "S-1")
    );
    assert_ne!(keyed_name("S-1", "a"), keyed_name("S-1", "b"));
    let id = Id::new_v4();
    assert!(pipe_name(id).contains(&id.text()));
    assert!(pipe_access("S-1-5").contains("S-1-5"));
}

#[test]
fn a_request_that_was_sent_is_not_sent_again() {
    let id = Id::new_v4();
    let mut call = Call::start(Some(id));
    assert!(matches!(call.step(CallEvent::Busy), CallAction::OpenAgain));
    assert!(matches!(call.step(CallEvent::Opened), CallAction::Send));
    assert!(matches!(call.step(CallEvent::Sent), CallAction::Receive));
    assert!(matches!(
        call.step(CallEvent::Answered { session: Id::nil() }),
        CallAction::Fail(CallFailure::WrongSession)
    ));
    let mut call = Call::start(None);
    call.step(CallEvent::Opened);
    call.step(CallEvent::Sent);
    assert!(matches!(
        call.step(CallEvent::Answered { session: id }),
        CallAction::Accept
    ));
    let mut call = Call::start(None);
    assert!(matches!(
        call.step(CallEvent::TimedOut),
        CallAction::Fail(CallFailure::TimedOut)
    ));
}

#[test]
fn a_listener_serves_a_bounded_number_of_clients() {
    let mut listener = Listener::new();
    for _ in 0..MAX_CLIENTS {
        assert!(matches!(
            listener.step(ListenEvent::Turn { stopped: false }),
            ListenAction::Accept
        ));
        listener.step(ListenEvent::Connected { replaced: true });
    }
    assert!(matches!(
        listener.step(ListenEvent::Turn { stopped: false }),
        ListenAction::WaitForRoom
    ));
    listener.step(ListenEvent::Left);
    assert!(matches!(
        listener.step(ListenEvent::Turn { stopped: false }),
        ListenAction::Accept
    ));
    assert!(matches!(
        listener.step(ListenEvent::Turn { stopped: true }),
        ListenAction::Stop
    ));
    assert!(own_answer(Id::nil(), true, true).is_none());
    let busy: Response = own_answer(Id::nil(), true, false).unwrap();
    assert_eq!(busy.status, "error");
    assert!(own_answer(Id::nil(), false, false).is_some());
}

#[test]
fn programs_are_named_by_absolute_paths() {
    let accepts = |program: &str| {
        let mut execution = execution();
        execution.program = program.into();
        execution.validate().is_ok()
    };
    for path in [
        "C:\\tools\\run.exe",
        "c:/tools/run.exe",
        "\\\\server\\share\\run.exe",
        "//server/share/run.exe",
        "\\\\?\\C:\\tools\\run.exe",
        "\\\\.\\device",
    ] {
        assert!(accepts(path), "{path}");
    }
    for path in [
        "run.exe",
        "C:run.exe",
        "\\tools\\run.exe",
        "\\\\x",
        "\\\\server",
        "\\\\server\\",
        "/usr/bin/env",
    ] {
        assert!(!accepts(path), "{path}");
    }
}
