use codex_hosts::failure::RemoteFailure;
use codex_hosts::id::Id;
use codex_hosts::mcp::{
    batch_timeouts, cancelled, disconnect_json, disconnect_target, editor_outcome, host_limits,
    instructions, many_concurrency, push_args, run_request, single_host_plan, startup, tools,
    validate_editor, EditorEnd, EditorResult, OpenHostEditorParams, OwnerCheck,
    DEFAULT_COMMAND_TIMEOUT, DEFAULT_CONNECT_TIMEOUT,
};
use codex_hosts::model::{AuthPersistence, HostProfile};
use codex_hosts::storage::HostStore;
use codex_hosts::temporary_secrets::{EnvBinding, Request, DEFAULT_EXECUTION_MS};
use codex_hosts::tool::{Timeouts, SCHEMA_VERSION};

#[test]
fn tools_declare_risk_annotations_and_stable_names() {
    let tools = tools();
    let mut names = tools.iter().map(|tool| tool.name()).collect::<Vec<_>>();
    names.sort_unstable();
    assert_eq!(
        names,
        [
            "agent_identities",
            "batch_exec",
            "batch_probe",
            "disconnect",
            "exec",
            "exec_many",
            "exec_stdin",
            "fido_identities",
            "list_hosts",
            "open_host_editor",
            "probe",
            "temporary_secrets_clear",
            "temporary_secrets_open",
            "temporary_secrets_run",
            "temporary_secrets_status"
        ]
    );
    for tool in &tools {
        let annotations = tool.annotations();
        let name = tool.name();
        let executes =
            name.starts_with("exec") || name == "batch_exec" || name == "temporary_secrets_run";
        let connects = executes || name == "probe" || name == "batch_probe";
        let read_only = matches!(
            name,
            "agent_identities"
                | "fido_identities"
                | "list_hosts"
                | "probe"
                | "batch_probe"
                | "temporary_secrets_status"
        );
        assert_eq!(annotations.read_only_hint, Some(read_only), "{name}");
        assert_eq!(annotations.open_world_hint, Some(connects), "{name}");
        if name == "disconnect" {
            assert_eq!(annotations.idempotent_hint, Some(true));
            assert_eq!(annotations.destructive_hint, Some(false));
        }
        if executes {
            assert_eq!(annotations.destructive_hint, Some(true), "{name}");
        }
    }
}

fn timeouts(connect: Option<u64>, command: Option<u64>) -> Timeouts {
    Timeouts {
        connect_timeout_ms: connect,
        command_timeout_ms: command,
    }
}

#[test]
fn omitted_timeouts_fall_back_to_host_then_global_defaults() {
    let plain = HostProfile::default();
    let defaults = host_limits(&plain, timeouts(None, None));
    assert_eq!(defaults.connect_timeout, Some(DEFAULT_CONNECT_TIMEOUT));
    assert_eq!(defaults.command_timeout, Some(DEFAULT_COMMAND_TIMEOUT));
    let explicit = host_limits(&plain, timeouts(Some(5000), Some(1000)));
    assert_eq!(explicit.connect_timeout, Some(5_000));
    assert_eq!(explicit.command_timeout, Some(1_000));
    let mut tuned = HostProfile::default();
    tuned.advanced.connect_timeout_s = Some(30);
    tuned.advanced.command_timeout_s = Some(1800);
    let from_host = host_limits(&tuned, timeouts(None, None));
    assert_eq!(from_host.connect_timeout, Some(30_000));
    assert_eq!(from_host.command_timeout, Some(1_800_000));
    let overridden = host_limits(&tuned, timeouts(Some(2000), None));
    assert_eq!(overridden.connect_timeout, Some(2_000));
    assert_eq!(overridden.command_timeout, Some(1_800_000));
}

#[test]
fn instructions_state_defaults_and_limits() {
    let text = instructions();
    assert!(text.contains(&SCHEMA_VERSION.to_string()));
    assert!(text.contains("120000"));
    assert!(text.contains("600000"));
    assert!(text.contains("256 hosts"));
}

fn params() -> OpenHostEditorParams {
    OpenHostEditorParams {
        alias: "web 1".into(),
        host: Some("h".into()),
        port: Some(2222),
        user: None,
        protocol: Some("ssh".into()),
        auth: None,
        key_path: None,
        agent_key_fingerprint: None,
        jump_host: None,
        description: Some("a \"quoted\" note".into()),
        tags: Some(vec!["prod".into(), "web".into()]),
        observed_fingerprint: Some("SHA256:abc".into()),
        observed_algorithm: None,
    }
}

#[test]
fn prefill_becomes_editor_flags_without_a_shell() {
    let args = push_args(&params());
    assert_eq!(
        args,
        [
            "--alias",
            "web 1",
            "--host",
            "h",
            "--port",
            "2222",
            "--protocol",
            "ssh",
            "--description",
            "a \"quoted\" note",
            "--observed-fingerprint",
            "SHA256:abc",
            "--tag",
            "prod",
            "--tag",
            "web"
        ]
    );
}

#[test]
fn run_params_build_the_same_execute_request_as_the_file_protocol() {
    let request = run_request(
        r"C:\py\python.exe".into(),
        vec!["script.py".into()],
        r"C:\project".into(),
        vec![EnvBinding {
            variable: "API_KEY".into(),
            field: "proj-key".into(),
        }],
        None,
    );
    let Request::Execute(execution) = request else {
        panic!("a run is an execution");
    };
    assert_eq!(execution.program, r"C:\py\python.exe");
    assert_eq!(execution.args, ["script.py"]);
    assert_eq!(execution.cwd, r"C:\project");
    assert_eq!(execution.env.len(), 1);
    assert_eq!(execution.timeout_ms, DEFAULT_EXECUTION_MS);
}

#[test]
fn cancellation_returns_a_structured_failure() {
    assert_eq!(cancelled().code, "CANCELLED");
}

#[test]
fn hosts_without_retention_are_gated_one_call_at_a_time() {
    let per_call = HostProfile {
        alias: "strict".into(),
        ..Default::default()
    };
    let mut retained = HostProfile {
        alias: "kept".into(),
        auth_persistence: AuthPersistence::Session,
        ..Default::default()
    };
    retained.advanced.max_channels = Some(2);
    let hosts = vec![per_call.clone(), retained.clone()];
    assert_eq!(
        single_host_plan(&per_call, &hosts, 1).hosts,
        [per_call.id]
    );
    let plan = single_host_plan(&retained, &hosts, 9);
    assert!(plan.hosts.is_empty());
    assert_eq!(plan.channels, 2);
    assert_eq!(many_concurrency(&retained, Some(9)), 2);
}

#[test]
fn batches_get_the_usual_timeouts() {
    let given = batch_timeouts(timeouts(Some(1), None));
    assert_eq!(given.connect_timeout_ms, Some(1));
    assert_eq!(given.command_timeout_ms, Some(DEFAULT_COMMAND_TIMEOUT));
}

#[test]
fn disconnecting_names_a_known_host_or_all() {
    let mut store = HostStore::default();
    store.hosts.push(HostProfile::new("web".into()));
    assert_eq!(disconnect_target(&store, None).unwrap(), None);
    assert_eq!(
        disconnect_target(&store, Some("WEB")).unwrap(),
        Some(store.hosts[0].id)
    );
    assert!(disconnect_target(&store, Some("db")).is_err());
    let value: serde_json::Value = serde_json::from_str(&disconnect_json(3)).unwrap();
    assert_eq!(value["disconnected"], 3);
}

#[test]
fn editors_are_checked_and_their_results_passed_on() {
    assert!(validate_editor(&params()).is_ok());
    let mut blank = params();
    blank.alias = " ".into();
    assert!(validate_editor(&blank).is_err());
    assert_eq!(
        validate_editor(&blank).unwrap_err().code,
        "EDITOR_ALIAS_REQUIRED"
    );
    let saved = editor_outcome(EditorEnd::Result {
        status: "saved".into(),
        alias: Some("web".into()),
    })
    .unwrap();
    let value: serde_json::Value = serde_json::from_str(&saved.json()).unwrap();
    assert_eq!(value["status"], "saved");
    assert_eq!(value["alias"], "web");
    let ends = [
        EditorEnd::NotLaunched("x".into()),
        EditorEnd::TimedOut,
        EditorEnd::WaitFailed("x".into()),
        EditorEnd::BadResult("x".into()),
    ];
    for end in ends {
        let failed: Result<EditorResult, RemoteFailure> = editor_outcome(end);
        assert!(failed.is_err());
    }
}

#[test]
fn the_server_starts_only_for_the_owner_of_the_data() {
    assert!(startup(&OwnerCheck::Owned, "repair").starts);
    let foreign = startup(
        &OwnerCheck::Mismatch {
            owner: "a".into(),
            current: "b".into(),
        },
        "repair",
    );
    assert!(!foreign.starts);
    assert!(foreign.said.unwrap().contains("repair"));
    assert_ne!(Id::new_v4(), Id::nil());
}
