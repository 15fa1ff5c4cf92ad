use codex_hosts::batch::{
    limit_result_output, Batch, BatchAction, BatchItem, BatchResult, BatchSummary, BatchTurn,
};
use codex_hosts::budget::{batch_size, fit_batch_result_budget, fit_many_result_budget};
use codex_hosts::dispatch::{
    early_step, exit_code, secrets_session_failure, secrets_window_failure, store_step, usable_host,
    EarlyStep, ToolResponse, ToolStep, Trouble,
};
use codex_hosts::failure::RemoteFailure;
use codex_hosts::fido::FidoKeyInfo;
use codex_hosts::id::Id;
use codex_hosts::listing::{
    capabilities_json, credential_read_failed, list_hosts, secret_lookups, AgentIdentitiesResult,
    FidoIdentitiesResult,
};
use codex_hosts::model::{AuthPersistence, HostProfile, SshAuth};
use codex_hosts::remote::{
    AgentKeyInfo, RemoteCommandResult, RemoteManyResult, RemoteResult, VerifiedHostKey,
    MAX_STDIN_BYTES,
};
use codex_hosts::storage::HostStore;
use codex_hosts::temporary_secrets::Request;
use codex_hosts::tool::{
    concurrency, find_host, limits, resolve_batch_hosts, timeout_duration, validate_alias,
    validate_commands, validate_request_input, BatchOptions, Timeouts, ToolRequest,
    DEFAULT_BATCH_CONCURRENCY, MAX_BATCH_CONCURRENCY, MAX_BATCH_HOSTS, MAX_EXEC_MANY_COMMANDS,
    MAX_TOOL_TIMEOUT_MS, SCHEMA_VERSION,
};

const NO_TIMEOUTS: Timeouts = Timeouts {
    connect_timeout_ms: None,
    command_timeout_ms: None,
};

#[test]
fn hidden_hosts_are_invisible_and_unusable_for_codex() {
    let mut store = HostStore::default();
    let mut hidden = HostProfile {
        alias: "secret".into(),
        address: "10.0.0.1".into(),
        username: "u".into(),
        ..Default::default()
    };
    hidden.advanced.codex_hidden = true;
    store.hosts.push(hidden);
    store.hosts.push(HostProfile {
        alias: "open".into(),
        address: "10.0.0.2".into(),
        username: "u".into(),
        ..Default::default()
    });
    let listed = list_hosts(&store, &vec![], &vec![]);
    assert_eq!(listed.hosts.len(), 1);
    assert_eq!(listed.hosts[0].alias, "open");
    assert_eq!(listed.hosts[0].max_channels, 8);
    assert_eq!(find_host(&store, "secret").unwrap_err().code, "HOST_HIDDEN");
    assert_eq!(
        resolve_batch_hosts(&store.hosts, &vec!["open".into(), "SECRET".into()])
            .unwrap_err()
            .code,
        "HOST_HIDDEN"
    );
}

#[test]
fn discovery_filters_metadata_without_touching_excluded_credentials() {
    let mut store = HostStore::default();
    store.hosts.push(HostProfile {
        alias: "include".into(),
        description: "notes".into(),
        tags: vec!["Prod".into(), "web".into()],
        ssh_auth: SshAuth::SshAgent,
        ..Default::default()
    });
    store.hosts.push(HostProfile {
        alias: "exclude".into(),
        ..Default::default()
    });
    let tags = vec![" prod ".into(), "WEB".into()];
    assert!(secret_lookups(&store, &tags).is_empty());
    let result = list_hosts(&store, &tags, &vec![]);
    assert_eq!(result.hosts.len(), 1);
    assert_eq!(result.hosts[0].description, "notes");
    assert_eq!(result.hosts[0].tags, ["Prod", "web"]);
    assert_eq!(secret_lookups(&store, &vec![]), [store.hosts[1].id]);
}

fn exec(stdin: Option<String>) -> ToolRequest {
    ToolRequest::Exec {
        alias: "a".into(),
        command: "cat".into(),
        stdin,
        timeouts: NO_TIMEOUTS,
    }
}

#[test]
fn optional_stdin_contract_rejects_wrong_types_and_oversized_utf8() {
    for stdin in [None, Some(String::new())] {
        assert!(validate_request_input(&exec(stdin)).is_ok());
    }
    let input = "中".repeat(MAX_STDIN_BYTES / 3 + 1);
    assert_eq!(
        validate_request_input(&exec(Some(input))).unwrap_err().code,
        "STDIN_TOO_LARGE"
    );
    let many = ToolRequest::ExecMany {
        alias: "a".into(),
        commands: vec!["cat".into()],
        stdin: Some("data".into()),
        max_concurrency: None,
        timeouts: NO_TIMEOUTS,
    };
    let batch = ToolRequest::BatchExec {
        aliases: vec!["a".into()],
        command: "cat".into(),
        stdin: Some("data".into()),
        options: options(),
    };
    for request in [many, batch] {
        assert_eq!(
            validate_request_input(&request).unwrap_err().code,
            "STDIN_UNSUPPORTED"
        );
    }
}

#[test]
fn rejects_implicit_all_host_batch() {
    let store = HostStore::default();
    let error = resolve_batch_hosts(&store.hosts, &vec![]).unwrap_err();
    assert_eq!(error.code, "BATCH_ALIASES_REQUIRED");
}

#[test]
fn rejects_duplicate_batch_aliases_before_connecting() {
    let mut store = HostStore::default();
    let mut host = HostProfile::new("web-1".to_owned());
    host.address = "127.0.0.1".to_owned();
    host.username = "tester".to_owned();
    store.hosts.push(host);
    let aliases = vec!["web-1".to_owned(), "WEB-1".to_owned()];
    let error = resolve_batch_hosts(&store.hosts, &aliases).unwrap_err();
    assert_eq!(error.code, "BATCH_ALIAS_INVALID");
}

fn result(alias: &str, stdout: String, stderr: String) -> RemoteResult {
    RemoteResult {
        status: "ok",
        alias: alias.to_owned(),
        exit_code: 0,
        stdout,
        stderr,
        output_truncated: false,
        host_fingerprint: None,
        host_key_algorithm: None,
        auth_key_fingerprint: None,
        verified_host_keys: Vec::new(),
    }
}

#[test]
fn batch_output_budget_preserves_utf8_and_reports_truncation() {
    let mut result = result("host-1", "测试-output".repeat(4), "error".repeat(4));
    limit_result_output(&mut result, 17);
    assert!(result.output_truncated);
    assert!(result.stdout.len() + result.stderr.len() <= 17);
    assert!(std::str::from_utf8(result.stdout.as_bytes()).is_ok());
    assert!(std::str::from_utf8(result.stderr.as_bytes()).is_ok());
}

#[test]
fn batch_defaults_allow_eight_workers_and_cap_at_sixteen() {
    assert_eq!(DEFAULT_BATCH_CONCURRENCY, 8);
    assert_eq!(MAX_BATCH_CONCURRENCY, 16);
    assert_eq!(MAX_BATCH_HOSTS, 256);
}

#[test]
fn final_batch_json_including_escaping_stays_inside_budget() {
    let make_result = |alias: &str| RemoteResult {
        status: "ok",
        alias: alias.to_owned(),
        exit_code: 0,
        stdout: "\\\"\n".repeat(2048),
        stderr: "测试".repeat(1024),
        output_truncated: false,
        host_fingerprint: Some("SHA256:example".to_owned()),
        host_key_algorithm: Some("ssh-ed25519".to_owned()),
        auth_key_fingerprint: None,
        verified_host_keys: Vec::new(),
    };
    let mut result = BatchResult {
        schema_version: SCHEMA_VERSION,
        status: "ok",
        action: "batch_exec",
        duration_ms: 1,
        results: vec![
            BatchItem::Success(make_result("one")),
            BatchItem::Success(make_result("two")),
        ],
        summary: BatchSummary {
            requested: 2,
            succeeded: 2,
            remote_errors: 0,
            failed: 0,
            cancelled: 0,
        },
    };
    fit_batch_result_budget(&mut result, 4096).unwrap();
    assert!(batch_size(&result) <= 4096);
    assert_eq!(batch_size(&result), result.json().len());
    assert!(result.results.iter().any(|item| matches!(
        item,
        BatchItem::Success(output) if output.output_truncated
    )));
    let value: serde_json::Value = serde_json::from_str(&result.json()).unwrap();
    assert_eq!(value["results"][1]["alias"], "two");
    assert_eq!(value["summary"]["requested"], 2);
    assert!(fit_batch_result_budget(&mut result, 10).is_err());
    assert!(batch_size(&result) > 10);
    assert!(result.results.iter().all(|item| matches!(
        item,
        BatchItem::Success(output)
            if output.stdout.is_empty() && output.stderr.is_empty() && output.output_truncated
    )));
}

#[test]
fn exec_many_requires_a_bounded_nonempty_command_list() {
    assert_eq!(
        validate_commands(&vec![]).unwrap_err().code,
        "COMMANDS_REQUIRED"
    );
    assert_eq!(
        validate_commands(&vec!["true".to_owned(); MAX_EXEC_MANY_COMMANDS + 1])
            .unwrap_err()
            .code,
        "TOO_MANY_COMMANDS"
    );
    assert!(validate_commands(&vec!["hostname".to_owned(), "uptime".to_owned()]).is_ok());
}

#[test]
fn tool_timeouts_are_capped_to_prevent_instant_overflow() {
    assert_eq!(timeout_duration(u64::MAX), MAX_TOOL_TIMEOUT_MS);
}

fn options() -> BatchOptions {
    BatchOptions {
        max_concurrency: None,
        timeouts: NO_TIMEOUTS,
        batch_timeout_ms: None,
        continue_on_error: true,
    }
}

fn hosts() -> Vec<HostProfile> {
    ["one", "two", "three"]
        .iter()
        .map(|alias| HostProfile {
            alias: alias.to_string(),
            address: "10.0.0.1".into(),
            username: "root".into(),
            ..Default::default()
        })
        .collect()
}

#[test]
fn a_batch_reports_every_host_in_order() {
    let known = hosts();
    let aliases = vec!["two".to_owned(), "one".to_owned(), "three".to_owned()];
    let mut batch = Batch::start(
        &known,
        aliases,
        BatchAction::Exec("uptime".into()),
        options(),
        false,
        Id::new_v4(),
        0,
    )
    .unwrap();
    for at in 0..3 {
        let Some(BatchTurn::Run { index, .. }) = batch.take_next(0) else {
            panic!("a host is left");
        };
        assert_eq!(index, at);
    }
    assert!(batch.take_next(0).is_none());
    batch.finish(2, Err(RemoteFailure::new("SSH_FAILED", "lost")));
    let mut failed = result("one", String::new(), String::new());
    failed.status = "remote_error";
    failed.exit_code = 1;
    batch.finish(1, Ok(failed));
    let mut good = result("two", "up".into(), String::new());
    good.verified_host_keys.push(VerifiedHostKey {
        host_id: known[1].id,
        alias: "two".into(),
        fingerprint: "SHA256:x".into(),
        algorithm: "ssh-ed25519".into(),
        verified_at_unix: 9,
    });
    batch.finish(0, Ok(good));
    let (outcome, keys) = batch.conclude(12);
    assert_eq!(outcome.duration_ms, 12);
    assert_eq!(outcome.status, "completed_with_errors");
    assert_eq!(outcome.action, "batch_exec");
    assert_eq!(
        (
            outcome.summary.requested,
            outcome.summary.succeeded,
            outcome.summary.remote_errors,
            outcome.summary.failed,
            outcome.summary.cancelled
        ),
        (3, 1, 1, 1, 0)
    );
    assert_eq!(keys.len(), 1);
}

#[test]
fn a_batch_stops_at_its_deadline_and_at_the_first_failure() {
    let known = hosts();
    let aliases = vec!["one".to_owned(), "two".to_owned()];
    let mut late = options();
    late.batch_timeout_ms = Some(10);
    let mut batch = Batch::start(
        &known,
        aliases.clone(),
        BatchAction::Probe,
        late,
        false,
        Id::new_v4(),
        0,
    )
    .unwrap();
    assert!(matches!(
        batch.take_next(10),
        Some(BatchTurn::Expired { index: 0 })
    ));
    let mut strict = options();
    strict.continue_on_error = false;
    let mut batch = Batch::start(
        &known,
        aliases,
        BatchAction::Probe,
        strict,
        false,
        Id::new_v4(),
        0,
    )
    .unwrap();
    batch.take_next(0);
    batch.finish(0, Err(RemoteFailure::new("SSH_FAILED", "lost")));
    assert!(batch.take_next(0).is_none());
    let (outcome, _) = batch.conclude(1);
    assert_eq!(outcome.summary.cancelled, 1);
    assert_eq!(outcome.summary.failed, 1);
}

#[test]
fn requests_are_checked_before_anything_is_opened() {
    assert!(validate_alias("web").is_ok());
    assert_eq!(validate_alias(" ").unwrap_err().code, "ALIAS_INVALID");
    assert_eq!(
        validate_alias(&"x".repeat(257)).unwrap_err().code,
        "ALIAS_INVALID"
    );
    let known = hosts();
    assert_eq!(usable_host(&known, "TWO").unwrap(), 1);
    assert_eq!(
        usable_host(&known, "four").unwrap_err().code,
        "ALIAS_NOT_FOUND"
    );
    let mut broken = hosts();
    broken[0].address.clear();
    assert!(usable_host(&broken, "one").is_err());
    assert_eq!(concurrency(None), 8);
    assert_eq!(concurrency(Some(0)), 1);
    assert_eq!(concurrency(Some(99)), 16);
    let timed = limits(
        Timeouts {
            connect_timeout_ms: Some(5),
            command_timeout_ms: None,
        },
        Some(7),
    );
    assert_eq!(
        (timed.connect_timeout, timed.command_timeout, timed.total_timeout),
        (Some(5), None, Some(7))
    );
}

#[test]
fn each_action_takes_its_own_way() {
    assert_eq!(
        early_step(&ToolRequest::Capabilities),
        EarlyStep::Capabilities
    );
    assert_eq!(
        early_step(&ToolRequest::AgentIdentities),
        EarlyStep::AgentIdentities
    );
    assert_eq!(
        early_step(&ToolRequest::FidoIdentities),
        EarlyStep::FidoIdentities
    );
    assert_eq!(
        early_step(&ToolRequest::TemporarySecretsOpen { fields: vec![] }),
        EarlyStep::OpenSecrets
    );
    assert_eq!(
        early_step(&ToolRequest::TemporarySecrets {
            session: Id::nil(),
            request: Request::Status
        }),
        EarlyStep::CallSecrets
    );
    assert_eq!(early_step(&exec(None)), EarlyStep::Store);
    let known = hosts();
    let request = ToolRequest::Exec {
        alias: "three".into(),
        command: "cat".into(),
        stdin: Some("x".into()),
        timeouts: NO_TIMEOUTS,
    };
    let Ok(ToolStep::Exec {
        host,
        command,
        stdin,
        ..
    }) = store_step(request, &known)
    else {
        panic!("the host is known");
    };
    assert_eq!(
        (host, command.as_str(), stdin.as_deref()),
        (2, "cat", Some("x"))
    );
    assert!(matches!(
        store_step(
            ToolRequest::Probe {
                alias: "nope".into(),
                timeouts: NO_TIMEOUTS
            },
            &known
        ),
        Err(_)
    ));
}

#[test]
fn failures_and_answers_are_told_apart() {
    let failure = ToolResponse::Failure(RemoteFailure::new("X", "broken"));
    assert!(failure.is_failure());
    let value: serde_json::Value = serde_json::from_str(&failure.json()).unwrap();
    assert_eq!(value["code"], "X");
    assert_eq!(value["status"], "error");
    let remote = ToolResponse::Remote(result("one", "out".into(), String::new()));
    assert!(!remote.is_failure());
    let value: serde_json::Value = serde_json::from_str(&remote.json()).unwrap();
    assert_eq!(value["stdout"], "out");
    assert_eq!(exit_code(false, true), 0);
    assert_ne!(exit_code(true, true), 0);
    assert_ne!(exit_code(false, false), 0);
    for trouble in [
        Trouble::RequestRead,
        Trouble::RequestParse,
        Trouble::StoreRead,
        Trouble::StoreWrite,
    ] {
        assert!(trouble.failure("why").message.contains("why"));
    }
    assert_eq!(
        secrets_window_failure("PLATFORM_UNSUPPORTED").code,
        "PLATFORM_UNSUPPORTED"
    );
    assert_eq!(
        secrets_session_failure("TEMPORARY_SESSION_UNAVAILABLE").code,
        "TEMPORARY_SESSION_UNAVAILABLE"
    );
    assert!(credential_read_failed("locked").message.contains("locked"));
}

#[test]
fn tags_narrow_the_list() {
    let tagged = |alias: &str, tags: &[&str]| HostProfile {
        alias: alias.into(),
        tags: tags.iter().map(|tag| tag.to_string()).collect(),
        ..Default::default()
    };
    let mut store = HostStore::default();
    store.hosts = vec![
        tagged("a", &["prod", "web"]),
        tagged("b", &["Web"]),
        tagged("c", &["prod"]),
    ];
    store.hosts[2].advanced.codex_hidden = true;
    let found = |tags: &[&str]| -> Vec<String> {
        let tags = tags.iter().map(|tag| tag.to_string()).collect();
        list_hosts(&store, &tags, &vec![])
            .hosts
            .iter()
            .map(|host| host.alias.clone())
            .collect()
    };
    assert_eq!(found(&[]), ["a", "b"]);
    assert_eq!(found(&[" "]), ["a", "b"]);
    assert_eq!(found(&[" WEB "]), ["a", "b"]);
    assert_eq!(found(&["prod", "web"]), ["a"]);
    assert!(found(&["web", "unknown"]).is_empty());
}

#[test]
fn listings_are_written_as_json() {
    let mut store = HostStore::default();
    store.hosts = hosts();
    store.hosts[0].auth_persistence = AuthPersistence::Idle { minutes: 5 };
    store.hosts[0].jump_host = Some(store.hosts[1].id);
    let stored = vec![store.hosts[0].id];
    let listed = list_hosts(&store, &vec![], &stored);
    assert!(listed.hosts[0].has_required_secret);
    assert!(!listed.hosts[1].has_required_secret);
    assert_eq!(listed.hosts[0].jump_host.as_deref(), Some("two"));
    let value: serde_json::Value = serde_json::from_str(&listed.json()).unwrap();
    assert_eq!(value["hosts"][0]["alias"], "one");
    assert_eq!(value["hosts"][0]["port"], 22);
    let agents = AgentIdentitiesResult::new(vec![AgentKeyInfo {
        fingerprint: "SHA256:a".into(),
        algorithm: "ssh-ed25519".into(),
        comment: "me@\"pc\"".into(),
        certificate: false,
        public_key: None,
    }]);
    let value: serde_json::Value = serde_json::from_str(&agents.json()).unwrap();
    assert_eq!(value["identities"][0]["comment"], "me@\"pc\"");
    let keys = FidoIdentitiesResult::new(
        true,
        vec![FidoKeyInfo {
            path: "p".into(),
            fingerprint: "f".into(),
            algorithm: "a".into(),
            public_key: "k".into(),
        }],
    );
    let value: serde_json::Value = serde_json::from_str(&keys.json()).unwrap();
    assert_eq!(value["helper_available"], true);
    assert_eq!(value["identities"][0]["path"], "p");
    let value: serde_json::Value = serde_json::from_str(&capabilities_json("1.2.3")).unwrap();
    assert_eq!(value["schema_version"], SCHEMA_VERSION);
    assert!(capabilities_json("1.2.3").contains("\"1.2.3\""));
}

#[test]
fn many_outputs_share_one_budget() {
    let item = |index: usize, text: &str| RemoteCommandResult {
        index,
        status: "ok",
        exit_code: Some(0),
        stdout: text.repeat(1000),
        stderr: String::new(),
        output_truncated: false,
        error_code: None,
        error_message: None,
    };
    let make = || RemoteManyResult {
        status: "ok",
        alias: "one".into(),
        results: vec![item(0, "x"), item(1, "yz")],
        host_fingerprint: None,
        host_key_algorithm: None,
        auth_key_fingerprint: None,
        verified_host_keys: vec![],
    };
    let mut many = make();
    fit_many_result_budget(&mut many, 2000).unwrap();
    assert_eq!(many.results[0].stdout.len(), 1000);
    assert!(many.results[1].stdout.len() < 2000 && many.results[1].output_truncated);
    let mut small = make();
    assert!(fit_many_result_budget(&mut small, 10).is_err());
    assert!(small.results.iter().all(|item| item.stdout.is_empty() && item.output_truncated));
    assert_eq!(small.alias, "one");
    let text = ToolResponse::RemoteMany(many).json();
    assert!(text.len() <= 2000);
    assert!(serde_json::from_str::<serde_json::Value>(&text).is_ok());
}
