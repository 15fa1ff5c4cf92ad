use codex_hosts::args::{parse_args, LaunchMode, LaunchOptions};
use codex_hosts::id::Id;
use codex_hosts::model::{Protocol, SshAuth};

#[test]
fn fido_handle_cli_alias_selects_direct_key_file_route() {
    let mode = parse_args(vec!["--auth".to_owned(), "fido-handle".to_owned()]).unwrap();
    let LaunchMode::Gui(options) = mode else {
        panic!("expected GUI launch mode");
    };
    assert_eq!(options.prefill.ssh_auth, Some(SshAuth::PrivateKey));
}

#[test]
fn invalid_authentication_error_explains_agent_and_direct_fido_routes() {
    let error = parse_args(vec!["--auth".to_owned(), "hardware-key".to_owned()])
        .err()
        .expect("invalid authentication must fail");
    assert!(error.contains("fido-handle"));
    assert!(error.contains("SSH Agent/Pageant"));
}

#[test]
fn temporary_mode_accepts_only_an_opaque_uuid() {
    let id = Id::new_v4();
    assert!(
        matches!(parse_args(vec!["--temporary-secrets".into(), id.text()]).unwrap(), LaunchMode::TemporarySecrets(value) if value == id)
    );
    assert!(parse_args(vec!["--temporary-secrets".into(), "not-a-session".into()]).is_err());
    assert!(parse_args(vec![
        "--temporary-secrets".into(),
        id.text(),
        "--secret".into(),
        "not-accepted".into()
    ])
    .is_err());
}

fn words(list: &[&str]) -> Vec<String> {
    list.iter().map(|text| text.to_string()).collect()
}

#[test]
fn every_flag_fills_in_its_field() {
    let mode = parse_args(words(&[
        "--codex-edit",
        "--alias",
        "web",
        "--host",
        "10.0.0.1",
        "--port",
        "2222",
        "--user",
        "root",
        "--protocol",
        "telnet",
        "--result-file",
        "out.json",
        "--tag",
        "prod",
    ]))
    .unwrap();
    let LaunchMode::Gui(options) = mode else {
        panic!("expected GUI launch mode");
    };
    assert!(options.codex_edit);
    assert_eq!(options.prefill.alias.as_deref(), Some("web"));
    assert_eq!(options.prefill.address.as_deref(), Some("10.0.0.1"));
    assert_eq!(options.prefill.port, Some(2222));
    assert_eq!(options.prefill.username.as_deref(), Some("root"));
    assert_eq!(options.prefill.protocol, Some(Protocol::Telnet));
    assert_eq!(options.result_path.as_deref(), Some("out.json"));
    assert_eq!(options.prefill.tags, Some(vec!["prod".to_owned()]));
}

#[test]
fn unknown_or_incomplete_flags_are_refused() {
    assert!(parse_args(words(&["--unknown"])).is_err());
    assert!(parse_args(words(&["--alias"])).is_err());
    assert!(parse_args(words(&["--port", "70000"])).is_err());
    assert!(parse_args(words(&["--protocol", "rsh"])).is_err());
    assert!(matches!(
        parse_args(words(&["--version"])),
        Ok(LaunchMode::Version)
    ));
    assert!(matches!(parse_args(words(&["--mcp"])), Ok(LaunchMode::Mcp)));
}

#[test]
fn a_prefill_alone_opens_no_editor_for_someone_else() {
    let LaunchMode::Gui(parsed) = parse_args(words(&["--alias", "box"])).unwrap() else {
        panic!("expected GUI launch mode");
    };
    let options = LaunchOptions::from_prefill(parsed.prefill);
    assert_eq!(options.prefill.alias.as_deref(), Some("box"));
    assert!(!options.codex_edit && !options.show_temporary);
    assert_eq!(options.result_path, None);
    assert_eq!(options.observed_fingerprint, None);
}
