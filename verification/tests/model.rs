use codex_hosts::model::{
    can_use_as_jump, chain_retention, find_alias, find_id, normalize_tags, resolve_ssh_chain,
    AdvancedSettings, AuthPersistence, HostFilter, HostProfile, Prefill, Protocol, RemoteEnv,
    Retention, SshAuth, TelnetPrompts, ValidationIssue, MAX_IDLE_PERSISTENCE_MINUTES,
};

fn texts(list: &[&str]) -> Vec<String> {
    list.iter().map(|text| text.to_string()).collect()
}

#[test]
fn telnet_profiles_always_authenticate_per_call() {
    let host = HostProfile {
        protocol: Protocol::Telnet,
        auth_persistence: AuthPersistence::Session,
        ..Default::default()
    };
    assert_eq!(host.effective_auth_persistence(), AuthPersistence::PerCall);
    assert_eq!(chain_retention(&vec![&host]), None);
}

#[test]
fn chain_retention_takes_the_strictest_hop() {
    let session = HostProfile {
        auth_persistence: AuthPersistence::Session,
        ..Default::default()
    };
    let idle = HostProfile {
        auth_persistence: AuthPersistence::Idle { minutes: 5 },
        ..Default::default()
    };
    let per_call = HostProfile::default();
    assert_eq!(chain_retention(&vec![&session]), Some(Retention::Session));
    assert_eq!(
        chain_retention(&vec![&session, &idle]),
        Some(Retention::Idle(300))
    );
    assert_eq!(chain_retention(&vec![&idle, &session, &per_call]), None);
    assert_eq!(
        AuthPersistence::Idle { minutes: 0 }.retention(),
        Some(Retention::Idle(60))
    );
    assert_eq!(
        AuthPersistence::Idle { minutes: 99_999 }.retention(),
        Some(Retention::Idle(u64::from(MAX_IDLE_PERSISTENCE_MINUTES) * 60))
    );
}

#[test]
fn metadata_is_backward_compatible_and_does_not_change_connection_identity() {
    let old = HostProfile {
        alias: "legacy".into(),
        address: "server".into(),
        username: "user".into(),
        verified: true,
        ..Default::default()
    };
    assert!(old.description.is_empty());
    assert!(old.tags.is_empty());
    let mut edited = old.clone();
    edited.description = "  中文备注\nsecond line\n".into();
    edited.tags = normalize_tags(&texts(&[" Prod ", "prod", "", "WEB", "web", "日本語"]));
    assert_eq!(edited.tags, ["Prod", "WEB", "日本語"]);
    assert!(edited.connection_details_equal(&old));
    assert!(edited.verified);
    let restored = edited.clone();
    assert_eq!(restored, edited);
    edited.apply_prefill(&Prefill::default());
    assert_eq!(restored, edited);
    edited.apply_prefill(&Prefill {
        description: Some(String::new()),
        tags: Some(vec![]),
        ..Default::default()
    });
    assert!(edited.description.is_empty() && edited.tags.is_empty());
}

#[test]
fn host_filter_combines_text_and_all_tags() {
    let host = HostProfile {
        alias: "gateway".into(),
        description: "Tokyo 日本語".into(),
        tags: vec!["Prod".into(), "Web".into()],
        ..Default::default()
    };
    assert!(HostFilter::default().matches(&host));
    assert!(HostFilter {
        search: "日本語".into(),
        tags: vec!["prod".into(), " WEB ".into()]
    }
    .matches(&host));
    assert!(!HostFilter {
        search: String::new(),
        tags: vec!["prod".into(), "db".into()]
    }
    .matches(&host));
    assert!(!HostFilter {
        search: "absent".into(),
        tags: vec![]
    }
    .matches(&host));
}

fn verified_ssh(alias: &str) -> HostProfile {
    HostProfile {
        alias: alias.to_owned(),
        address: "127.0.0.1".to_owned(),
        username: "tester".to_owned(),
        verified: true,
        ..HostProfile::default()
    }
}

#[test]
fn resolves_nested_jump_hosts_in_connection_order() {
    let first = verified_ssh("first");
    let mut second = verified_ssh("second");
    second.jump_host = Some(first.id);
    let mut target = verified_ssh("target");
    target.jump_host = Some(second.id);
    let hosts = vec![first, second, target.clone()];
    let aliases = resolve_ssh_chain(&target, &hosts)
        .unwrap()
        .into_iter()
        .map(|host| host.alias.as_str())
        .collect::<Vec<_>>();
    assert_eq!(aliases, ["first", "second", "target"]);
}

#[test]
fn rejects_jump_host_cycles() {
    let mut first = verified_ssh("first");
    let mut second = verified_ssh("second");
    first.jump_host = Some(second.id);
    second.jump_host = Some(first.id);
    let hosts = vec![first.clone(), second];
    assert_eq!(
        resolve_ssh_chain(&first, &hosts),
        Err(ValidationIssue::Chain)
    );
}

#[test]
fn a_bare_profile_has_safe_agent_and_host_key_defaults() {
    let profile = HostProfile {
        alias: "legacy".into(),
        address: "127.0.0.1".into(),
        username: "tester".into(),
        ..Default::default()
    };
    assert_eq!(profile.ssh_auth, SshAuth::Password);
    assert!(profile.agent_key_fingerprint.is_empty());
    assert!(profile.host_key_algorithm.is_none());
    assert!(profile.host_key_first_seen_unix.is_none());
    assert!(profile.host_key_last_verified_unix.is_none());
}

#[test]
fn each_fault_of_a_profile_is_named() {
    let sound = verified_ssh("box");
    assert_eq!(sound.validation_issue(), None);
    let faulty = |change: fn(&mut HostProfile)| {
        let mut host = verified_ssh("box");
        change(&mut host);
        host.validation_issue()
    };
    assert_eq!(
        faulty(|host| host.alias = " ".into()),
        Some(ValidationIssue::Alias)
    );
    assert_eq!(
        faulty(|host| host.address.clear()),
        Some(ValidationIssue::Address)
    );
    assert_eq!(
        faulty(|host| host.username = "\t".into()),
        Some(ValidationIssue::Username)
    );
    assert_eq!(faulty(|host| host.port = 0), Some(ValidationIssue::Port));
    assert_eq!(
        faulty(|host| host.ssh_auth = SshAuth::PrivateKey),
        Some(ValidationIssue::PrivateKey)
    );
    assert_eq!(
        faulty(|host| {
            host.protocol = Protocol::Telnet;
            host.jump_host = Some(host.id);
        }),
        Some(ValidationIssue::TelnetChain)
    );
    assert_eq!(
        faulty(|host| host.auth_persistence = AuthPersistence::Idle { minutes: 0 }),
        Some(ValidationIssue::AuthPersistence)
    );
    assert_eq!(
        faulty(|host| host.advanced.max_channels = Some(0)),
        Some(ValidationIssue::Advanced)
    );
    assert_eq!(ValidationIssue::Alias.translation_key(), "validation_alias");
}

#[test]
fn aliases_are_found_without_regard_to_case_and_blanks() {
    let hosts = vec![verified_ssh("web-1"), verified_ssh("WEB-1")];
    assert_eq!(find_alias(&hosts, " Web-1 ").unwrap().id, hosts[0].id);
    assert!(find_alias(&hosts, "web-2").is_none());
    assert_eq!(find_id(&hosts, hosts[1].id), Some(1));
}

#[test]
fn only_verified_ssh_hosts_serve_as_jump_hosts() {
    let jump = verified_ssh("jump");
    let target = verified_ssh("target");
    let mut unverified = verified_ssh("new");
    unverified.verified = false;
    let hosts = vec![jump.clone(), target.clone(), unverified.clone()];
    assert!(can_use_as_jump(&jump, &target, &hosts));
    assert!(!can_use_as_jump(&unverified, &target, &hosts));
    assert!(!can_use_as_jump(&target, &target, &hosts));
    let mut looping = jump.clone();
    looping.jump_host = Some(target.id);
    let hosts = vec![looping.clone(), target.clone()];
    assert!(!can_use_as_jump(&looping, &target, &hosts));
}

#[test]
fn a_new_protocol_brings_its_port_unless_one_is_given() {
    let mut host = verified_ssh("box");
    host.apply_prefill(&Prefill {
        protocol: Some(Protocol::Telnet),
        ..Default::default()
    });
    assert_eq!(host.port, 23);
    host.apply_prefill(&Prefill {
        protocol: Some(Protocol::Ssh),
        port: Some(2222),
        ..Default::default()
    });
    assert_eq!((host.protocol, host.port), (Protocol::Ssh, 2222));
}

#[test]
fn connection_identity_is_symmetric_and_ignores_blanks() {
    let host = verified_ssh("box");
    let mut padded = host.clone();
    padded.address = " 127.0.0.1 ".into();
    assert!(host.connection_details_equal(&padded));
    assert!(padded.connection_details_equal(&host));
    padded.port = 23;
    assert!(!host.connection_details_equal(&padded));
    assert!(!padded.connection_details_equal(&host));
}

#[test]
fn normal_tags_stay_as_they_are() {
    let tags = texts(&["Prod", "WEB", "日本語"]);
    assert_eq!(normalize_tags(&tags), tags);
}

#[test]
fn tuning_falls_back_to_the_usual_values() {
    let plain = AdvancedSettings::default();
    assert!(plain.is_default());
    assert_eq!(plain.max_channels(), 8);
    assert_eq!(plain.remote_env, RemoteEnv::Auto);
    let tuned = AdvancedSettings {
        telnet_prompts: Some(TelnetPrompts::default()),
        ..AdvancedSettings::default()
    };
    assert!(!tuned.is_default());
}

#[test]
fn issues_have_a_label_and_a_translation_key() {
    assert_eq!(ValidationIssue::Port.tool_label(), "port is 0");
    assert_eq!(
        ValidationIssue::TelnetChain.tool_label(),
        "a Telnet host cannot use a jump host"
    );
    assert_eq!(ValidationIssue::Port.translation_key(), "validation_port");
}
