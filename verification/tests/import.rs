use codex_hosts::credentials::CredentialKind;
use codex_hosts::actions::import_secrets;
use codex_hosts::csv::{read_rows, write_rows};
use codex_hosts::import::{
    parse_template, imported_credential, template_bytes, HostImportTemplate, ImportError,
    ImportHost, ImportedHost,
};
use codex_hosts::model::{AuthPersistence, HostProfile, Protocol, SshAuth};
use codex_hosts::secret::Secret;
use codex_hosts::sheet::{csv_template, export_bytes, parse_csv, selected_export_bytes};

fn host(alias: &str, jump: Option<&str>) -> ImportHost {
    ImportHost {
        alias: alias.to_owned(),
        address: "10.0.0.1".to_owned(),
        port: None,
        username: "root".to_owned(),
        protocol: Protocol::Ssh,
        ssh_auth: SshAuth::Password,
        private_key_path: String::new(),
        jump_host: jump.map(str::to_owned),
        description: String::new(),
        tags: vec![],
    }
}

fn template(hosts: Vec<ImportHost>) -> HostImportTemplate {
    HostImportTemplate { version: 1, hosts }
}

#[test]
fn imports_hosts_with_fresh_ids_and_resolved_jump_aliases() {
    let hosts = parse_template(
        template(vec![host("jump", None), host("target", Some("jump"))]),
        &[],
    )
    .unwrap();
    assert_eq!(hosts.len(), 2);
    assert_eq!(hosts[1].jump_host, Some(hosts[0].id));
    assert!(!hosts[0].verified);
    assert!(hosts[0].host_fingerprint.is_none());
}

#[test]
fn rejects_existing_aliases_without_partial_import() {
    let existing = HostProfile::new("server".to_owned());
    assert!(matches!(
        parse_template(template(vec![host("SERVER", None)]), &[existing]),
        Err(ImportError::DuplicateAlias(_))
    ));
}

#[test]
fn rejects_unknown_jump_aliases() {
    assert!(matches!(
        parse_template(template(vec![host("server", Some("missing"))]), &[]),
        Err(ImportError::UnknownJump { .. })
    ));
}

fn credential(host: &ImportedHost) -> Option<(CredentialKind, String)> {
    imported_credential(host).map(|(kind, secret)| (kind, secret.as_str().to_owned()))
}

#[test]
fn imported_credentials_follow_the_selected_authentication_method() {
    let password_host = ImportedHost {
        profile: HostProfile::default(),
        password: Secret::new("example-password".to_owned()),
        key_passphrase: Secret::new("ignored-passphrase".to_owned()),
    };
    assert_eq!(
        credential(&password_host),
        Some((CredentialKind::Password, "example-password".to_owned()))
    );

    let key_host = ImportedHost {
        profile: HostProfile {
            ssh_auth: SshAuth::PrivateKey,
            ..HostProfile::default()
        },
        password: Secret::new("ignored-password".to_owned()),
        key_passphrase: Secret::new("example-passphrase".to_owned()),
    };
    assert_eq!(
        credential(&key_host),
        Some((
            CredentialKind::KeyPassphrase,
            "example-passphrase".to_owned()
        ))
    );

    let agent_host = ImportedHost {
        profile: HostProfile {
            ssh_auth: SshAuth::SshAgent,
            ..HostProfile::default()
        },
        password: Secret::new("ignored-password".to_owned()),
        key_passphrase: Secret::new("ignored-passphrase".to_owned()),
    };
    assert_eq!(credential(&agent_host), None);

    let id = key_host.profile.id;
    let writes = import_secrets(&vec![agent_host, key_host]);
    assert_eq!(writes.len(), 1);
    assert_eq!(writes[0].id, id);
    assert_eq!(writes[0].secret.as_str(), "example-passphrase");
}

#[test]
fn each_fault_of_a_template_is_reported() {
    let mut other = template(vec![host("a", None)]);
    other.version = 2;
    assert_eq!(parse_template(other, &[]), Err(ImportError::Version(2)));
    assert_eq!(parse_template(template(vec![]), &[]), Err(ImportError::Empty));
    assert_eq!(
        parse_template(template(vec![host(" ", None)]), &[]),
        Err(ImportError::EmptyAlias)
    );
    let mut blank = host("a", None);
    blank.address = String::new();
    assert!(matches!(
        parse_template(template(vec![blank]), &[]),
        Err(ImportError::InvalidHost { .. })
    ));
    assert_eq!(
        parse_template(
            template(vec![host("a", Some("b")), host("b", Some("a"))]),
            &[]
        ),
        Err(ImportError::InvalidChain("a".to_owned()))
    );
    assert!(!ImportError::Empty.text().is_empty());
    let parsed: serde_json::Value = serde_json::from_str(&template_bytes()).unwrap();
    assert_eq!(parsed["version"], 1);
}

fn rows(list: &[&[&str]]) -> Vec<Vec<String>> {
    list.iter()
        .map(|row| row.iter().map(|cell| (*cell).to_owned()).collect())
        .collect()
}

#[test]
fn tables_read_back() {
    let table = rows(&[&["a", "b\"c"], &["", "x,y\r\nz"]]);
    let text = write_rows(&table);
    assert_eq!(text, "\"a\",\"b\"\"c\"\r\n\"\",\"x,y\r\nz\"\r\n");
    assert_eq!(read_rows(&text), Some(table));
    assert_eq!(
        read_rows("a,b\n\nc,\"d\"\n"),
        Some(rows(&[&["a", "b"], &["c", "d"]]))
    );
    assert_eq!(read_rows(""), Some(vec![]));
    assert_eq!(read_rows("a,\"b"), None);
}

#[test]
fn a_csv_file_brings_descriptions_and_tags() {
    let file = "alias,address,username,description,tags\r\n\
        web,10.0.0.1,root,notes,\"[\"\"prod\"\",\"\"web\"\"]\"\r\n";
    let batch = parse_csv(file.as_bytes(), &[]).unwrap();
    assert_eq!(batch.hosts.len(), 1);
    assert!(!batch.contains_sensitive_values);
    let host = &batch.hosts[0].profile;
    assert_eq!(host.alias, "web");
    assert_eq!(host.description, "notes");
    assert_eq!(host.tags, ["prod", "web"]);
    assert_eq!(host.port, 22);
    assert_eq!(host.auth_persistence, AuthPersistence::PerCall);
}

#[test]
fn a_csv_file_without_descriptions_and_tags_is_accepted() {
    let file = "\u{feff}alias,address,port,username,protocol,ssh_auth,private_key_path,jump_host\n\
        jump,10.0.0.1,,root,,,,\n\
        target,10.0.0.2,2222,root,ssh,private_key,C:\\keys\\id,jump\n\
        old,10.0.0.3,,root,telnet,,,\n";
    let batch = parse_csv(file.as_bytes(), &[]).unwrap();
    let hosts: Vec<&HostProfile> = batch.hosts.iter().map(|host| &host.profile).collect();
    assert_eq!(hosts.len(), 3);
    assert!(hosts.iter().all(|host| host.description.is_empty() && host.tags.is_empty()));
    assert_eq!(hosts[1].jump_host, Some(hosts[0].id));
    assert_eq!(hosts[1].port, 2222);
    assert_eq!(hosts[1].ssh_auth, SshAuth::PrivateKey);
    assert_eq!(hosts[2].port, 23);
}

#[test]
fn secrets_of_a_csv_file_are_told_apart() {
    let file = "alias,address,username,password,key_passphrase\n\
        one,10.0.0.1,root,,\n\
        two,10.0.0.2,root,example-password,\n";
    let batch = parse_csv(file.as_bytes(), &[]).unwrap();
    assert!(batch.contains_sensitive_values);
    assert!(batch.hosts[0].password.is_empty());
    assert_eq!(batch.hosts[1].password.as_str(), "example-password");
    let writes = import_secrets(&batch.hosts);
    assert_eq!(writes.len(), 1);
    assert_eq!(writes[0].id, batch.hosts[1].profile.id);
    assert_eq!(writes[0].kind, CredentialKind::Password);
}

#[test]
fn each_fault_of_a_csv_file_is_reported() {
    let fault = |text: &str| parse_csv(text.as_bytes(), &[]).err();
    assert_eq!(parse_csv(&[0xff], &[]).err(), Some(ImportError::Encoding));
    assert_eq!(fault("\"alias"), Some(ImportError::Table));
    let at = |row: usize, reason: &'static str| Some(ImportError::Row { row, reason });
    let needed = "the columns alias, address and username are needed";
    assert_eq!(fault(""), at(1, needed));
    assert_eq!(fault("alias,address\n"), at(1, needed));
    assert_eq!(
        fault("alias,address,username,color\n"),
        at(1, "a column is unknown")
    );
    assert_eq!(
        fault("alias,address,username,alias\n"),
        at(1, "a column stands twice")
    );
    let head = "alias,address,username,port,protocol,ssh_auth,tags\na,b,c,,,,\n";
    let second = |row: &str| fault(&format!("{head}{row}\n"));
    assert_eq!(
        second("x,y"),
        at(3, "it has another number of cells than the header")
    );
    assert_eq!(
        second("x,y,z,65536,,,"),
        at(3, "the port is not a number up to 65535")
    );
    assert_eq!(
        second("x,y,z,,ftp,,"),
        at(3, "the protocol is neither ssh nor telnet")
    );
    assert_eq!(
        second("x,y,z,,,magic,"),
        at(3, "the way of logging in is unknown")
    );
    assert_eq!(
        second("x,y,z,,,,prod"),
        at(3, "the tags are not a JSON array of texts")
    );
    assert_eq!(second("A,y,z,,,,"), Some(ImportError::DuplicateAlias("A".to_owned())));
    assert_eq!(fault("alias,address,username\n"), Some(ImportError::Empty));
    assert!(ImportError::Encoding.text() != ImportError::Table.text());
    assert!(second("x,y").unwrap().text().contains('3'));
}

#[test]
fn exported_hosts_can_be_imported_again() {
    let jump = HostProfile {
        alias: "jump".to_owned(),
        address: "10.0.0.1".to_owned(),
        username: "root".to_owned(),
        description: "first line\nsecond, \"quoted\"".to_owned(),
        tags: vec!["prod".to_owned(), "a\"b".to_owned()],
        verified: true,
        ..HostProfile::default()
    };
    let target = HostProfile {
        alias: "target".to_owned(),
        address: "10.0.0.2".to_owned(),
        port: 2222,
        username: "operator".to_owned(),
        ssh_auth: SshAuth::SshAgent,
        jump_host: Some(jump.id),
        ..HostProfile::default()
    };
    let hosts = vec![jump, target];
    let text = export_bytes(&hosts, &hosts);
    assert!(!text.contains("key_passphrase"));
    let batch = parse_csv(text.as_bytes(), &[]).unwrap();
    let read: Vec<&HostProfile> = batch.hosts.iter().map(|host| &host.profile).collect();
    assert_eq!(read.len(), 2);
    assert_eq!(read[0].description, hosts[0].description);
    assert_eq!(read[0].tags, hosts[0].tags);
    assert!(!read[0].verified);
    assert_eq!(read[1].port, 2222);
    assert_eq!(read[1].ssh_auth, SshAuth::SshAgent);
    assert_eq!(read[1].jump_host, Some(read[0].id));

    let some = selected_export_bytes(&hosts, &vec![hosts[1].id]);
    let table = read_rows(&some).unwrap();
    assert_eq!(table.len(), 2);
    assert_eq!(
        table[1],
        ["target", "10.0.0.2", "2222", "operator", "ssh", "ssh_agent", "", "jump", "", "[]"]
    );
    assert!(matches!(
        parse_csv(some.as_bytes(), &[]),
        Err(ImportError::UnknownJump { .. })
    ));
}

#[test]
fn the_csv_template_is_a_file_that_can_be_imported() {
    let batch = parse_csv(csv_template().as_bytes(), &[]).unwrap();
    assert_eq!(batch.hosts.len(), 1);
    assert_eq!(batch.hosts[0].profile.alias, "example");
    assert_eq!(batch.hosts[0].profile.tags, ["prod", "web"]);
    assert!(!batch.contains_sensitive_values);
}
