use codex_hosts::model::{HostProfile, TelnetPrompts};
use codex_hosts::secret::Secret;
use codex_hosts::telnet::{
    check_login_failure, extract_output, login_prompts, request_line, telnet_result, TelnetEvent,
    TelnetOutcome, TelnetParser, TelnetSession, BEGIN_MARKER, BEGIN_MARKER_SOURCE, DO, DONT,
    END_MARKER, END_MARKER_SOURCE, IAC, SB, SE, WILL, WONT,
};

#[test]
fn output_is_taken_between_the_printed_markers_even_when_input_is_echoed() {
    let echoed = format!(
        "$ echo {BEGIN_MARKER_SOURCE}\r\nuname\r\necho {END_MARKER_SOURCE}\r\n{BEGIN_MARKER}\r\nLinux\r\n{END_MARKER}\r\n$ "
    );
    assert_eq!(extract_output(&echoed), "Linux");
    assert!(!echoed.contains(&format!("echo {BEGIN_MARKER}")));
    let silent = format!("device> {BEGIN_MARKER}\r\nhi\r\n{END_MARKER}\r\ndevice> ");
    assert_eq!(extract_output(&silent), "hi");
    assert_eq!(
        request_line("uname -s  "),
        format!("echo {BEGIN_MARKER_SOURCE}; uname -s; echo {END_MARKER_SOURCE}\r\n")
    );
    assert!(request_line("sleep 1 &").starts_with(&format!("echo {BEGIN_MARKER_SOURCE}\r\n")));
    assert!(request_line("a\nb").contains("\r\na\nb\r\n"));
}

#[test]
fn profile_prompts_override_defaults_only_when_filled() {
    let mut profile = HostProfile::default();
    let defaults = login_prompts(&profile);
    assert_eq!(defaults.login, ["login:", "username:", "user:"]);
    assert_eq!(defaults.password, ["password:"]);
    profile.advanced.telnet_prompts = Some(TelnetPrompts {
        login: " Username: ".into(),
        password: String::new(),
    });
    let custom = login_prompts(&profile);
    assert_eq!(custom.login, ["Username:"]);
    assert_eq!(custom.password, ["password:"]);
}

#[test]
fn strips_telnet_negotiation_and_refuses_options() {
    let mut parser = TelnetParser::default();
    let parsed = parser.consume(&[b'h', b'i', IAC, WILL, 1, b'!']);
    assert_eq!(parsed.data, b"hi!");
    assert_eq!(parsed.replies, [IAC, DONT, 1]);
}

#[test]
fn parser_preserves_state_between_network_reads() {
    let mut parser = TelnetParser::default();
    assert!(parser.consume(&[IAC, DO]).data.is_empty());
    assert_eq!(parser.consume(&[3]).replies, [IAC, WONT, 3]);
}

#[test]
fn reads_may_be_cut_at_every_byte() {
    let stream = [
        b'a', IAC, IAC, b'b', IAC, SB, 24, 1, IAC, IAC, IAC, SE, IAC, DO, 1, IAC, WONT, 2, b'c',
    ];
    let whole = TelnetParser::default().consume(&stream);
    for cut in 0..=stream.len() {
        let mut parser = TelnetParser::default();
        let first = parser.consume(&stream[..cut]);
        let second = parser.consume(&stream[cut..]);
        assert_eq!([first.data, second.data].concat(), whole.data);
        assert_eq!([first.replies, second.replies].concat(), whole.replies);
    }
    assert_eq!(whole.data, [b'a', 255, b'b', b'c']);
}

fn text_of(step: TelnetOutcome) -> String {
    match step {
        TelnetOutcome::Type { text, .. } => text,
        _ => panic!("something must be typed"),
    }
}

#[test]
fn a_session_logs_in_and_returns_the_output() {
    let prompts = login_prompts(&HostProfile::default());
    let mut session =
        TelnetSession::start("root".into(), Secret::new("pw".into()), "uname".into(), prompts);
    let typed = session.step(TelnetEvent::Bytes(b"Debian\r\nlogin: ".to_vec()));
    assert_eq!(text_of(typed.outcome), "root\r\n");
    let typed = session.step(TelnetEvent::Bytes(b"Password: ".to_vec()));
    assert_eq!(text_of(typed.outcome), "pw\r\n");
    assert!(matches!(
        session.step(TelnetEvent::Bytes(b"$ ".to_vec())).outcome,
        TelnetOutcome::Read { .. }
    ));
    let typed = session.step(TelnetEvent::Quiet);
    assert_eq!(text_of(typed.outcome), request_line("uname"));
    let answer = format!("{BEGIN_MARKER}\r\nLinux\r\n{END_MARKER}\r\n$ ");
    let TelnetOutcome::Done(output) = session
        .step(TelnetEvent::Bytes(answer.into_bytes()))
        .outcome
    else {
        panic!("the output is complete");
    };
    assert_eq!(output, "Linux");
    let result = telnet_result(&HostProfile::new("box".into()), output);
    assert_eq!((result.alias.as_str(), result.stdout.as_str()), ("box", "Linux"));
}

#[test]
fn refused_logins_and_lost_connections_fail() {
    assert!(check_login_failure(b"$ ").is_ok());
    assert!(check_login_failure(b"Login incorrect").is_err());
    let prompts = login_prompts(&HostProfile::default());
    let mut session =
        TelnetSession::start("root".into(), Secret::new("pw".into()), "uname".into(), prompts);
    assert!(matches!(
        session.step(TelnetEvent::Closed).outcome,
        TelnetOutcome::Fail(_)
    ));
}
