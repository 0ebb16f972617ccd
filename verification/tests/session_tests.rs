use gukab::config::{Expect, Macro};
use gukab::session::{
    baud_notice, build_automations, build_single_automation, classify_stdin, macro_payload, notice,
    response_payload, run_macro, scan_output, skipped_notice, SshError, StdinAction,
};

#[test]
fn macro_payload_sends_each_nonempty_line_with_cr() {
    assert_eq!(macro_payload("enable"), "enable\r");
    assert_eq!(macro_payload("a\n\nb\n"), "a\rb\r");
}

#[test]
fn macro_payload_strips_crlf_line_endings() {
    assert_eq!(macro_payload("conf t\r\nint gi0/1\r\n"), "conf t\rint gi0/1\r");
    assert_eq!(macro_payload(""), "");
}

fn expect(pattern: &str, send: Option<&str>, cred: Option<&str>) -> Expect {
    Expect {
        pattern: pattern.into(),
        send: send.map(|s| s.to_string()),
        send_credential: cred.map(|s| s.to_string()),
        once: true,
    }
}

#[test]
fn build_single_automation_enforces_exactly_one_target() {
    let both = expect("x", Some("a"), Some("b"));
    assert!(build_single_automation(&both).is_err());
    let neither = expect("x", None, None);
    assert!(build_single_automation(&neither).is_err());
    let bad_regex = expect("[", Some("a"), None);
    assert!(build_single_automation(&bad_regex).is_err());
}

#[test]
fn automation_errors_name_the_rule() {
    match build_single_automation(&expect("x", Some("a"), Some("b"))) {
        Err(SshError::Automation(m)) => {
            assert_eq!(m, "expect `x` sets both `send` and `send_credential`")
        }
        _ => panic!("expected an automation error"),
    }
    match build_single_automation(&expect("x", None, None)) {
        Err(SshError::Automation(m)) => {
            assert_eq!(m, "expect `x` has neither `send` nor `send_credential`")
        }
        _ => panic!("expected an automation error"),
    }
    match build_single_automation(&expect("[", Some("a"), None)) {
        Err(SshError::Automation(m)) => assert!(m.starts_with("invalid regex `[`: ")),
        _ => panic!("expected an automation error"),
    }
}

#[test]
fn expect_rule_fires_once_and_clears_the_buffer() {
    let mut autos = build_automations(&vec![expect("[Pp]assword:", Some("hunter2"), None)])
        .ok()
        .unwrap();
    let mut scan = String::new();
    assert_eq!(scan_output(b"Username: admin\r\nPassword:", &mut scan, &autos), Some(0));
    assert_eq!(scan, "");
    autos[0].record_delivery(true);
    assert!(autos[0].fired);
    // Everything fired: nothing is scanned any more.
    assert_eq!(scan_output(b"Password:", &mut scan, &autos), None);
    assert_eq!(scan, "");
}

#[test]
fn scan_buffer_keeps_the_tail() {
    let autos = build_automations(&vec![expect("never-there", Some("x"), None)]).ok().unwrap();
    let mut scan = String::new();
    let big = vec![b'a'; 9000];
    assert_eq!(scan_output(&big, &mut scan, &autos), None);
    assert_eq!(scan.len(), 8192);
    // A multi-byte char is never split.
    let mut scan2 = "é".repeat(4096);
    assert_eq!(scan_output(b"x", &mut scan2, &autos), None);
    assert!(scan2.len() <= 8192);
    assert!(scan2.ends_with('x'));
}

#[test]
fn escape_prefix_classification() {
    match classify_stdin(b"ls\n") {
        StdinAction::Forward(v) => assert_eq!(v, b"ls\n"),
        _ => panic!("plain bytes are forwarded"),
    }
    match classify_stdin(b"ab\x01\x01cd") {
        StdinAction::Literal { before, after } => {
            assert_eq!(before, b"ab");
            assert_eq!(after, b"cd");
        }
        _ => panic!("a doubled prefix is literal"),
    }
    match classify_stdin(b"x\x01en") {
        StdinAction::Picker { before, seed } => {
            assert_eq!(before, b"x");
            assert_eq!(seed, b"en");
        }
        _ => panic!("a single prefix opens the picker"),
    }
}

#[test]
fn session_notices_and_payloads() {
    assert_eq!(notice("hi"), "\r\n[gukab] hi\r\n");
    assert_eq!(baud_notice(115200), "\r\n[gukab] baud → 115200\r\n");
    assert_eq!(
        skipped_notice(&SshError::Keyring("no entry".into())),
        "\r\n[gukab] automation skipped (Keyring error: no entry); answer the prompt manually.\r\n"
    );
    assert_eq!(response_payload("hunter2"), "hunter2\n");
}

#[test]
fn running_a_macro_arms_its_rules() {
    let macros = vec![Macro {
        key: "en".into(),
        send: "enable".into(),
        expects: vec![expect("[Pp]assword:", None, Some("enable-pw")), expect("(", Some("x"), None)],
    }];
    let mut autos = Vec::new();
    assert_eq!(run_macro(&macros, "en", &mut autos).as_deref(), Some("enable\r"));
    assert_eq!(autos.len(), 1);
    assert!(!autos[0].fired);
    assert_eq!(autos[0].re.pattern(), "[Pp]assword:");
    assert!(run_macro(&macros, "nope", &mut autos).is_none());
    assert_eq!(autos.len(), 1);
}

#[test]
fn undelivered_response_disarms_the_rule() {
    let mut autos = build_automations(&vec![Expect {
        pattern: "Password:".into(),
        send: None,
        send_credential: Some("missing".into()),
        once: false,
    }])
    .ok()
    .unwrap();
    let mut scan = String::new();
    assert_eq!(scan_output(b"Password:", &mut scan, &autos), Some(0));
    autos[0].record_delivery(false);
    assert!(autos[0].fired);
    assert_eq!(scan_output(b"Password:", &mut scan, &autos), None);
}

#[test]
fn repeating_rule_stays_armed() {
    let mut autos = build_automations(&vec![Expect {
        pattern: "--More--".into(),
        send: Some(" ".into()),
        send_credential: None,
        once: false,
    }])
    .ok()
    .unwrap();
    let mut scan = String::new();
    assert_eq!(scan_output(b"line\n--More--", &mut scan, &autos), Some(0));
    autos[0].record_delivery(true);
    assert!(!autos[0].fired);
    assert_eq!(scan_output(b"more\n--More--", &mut scan, &autos), Some(0));
}
