use gukab::config::{Expect, Host, Macro};
use gukab::connect::{
    auth_order, host_id, key_load_error, key_mode_warning, key_not_found, key_passphrase, on_connect_steps,
    prompt_answer, secret_ref, session_expects, session_log_label, session_macros, AuthMethod, OnConnect,
};
use gukab::session::SshError;

fn expect(pattern: &str) -> Expect {
    Expect { pattern: pattern.into(), send: Some("x".into()), send_credential: None, once: true }
}

fn host() -> Host {
    let mut h = Host::default();
    h.name = "core".into();
    h.hostname = "192.0.2.1".into();
    h.username = "admin".into();
    h.macros = vec![Macro { key: "own".into(), send: "show ver".into(), expects: vec![] }];
    h.expects = vec![expect("host-rule")];
    h.on_connect = vec!["en".into(), "nope".into(), "blank".into()];
    h
}

fn global() -> Vec<Macro> {
    vec![
        Macro { key: "en".into(), send: "enable".into(), expects: vec![expect("[Pp]assword:")] },
        Macro { key: "blank".into(), send: "\n\n".into(), expects: vec![] },
    ]
}

#[test]
fn identity_in_the_key_store() {
    assert_eq!(host_id("192.0.2.1", 22), "192.0.2.1:22");
    assert_eq!(host_id("sw", 2222), "sw:2222");
}

#[test]
fn session_macros_and_rules() {
    let h = host();
    let ms = session_macros(&global(), &h);
    let keys: Vec<&str> = ms.iter().map(|m| m.key.as_str()).collect();
    assert_eq!(keys, ["en", "blank", "own"]);
    let es = session_expects(&ms, &h);
    let pats: Vec<&str> = es.iter().map(|e| e.pattern.as_str()).collect();
    assert_eq!(pats, ["host-rule", "[Pp]assword:"]);
}

#[test]
fn on_connect_sends_known_macros_and_reports_unknown_ones() {
    let h = host();
    let ms = session_macros(&global(), &h);
    let steps = on_connect_steps(&ms, &h);
    assert_eq!(steps.len(), 2);
    assert!(matches!(&steps[0], OnConnect::Send(p) if p == "enable\r"));
    assert!(matches!(&steps[1], OnConnect::Unknown(k) if k == "nope"));
}

#[test]
fn log_label_falls_back_to_the_address() {
    let mut h = host();
    assert_eq!(session_log_label(&h), "core");
    h.name = "   ".into();
    assert_eq!(session_log_label(&h), "192.0.2.1");
}

#[test]
fn secrets_and_passphrases() {
    let mut h = host();
    assert!(secret_ref(&h).is_none());
    h.credential_ref = "core-pw".into();
    assert_eq!(secret_ref(&h).as_deref(), Some("core-pw"));
    assert_eq!(key_passphrase(&Some("pp".into())).as_deref(), Some("pp"));
    assert!(key_passphrase(&Some(String::new())).is_none());
    assert!(key_passphrase(&None).is_none());
}

#[test]
fn authentication_order() {
    assert_eq!(auth_order(true, true), vec![AuthMethod::PublicKey, AuthMethod::Password, AuthMethod::KeyboardInteractive, AuthMethod::NoAuth]);
    assert_eq!(auth_order(false, true), vec![AuthMethod::Password, AuthMethod::KeyboardInteractive, AuthMethod::NoAuth]);
    assert_eq!(auth_order(true, false), vec![AuthMethod::PublicKey, AuthMethod::NoAuth]);
    assert_eq!(auth_order(false, false), vec![AuthMethod::NoAuth]);
}

#[test]
fn keyboard_interactive_answers() {
    assert_eq!(prompt_answer("Username:", "admin", "pw"), "admin");
    assert_eq!(prompt_answer("LOGIN: ", "admin", "pw"), "admin");
    assert_eq!(prompt_answer("Password:", "admin", "pw"), "pw");
    assert_eq!(prompt_answer("", "admin", "pw"), "pw");
}

#[test]
fn key_file_messages() {
    assert!(key_mode_warning("/k", 0o100600).is_none());
    assert_eq!(
        key_mode_warning("/k", 0o100644).unwrap(),
        "[gukab] WARNING: private key /k is accessible by group/other (mode 644); recommend chmod 600."
    );
    match key_not_found("/k") {
        SshError::Key(m) => assert_eq!(m, "identity file not found: /k"),
        _ => panic!("expected a key error"),
    }
    match key_load_error("/k", false, "bad format") {
        SshError::Key(m) => assert_eq!(m, "cannot load key /k: bad format"),
        _ => panic!("expected a key error"),
    }
    match key_load_error("/k", true, "") {
        SshError::Key(m) => assert!(m.starts_with("key /k is passphrase-protected")),
        _ => panic!("expected a key error"),
    }
}
