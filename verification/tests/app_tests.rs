use gukab::app::{App, AppMode, KeyCode, KeyInput, KeyMods, MacroScreen, MacroState, Outcome, Request};
use gukab::config::{Automations, Expect, Group, Host, Macro};
use gukab::forms::{build_expect, build_macro, cycle_in, ConsoleForm, ExpectEdit, MacroEdit, MacroFocus};
use gukab::hostlist::Row;

fn macro_edit(key: &str, lines: &[&str], expects: Vec<Expect>) -> MacroEdit {
    MacroEdit {
        original_idx: None,
        key: key.to_string(),
        cmd_lines: lines.iter().map(|s| s.to_string()).collect(),
        expects,
        focus: MacroFocus::Key,
        cursor: 0,
        sub: None,
    }
}

fn console_form() -> ConsoleForm {
    ConsoleForm::new(Vec::new(), "/dev/ttyUSB0".to_string())
}

#[test]
fn build_macro_rejects_empty_key_blank_body_and_duplicates() {
    assert!(build_macro(&macro_edit("", &["x"], vec![]), &vec![]).is_err());
    assert!(build_macro(&macro_edit("k", &["", "  "], vec![]), &vec![]).is_err());
    let existing = vec![Macro { key: "en".into(), send: "enable".into(), expects: vec![] }];
    assert!(build_macro(&macro_edit("en", &["x"], vec![]), &existing).is_err());
    let mut edit = macro_edit("en", &["enable"], vec![]);
    edit.original_idx = Some(0);
    assert!(build_macro(&edit, &existing).is_ok());
}

#[test]
fn console_build_params_validates_device_and_baud() {
    let mut form = console_form();
    form.device = "/dev/tty.usbserial-1".into();
    form.baud = "9600".into();
    let p = form.build_params().ok().expect("valid");
    assert_eq!(p.device, "/dev/tty.usbserial-1");
    assert_eq!(p.baud, 9600);
    assert_eq!(p.log_label(), "tty.usbserial-1");

    form.device = "  ".into();
    assert!(form.build_params().is_err());
    form.device = "/dev/x".into();
    form.baud = "abc".into();
    assert!(form.build_params().is_err());
    form.baud = "0".into();
    assert!(form.build_params().is_err());
}

#[test]
fn console_baud_cycle_wraps_and_snaps() {
    let mut form = console_form();
    form.baud = "115200".into();
    form.cycle_baud(true);
    assert_eq!(form.baud, "9600");
    form.cycle_baud(false);
    assert_eq!(form.baud, "115200");
    form.baud = "1234".into();
    form.cycle_baud(true);
    assert_eq!(form.baud, "9600");
}

#[test]
fn build_expect_requires_exactly_one_target_and_valid_regex() {
    let mut e = ExpectEdit::new_blank();
    e.pattern = "[Pp]assword:".into();
    assert!(build_expect(&e).is_err());
    e.send = "a".into();
    e.send_credential = "b".into();
    assert!(build_expect(&e).is_err());
    e.send_credential.clear();
    assert!(build_expect(&e).is_ok());
    let mut bad = ExpectEdit::new_blank();
    bad.pattern = "[".into();
    bad.send = "x".into();
    assert!(build_expect(&bad).is_err());
}

#[test]
fn build_macro_messages_and_join() {
    let m = build_macro(&macro_edit(" kd ", &["switchport mode access", "spanning-tree portfast", ""], vec![]), &vec![])
        .ok()
        .unwrap();
    assert_eq!(m.key, "kd");
    assert_eq!(m.send, "switchport mode access\nspanning-tree portfast");
    assert_eq!(build_macro(&macro_edit(" ", &["x"], vec![]), &vec![]).err().unwrap(), "Key cannot be empty");
    assert_eq!(
        build_macro(&macro_edit("k", &["", "  "], vec![]), &vec![]).err().unwrap(),
        "Add at least one command line"
    );
    let existing = vec![Macro { key: "en".into(), send: "enable".into(), expects: vec![] }];
    assert_eq!(
        build_macro(&macro_edit("en", &["x"], vec![]), &existing).err().unwrap(),
        "A macro with key 'en' already exists"
    );
}

#[test]
fn console_messages_and_cycles() {
    let mut form = console_form();
    form.device = "".into();
    assert_eq!(form.build_params().err().unwrap(), "Device path cannot be empty");
    form.device = "COM3".into();
    form.baud = "x1".into();
    assert_eq!(form.build_params().err().unwrap(), "Baud must be a number");
    form.baud = " 0 ".into();
    assert_eq!(form.build_params().err().unwrap(), "Baud must be greater than 0");
    form.baud = " 19200 ".into();
    assert_eq!(form.build_params().ok().unwrap().baud, 19200);
}

fn key(code: KeyCode) -> KeyInput {
    KeyInput { code, mods: KeyMods { shift: false, control: false, alt: false, super_key: false, hyper: false, meta: false } }
}

fn ctrl(c: char) -> KeyInput {
    KeyInput {
        code: KeyCode::Char(c),
        mods: KeyMods { shift: false, control: true, alt: false, super_key: false, hyper: false, meta: false },
    }
}

fn host(name: &str, group: Option<&str>) -> Host {
    let mut h = Host::default();
    h.name = name.into();
    h.hostname = format!("{name}.example");
    h.username = "admin".into();
    h.group = group.map(|g| g.to_string());
    h
}

fn sample_app() -> App {
    let hosts = vec![
        host("feneryolu-1", Some("core")),
        host("feneryolu-2", Some("core")),
        host("feneryolu-3", Some("core")),
        host("merkez", None),
    ];
    let groups = vec![Group { name: "core".into(), icon: "*".into() }];
    App::new(hosts, groups, Automations { macros: vec![] })
}

fn selected_host(app: &App) -> Option<usize> {
    match &app.rows[app.selected] {
        Row::Host { idx, .. } => Some(*idx),
        _ => None,
    }
}

#[test]
fn rows_are_grouped_and_first_host_selected() {
    let app = sample_app();
    assert!(matches!(app.rows[0], Row::ConsoleAction));
    assert!(matches!(&app.rows[1], Row::Group { name, .. } if name == "core"));
    assert_eq!(selected_host(&app), Some(0));
    // core header + 3 hosts, then the Ungrouped header + 1 host.
    assert_eq!(app.rows.len(), 1 + 4 + 2);
    assert!(matches!(&app.rows[5], Row::Group { name, .. } if name == "Ungrouped"));
}

#[test]
fn typing_filters_and_selects_best_match() {
    let mut app = sample_app();
    for c in "fen3".chars() {
        assert!(app.update(key(KeyCode::Char(c))).is_none());
    }
    assert_eq!(app.filter, "fen3");
    assert_eq!(app.filter_cursor, 4);
    assert_eq!(selected_host(&app), Some(2));
    app.update(key(KeyCode::Backspace));
    assert_eq!(app.filter, "fen");
}

#[test]
fn enter_on_group_collapses_it() {
    let mut app = sample_app();
    app.selected = 1;
    app.update(key(KeyCode::Enter));
    assert_eq!(app.collapsed, vec!["core".to_string()]);
    assert!(matches!(&app.rows[1], Row::Group { collapsed: true, .. }));
    assert_eq!(app.rows.len(), 1 + 1 + 2);
}

#[test]
fn enter_on_host_connects() {
    let mut app = sample_app();
    let r = app.update(key(KeyCode::Enter));
    assert!(r.is_none());
    assert!(app.should_quit);
    assert_eq!(app.pending_connect.as_ref().map(|h| h.name.as_str()), Some("feneryolu-1"));
}

#[test]
fn delete_host_asks_to_save() {
    let mut app = sample_app();
    app.update(ctrl('d'));
    assert!(matches!(app.mode, AppMode::ConfirmDelete { idx: 0, .. }));
    let r = app.update(key(KeyCode::Char('y')));
    assert!(matches!(r, Some(Request::SaveHosts)));
    assert_eq!(app.hosts.len(), 3);
    assert_eq!(app.status.as_deref(), Some("Deleted host feneryolu-1"));
    app.resume(Outcome::Saved(Err("disk full".into())));
    assert_eq!(app.status.as_deref(), Some("Save failed: disk full"));
}

#[test]
fn move_host_within_group() {
    let mut app = sample_app();
    let r = app.update(KeyInput {
        code: KeyCode::Down,
        mods: KeyMods { shift: true, control: false, alt: false, super_key: false, hyper: false, meta: false },
    });
    assert!(matches!(r, Some(Request::SaveHosts)));
    assert_eq!(app.hosts[0].name, "feneryolu-2");
    assert_eq!(app.hosts[1].name, "feneryolu-1");
    assert_eq!(selected_host(&app), Some(1));
}

#[test]
fn add_host_through_the_edit_form() {
    let mut app = sample_app();
    app.update(ctrl('n'));
    for c in "edge".chars() {
        app.update(key(KeyCode::Char(c)));
    }
    app.update(key(KeyCode::Tab));
    for c in "10.0.0.1".chars() {
        app.update(key(KeyCode::Char(c)));
    }
    app.update(key(KeyCode::Tab));
    // The port field takes digits only.
    app.update(key(KeyCode::Char('x')));
    app.update(key(KeyCode::Backspace));
    app.update(key(KeyCode::Backspace));
    for c in "2222".chars() {
        app.update(key(KeyCode::Char(c)));
    }
    let r = app.update(key(KeyCode::Enter));
    assert!(matches!(r, Some(Request::SaveHosts)));
    assert!(matches!(app.mode, AppMode::Normal));
    let h = &app.hosts[4];
    assert_eq!(h.name, "edge");
    assert_eq!(h.hostname, "10.0.0.1");
    assert_eq!(h.port, 2222);
    assert_eq!(h.group, None);
}

#[test]
fn password_needs_credential_ref_then_keyring_write() {
    let mut app = sample_app();
    app.update(ctrl('n'));
    for _ in 0..8 {
        app.update(key(KeyCode::Tab));
    }
    app.update(key(KeyCode::Char('p')));
    assert!(app.update(key(KeyCode::Enter)).is_none());
    assert_eq!(app.status.as_deref(), Some("Credential ref cannot be empty when setting a password"));
    app.update(key(KeyCode::BackTab));
    app.update(key(KeyCode::BackTab));
    app.update(key(KeyCode::BackTab));
    app.update(key(KeyCode::Char('r')));
    match app.update(key(KeyCode::Enter)) {
        Some(Request::WriteCredential { reference, password }) => {
            assert_eq!(reference, "r");
            assert_eq!(password, "p");
        }
        _ => panic!("expected a keyring write"),
    }
    let r = app.resume(Outcome::CredentialWritten(Ok(())));
    assert!(matches!(r, Some(Request::SaveHosts)));
    assert_eq!(app.status.as_deref(), Some("Credential saved (ref: r)"));
    assert_eq!(app.hosts.len(), 5);
}

#[test]
fn console_form_opens_after_port_scan() {
    let mut app = sample_app();
    let r = app.update(ctrl('l'));
    assert!(matches!(r, Some(Request::ListPorts)));
    app.resume(Outcome::Ports { ports: vec!["/dev/ttyUSB1".into()], fallback: "/dev/ttyUSB0".into() });
    match &app.mode {
        AppMode::Console(f) => assert_eq!(f.device, "/dev/ttyUSB1"),
        _ => panic!("console form expected"),
    }
    app.update(key(KeyCode::Enter));
    assert!(app.should_quit);
    assert_eq!(app.pending_serial.as_ref().map(|p| p.baud), Some(9600));
}

#[test]
fn macro_manager_adds_a_macro() {
    let mut app = sample_app();
    app.update(ctrl('g'));
    app.update(ctrl('n'));
    for c in "en".chars() {
        app.update(key(KeyCode::Char(c)));
    }
    app.update(key(KeyCode::Enter));
    for c in "enable".chars() {
        app.update(key(KeyCode::Char(c)));
    }
    let r = app.update(ctrl('s'));
    assert!(matches!(r, Some(Request::SaveAutomations)));
    assert_eq!(app.status.as_deref(), Some("Macro saved"));
    assert_eq!(app.automations.macros.len(), 1);
    assert_eq!(app.automations.macros[0].key, "en");
    assert_eq!(app.automations.macros[0].send, "enable");
    match &app.mode {
        AppMode::Macros(st) => assert!(matches!(st.screen, MacroScreen::List)),
        _ => panic!("macro manager expected"),
    }
}

#[test]
fn saved_expect_compiles_in_the_engine() {
    let mut e = ExpectEdit::new_blank();
    e.pattern = "[Pp]assword:".into();
    e.send_credential = "enable-pw".into();
    let saved = build_expect(&e).ok().unwrap();
    let a = gukab::session::build_single_automation(&saved).ok().unwrap();
    assert!(matches!(a.response, gukab::session::Response::Credential(ref r) if r == "enable-pw"));
    assert_eq!(a.once, e.once);
    assert!(!a.fired);
}

#[test]
fn multiline_macro_with_expect_keeps_its_rule() {
    let edit = macro_edit(
        "kd",
        &["switchport mode access", "spanning-tree portfast", ""],
        vec![Expect {
            pattern: "[Pp]assword:".into(),
            send: None,
            send_credential: Some("en1".into()),
            once: false,
        }],
    );
    let m = build_macro(&edit, &vec![]).ok().expect("valid macro");
    assert_eq!(m.key, "kd");
    assert_eq!(m.send, "switchport mode access\nspanning-tree portfast");
    assert_eq!(m.expects.len(), 1);
    assert_eq!(m.expects[0].pattern, "[Pp]assword:");
    assert_eq!(m.expects[0].send_credential.as_deref(), Some("en1"));
    assert_eq!(m.expects[0].send, None);
    assert!(!m.expects[0].once);
}

#[test]
fn cycle_in_keeps_an_absent_value() {
    assert_eq!(cycle_in(&vec![8, 7, 6, 5], 4, true), 4);
    assert_eq!(cycle_in(&vec![], 3, false), 3);
    assert_eq!(cycle_in(&vec![8, 7, 6, 5], 5, true), 8);
    assert_eq!(cycle_in(&vec![8, 7, 6, 5], 8, false), 5);
}

#[test]
fn q_types_into_the_search() {
    let mut app = App::new(vec![], vec![], Automations { macros: vec![] });
    assert!(app.update(key(KeyCode::Char('q'))).is_none());
    assert_eq!(app.filter, "q");
    assert_eq!(app.filter_cursor, 1);
    assert!(!app.should_quit);
    assert!(matches!(app.mode, AppMode::Normal));
}

#[test]
fn ctrl_d_removes_the_focused_command_line() {
    let mut app = App::new(vec![], vec![], Automations { macros: vec![] });
    let mut e = macro_edit("k", &["a", "bb", "ccc"], vec![]);
    e.focus = MacroFocus::Cmd(2);
    e.cursor = 3;
    app.mode = AppMode::Macros(MacroState { macros: vec![], list_selected: 0, screen: MacroScreen::Edit(Box::new(e)) });
    assert!(app.update(ctrl('d')).is_none());
    match &app.mode {
        AppMode::Macros(st) => match &st.screen {
            MacroScreen::Edit(e) => {
                assert_eq!(e.cmd_lines, vec!["a".to_string(), "bb".to_string()]);
                assert_eq!(e.focus, MacroFocus::Cmd(1));
                assert_eq!(e.cursor, 2);
                assert!(e.sub.is_none());
            }
            _ => panic!("draft expected"),
        },
        _ => panic!("macro manager expected"),
    }
    assert!(app.status.is_none());
    assert!(app.automations.macros.is_empty());
}

#[test]
fn console_enter_keeps_the_form() {
    let mut app = sample_app();
    app.update(ctrl('l'));
    app.resume(Outcome::Ports { ports: vec![], fallback: "/dev/ttyUSB0".into() });
    if let AppMode::Console(f) = &mut app.mode {
        f.baud = "x".into();
    }
    app.update(key(KeyCode::Enter));
    assert_eq!(app.status.as_deref(), Some("Baud must be a number"));
    assert!(!app.should_quit);
    assert!(app.pending_serial.is_none());
    assert!(matches!(&app.mode, AppMode::Console(f) if f.baud == "x"));
    if let AppMode::Console(f) = &mut app.mode {
        f.baud = "9600".into();
    }
    app.update(key(KeyCode::Enter));
    assert!(app.should_quit);
    assert!(matches!(&app.mode, AppMode::Console(_)));
}

#[test]
fn console_baud_takes_digits_only() {
    let mut app = sample_app();
    app.update(ctrl('l'));
    app.resume(Outcome::Ports { ports: vec![], fallback: "/dev/ttyUSB0".into() });
    app.update(key(KeyCode::Tab));
    app.update(key(KeyCode::Char('x')));
    app.update(key(KeyCode::Char('1')));
    assert!(matches!(&app.mode, AppMode::Console(f) if f.baud == "96001"));
}

#[test]
fn only_esc_quits_the_list() {
    let mut app = sample_app();
    app.update(key(KeyCode::Down));
    assert!(!app.should_quit);
    app.update(ctrl('n'));
    app.update(key(KeyCode::Esc));
    assert!(matches!(app.mode, AppMode::Normal));
    assert!(!app.should_quit);
    app.update(ctrl('k'));
    app.update(key(KeyCode::Esc));
    assert!(!app.should_quit);
    app.update(ctrl('d'));
    app.update(key(KeyCode::Char('n')));
    assert!(!app.should_quit);
    assert_eq!(app.hosts.len(), 4);
    app.update(key(KeyCode::Esc));
    assert!(app.should_quit);
}

#[test]
fn enter_on_macro_list_opens_that_macro() {
    let mut app = App::new(
        vec![],
        vec![],
        Automations {
            macros: vec![Macro {
                key: "wr".into(),
                send: "write memory\nexit".into(),
                expects: vec![Expect {
                    pattern: "[confirm]".into(),
                    send: Some("y".into()),
                    send_credential: None,
                    once: true,
                }],
            }],
        },
    );
    app.update(ctrl('g'));
    app.update(key(KeyCode::Enter));
    match &app.mode {
        AppMode::Macros(st) => match &st.screen {
            MacroScreen::Edit(e) => {
                assert_eq!(e.original_idx, Some(0));
                assert_eq!(e.key, "wr");
                assert_eq!(e.cmd_lines, vec!["write memory".to_string(), "exit".to_string()]);
                assert_eq!(e.expects.len(), 1);
                assert_eq!(e.focus, MacroFocus::Key);
                assert_eq!(e.cursor, 2);
                assert!(e.sub.is_none());
            }
            _ => panic!("draft expected"),
        },
        _ => panic!("macro manager expected"),
    }
}

#[test]
fn host_moves_down_and_back_with_the_selection() {
    let mut app = sample_app();
    let shift = KeyMods { shift: true, control: false, alt: false, super_key: false, hyper: false, meta: false };
    app.update(KeyInput { code: KeyCode::Down, mods: shift });
    assert_eq!(selected_host(&app), Some(1));
    app.update(KeyInput { code: KeyCode::Up, mods: shift });
    assert_eq!(selected_host(&app), Some(0));
    assert_eq!(app.hosts[0].name, "feneryolu-1");
    assert_eq!(app.hosts[1].name, "feneryolu-2");
}
