use gukab::app::{KeyCode, KeyInput, KeyMods};
use gukab::keys::{control_byte, encode_event, encode_key, f_key, TermEvent};

fn mods(control: bool, alt: bool) -> KeyMods {
    KeyMods { shift: false, control, alt, super_key: false, hyper: false, meta: false }
}

fn key(code: KeyCode, control: bool, alt: bool) -> KeyInput {
    KeyInput { code, mods: mods(control, alt) }
}

#[test]
fn control_bytes_follow_the_ascii_table() {
    assert_eq!(control_byte('a'), 0x01);
    assert_eq!(control_byte('A'), 0x01);
    assert_eq!(control_byte('c'), 0x03);
    assert_eq!(control_byte('['), 0x1b);
    assert_eq!(control_byte('@'), 0x00);
    assert_eq!(control_byte(' '), 0x00);
    assert_eq!(control_byte('?'), 0x7f);
    assert_eq!(control_byte('2'), 0x12);
}

#[test]
fn keys_become_xterm_sequences() {
    assert_eq!(encode_key(key(KeyCode::Char('x'), false, false)), b"x");
    assert_eq!(encode_key(key(KeyCode::Char('ş'), false, false)), "ş".as_bytes());
    assert_eq!(encode_key(key(KeyCode::Char('a'), true, false)), vec![0x01]);
    assert_eq!(encode_key(key(KeyCode::Char('b'), false, true)), b"\x1bb");
    assert_eq!(encode_key(key(KeyCode::Enter, false, false)), b"\r");
    assert_eq!(encode_key(key(KeyCode::Up, false, false)), b"\x1b[A");
    assert_eq!(encode_key(key(KeyCode::BackTab, false, false)), b"\x1b[Z");
    assert_eq!(encode_key(key(KeyCode::Delete, false, false)), b"\x1b[3~");
    assert_eq!(encode_key(key(KeyCode::F(5), false, false)), b"\x1b[15~");
    assert_eq!(encode_key(key(KeyCode::Other, false, false)), b"");
    assert_eq!(f_key(1), b"\x1bOP");
    assert_eq!(f_key(12), b"\x1b[24~");
    assert!(f_key(13).is_empty());
}

#[test]
fn events_send_presses_and_pastes_only() {
    let press = TermEvent::Key { key: key(KeyCode::Esc, false, false), release: false };
    assert_eq!(encode_event(&press), vec![0x1b]);
    let release = TermEvent::Key { key: key(KeyCode::Esc, false, false), release: true };
    assert!(encode_event(&release).is_empty());
    assert_eq!(encode_event(&TermEvent::Paste("show ip\n".into())), b"show ip\n");
    assert!(encode_event(&TermEvent::Other).is_empty());
}
