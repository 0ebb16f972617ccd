use gukab::highlight::{has_word, Highlighter, MAX_PENDING};

const RESET: &str = "\x1b[0m";
const RED: &str = "\x1b[31m";
const GREEN: &str = "\x1b[32m";
const CYAN: &str = "\x1b[36m";

fn s(bytes: Vec<u8>) -> String {
    String::from_utf8(bytes).unwrap()
}

fn highlighter() -> Highlighter {
    Highlighter::new().expect("the built-in patterns compile")
}

#[test]
fn up_line_is_green() {
    let mut hl = highlighter();
    let out = s(hl.process(b"GigabitEthernet0/1 is up\n"));
    assert!(out.starts_with(GREEN) && out.contains(RESET) && out.ends_with('\n'));
}

#[test]
fn down_line_is_red() {
    let mut hl = highlighter();
    let out = s(hl.process(b"Vlan10 is administratively down\n"));
    assert!(out.starts_with(RED));
}

#[test]
fn percent_error_is_red() {
    let mut hl = highlighter();
    let out = s(hl.process(b"% Invalid input detected\n"));
    assert!(out.starts_with(RED));
}

#[test]
fn ip_token_is_cyan() {
    let mut hl = highlighter();
    let out = s(hl.process(b"  Internet address is 10.0.1.1\n"));
    assert!(out.contains(&format!("{CYAN}10.0.1.1{RESET}")));
}

#[test]
fn word_boundary_avoids_false_positive() {
    // "backup" must not trigger the "up" rule.
    let mut hl = highlighter();
    let out = s(hl.process(b"running backup config\n"));
    assert!(!out.starts_with(GREEN));
}

#[test]
fn partial_then_complete_stays_raw() {
    let mut hl = highlighter();
    // Prompt + typed command arrive as a partial line (no newline) → raw.
    assert_eq!(s(hl.process(b"Switch# ")), "Switch# ");
    // Completing it must not recolor the already-shown start.
    assert_eq!(s(hl.process(b"show ver\n")), "show ver\n");
}

#[test]
fn whole_lines_are_colored_exactly() {
    let mut hl = highlighter();
    assert_eq!(s(hl.process(b"Gi0/1 is up\r\n")), format!("{GREEN}Gi0/1 is up{RESET}\r\n"));
    assert_eq!(
        s(hl.process(b"via 10.0.0.1 on Gi0/2\n")),
        format!("via {CYAN}10.0.0.1{RESET} on {CYAN}Gi0/2{RESET}\n")
    );
    assert_eq!(s(hl.process(b"plain text\n")), "plain text\n");
}

#[test]
fn lines_with_their_own_escapes_pass_through() {
    let mut hl = highlighter();
    let raw = b"\x1b[1mbold\x1b[0m is down\n".to_vec();
    assert_eq!(hl.process(&raw), raw);
}

#[test]
fn invalid_utf8_line_passes_through() {
    let mut hl = highlighter();
    let raw = vec![0xffu8, 0xfe, b' ', b'u', b'p', b'\n'];
    assert_eq!(hl.process(&raw), raw);
}

#[test]
fn overlong_partial_line_is_flushed() {
    let mut hl = highlighter();
    let chunk = vec![b'x'; MAX_PENDING + 1];
    assert_eq!(hl.process(&chunk), chunk);
    assert!(hl.pending.is_empty());
    assert_eq!(hl.emitted, 0);
    // The next line starts fresh and is colored again.
    assert_eq!(s(hl.process(b"link up\n")), format!("{GREEN}link up{RESET}\n"));
}

#[test]
fn split_chunks_show_every_byte_once() {
    let mut hl = highlighter();
    let mut shown = String::new();
    for chunk in [&b"Interface Gi0/3 is "[..], b"down\nnext ", b"line\n"] {
        shown.push_str(&s(hl.process(chunk)));
    }
    let plain = shown
        .replace(RED, "")
        .replace(GREEN, "")
        .replace(CYAN, "")
        .replace(RESET, "");
    assert_eq!(plain, "Interface Gi0/3 is down\nnext line\n");
}

#[test]
fn has_word_needs_token_boundaries() {
    assert!(has_word(b"link is up", b"up"));
    assert!(!has_word(b"backup", b"up"));
    assert!(!has_word(b"upstream", b"up"));
    assert!(has_word(b"up.", b"up"));
}

#[test]
fn underscore_bounds_a_word() {
    assert!(has_word(b"up_link", b"up"));
    assert!(has_word(b"err_disabled", b"err"));
    assert!(!has_word(b"up2", b"up"));
    assert!(has_word(b"", b""));
    assert!(has_word(b"a ", b""));
    assert!(!has_word(b"ab", b""));
}
