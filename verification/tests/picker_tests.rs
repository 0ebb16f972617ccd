use gukab::config::Macro;
use gukab::picker::{filter_macros, BaudChooser, Pick, PickerState};

fn macros() -> Vec<Macro> {
    vec![
        Macro { key: "en".into(), send: "enable".into(), expects: vec![] },
        Macro { key: "shrun".into(), send: "show running-config".into(), expects: vec![] },
        Macro { key: "wr".into(), send: "write memory".into(), expects: vec![] },
    ]
}

#[test]
fn empty_query_lists_every_macro_in_order() {
    assert_eq!(filter_macros(&macros(), ""), vec![0, 1, 2]);
}

#[test]
fn query_ranks_key_hits_first() {
    let m = macros();
    let hits = filter_macros(&m, "shrun");
    assert_eq!(hits.first(), Some(&1));
    assert!(filter_macros(&m, "zzzz").is_empty());
}

#[test]
fn picker_typing_and_picking() {
    let m = macros();
    let mut p = PickerState::new(b"w");
    assert_eq!(p.query, "w");
    assert!(p.handle_chunk(b"r", &m, None).is_none());
    assert_eq!(p.query, "wr");
    match p.handle_chunk(b"\r", &m, None) {
        Some(Pick::Run(k)) => assert_eq!(k, "wr"),
        other => panic!("expected a run, got {other:?}"),
    }
}

#[test]
fn picker_keys() {
    let m = macros();
    let mut p = PickerState::new(b"");
    assert!(matches!(p.handle_chunk(b"\x1b", &m, None), Some(Pick::Cancel)));
    assert!(matches!(p.handle_chunk(b"\x04", &m, None), Some(Pick::Disconnect)));
    // On a serial session the pinned baud row comes first.
    let mut p = PickerState::new(b"");
    assert!(matches!(p.handle_chunk(b"\r", &m, Some(9600)), Some(Pick::Baud)));
    let mut p = PickerState::new(b"");
    assert!(p.handle_chunk(b"\x1b[B", &m, Some(9600)).is_none());
    assert_eq!(p.selected, 1);
    match p.handle_chunk(b"\r", &m, Some(9600)) {
        Some(Pick::Run(k)) => assert_eq!(k, "en"),
        other => panic!("expected a run, got {other:?}"),
    }
}

#[test]
fn baud_chooser_edits_and_applies() {
    let mut c = BaudChooser::new(9600);
    assert_eq!(c.field, "9600");
    assert_eq!(c.sel, Some(0));
    assert_eq!(c.handle_chunk(b"\x1b[B"), None);
    assert_eq!(c.field, "19200");
    assert_eq!(c.handle_chunk(b"\x7f\x7f\x7f\x7f\x7f4800"), None);
    assert_eq!(c.field, "4800");
    assert_eq!(c.sel, None);
    assert_eq!(c.handle_chunk(b"\r"), Some(Some(4800)));
    assert_eq!(BaudChooser::new(9600).handle_chunk(b"\x1b"), Some(None));
    assert_eq!(BaudChooser::new(250000).handle_chunk(b"\r"), Some(Some(250000)));
}
