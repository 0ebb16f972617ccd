use gukab::notes::{create_note, editor_command, list_notes, note_path, sanitize_title, DirEntryInfo, NotesError};

#[test]
fn sanitize_keeps_unicode_and_strips_forbidden() {
    assert_eq!(sanitize_title("yapılacaklar"), "yapılacaklar");
    assert_eq!(sanitize_title("a/b\\c:d*e"), "a_b_c_d_e");
    assert_eq!(sanitize_title("  .hidden  "), "hidden");
    assert_eq!(sanitize_title("dots..."), "dots");
    assert_eq!(sanitize_title("   "), "");
    assert_eq!(sanitize_title("vlan? \"listesi\""), "vlan_ _listesi_");
}

#[test]
fn sanitize_replaces_control_chars() {
    assert_eq!(sanitize_title("a\tb\u{7}c"), "a_b_c");
    assert_eq!(sanitize_title("..."), "");
}

#[test]
fn note_path_refuses_empty_title() {
    match note_path("/n", "  ...  ") {
        Err(NotesError::Invalid(m)) => assert_eq!(m, "Title cannot be empty"),
        _ => panic!("expected an invalid title"),
    }
    let t = note_path("/n", "switch şifreleri").ok().unwrap();
    assert_eq!(t.name, "switch şifreleri");
    assert_eq!(t.path, "/n/switch şifreleri.md");
}

#[test]
fn claim_refuses_existing_note() {
    let t = note_path("/n", "vlan").ok().unwrap();
    match t.claim(true) {
        Err(NotesError::Invalid(m)) => assert_eq!(m, "A note named 'vlan' already exists"),
        _ => panic!("expected a clash"),
    }
    assert_eq!(t.claim(false).ok().unwrap(), "/n/vlan.md");
}

#[test]
fn listing_sorts_newest_first_and_ignores_non_md() {
    let entries = vec![
        DirEntryInfo { path: "/n/old.md".to_string(), modified: 1_000 },
        DirEntryInfo { path: "/n/new.md".to_string(), modified: 1_060 },
        DirEntryInfo { path: "/n/ignored.txt".to_string(), modified: 2_000 },
        DirEntryInfo { path: "/n/.md".to_string(), modified: 3_000 },
        DirEntryInfo { path: "/n/b.md".to_string(), modified: 1_000 },
    ];
    let notes = list_notes(&entries);
    let titles: Vec<&str> = notes.iter().map(|n| n.title.as_str()).collect();
    assert_eq!(titles, ["new", "b", "old"]);
    assert!(list_notes(&Vec::new()).is_empty());
}

#[test]
fn create_note_names_the_file_after_the_title() {
    let existing = vec!["vlan.md".to_string(), "notes.txt".to_string()];
    assert_eq!(create_note("/n", "  core notları ", &existing).ok().unwrap(), "/n/core notları.md");
    match create_note("/n", "vlan", &existing) {
        Err(NotesError::Invalid(m)) => assert_eq!(m, "A note named 'vlan' already exists"),
        _ => panic!("expected a clash"),
    }
    match create_note("/n", " ... ", &existing) {
        Err(NotesError::Invalid(m)) => assert_eq!(m, "Title cannot be empty"),
        _ => panic!("expected an empty title"),
    }
    assert_eq!(create_note("/n", "notes", &existing).ok().unwrap(), "/n/notes.md");
}

#[test]
fn note_errors_read_well() {
    assert_eq!(NotesError::Io("disk full".into()).message(), "IO error: disk full");
    assert_eq!(NotesError::Invalid("nope".into()).message(), "nope");
}

#[test]
fn editor_prefers_visual_then_editor_with_arguments() {
    let cmd = editor_command(Some("code --wait"), Some("vim"), &vec![true, true, true]).unwrap();
    assert_eq!(cmd, vec!["code".to_string(), "--wait".to_string()]);
    let cmd = editor_command(Some("   "), Some(" emacs  -nw "), &vec![]).unwrap();
    assert_eq!(cmd, vec!["emacs".to_string(), "-nw".to_string()]);
}

#[test]
fn editor_falls_back_to_first_found_candidate() {
    assert_eq!(editor_command(None, None, &vec![false, true, true]).unwrap(), vec!["vim".to_string()]);
    assert_eq!(editor_command(None, Some(""), &vec![true, false, false]).unwrap(), vec!["nano".to_string()]);
    assert_eq!(editor_command(None, None, &vec![false, false, true]).unwrap(), vec!["vi".to_string()]);
}

#[test]
fn editor_missing_is_refused() {
    match editor_command(None, None, &vec![false, false, false]) {
        Err(NotesError::Invalid(m)) => assert_eq!(m, "no editor found — set $EDITOR or install nano/vim"),
        other => panic!("unexpected {other:?}"),
    }
}

#[test]
fn sanitize_strips_dots_and_spaces_until_none_lead() {
    assert_eq!(sanitize_title(". .x"), "x");
    assert_eq!(sanitize_title(". .\u{3000}."), "");
    assert_eq!(sanitize_title("..a. . "), "a");
    assert_eq!(sanitize_title("a.b"), "a.b");
}
