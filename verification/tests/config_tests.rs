use gukab::config::{config_dir, config_path, expand_tilde, join, notes_dir, Host, Settings};

#[test]
fn expand_tilde_resolves_home_prefixes() {
    let home = Some("/home/gukab");
    assert_eq!(expand_tilde("~", home), "/home/gukab");
    assert_eq!(expand_tilde("~/.ssh/id_ed25519", home), "/home/gukab/.ssh/id_ed25519");
    assert_eq!(expand_tilde("$HOME/.ssh/id_rsa", home), "/home/gukab/.ssh/id_rsa");
    assert_eq!(expand_tilde("/etc/keys/k", home), "/etc/keys/k");
    assert_eq!(expand_tilde("/a/~/b", home), "/a/~/b");
    assert_eq!(expand_tilde("$HOME", home), "/home/gukab");
    assert_eq!(expand_tilde("~/x", None), "~/x");
}

#[test]
fn paths_live_under_the_config_dir() {
    assert_eq!(config_dir(Some("/home/u")), "/home/u/.config/gukab");
    assert_eq!(config_dir(None), "./.config/gukab");
    assert_eq!(config_path(Some("/home/u/")), "/home/u/.config/gukab/hosts.toml");
    assert_eq!(notes_dir(Some("/h")), "/h/.config/gukab/notes");
    assert_eq!(join("/a", "/b"), "/b");
    assert_eq!(join("", "b"), "b");
}

#[test]
fn defaults() {
    let s = Settings::default();
    assert_eq!(s.notes.label, "Notes");
    assert!(!s.notes.hidden);
    let h = Host::default();
    assert_eq!(h.port, 22);
    assert!(h.group.is_none());
}
