use gukab::known_hosts::{host_key_verdict, known_host_line, known_host_lookup, HostKeyVerdict};

const STORE: &str = "# gukab known hosts\n\n192.0.2.1:22 SHA256:aaa\n  10.0.0.5:2222\tSHA256:bbb  \r\nbroken-line\n192.0.2.1:22 SHA256:later\n";

#[test]
fn lookup_finds_the_first_entry_of_a_host() {
    assert_eq!(known_host_lookup(STORE, "192.0.2.1:22").as_deref(), Some("SHA256:aaa"));
    assert_eq!(known_host_lookup(STORE, "10.0.0.5:2222").as_deref(), Some("SHA256:bbb"));
}

#[test]
fn lookup_skips_comments_blanks_and_unknown_hosts() {
    assert_eq!(known_host_lookup(STORE, "# gukab"), None);
    assert_eq!(known_host_lookup(STORE, "broken-line"), None);
    assert_eq!(known_host_lookup(STORE, "198.51.100.7:22"), None);
    assert_eq!(known_host_lookup("", "192.0.2.1:22"), None);
}

#[test]
fn verdicts_trust_on_first_use() {
    assert_eq!(host_key_verdict(Some("SHA256:aaa"), "SHA256:aaa"), HostKeyVerdict::Trusted);
    assert_eq!(host_key_verdict(Some("SHA256:aaa"), "SHA256:zzz"), HostKeyVerdict::Changed);
    assert_eq!(host_key_verdict(None, "SHA256:aaa"), HostKeyVerdict::New);
}

#[test]
fn a_recorded_key_is_trusted_next_time() {
    let mut store = String::from(STORE);
    let id = "203.0.113.9:22";
    let fp = "SHA256:new";
    assert_eq!(host_key_verdict(known_host_lookup(&store, id).as_deref(), fp), HostKeyVerdict::New);
    let line = known_host_line(id, fp);
    assert_eq!(line, "203.0.113.9:22 SHA256:new\n");
    store.push_str(&line);
    assert_eq!(host_key_verdict(known_host_lookup(&store, id).as_deref(), fp), HostKeyVerdict::Trusted);
    assert_eq!(host_key_verdict(known_host_lookup(&store, id).as_deref(), "SHA256:other"), HostKeyVerdict::Changed);
}
