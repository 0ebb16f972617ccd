//! The trust-on-first-use store of SSH host keys: finding a host's recorded
//! fingerprint in the `known_hosts` text and judging a server's key by it.

use vstd::prelude::*;
use crate::text::{chars_of, is_whitespace, is_ws, split_char, split_on, str_eq, string_from_chars, trim, trim_chars};

verus! {

/// The first whitespace position of `s` at or after `k`.
pub open spec fn first_ws(s: Seq<char>, k: int) -> Option<int>
    decreases s.len() - k,
{
    if k < 0 || k >= s.len() {
        None
    } else if is_ws(s[k]) {
        Some(k)
    } else {
        first_ws(s, k + 1)
    }
}

/// The entry of one line: `host<whitespace>fingerprint`, trimmed; blank lines,
/// `#` comments and lines without whitespace hold none.
pub open spec fn line_entry(line: Seq<char>) -> Option<(Seq<char>, Seq<char>)> {
    let t = trim(line);
    if t.len() == 0 || t[0] == '#' {
        None
    } else {
        match first_ws(t, 0) {
            Some(p) => Some((t.subrange(0, p), trim(t.subrange(p + 1, t.len() as int)))),
            None => None,
        }
    }
}

/// The fingerprint of the first entry among the first `k` lines for `host_id`.
pub open spec fn lookup_upto(lines: Seq<Seq<char>>, host_id: Seq<char>, k: int) -> Option<Seq<char>>
    decreases lines.len() - k,
{
    if k < 0 || k >= lines.len() {
        None
    } else {
        match line_entry(lines[k]) {
            Some((h, fp)) => if h == host_id {
                Some(fp)
            } else {
                lookup_upto(lines, host_id, k + 1)
            },
            None => lookup_upto(lines, host_id, k + 1),
        }
    }
}

/// The fingerprint recorded for `host_id` in `known_hosts` text (one
/// `host fingerprint` entry per line).
pub open spec fn spec_lookup(content: Seq<char>, host_id: Seq<char>) -> Option<Seq<char>> {
    lookup_upto(split_char(content, '\n'), host_id, 0)
}

fn entry_of(line: &str) -> (r: Option<(String, String)>)
    ensures
        match line_entry(line@) {
            Some((h, fp)) => r matches Some(x) && x.0@ == h && x.1@ == fp,
            None => r is None,
        },
{
    let t = trim_chars(&chars_of(line));
    if t.len() == 0 || t[0] == '#' {
        return None;
    }
    let n = t.len();
    let mut p: usize = 0;
    while p < n && !is_whitespace(t[p])
        invariant
            0 <= p <= n,
            n == t@.len(),
            first_ws(t@, 0) == first_ws(t@, p as int),
        decreases n - p,
    {
        p = p + 1;
    }
    if p == n {
        return None;
    }
    let mut host: Vec<char> = Vec::new();
    let mut i: usize = 0;
    while i < p
        invariant
            0 <= i <= p,
            p < n,
            n == t@.len(),
            host@ == t@.subrange(0, i as int),
        decreases p - i,
    {
        host.push(t[i]);
        i = i + 1;
        assert(host@ =~= t@.subrange(0, i as int));
    }
    let mut rest: Vec<char> = Vec::new();
    let mut j: usize = p + 1;
    while j < n
        invariant
            p + 1 <= j <= n,
            n == t@.len(),
            rest@ == t@.subrange(p + 1, j as int),
        decreases n - j,
    {
        rest.push(t[j]);
        j = j + 1;
        assert(rest@ =~= t@.subrange(p + 1, j as int));
    }
    let fp = trim_chars(&rest);
    Some((string_from_chars(host.as_slice()), string_from_chars(fp.as_slice())))
}

/// The fingerprint recorded for `host_id` (see [`spec_lookup`]).
pub fn known_host_lookup(content: &str, host_id: &str) -> (r: Option<String>)
    ensures
        match spec_lookup(content@, host_id@) {
            Some(fp) => r matches Some(x) && x@ == fp,
            None => r is None,
        },
{
    let lines = split_on(content, '\n');
    let ghost lv = lines.deep_view();
    let mut i: usize = 0;
    while i < lines.len()
        invariant
            0 <= i <= lines@.len(),
            lv == lines.deep_view(),
            lv == split_char(content@, '\n'),
            lookup_upto(lv, host_id@, 0) == lookup_upto(lv, host_id@, i as int),
        decreases lines@.len() - i,
    {
        proof {
            assert(lv[i as int] == lines@[i as int]@);
        }
        match entry_of(lines[i].as_str()) {
            Some((h, fp)) => {
                if str_eq(h.as_str(), host_id) {
                    return Some(fp);
                }
            },
            None => {},
        }
        i = i + 1;
    }
    None
}

/// How a server's host key is judged.
#[derive(Clone, Copy, PartialEq, Eq, Structural, Debug)]
pub enum HostKeyVerdict {
    /// Seen before with this fingerprint: trusted.
    Trusted,
    /// Seen before with another fingerprint: refused (possible MITM).
    Changed,
    /// First contact: trusted, and the fingerprint is to be recorded.
    New,
}

/// Judge the fingerprint a server presented against the one recorded for it.
pub fn host_key_verdict(stored: Option<&str>, fingerprint: &str) -> (r: HostKeyVerdict)
    ensures
        r == match stored {
            Some(s) => if s@ == fingerprint@ { HostKeyVerdict::Trusted } else { HostKeyVerdict::Changed },
            None => HostKeyVerdict::New,
        },
{
    match stored {
        Some(s) => if str_eq(s, fingerprint) {
            HostKeyVerdict::Trusted
        } else {
            HostKeyVerdict::Changed
        },
        None => HostKeyVerdict::New,
    }
}

// ───────────────────────── recording a new host ─────────────────────────

/// The line that records `fingerprint` for `host_id`: `host_id fingerprint`
/// and a line break.
pub open spec fn record_line(host_id: Seq<char>, fingerprint: Seq<char>) -> Seq<char> {
    host_id + " "@ + fingerprint + "\n"@
}

/// The line appended to the store for a host seen for the first time (see
/// [`record_line`]).
pub fn known_host_line(host_id: &str, fingerprint: &str) -> (r: String)
    ensures
        r@ == record_line(host_id@, fingerprint@),
{
    let a = crate::text::concat(host_id, " ");
    let b = crate::text::concat(a.as_str(), fingerprint);
    crate::text::concat(b.as_str(), "\n")
}

proof fn lemma_lookup_shift(p: Seq<Seq<char>>, q: Seq<Seq<char>>, h: Seq<char>, j: int)
    requires
        0 <= j,
    ensures
        lookup_upto(p + q, h, p.len() + j) == lookup_upto(q, h, j),
    decreases q.len() - j,
{
    if j < q.len() {
        assert((p + q)[p.len() + j] == q[j]);
        lemma_lookup_shift(p, q, h, j + 1);
    }
}

proof fn lemma_lookup_concat(p: Seq<Seq<char>>, q: Seq<Seq<char>>, h: Seq<char>, k: int)
    requires
        0 <= k <= p.len(),
    ensures
        lookup_upto(p + q, h, k) == match lookup_upto(p, h, k) {
            Some(f) => Some(f),
            None => lookup_upto(q, h, 0),
        },
    decreases p.len() - k,
{
    if k < p.len() {
        assert((p + q)[k] == p[k]);
        lemma_lookup_concat(p, q, h, k + 1);
    } else {
        lemma_lookup_shift(p, q, h, 0);
    }
}

proof fn lemma_first_ws_at(s: Seq<char>, k: int, p: int)
    requires
        0 <= k <= p < s.len(),
        is_ws(s[p]),
        forall|i: int| k <= i < p ==> !is_ws(#[trigger] s[i]),
    ensures
        first_ws(s, k) == Some(p),
    decreases p - k,
{
    if k < p {
        lemma_first_ws_at(s, k + 1, p);
    }
}

/// Trust on first use: once the line recording a host's fingerprint is
/// appended to the store (empty, or ending with a line break, and without an
/// entry for the host), looking the host up gives that fingerprint; so the same
/// key is trusted on the next connection and any other key is refused.
pub proof fn lemma_recorded_key_found(content: Seq<char>, host_id: Seq<char>, fingerprint: Seq<char>)
    requires
        spec_lookup(content, host_id) is None,
        content.len() == 0 || content.last() == '\n',
        host_id.len() > 0,
        host_id[0] != '#',
        forall|i: int| 0 <= i < host_id.len() ==> !is_ws(#[trigger] host_id[i]),
        fingerprint.len() > 0,
        trim(fingerprint) == fingerprint,
        !fingerprint.contains('\n'),
    ensures
        spec_lookup(content + record_line(host_id, fingerprint), host_id) == Some(fingerprint),
{
    reveal_strlit(" ");
    reveal_strlit("\n");
    let line = host_id + " "@ + fingerprint;
    let rec = record_line(host_id, fingerprint);
    assert(rec =~= line + "\n"@);
    // The new line's entry.
    crate::text::lemma_trim_run(fingerprint);
    assert(line[0] == host_id[0]);
    assert(line.last() == fingerprint.last());
    crate::text::lemma_trim_ends(line);
    assert forall|i: int| 0 <= i < host_id.len() implies !is_ws(#[trigger] line[i]) by {
        assert(line[i] == host_id[i]);
    }
    assert(line[host_id.len() as int] == ' ');
    lemma_first_ws_at(line, 0, host_id.len() as int);
    assert(line.subrange(0, host_id.len() as int) =~= host_id);
    assert(line.subrange(host_id.len() as int + 1, line.len() as int) =~= fingerprint);
    assert(line_entry(line) == Some((host_id, fingerprint)));
    // The new line splits into itself and an empty piece.
    assert(!line.contains('\n')) by {
        if line.contains('\n') {
            let j = choose|j: int| 0 <= j < line.len() && line[j] == '\n';
            if j < host_id.len() {
                assert(line[j] == host_id[j]);
                assert(is_ws(host_id[j]));
            } else if j > host_id.len() {
                assert(line[j] == fingerprint[j - host_id.len() - 1]);
            }
        }
    }
    crate::text::lemma_split_char_whole(line, '\n');
    assert((line + "\n"@).drop_last() =~= line);
    assert(split_char(rec, '\n') =~= seq![line, Seq::<char>::empty()]);
    assert(lookup_upto(split_char(rec, '\n'), host_id, 0) == Some(fingerprint));
    // The old lines hold no entry for the host.
    if content.len() == 0 {
        assert(content + rec =~= rec);
    } else {
        crate::text::lemma_split_char_append(content, rec, '\n');
        let old_lines = split_char(content, '\n');
        crate::text::lemma_split_char_pieces(content, '\n');
        let pre = old_lines.drop_last();
        assert(old_lines =~= pre + seq![old_lines.last()]);
        lemma_lookup_concat(pre, seq![old_lines.last()], host_id, 0);
        lemma_lookup_concat(pre, split_char(rec, '\n'), host_id, 0);
    }
}

} // verus!
