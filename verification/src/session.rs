//! The interactive session engine's decisions: macro payloads, expect rules
//! (compiling them, scanning the output for their prompts, disarming them), and
//! what the escape prefix typed on stdin means. The loop that moves bytes between
//! the terminal and the link runs in the application.

use vstd::prelude::*;
use vstd::utf8::{decode_utf8, valid_utf8};
use crate::config::{Expect, Macro};
use crate::matcher::{regex_is_match, regex_new_error, CompiledRegex};
use crate::text::{concat, split_char, split_on, string_from_chars, str_eq};

verus! {

/// One chunk of bytes received from the remote/device. `is_stderr` marks SSH
/// stderr, which is displayed raw and not scanned for expects.
#[derive(Debug)]
pub struct Incoming {
    pub bytes: Vec<u8>,
    pub is_stderr: bool,
}

/// Live control of a serial session's baud rate (`None` for SSH).
pub trait BaudControl {
    /// The current baud rate.
    fn current(&self) -> u32;

    /// Apply a new baud rate to the open port.
    fn set_baud(&mut self, baud: u32);
}

/// Local escape prefix (Ctrl+A) that opens the macro prompt instead of being
/// forwarded. Pressing it twice sends a literal Ctrl+A.
pub const ESCAPE_PREFIX: u8 = 0x01;

/// Cap, in bytes, of the rolling output buffer scanned by expect rules.
pub const SCAN_BUFFER_CAP: usize = 8192;

/// A session failure.
#[derive(Debug)]
pub enum SshError {
    /// The SSH library's error, with its text.
    Russh(String),
    AuthFailed,
    Keyring(String),
    Automation(String),
    Key(String),
    Serial(String),
    Io(String),
}

impl SshError {
    /// The user-facing text of the error.
    pub open spec fn text(&self) -> Seq<char> {
        match self {
            SshError::Russh(m) => "Connection error: "@ + m@,
            SshError::AuthFailed => "Authentication failed"@,
            SshError::Keyring(m) => "Keyring error: "@ + m@,
            SshError::Automation(m) => "Automation config error: "@ + m@,
            SshError::Key(m) => "SSH key error: "@ + m@,
            SshError::Serial(m) => "Serial error: "@ + m@,
            SshError::Io(m) => "IO error: "@ + m@,
        }
    }

    /// The user-facing text of the error (see [`SshError::text`]).
    pub fn message(&self) -> (r: String)
        ensures
            r@ == self.text(),
    {
        match self {
            SshError::Russh(m) => concat("Connection error: ", m.as_str()),
            SshError::AuthFailed => String::from_str("Authentication failed"),
            SshError::Keyring(m) => concat("Keyring error: ", m.as_str()),
            SshError::Automation(m) => concat("Automation config error: ", m.as_str()),
            SshError::Key(m) => concat("SSH key error: ", m.as_str()),
            SshError::Serial(m) => concat("Serial error: ", m.as_str()),
            SshError::Io(m) => concat("IO error: ", m.as_str()),
        }
    }
}

// ───────────────────────── macro payloads ─────────────────────────

/// A line without its trailing carriage return.
pub open spec fn strip_cr(l: Seq<char>) -> Seq<char> {
    if l.len() > 0 && l.last() == '\r' {
        l.drop_last()
    } else {
        l
    }
}

/// The payload of the first `k` lines: each non-empty line (without a
/// trailing `\r`) followed by `\r`.
pub open spec fn payload_upto(lines: Seq<Seq<char>>, k: int) -> Seq<char>
    decreases k,
{
    if k <= 0 {
        Seq::empty()
    } else {
        let l = strip_cr(lines[k - 1]);
        payload_upto(lines, k - 1) + if l.len() == 0 {
            Seq::empty()
        } else {
            l.push('\r')
        }
    }
}

/// What a macro's `send` transmits: every non-empty line, terminated by `\r`.
pub open spec fn spec_macro_payload(send: Seq<char>) -> Seq<char> {
    payload_upto(split_char(send, '\n'), split_char(send, '\n').len() as int)
}

/// Turn a macro's `send` (possibly several lines) into the text to transmit:
/// each non-empty line terminated by `\r` (Enter).
pub fn macro_payload(send: &str) -> (r: String)
    ensures
        r@ == spec_macro_payload(send@),
{
    let lines = split_on(send, '\n');
    let ghost lv = lines.deep_view();
    let mut out = String::new();
    let mut i: usize = 0;
    while i < lines.len()
        invariant
            0 <= i <= lines@.len(),
            lv == lines.deep_view(),
            out@ == payload_upto(lv, i as int),
        decreases lines@.len() - i,
    {
        let mut cs = crate::text::chars_of(lines[i].as_str());
        let n = cs.len();
        if n > 0 && cs[n - 1] == '\r' {
            cs.pop();
        }
        proof {
            assert(cs@ == strip_cr(lv[i as int]));
        }
        if cs.len() > 0 {
            cs.push('\r');
            let piece = string_from_chars(cs.as_slice());
            out.append(piece.as_str());
        } else {
            assert(out@ =~= out@ + Seq::<char>::empty());
        }
        i = i + 1;
    }
    out
}

proof fn lemma_payload_upto_shape(lines: Seq<Seq<char>>, k: int)
    requires
        0 <= k <= lines.len(),
        forall|i: int| 0 <= i < lines.len() ==> !(#[trigger] lines[i]).contains('\n'),
    ensures
        !payload_upto(lines, k).contains('\n'),
        payload_upto(lines, k).len() == 0 || payload_upto(lines, k).last() == '\r',
    decreases k,
{
    if k > 0 {
        lemma_payload_upto_shape(lines, k - 1);
        let prev = payload_upto(lines, k - 1);
        let line = lines[k - 1];
        let l = strip_cr(line);
        let piece = if l.len() == 0 {
            Seq::<char>::empty()
        } else {
            l.push('\r')
        };
        assert(payload_upto(lines, k) == prev + piece);
        assert(!line.contains('\n'));
        if (prev + piece).contains('\n') {
            let j = choose|j: int| 0 <= j < (prev + piece).len() && (prev + piece)[j] == '\n';
            if j < prev.len() {
                assert(prev[j] == '\n');
            } else {
                let m = j - prev.len();
                if m < l.len() {
                    assert(l[m] == line[m]);
                } else {
                    assert(piece[m] == '\r');
                }
            }
        }
        if piece.len() > 0 {
            assert((prev + piece).last() == piece.last());
        } else {
            assert(prev + piece =~= prev);
        }
    }
}

/// A macro payload never holds a line feed, and each line it sends is closed
/// by a carriage return: it is empty or ends with `\r`.
pub proof fn lemma_payload_shape(send: Seq<char>)
    ensures
        !spec_macro_payload(send).contains('\n'),
        spec_macro_payload(send).len() == 0 || spec_macro_payload(send).last() == '\r',
{
    crate::text::lemma_split_char_pieces(send, '\n');
    let lines = split_char(send, '\n');
    lemma_payload_upto_shape(lines, lines.len() as int);
}

proof fn lemma_payload_upto_concat(a: Seq<Seq<char>>, b: Seq<Seq<char>>, k: int)
    requires
        0 <= k <= b.len(),
    ensures
        payload_upto(a + b, a.len() + k) == payload_upto(a, a.len() as int) + payload_upto(b, k),
    decreases k,
{
    if k == 0 {
        assert forall|j: int| 0 <= j <= a.len() implies payload_upto(a + b, j) == payload_upto(a, j) by {
            lemma_payload_upto_prefix(a, b, j);
        }
        assert(payload_upto(b, 0) =~= Seq::<char>::empty());
        assert(payload_upto(a, a.len() as int) + payload_upto(b, 0) =~= payload_upto(a, a.len() as int));
    } else {
        lemma_payload_upto_concat(a, b, k - 1);
        assert((a + b)[a.len() + k - 1] == b[k - 1]);
    }
}

proof fn lemma_payload_upto_prefix(a: Seq<Seq<char>>, b: Seq<Seq<char>>, j: int)
    requires
        0 <= j <= a.len(),
    ensures
        payload_upto(a + b, j) == payload_upto(a, j),
    decreases j,
{
    if j > 0 {
        lemma_payload_upto_prefix(a, b, j - 1);
        assert((a + b)[j - 1] == a[j - 1]);
    }
}

/// Sending two texts joined by a line break sends each in turn: every line of
/// the first (its last one included), then every line of the second.
pub proof fn lemma_payload_join(a: Seq<char>, b: Seq<char>)
    ensures
        spec_macro_payload(a + seq!['\n'] + b) == spec_macro_payload(a) + spec_macro_payload(b),
{
    let an = a.push('\n');
    assert(a + seq!['\n'] + b =~= an + b);
    crate::text::lemma_split_char_append(an, b, '\n');
    assert(an.drop_last() =~= a);
    assert(split_char(an, '\n') == split_char(a, '\n').push(Seq::empty()));
    assert(split_char(an, '\n').drop_last() =~= split_char(a, '\n'));
    let la = split_char(a, '\n');
    let lb = split_char(b, '\n');
    assert(split_char(an + b, '\n') == la + lb);
    lemma_payload_upto_concat(la, lb, lb.len() as int);
}

/// A one-line macro is sent as that line followed by a carriage return.
pub proof fn lemma_single_line_payload(send: Seq<char>)
    requires
        send.len() > 0,
        !send.contains('\n'),
        send.last() != '\r',
    ensures
        spec_macro_payload(send) == send.push('\r'),
{
    crate::text::lemma_split_char_whole(send, '\n');
    let lines = split_char(send, '\n');
    assert(lines[0] == send);
    assert(strip_cr(send) == send);
    assert(payload_upto(lines, 0) =~= Seq::<char>::empty());
    assert(payload_upto(lines, 1) =~= send.push('\r'));
}

// ───────────────────────── expect rules ─────────────────────────

/// What an expect rule sends when its pattern matches.
#[derive(Debug)]
pub enum Response {
    /// Literal text to transmit verbatim.
    Literal(String),
    /// Keyring reference; the password is read at send time.
    Credential(String),
}

/// A compiled expect rule with its armed state.
#[derive(Debug)]
pub struct Automation {
    pub re: CompiledRegex,
    pub response: Response,
    pub once: bool,
    pub fired: bool,
}

/// What compiling rule `e` gives: the response (literal or credential) or the
/// error text.
pub open spec fn spec_build_automation(
    pattern: Seq<char>,
    send: Option<Seq<char>>,
    cred: Option<Seq<char>>,
) -> Result<(bool, Seq<char>), Seq<char>> {
    match regex_new_error(pattern) {
        Some(err) => Err("invalid regex `"@ + pattern + "`: "@ + err),
        None => match (send, cred) {
            (Some(t), None) => Ok((true, t)),
            (None, Some(r)) => Ok((false, r)),
            (Some(_), Some(_)) => Err("expect `"@ + pattern + "` sets both `send` and `send_credential`"@),
            (None, None) => Err("expect `"@ + pattern + "` has neither `send` nor `send_credential`"@),
        },
    }
}

/// The response as (is-literal, text).
pub open spec fn response_view(r: Response) -> (bool, Seq<char>) {
    match r {
        Response::Literal(t) => (true, t@),
        Response::Credential(c) => (false, c@),
    }
}

/// Compile a single expect rule into a runnable, armed automation: its pattern
/// must compile and exactly one of `send` / `send_credential` must be set.
pub fn build_single_automation(e: &Expect) -> (r: Result<Automation, SshError>)
    ensures
        match spec_build_automation(e.pattern@, e.send.deep_view(), e.send_credential.deep_view()) {
            Ok(resp) => r matches Ok(a) && a.re@ == e.pattern@ && response_view(a.response) == resp
                && a.once == e.once && !a.fired,
            Err(m) => r matches Err(SshError::Automation(x)) && x@ == m,
        },
{
    let re = match CompiledRegex::compile(e.pattern.as_str()) {
        Ok(re) => re,
        Err(err) => {
            let a = concat("invalid regex `", e.pattern.as_str());
            let b = concat(a.as_str(), "`: ");
            return Err(SshError::Automation(concat(b.as_str(), err.as_str())));
        },
    };
    let response = match (&e.send, &e.send_credential) {
        (Some(text), None) => Response::Literal(text.clone()),
        (None, Some(reference)) => Response::Credential(reference.clone()),
        (Some(_), Some(_)) => {
            let a = concat("expect `", e.pattern.as_str());
            return Err(SshError::Automation(concat(a.as_str(), "` sets both `send` and `send_credential`")));
        },
        (None, None) => {
            let a = concat("expect `", e.pattern.as_str());
            return Err(SshError::Automation(concat(a.as_str(), "` has neither `send` nor `send_credential`")));
        },
    };
    Ok(Automation { re, response, once: e.once, fired: false })
}

/// Compile expect rules into runnable automations; the first failing rule's
/// error is returned.
pub fn build_automations(expects: &Vec<Expect>) -> (r: Result<Vec<Automation>, SshError>)
    ensures
        match r {
            Ok(v) => v@.len() == expects@.len() && forall|i: int| 0 <= i < v@.len() ==> {
                let e = #[trigger] expects@[i];
                &&& spec_build_automation(e.pattern@, e.send.deep_view(), e.send_credential.deep_view())
                    == Ok::<(bool, Seq<char>), Seq<char>>(response_view(v@[i].response))
                &&& v@[i].re@ == e.pattern@
                &&& v@[i].once == e.once
                &&& !v@[i].fired
            },
            Err(SshError::Automation(m)) => exists|i: int| 0 <= i < expects@.len() && {
                let e = #[trigger] expects@[i];
                &&& spec_build_automation(e.pattern@, e.send.deep_view(), e.send_credential.deep_view())
                    == Err::<(bool, Seq<char>), Seq<char>>(m@)
                &&& forall|j: int| 0 <= j < i ==> (#[trigger] spec_build_automation(
                    expects@[j].pattern@,
                    expects@[j].send.deep_view(),
                    expects@[j].send_credential.deep_view(),
                )) is Ok
            },
            Err(_) => false,
        },
{
    let mut out: Vec<Automation> = Vec::new();
    let mut i: usize = 0;
    while i < expects.len()
        invariant
            0 <= i <= expects@.len(),
            out@.len() == i,
            forall|k: int| 0 <= k < i ==> {
                let e = #[trigger] expects@[k];
                &&& spec_build_automation(e.pattern@, e.send.deep_view(), e.send_credential.deep_view())
                    == Ok::<(bool, Seq<char>), Seq<char>>(response_view(out@[k].response))
                &&& out@[k].re@ == e.pattern@
                &&& out@[k].once == e.once
                &&& !out@[k].fired
            },
        decreases expects@.len() - i,
    {
        match build_single_automation(&expects[i]) {
            Ok(a) => {
                out.push(a);
            },
            Err(e) => {
                proof {
                    assert forall|j: int| 0 <= j < i implies (#[trigger] spec_build_automation(
                        expects@[j].pattern@,
                        expects@[j].send.deep_view(),
                        expects@[j].send_credential.deep_view(),
                    )) is Ok by {
                        let e2 = expects@[j];
                        assert(spec_build_automation(e2.pattern@, e2.send.deep_view(), e2.send_credential.deep_view())
                            == Ok::<(bool, Seq<char>), Seq<char>>(response_view(out@[j].response)));
                    }
                }
                return Err(e);
            },
        }
        i = i + 1;
    }
    Ok(out)
}

impl Automation {
    /// Record what happened after the rule matched: a response that could not be
    /// delivered (e.g. a missing keyring entry) disarms the rule so it is never
    /// retried; a delivered one disarms it when it fires only once.
    pub fn record_delivery(&mut self, delivered: bool)
        ensures
            final(self).fired == (old(self).fired || !delivered || old(self).once),
            final(self).once == old(self).once,
            final(self).re == old(self).re,
            final(self).response == old(self).response,
    {
        if !delivered || self.once {
            self.fired = true;
        }
    }
}

// ───────────────────────── scanning the output ─────────────────────────

/// `String::from_utf8_lossy`: the bytes decoded as UTF-8, with each invalid
/// sequence replaced by U+FFFD.
pub uninterp spec fn lossy_decode(bytes: Seq<u8>) -> Seq<char>;

/// Calls `String::from_utf8_lossy`; the result is named [`lossy_decode`]. The
/// documentation states that valid UTF-8 is decoded unchanged.
#[verifier::external_body]
pub fn utf8_lossy(bytes: &[u8]) -> (r: String)
    ensures
        r@ == lossy_decode(bytes@),
        valid_utf8(bytes@) ==> r@ == decode_utf8(bytes@),
{
    String::from_utf8_lossy(bytes).into_owned()
}

/// The number of bytes `c` takes in UTF-8.
pub open spec fn char_len(c: char) -> nat {
    if (c as u32) < 0x80 {
        1
    } else if (c as u32) < 0x800 {
        2
    } else if (c as u32) < 0x10000 {
        3
    } else {
        4
    }
}

/// The UTF-8 length of `s` in bytes.
pub open spec fn utf8_len(s: Seq<char>) -> nat
    decreases s.len(),
{
    if s.len() == 0 {
        0
    } else {
        char_len(s[0]) + utf8_len(s.drop_first())
    }
}

/// The longest suffix of `s` that fits in `cap` bytes.
pub open spec fn keep_tail(s: Seq<char>, cap: nat) -> Seq<char>
    decreases s.len(),
{
    if utf8_len(s) <= cap || s.len() == 0 {
        s
    } else {
        keep_tail(s.drop_first(), cap)
    }
}

fn char_len_exec(c: char) -> (r: usize)
    ensures
        r == char_len(c),
{
    let u = c as u32;
    if u < 0x80 {
        1
    } else if u < 0x800 {
        2
    } else if u < 0x10000 {
        3
    } else {
        4
    }
}

proof fn lemma_utf8_len_bound(s: Seq<char>)
    ensures
        utf8_len(s) <= 4 * s.len(),
    decreases s.len(),
{
    if s.len() > 0 {
        lemma_utf8_len_bound(s.drop_first());
    }
}

/// The first `k` automations have all fired.
pub open spec fn all_fired_upto(autos: Seq<Automation>, k: int) -> bool {
    forall|i: int| 0 <= i < k ==> (#[trigger] autos[i]).fired
}

/// The first armed automation (at or after `k`) whose pattern matches `text`.
pub open spec fn first_armed_match(autos: Seq<Automation>, text: Seq<char>, k: int) -> Option<int>
    decreases autos.len() - k,
{
    if k < 0 || k >= autos.len() {
        None
    } else if !autos[k].fired && regex_is_match(autos[k].re@, text) {
        Some(k)
    } else {
        first_armed_match(autos, text, k + 1)
    }
}

/// The rule a scan picks is armed and its pattern matches the text; so a rule
/// that has fired is never picked again, whatever the output.
pub proof fn lemma_scan_picks_armed(autos: Seq<Automation>, text: Seq<char>, k: int)
    requires
        0 <= k,
    ensures
        first_armed_match(autos, text, k) matches Some(i) ==> k <= i < autos.len() && !autos[i].fired
            && regex_is_match(autos[i].re@, text),
    decreases autos.len() - k,
{
    if k < autos.len() && !(!autos[k].fired && regex_is_match(autos[k].re@, text)) {
        lemma_scan_picks_armed(autos, text, k + 1);
    }
}

/// What the scan buffer keeps fits in the cap and is the end of the text.
pub proof fn lemma_keep_tail_fits(s: Seq<char>, cap: nat)
    ensures
        utf8_len(keep_tail(s, cap)) <= cap,
        keep_tail(s, cap).len() <= s.len(),
        keep_tail(s, cap) == s.subrange(s.len() - keep_tail(s, cap).len(), s.len() as int),
    decreases s.len(),
{
    if utf8_len(s) <= cap || s.len() == 0 {
        if s.len() == 0 {
            assert(utf8_len(s) == 0);
        }
        assert(s.subrange(0, s.len() as int) =~= s);
    } else {
        lemma_keep_tail_fits(s.drop_first(), cap);
        let t = keep_tail(s.drop_first(), cap);
        assert(s.drop_first().subrange(s.drop_first().len() - t.len(), s.drop_first().len() as int) =~= s.subrange(
            s.len() - t.len(),
            s.len() as int,
        ));
    }
}

/// Feed a chunk of output to the expect engine. When every rule has fired,
/// nothing is done. Otherwise the chunk (decoded, invalid UTF-8 replaced) is
/// appended to the rolling buffer, which keeps only its last
/// [`SCAN_BUFFER_CAP`] bytes; the first armed rule whose pattern matches the
/// buffer is returned and the buffer is cleared, so the same prompt is not
/// answered twice. The caller then sends the rule's response and reports the
/// delivery with [`Automation::record_delivery`].
pub fn scan_output(data: &[u8], scan_buf: &mut String, automations: &Vec<Automation>) -> (r: Option<usize>)
    ensures
        all_fired_upto(automations@, automations@.len() as int) ==> r is None && final(scan_buf)@ == old(scan_buf)@,
        !all_fired_upto(automations@, automations@.len() as int) ==> ({
            let text = keep_tail(old(scan_buf)@ + lossy_decode(data@), SCAN_BUFFER_CAP as nat);
            &&& r == (match first_armed_match(automations@, text, 0) {
                Some(i) => Some(i as usize),
                None => None,
            })
            &&& r is Some ==> final(scan_buf)@.len() == 0
            &&& r is None ==> final(scan_buf)@ == text
        }),
{
    let mut k: usize = 0;
    while k < automations.len() && automations[k].fired
        invariant
            0 <= k <= automations@.len(),
            all_fired_upto(automations@, k as int),
        decreases automations@.len() - k,
    {
        k = k + 1;
    }
    if k == automations.len() {
        return None;
    }
    proof {
        assert(!automations@[k as int].fired);
    }
    let chunk = utf8_lossy(data);
    let mut cs = crate::text::chars_of(scan_buf.as_str());
    let more = crate::text::chars_of(chunk.as_str());
    let ghost joined = scan_buf@ + chunk@;
    let mut j: usize = 0;
    while j < more.len()
        invariant
            0 <= j <= more@.len(),
            cs@ == scan_buf@ + more@.take(j as int),
            more@ == chunk@,
        decreases more@.len() - j,
    {
        cs.push(more[j]);
        j = j + 1;
        assert(cs@ =~= scan_buf@ + more@.take(j as int));
    }
    assert(more@.take(more@.len() as int) =~= more@);
    // Total UTF-8 size, then drop chars from the front until it fits.
    let mut total: u128 = 0;
    let mut t: usize = cs.len();
    proof {
        lemma_utf8_len_bound(cs@);
        assert(cs@.subrange(cs@.len() as int, cs@.len() as int) =~= Seq::<char>::empty());
    }
    while t > 0
        invariant
            0 <= t <= cs@.len(),
            total == utf8_len(cs@.subrange(t as int, cs@.len() as int)),
            total <= 4 * (cs@.len() - t),
        decreases t,
    {
        let c = cs[t - 1];
        proof {
            assert(cs@.subrange(t - 1, cs@.len() as int).drop_first() =~= cs@.subrange(t as int, cs@.len() as int));
            assert(cs@.len() <= usize::MAX);
            assert(total + char_len(c) <= 4 * (cs@.len() - t) + 4);
            assert(4 * (cs@.len() - t) + 4 <= 4 * usize::MAX + 4);
        }
        total = total + char_len_exec(c) as u128;
        t = t - 1;
    }
    assert(cs@.subrange(0, cs@.len() as int) =~= cs@);
    let mut start: usize = 0;
    while total > SCAN_BUFFER_CAP as u128 && start < cs.len()
        invariant
            0 <= start <= cs@.len(),
            total == utf8_len(cs@.subrange(start as int, cs@.len() as int)),
            keep_tail(cs@, SCAN_BUFFER_CAP as nat) == keep_tail(cs@.subrange(start as int, cs@.len() as int), SCAN_BUFFER_CAP as nat),
        decreases cs@.len() - start,
    {
        proof {
            assert(cs@.subrange(start as int, cs@.len() as int).drop_first() =~= cs@.subrange(start + 1, cs@.len() as int));
        }
        total = total - char_len_exec(cs[start]) as u128;
        start = start + 1;
    }
    let kept = crate::text::suffix_string(&cs, start);
    proof {
        let sub = cs@.subrange(start as int, cs@.len() as int);
        if start == cs@.len() {
            assert(sub.len() == 0);
        }
        assert(keep_tail(sub, SCAN_BUFFER_CAP as nat) == sub);
        assert(kept@ == keep_tail(joined, SCAN_BUFFER_CAP as nat));
    }
    *scan_buf = kept;
    let ghost text = scan_buf@;
    let mut i: usize = 0;
    while i < automations.len()
        invariant
            0 <= i <= automations@.len(),
            scan_buf@ == text,
            text == keep_tail(old(scan_buf)@ + lossy_decode(data@), SCAN_BUFFER_CAP as nat),
            first_armed_match(automations@, text, 0) == first_armed_match(automations@, text, i as int),
        decreases automations@.len() - i,
    {
        if !automations[i].fired && automations[i].re.is_match(scan_buf.as_str()) {
            *scan_buf = String::new();
            return Some(i);
        }
        i = i + 1;
    }
    None
}

// ───────────────────────── stdin escape prefix ─────────────────────────

/// What a chunk typed on stdin asks for.
#[derive(Debug)]
pub enum StdinAction {
    /// No escape prefix: send the bytes as they are.
    Forward(Vec<u8>),
    /// The prefix twice: send `before`, a literal Ctrl+A, then `after`.
    Literal { before: Vec<u8>, after: Vec<u8> },
    /// The prefix once: send `before`, then open the macro picker with `seed` as
    /// the start of the query.
    Picker { before: Vec<u8>, seed: Vec<u8> },
}

/// The first position of `b` in `s`.
pub open spec fn first_byte(s: Seq<u8>, b: u8, k: int) -> Option<int>
    decreases s.len() - k,
{
    if k < 0 || k >= s.len() {
        None
    } else if s[k] == b {
        Some(k)
    } else {
        first_byte(s, b, k + 1)
    }
}

fn copy_range(s: &[u8], from: usize, to: usize) -> (r: Vec<u8>)
    requires
        from <= to <= s@.len(),
    ensures
        r@ == s@.subrange(from as int, to as int),
{
    let mut v: Vec<u8> = Vec::new();
    let mut i = from;
    while i < to
        invariant
            from <= i <= to,
            to <= s@.len(),
            v@ == s@.subrange(from as int, i as int),
        decreases to - i,
    {
        v.push(s[i]);
        i = i + 1;
        assert(v@ =~= s@.subrange(from as int, i as int));
    }
    v
}

/// Split a chunk typed on stdin at the first escape prefix: no prefix forwards
/// the chunk; a doubled prefix sends a literal one; a single prefix opens the
/// macro picker, seeded with the bytes after it.
pub fn classify_stdin(bytes: &[u8]) -> (r: StdinAction)
    ensures
        match first_byte(bytes@, ESCAPE_PREFIX, 0) {
            None => r matches StdinAction::Forward(v) && v@ == bytes@,
            Some(p) => {
                let rest = bytes@.subrange(p + 1, bytes@.len() as int);
                if rest.len() > 0 && rest[0] == ESCAPE_PREFIX {
                    r matches StdinAction::Literal { before, after } && before@ == bytes@.subrange(0, p)
                        && after@ == rest.subrange(1, rest.len() as int)
                } else {
                    r matches StdinAction::Picker { before, seed } && before@ == bytes@.subrange(0, p)
                        && seed@ == rest
                }
            },
        },
{
    let n = bytes.len();
    let mut p: usize = 0;
    while p < n && bytes[p] != ESCAPE_PREFIX
        invariant
            0 <= p <= n,
            n == bytes@.len(),
            first_byte(bytes@, ESCAPE_PREFIX, 0) == first_byte(bytes@, ESCAPE_PREFIX, p as int),
        decreases n - p,
    {
        p = p + 1;
    }
    if p == n {
        let all = copy_range(bytes, 0, n);
        assert(bytes@.subrange(0, n as int) =~= bytes@);
        return StdinAction::Forward(all);
    }
    let before = copy_range(bytes, 0, p);
    if p + 1 < n && bytes[p + 1] == ESCAPE_PREFIX {
        let after = copy_range(bytes, p + 2, n);
        proof {
            let rest = bytes@.subrange(p + 1, n as int);
            assert(rest.subrange(1, rest.len() as int) =~= bytes@.subrange(p + 2, n as int));
        }
        StdinAction::Literal { before, after }
    } else {
        let seed = copy_range(bytes, p + 1, n);
        StdinAction::Picker { before, seed }
    }
}

/// The macro with `key`, if any (the first one).
pub open spec fn find_macro(macros: Seq<Macro>, key: Seq<char>, k: int) -> Option<int>
    decreases macros.len() - k,
{
    if k < 0 || k >= macros.len() {
        None
    } else if macros[k].key@ == key {
        Some(k)
    } else {
        find_macro(macros, key, k + 1)
    }
}

/// An automation as plain values: pattern, response, once, fired.
pub open spec fn auto_view(a: Automation) -> (Seq<char>, (bool, Seq<char>), bool, bool) {
    (a.re@, response_view(a.response), a.once, a.fired)
}

/// The rules armed from the first `k` expects: those that compile, in order,
/// not yet fired.
pub open spec fn armed_upto(expects: Seq<Expect>, k: int) -> Seq<(Seq<char>, (bool, Seq<char>), bool, bool)>
    decreases k,
{
    if k <= 0 {
        Seq::empty()
    } else {
        let e = expects[k - 1];
        match spec_build_automation(e.pattern@, e.send.deep_view(), e.send_credential.deep_view()) {
            Ok(resp) => armed_upto(expects, k - 1).push((e.pattern@, resp, e.once, false)),
            Err(_) => armed_upto(expects, k - 1),
        }
    }
}

/// Running the macro `key` picked in the session: its expect rules that compile
/// are armed (appended to `automations`, in order; the others are skipped) and
/// its payload is returned (`None` when there is no such macro).
pub fn run_macro(macros: &Vec<Macro>, key: &str, automations: &mut Vec<Automation>) -> (r: Option<String>)
    ensures
        match find_macro(macros@, key@, 0) {
            None => r is None && final(automations)@ == old(automations)@,
            Some(i) => {
                let n = old(automations)@.len() as int;
                &&& r matches Some(p) && p@ == spec_macro_payload(macros@[i].send@)
                &&& final(automations)@.len() >= n
                &&& final(automations)@.subrange(0, n) == old(automations)@
                &&& final(automations)@.subrange(n, final(automations)@.len() as int).map_values(
                    |a: Automation| auto_view(a),
                ) == armed_upto(macros@[i].expects@, macros@[i].expects@.len() as int)
            },
        },
{
    let mut i: usize = 0;
    while i < macros.len() && !str_eq(macros[i].key.as_str(), key)
        invariant
            0 <= i <= macros@.len(),
            find_macro(macros@, key@, 0) == find_macro(macros@, key@, i as int),
        decreases macros@.len() - i,
    {
        i = i + 1;
    }
    if i == macros.len() {
        return None;
    }
    let m = &macros[i];
    let ghost before = automations@;
    let ghost n = before.len() as int;
    let mut j: usize = 0;
    proof {
        assert(automations@.subrange(n, automations@.len() as int).map_values(|a: Automation| auto_view(a))
            =~= armed_upto(m.expects@, 0));
    }
    while j < m.expects.len()
        invariant
            0 <= j <= m.expects@.len(),
            n == before.len(),
            automations@.len() >= n,
            automations@.subrange(0, n) == before,
            automations@.subrange(n, automations@.len() as int).map_values(|a: Automation| auto_view(a))
                == armed_upto(m.expects@, j as int),
        decreases m.expects@.len() - j,
    {
        match build_single_automation(&m.expects[j]) {
            Ok(a) => {
                let ghost prev = automations@;
                automations.push(a);
                assert(automations@.subrange(0, n) =~= prev.subrange(0, n));
                assert(automations@.subrange(n, automations@.len() as int) =~= prev.subrange(n, prev.len() as int).push(a));
                assert(automations@.subrange(n, automations@.len() as int).map_values(|x: Automation| auto_view(x))
                    =~= prev.subrange(n, prev.len() as int).map_values(|x: Automation| auto_view(x)).push(auto_view(a)));
            },
            Err(_) => {},
        }
        j = j + 1;
    }
    Some(macro_payload(m.send.as_str()))
}

// ───────────────────────── what the session prints and sends ─────────────────────────

/// A local status line, framed so it reads well in raw mode.
pub fn notice(msg: &str) -> (r: String)
    ensures
        r@ == "\r\n[gukab] "@ + msg@ + "\r\n"@,
{
    let a = concat("\r\n[gukab] ", msg);
    concat(a.as_str(), "\r\n")
}

/// The notice for a rule whose response could not be had (it is disarmed).
pub fn skipped_notice(err: &SshError) -> (r: String)
    ensures
        r@ == "\r\n[gukab] "@ + ("automation skipped ("@ + err.text() + "); answer the prompt manually."@)
            + "\r\n"@,
{
    let m = err.message();
    let a = concat("automation skipped (", m.as_str());
    let b = concat(a.as_str(), "); answer the prompt manually.");
    notice(b.as_str())
}

/// The notice after the baud rate was changed.
pub fn baud_notice(n: u32) -> (r: String)
    ensures
        r@ == "\r\n[gukab] "@ + ("baud → "@ + crate::text::decimal(n as nat)) + "\r\n"@,
{
    let d = crate::text::decimal_string(n as u64);
    let a = concat("baud → ", d.as_str());
    notice(a.as_str())
}

/// What an expect rule transmits for its response text: the text and a line
/// feed.
pub fn response_payload(text: &str) -> (r: String)
    ensures
        r@ == text@ + "\n"@,
{
    concat(text, "\n")
}

} // verus!
