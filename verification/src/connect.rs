//! What opening an SSH session decides before and around the link itself: the
//! host's identity in the key store, the macros and expect rules of the
//! session, the on-connect macros to send, the order of the authentication
//! methods and how keyboard-interactive prompts are answered, and the messages
//! about the private key.

use vstd::prelude::*;
use crate::config::{copy_expects, Expect, ExpectView, Host, Macro, MacroView};
use crate::session::{macro_payload, spec_macro_payload, SshError};
use crate::text::{chars_of, concat, decimal, decimal_string, str_eq, str_lowercase, to_lowercase, trim, trim_str};

verus! {

/// `hostname:port`, the host's identity in the known-hosts store.
pub fn host_id(hostname: &str, port: u16) -> (r: String)
    ensures
        r@ == hostname@ + ":"@ + decimal(port as nat),
{
    let a = concat(hostname, ":");
    let p = decimal_string(port as u64);
    concat(a.as_str(), p.as_str())
}

/// The macros of a session with `host`: the global ones, then the host's own.
pub fn session_macros(global: &Vec<Macro>, host: &Host) -> (r: Vec<Macro>)
    ensures
        r.deep_view() == global.deep_view() + host.macros.deep_view(),
{
    let mut out: Vec<Macro> = Vec::new();
    let mut i: usize = 0;
    while i < global.len()
        invariant
            0 <= i <= global@.len(),
            out@.len() == i,
            forall|k: int| 0 <= k < i ==> #[trigger] out@[k].deep_view() == global@[k].deep_view(),
        decreases global@.len() - i,
    {
        out.push(global[i].duplicate());
        i = i + 1;
    }
    let n = global.len();
    let mut j: usize = 0;
    while j < host.macros.len()
        invariant
            0 <= j <= host.macros@.len(),
            n == global@.len(),
            out@.len() == n + j,
            forall|k: int| 0 <= k < n ==> #[trigger] out@[k].deep_view() == global@[k].deep_view(),
            forall|k: int| 0 <= k < j ==> #[trigger] out@[n + k].deep_view() == host.macros@[k].deep_view(),
        decreases host.macros@.len() - j,
    {
        out.push(host.macros[j].duplicate());
        j = j + 1;
    }
    assert forall|k: int| 0 <= k < out@.len() implies #[trigger] out.deep_view()[k] == (global.deep_view()
        + host.macros.deep_view())[k] by {
        if k >= n {
            assert(out@[n + (k - n)].deep_view() == host.macros@[k - n].deep_view());
        }
    }
    assert(out.deep_view() =~= global.deep_view() + host.macros.deep_view());
    out
}

/// The first macro at or after `k` whose key is `key`.
pub open spec fn macro_with_key(ms: Seq<MacroView>, key: Seq<char>, k: int) -> Option<int>
    decreases ms.len() - k,
{
    if k < 0 || k >= ms.len() {
        None
    } else if ms[k].key == key {
        Some(k)
    } else {
        macro_with_key(ms, key, k + 1)
    }
}

proof fn lemma_macro_with_key(ms: Seq<MacroView>, key: Seq<char>, k: int)
    requires
        0 <= k,
    ensures
        macro_with_key(ms, key, k) matches Some(i) ==> k <= i < ms.len() && ms[i].key == key,
    decreases ms.len() - k,
{
    if k < ms.len() && ms[k].key != key {
        lemma_macro_with_key(ms, key, k + 1);
    }
}

fn find_key(macros: &Vec<Macro>, key: &str) -> (r: Option<usize>)
    ensures
        r matches Some(i) ==> i < macros@.len() && macro_with_key(macros.deep_view(), key@, 0) == Some(i as int),
        r is None ==> macro_with_key(macros.deep_view(), key@, 0) is None,
{
    let ghost mv = macros.deep_view();
    proof {
        lemma_macro_with_key(mv, key@, 0);
    }
    let mut i: usize = 0;
    while i < macros.len()
        invariant
            0 <= i <= macros@.len(),
            mv == macros.deep_view(),
            macro_with_key(mv, key@, 0) == macro_with_key(mv, key@, i as int),
        decreases macros@.len() - i,
    {
        if str_eq(macros[i].key.as_str(), key) {
            assert(mv[i as int].key == macros@[i as int].key@);
            return Some(i);
        }
        i = i + 1;
    }
    None
}

/// The expect rules contributed by the first `k` on-connect macros: each
/// known macro's own rules, in order.
pub open spec fn on_connect_expects(ms: Seq<MacroView>, keys: Seq<Seq<char>>, k: int) -> Seq<ExpectView>
    decreases k,
{
    if k <= 0 {
        Seq::empty()
    } else {
        on_connect_expects(ms, keys, k - 1) + match macro_with_key(ms, keys[k - 1], 0) {
            Some(i) => ms[i].expects,
            None => Seq::empty(),
        }
    }
}

/// The expect rules armed for a session with `host`: the host's own, then
/// those of each macro it runs on connect (a rule belongs to the macro that
/// needs it, so nothing fires on a host that runs none).
pub fn session_expects(macros: &Vec<Macro>, host: &Host) -> (r: Vec<Expect>)
    ensures
        r.deep_view() == host.expects.deep_view() + on_connect_expects(
            macros.deep_view(),
            host.on_connect.deep_view(),
            host.on_connect@.len() as int,
        ),
{
    let ghost mv = macros.deep_view();
    let ghost keys = host.on_connect.deep_view();
    let mut out = copy_expects(&host.expects);
    let mut k: usize = 0;
    proof {
        assert(host.expects.deep_view() + on_connect_expects(mv, keys, 0) =~= host.expects.deep_view());
    }
    while k < host.on_connect.len()
        invariant
            0 <= k <= host.on_connect@.len(),
            mv == macros.deep_view(),
            keys == host.on_connect.deep_view(),
            out.deep_view() == host.expects.deep_view() + on_connect_expects(mv, keys, k as int),
        decreases host.on_connect@.len() - k,
    {
        assert(keys[k as int] == host.on_connect@[k as int]@);
        proof {
            lemma_macro_with_key(mv, keys[k as int], 0);
        }
        match find_key(macros, host.on_connect[k].as_str()) {
            Some(i) => {
                let es = &macros[i].expects;
                let ghost before = out.deep_view();
                let m = out.len();
                let mut j: usize = 0;
                while j < es.len()
                    invariant
                        0 <= j <= es@.len(),
                        m == before.len(),
                        out@.len() == m + j,
                        forall|q: int| 0 <= q < m ==> #[trigger] out@[q].deep_view() == before[q],
                        forall|q: int| 0 <= q < j ==> #[trigger] out@[m + q].deep_view() == es@[q].deep_view(),
                    decreases es@.len() - j,
                {
                    out.push(es[j].duplicate());
                    j = j + 1;
                }
                assert forall|q: int| 0 <= q < out@.len() implies #[trigger] out.deep_view()[q] == (before
                    + es.deep_view())[q] by {
                    if q >= m {
                        assert(out@[m + (q - m)].deep_view() == es@[q - m].deep_view());
                    }
                }
                assert(out.deep_view() =~= before + es.deep_view());
                assert(mv[i as int].expects == es.deep_view());
                assert(out.deep_view() =~= host.expects.deep_view() + on_connect_expects(mv, keys, k + 1));
            },
            None => {
                assert(out.deep_view() =~= host.expects.deep_view() + on_connect_expects(mv, keys, k + 1));
            },
        }
        k = k + 1;
    }
    out
}

/// What connecting does for one on-connect macro key.
#[derive(Debug)]
pub enum OnConnect {
    /// Send this payload once the shell is open.
    Send(String),
    /// No macro has this key (reported, then skipped).
    Unknown(String),
}

/// An on-connect step as plain values.
pub enum OnConnectView {
    Send(Seq<char>),
    Unknown(Seq<char>),
}

pub open spec fn on_connect_view(s: OnConnect) -> OnConnectView {
    match s {
        OnConnect::Send(p) => OnConnectView::Send(p@),
        OnConnect::Unknown(k) => OnConnectView::Unknown(k@),
    }
}

/// The steps for the first `k` on-connect keys: a known macro sends its
/// payload (nothing when the payload is empty); an unknown key is reported.
pub open spec fn on_connect_upto(ms: Seq<MacroView>, keys: Seq<Seq<char>>, k: int) -> Seq<OnConnectView>
    decreases k,
{
    if k <= 0 {
        Seq::empty()
    } else {
        let prev = on_connect_upto(ms, keys, k - 1);
        match macro_with_key(ms, keys[k - 1], 0) {
            Some(i) => if spec_macro_payload(ms[i].send).len() > 0 {
                prev.push(OnConnectView::Send(spec_macro_payload(ms[i].send)))
            } else {
                prev
            },
            None => prev.push(OnConnectView::Unknown(keys[k - 1])),
        }
    }
}

/// The on-connect macros of `host`, in order (see [`on_connect_upto`]).
pub fn on_connect_steps(macros: &Vec<Macro>, host: &Host) -> (r: Vec<OnConnect>)
    ensures
        r@.map_values(|s: OnConnect| on_connect_view(s)) == on_connect_upto(
            macros.deep_view(),
            host.on_connect.deep_view(),
            host.on_connect@.len() as int,
        ),
{
    let ghost mv = macros.deep_view();
    let ghost keys = host.on_connect.deep_view();
    let mut out: Vec<OnConnect> = Vec::new();
    let mut k: usize = 0;
    while k < host.on_connect.len()
        invariant
            0 <= k <= host.on_connect@.len(),
            mv == macros.deep_view(),
            keys == host.on_connect.deep_view(),
            out@.map_values(|s: OnConnect| on_connect_view(s)) == on_connect_upto(mv, keys, k as int),
        decreases host.on_connect@.len() - k,
    {
        assert(keys[k as int] == host.on_connect@[k as int]@);
        proof {
            lemma_macro_with_key(mv, keys[k as int], 0);
        }
        let ghost before = out@;
        match find_key(macros, host.on_connect[k].as_str()) {
            Some(i) => {
                let payload = macro_payload(macros[i].send.as_str());
                assert(mv[i as int].send == macros@[i as int].send@);
                if payload.as_str().unicode_len() > 0 {
                    let step = OnConnect::Send(payload);
                    out.push(step);
                    assert(out@.map_values(|s: OnConnect| on_connect_view(s)) =~= before.map_values(
                        |s: OnConnect| on_connect_view(s),
                    ).push(on_connect_view(step)));
                } else {
                    assert(macro_with_key(mv, keys[k as int], 0) == Some(i as int));
                    assert(spec_macro_payload(mv[i as int].send).len() == 0);
                    assert(on_connect_upto(mv, keys, k + 1) == on_connect_upto(mv, keys, k as int));
                }
            },
            None => {
                let step = OnConnect::Unknown(host.on_connect[k].clone());
                out.push(step);
                assert(out@.map_values(|s: OnConnect| on_connect_view(s)) =~= before.map_values(
                    |s: OnConnect| on_connect_view(s),
                ).push(on_connect_view(step)));
            },
        }
        k = k + 1;
    }
    out
}

/// The label of the session's log folder: the host's name, or its address when
/// the name is blank.
pub fn session_log_label(host: &Host) -> (r: String)
    ensures
        r@ == (if trim(host.name@).len() == 0 {
            host.hostname@
        } else {
            host.name@
        }),
{
    let t = trim_str(host.name.as_str());
    if t.as_str().unicode_len() == 0 {
        host.hostname.clone()
    } else {
        host.name.clone()
    }
}

/// The keyring entry that holds the host's secret (the login password, or the
/// key's passphrase); `None` when the host names none, so the keyring is not
/// asked at all.
pub fn secret_ref(host: &Host) -> (r: Option<String>)
    ensures
        host.credential_ref@.len() == 0 <==> r is None,
        r matches Some(x) ==> x@ == host.credential_ref@,
{
    if host.credential_ref.as_str().unicode_len() == 0 {
        None
    } else {
        Some(host.credential_ref.clone())
    }
}

// ───────────────────────── authentication ─────────────────────────

/// An SSH authentication method.
#[derive(Clone, Copy, PartialEq, Eq, Structural, Debug)]
pub enum AuthMethod {
    PublicKey,
    Password,
    KeyboardInteractive,
    NoAuth,
}

/// The methods tried, in order, each only when the ones before failed: the
/// private key (when the host names one), the password and keyboard-interactive
/// with it (when a secret is at hand), and finally none (for devices that log
/// the user in over the shell).
pub open spec fn spec_auth_order(has_key: bool, has_secret: bool) -> Seq<AuthMethod> {
    (if has_key {
        seq![AuthMethod::PublicKey]
    } else {
        Seq::empty()
    }) + (if has_secret {
        seq![AuthMethod::Password, AuthMethod::KeyboardInteractive]
    } else {
        Seq::empty()
    }) + seq![AuthMethod::NoAuth]
}

/// The authentication methods to try, in order (see [`spec_auth_order`]).
pub fn auth_order(has_key: bool, has_secret: bool) -> (r: Vec<AuthMethod>)
    ensures
        r@ == spec_auth_order(has_key, has_secret),
{
    let mut v: Vec<AuthMethod> = Vec::new();
    if has_key {
        v.push(AuthMethod::PublicKey);
    }
    if has_secret {
        v.push(AuthMethod::Password);
        v.push(AuthMethod::KeyboardInteractive);
    }
    v.push(AuthMethod::NoAuth);
    assert(v@ =~= spec_auth_order(has_key, has_secret));
    v
}

/// Rounds of keyboard-interactive questions answered before giving up.
pub const KBD_INTERACTIVE_ROUNDS: usize = 16;

/// `sub` occurs in `s`.
pub open spec fn has_sub(s: Seq<char>, sub: Seq<char>) -> bool {
    exists|i: int| 0 <= i <= s.len() - sub.len() && #[trigger] s.subrange(i, i + sub.len()) == sub
}

fn contains_sub(s: &Vec<char>, sub: &Vec<char>) -> (r: bool)
    ensures
        r == has_sub(s@, sub@),
{
    if sub.len() > s.len() {
        return false;
    }
    let n = s.len();
    let last = n - sub.len();
    let mut i: usize = 0;
    while i <= last
        invariant
            n == s@.len(),
            sub@.len() <= s@.len(),
            last == s@.len() - sub@.len(),
            0 <= i <= last + 1,
            forall|k: int| 0 <= k < i ==> #[trigger] s@.subrange(k, k + sub@.len()) != sub@,
        decreases s@.len() - i,
    {
        let mut j: usize = 0;
        let mut matched = true;
        while j < sub.len()
            invariant
                0 <= j <= sub@.len(),
                i <= last,
                n == s@.len(),
                last == n - sub@.len(),
                matched ==> forall|q: int| 0 <= q < j ==> s@[i + q] == sub@[q],
                !matched ==> exists|q: int| 0 <= q < sub@.len() && s@[i + q] != sub@[q],
            decreases sub@.len() - j,
        {
            let k = i + j;
            if s[k] != sub[j] {
                matched = false;
            }
            j = j + 1;
        }
        if matched {
            assert(s@.subrange(i as int, i + sub@.len()) =~= sub@);
            return true;
        }
        proof {
            let q = choose|q: int| 0 <= q < sub@.len() && s@[i + q] != sub@[q];
            assert(s@.subrange(i as int, i + sub@.len())[q] != sub@[q]);
        }
        if i == last {
            return false;
        }
        i = i + 1;
    }
    false
}

/// The answer to a keyboard-interactive prompt: the user name when the prompt
/// (lowercased) mentions `user` or `login`, the password otherwise.
pub fn prompt_answer(prompt: &str, user: &str, password: &str) -> (r: String)
    ensures
        r@ == (if has_sub(str_lowercase(prompt@), "user"@) || has_sub(str_lowercase(prompt@), "login"@) {
            user@
        } else {
            password@
        }),
{
    let label = to_lowercase(prompt);
    let cs = chars_of(label.as_str());
    let u = chars_of("user");
    let l = chars_of("login");
    if contains_sub(&cs, &u) || contains_sub(&cs, &l) {
        String::from_str(user)
    } else {
        String::from_str(password)
    }
}

// ───────────────────────── the private key ─────────────────────────

/// The octal digits of `n`, as `{:o}` writes them.
pub open spec fn octal(n: nat) -> Seq<char>
    decreases n,
{
    if n < 8 {
        seq![crate::text::digit_char(n)]
    } else {
        octal(n / 8).push(crate::text::digit_char(n % 8))
    }
}

fn octal_chars(n: u32) -> (r: Vec<char>)
    ensures
        r@ == octal(n as nat),
    decreases n,
{
    let d = (n % 8) as u8;
    let c = match d {
        0 => '0',
        1 => '1',
        2 => '2',
        3 => '3',
        4 => '4',
        5 => '5',
        6 => '6',
        _ => '7',
    };
    assert(c == crate::text::digit_char((n % 8) as nat));
    if n < 8 {
        let mut v: Vec<char> = Vec::new();
        v.push(c);
        assert(v@ =~= seq![crate::text::digit_char(n as nat)]);
        v
    } else {
        let mut v = octal_chars(n / 8);
        v.push(c);
        v
    }
}

/// The warning for a private key whose permission bits `mode` let the group or
/// others in (any of the low six bits set): it names the key and its mode (the
/// low nine bits, in octal). `None` for a key only its owner can use.
pub fn key_mode_warning(path: &str, mode: u32) -> (r: Option<String>)
    ensures
        mode % 64 == 0 <==> r is None,
        r matches Some(w) ==> w@ == "[gukab] WARNING: private key "@ + path@ + " is accessible by group/other (mode "@
            + octal((mode % 512) as nat) + "); recommend chmod 600."@,
{
    if mode % 64 == 0 {
        return None;
    }
    let a = concat("[gukab] WARNING: private key ", path);
    let b = concat(a.as_str(), " is accessible by group/other (mode ");
    let o = octal_chars(mode % 512);
    let os = crate::text::string_from_chars(o.as_slice());
    let c = concat(b.as_str(), os.as_str());
    Some(concat(c.as_str(), "); recommend chmod 600."))
}

/// The error for a private key file that does not exist.
pub fn key_not_found(path: &str) -> (r: SshError)
    ensures
        r matches SshError::Key(m) && m@ == "identity file not found: "@ + path@,
{
    SshError::Key(concat("identity file not found: ", path))
}

/// The error for a private key that could not be loaded: an encrypted key
/// without its passphrase gets a hint on where to store it; any other failure
/// names the key and the loader's `detail`.
pub fn key_load_error(path: &str, encrypted: bool, detail: &str) -> (r: SshError)
    ensures
        encrypted ==> (r matches SshError::Key(m) && m@ == "key "@ + path@
            + " is passphrase-protected — store the passphrase in the keyring (Ctrl+K) and set it as the host's credential ref"@),
        !encrypted ==> (r matches SshError::Key(m) && m@ == "cannot load key "@ + path@ + ": "@ + detail@),
{
    if encrypted {
        let a = concat("key ", path);
        SshError::Key(
            concat(
                a.as_str(),
                " is passphrase-protected — store the passphrase in the keyring (Ctrl+K) and set it as the host's credential ref",
            ),
        )
    } else {
        let a = concat("cannot load key ", path);
        let b = concat(a.as_str(), ": ");
        SshError::Key(concat(b.as_str(), detail))
    }
}

/// The passphrase to decrypt the key with: the secret, unless there is none or
/// it is empty.
pub fn key_passphrase(secret: &Option<String>) -> (r: Option<String>)
    ensures
        match secret {
            Some(s) => if s@.len() > 0 { r matches Some(p) && p@ == s@ } else { r is None },
            None => r is None,
        },
{
    match secret {
        Some(s) => if s.as_str().unicode_len() > 0 {
            Some(s.clone())
        } else {
            None
        },
        None => None,
    }
}

} // verus!
