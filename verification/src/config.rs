//! The configuration model: hosts, groups, macros, expect rules and settings, and
//! where their files live under the user's home directory.
//!
//! Reading and writing the TOML files is done by the application around this
//! library; here are the data types, their defaults, and the path rules (Unix
//! path joining, `~` / `$HOME` expansion).

use vstd::prelude::*;
use crate::text::{chars_of, concat, has_prefix, starts_with_chars, suffix_string, string_from_chars};

verus! {

/// One SSH host of the host list.
#[derive(Debug, Clone)]
pub struct Host {
    pub name: String,
    pub hostname: String,
    /// TCP port; 22 when the file leaves it out.
    pub port: u16,
    pub username: String,
    /// Keyring entry name of this host's secret (a login password or the
    /// passphrase of `identity_file`); may be empty.
    pub credential_ref: String,
    /// Path to a private key file; empty means password authentication.
    pub identity_file: String,
    /// The group this host belongs to; `None` means ungrouped.
    pub group: Option<String>,
    /// Named command shortcuts fired from the in-session macro picker.
    pub macros: Vec<Macro>,
    /// Regex-triggered auto-responses scanned against the session output.
    pub expects: Vec<Expect>,
    /// Macro keys run right after connecting.
    pub on_connect: Vec<String>,
}

/// A keyboard macro: `key` is what the user picks, `send` is transmitted
/// (line by line). Its `expects` are armed whenever the macro runs.
#[derive(Debug, Clone)]
pub struct Macro {
    pub key: String,
    pub send: String,
    pub expects: Vec<Expect>,
}

/// An expect rule: when `pattern` (a regex) matches the incoming output, send
/// either `send` or the keyring secret named `send_credential`, then a newline.
/// With `once` the rule disarms after it fired.
#[derive(Debug, Clone)]
pub struct Expect {
    pub pattern: String,
    pub send: Option<String>,
    pub send_credential: Option<String>,
    pub once: bool,
}

/// A host group with the icon shown on every host in it.
#[derive(Debug, Clone)]
pub struct Group {
    pub name: String,
    pub icon: String,
}

/// The global macros (`automations.toml`).
#[derive(Debug)]
pub struct Automations {
    pub macros: Vec<Macro>,
}

/// App preferences (`settings.toml`).
#[derive(Debug, Clone)]
pub struct Settings {
    pub notes: NotesSettings,
}

/// Preferences of the notes section.
#[derive(Debug, Clone)]
pub struct NotesSettings {
    /// Display label of the section header.
    pub label: String,
    /// Hide the section entirely.
    pub hidden: bool,
}

/// A failure reading or writing a configuration file, with the underlying
/// error's text.
#[derive(Debug)]
pub enum ConfigError {
    Io(String),
    Parse(String),
    Serialize(String),
}

/// What an expect rule holds, as plain values.
pub struct ExpectView {
    pub pattern: Seq<char>,
    pub send: Option<Seq<char>>,
    pub send_credential: Option<Seq<char>>,
    pub once: bool,
}

impl View for Expect {
    type V = ExpectView;

    open spec fn view(&self) -> ExpectView {
        ExpectView {
            pattern: self.pattern@,
            send: self.send.deep_view(),
            send_credential: self.send_credential.deep_view(),
            once: self.once,
        }
    }
}

impl DeepView for Expect {
    type V = ExpectView;

    open spec fn deep_view(&self) -> ExpectView {
        self@
    }
}

/// What a macro holds, as plain values.
pub struct MacroView {
    pub key: Seq<char>,
    pub send: Seq<char>,
    pub expects: Seq<ExpectView>,
}

impl View for Macro {
    type V = MacroView;

    open spec fn view(&self) -> MacroView {
        MacroView { key: self.key@, send: self.send@, expects: self.expects.deep_view() }
    }
}

impl DeepView for Macro {
    type V = MacroView;

    open spec fn deep_view(&self) -> MacroView {
        self@
    }
}

/// What a host entry holds, as plain values.
pub struct HostView {
    pub name: Seq<char>,
    pub hostname: Seq<char>,
    pub port: u16,
    pub username: Seq<char>,
    pub credential_ref: Seq<char>,
    pub identity_file: Seq<char>,
    pub group: Option<Seq<char>>,
    pub macros: Seq<MacroView>,
    pub expects: Seq<ExpectView>,
    pub on_connect: Seq<Seq<char>>,
}

impl View for Host {
    type V = HostView;

    open spec fn view(&self) -> HostView {
        HostView {
            name: self.name@,
            hostname: self.hostname@,
            port: self.port,
            username: self.username@,
            credential_ref: self.credential_ref@,
            identity_file: self.identity_file@,
            group: self.group.deep_view(),
            macros: self.macros.deep_view(),
            expects: self.expects.deep_view(),
            on_connect: self.on_connect.deep_view(),
        }
    }
}

impl DeepView for Host {
    type V = HostView;

    open spec fn deep_view(&self) -> HostView {
        self@
    }
}

/// A group as plain values.
pub struct GroupView {
    pub name: Seq<char>,
    pub icon: Seq<char>,
}

impl View for Group {
    type V = GroupView;

    open spec fn view(&self) -> GroupView {
        GroupView { name: self.name@, icon: self.icon@ }
    }
}

impl DeepView for Group {
    type V = GroupView;

    open spec fn deep_view(&self) -> GroupView {
        self@
    }
}

impl ConfigError {
    /// The user-facing text: `IO error: ..`, `TOML parse error: ..` or
    /// `TOML serialize error: ..`.
    pub fn message(&self) -> (r: String)
        ensures
            r@ == match self {
                ConfigError::Io(m) => "IO error: "@ + m@,
                ConfigError::Parse(m) => "TOML parse error: "@ + m@,
                ConfigError::Serialize(m) => "TOML serialize error: "@ + m@,
            },
    {
        match self {
            ConfigError::Io(m) => concat("IO error: ", m.as_str()),
            ConfigError::Parse(m) => concat("TOML parse error: ", m.as_str()),
            ConfigError::Serialize(m) => concat("TOML serialize error: ", m.as_str()),
        }
    }
}

/// The port used when a host entry leaves it out.
pub fn default_port() -> (r: u16)
    ensures
        r == 22,
{
    22
}

/// The default label of the notes section.
pub fn default_notes_label() -> (r: String)
    ensures
        r@ == "Notes"@,
{
    String::from_str("Notes")
}

impl Default for Host {
    fn default() -> (r: Host)
        ensures
            r.name@.len() == 0,
            r.hostname@.len() == 0,
            r.port == 22,
            r.username@.len() == 0,
            r.credential_ref@.len() == 0,
            r.identity_file@.len() == 0,
            r.group is None,
            r.macros@.len() == 0,
            r.expects@.len() == 0,
            r.on_connect@.len() == 0,
    {
        Host {
            name: String::new(),
            hostname: String::new(),
            port: 22,
            username: String::new(),
            credential_ref: String::new(),
            identity_file: String::new(),
            group: None,
            macros: Vec::new(),
            expects: Vec::new(),
            on_connect: Vec::new(),
        }
    }
}

impl Default for NotesSettings {
    fn default() -> (r: NotesSettings)
        ensures
            r.label@ == "Notes"@,
            !r.hidden,
    {
        NotesSettings { label: default_notes_label(), hidden: false }
    }
}

impl Default for Settings {
    fn default() -> (r: Settings)
        ensures
            r.notes.label@ == "Notes"@,
            !r.notes.hidden,
    {
        Settings { notes: NotesSettings::default() }
    }
}

impl Default for Automations {
    fn default() -> (r: Automations)
        ensures
            r.macros@.len() == 0,
    {
        Automations { macros: Vec::new() }
    }
}

/// A copy of an optional string.
pub fn copy_opt_string(s: &Option<String>) -> (r: Option<String>)
    ensures
        r.deep_view() == s.deep_view(),
{
    match s {
        Some(v) => Some(v.clone()),
        None => None,
    }
}

/// A copy of a list of strings.
pub fn copy_strings(v: &Vec<String>) -> (r: Vec<String>)
    ensures
        r.deep_view() == v.deep_view(),
{
    let mut r: Vec<String> = Vec::new();
    let mut i: usize = 0;
    while i < v.len()
        invariant
            0 <= i <= v@.len(),
            r@.len() == i,
            forall|k: int| 0 <= k < i ==> #[trigger] r@[k].deep_view() == v@[k].deep_view(),
        decreases v@.len() - i,
    {
        let x = v[i].clone();
        r.push(x);
        i = i + 1;
    }
    assert(r.deep_view() =~= v.deep_view());
    r
}

impl Expect {
    /// A field-by-field copy.
    pub fn duplicate(&self) -> (r: Expect)
        ensures
            r@ == self@,
    {
        Expect {
            pattern: self.pattern.clone(),
            send: copy_opt_string(&self.send),
            send_credential: copy_opt_string(&self.send_credential),
            once: self.once,
        }
    }
}

/// A copy of a list of expect rules.
pub fn copy_expects(v: &Vec<Expect>) -> (r: Vec<Expect>)
    ensures
        r.deep_view() == v.deep_view(),
{
    let mut r: Vec<Expect> = Vec::new();
    let mut i: usize = 0;
    while i < v.len()
        invariant
            0 <= i <= v@.len(),
            r@.len() == i,
            forall|k: int| 0 <= k < i ==> #[trigger] r@[k].deep_view() == v@[k].deep_view(),
        decreases v@.len() - i,
    {
        let x = v[i].duplicate();
        r.push(x);
        i = i + 1;
    }
    assert(r.deep_view() =~= v.deep_view());
    r
}

impl Macro {
    /// A field-by-field copy.
    pub fn duplicate(&self) -> (r: Macro)
        ensures
            r@ == self@,
    {
        Macro { key: self.key.clone(), send: self.send.clone(), expects: copy_expects(&self.expects) }
    }
}

/// A copy of a list of macros.
pub fn copy_macros(v: &Vec<Macro>) -> (r: Vec<Macro>)
    ensures
        r.deep_view() == v.deep_view(),
{
    let mut r: Vec<Macro> = Vec::new();
    let mut i: usize = 0;
    while i < v.len()
        invariant
            0 <= i <= v@.len(),
            r@.len() == i,
            forall|k: int| 0 <= k < i ==> #[trigger] r@[k].deep_view() == v@[k].deep_view(),
        decreases v@.len() - i,
    {
        let x = v[i].duplicate();
        r.push(x);
        i = i + 1;
    }
    assert(r.deep_view() =~= v.deep_view());
    r
}

impl Host {
    /// A field-by-field copy.
    pub fn duplicate(&self) -> (r: Host)
        ensures
            r@ == self@,
    {
        Host {
            name: self.name.clone(),
            hostname: self.hostname.clone(),
            port: self.port,
            username: self.username.clone(),
            credential_ref: self.credential_ref.clone(),
            identity_file: self.identity_file.clone(),
            group: copy_opt_string(&self.group),
            macros: copy_macros(&self.macros),
            expects: copy_expects(&self.expects),
            on_connect: copy_strings(&self.on_connect),
        }
    }
}

// ───────────────────────── paths ─────────────────────────

/// `base.join(rest)` for Unix paths: an absolute `rest` replaces `base`;
/// otherwise `rest` is appended, with a `/` in between unless `base` is empty
/// or already ends with one.
pub open spec fn join_path(base: Seq<char>, rest: Seq<char>) -> Seq<char> {
    if rest.len() > 0 && rest[0] == '/' {
        rest
    } else if base.len() > 0 && base.last() != '/' {
        base + seq!['/'] + rest
    } else {
        base + rest
    }
}

/// Join two Unix paths (see [`join_path`]).
pub fn join(base: &str, rest: &str) -> (r: String)
    ensures
        r@ == join_path(base@, rest@),
{
    let b = chars_of(base);
    let t = chars_of(rest);
    if t.len() > 0 && t[0] == '/' {
        return string_from_chars(t.as_slice());
    }
    if b.len() > 0 && b[b.len() - 1] != '/' {
        let with_sep = concat(base, "/");
        proof {
            reveal_strlit("/");
            assert(b@.last() == b@[b@.len() - 1]);
        }
        let r = concat(with_sep.as_str(), rest);
        return r;
    }
    concat(base, rest)
}

/// The home directory from the value of `$HOME`: unset or empty means unknown.
pub fn home_dir(home_var: Option<&str>) -> (r: Option<String>)
    ensures
        match home_var {
            Some(v) => if v@.len() > 0 {
                r matches Some(h) && h@ == v@
            } else {
                r is None
            },
            None => r is None,
        },
{
    match home_var {
        Some(v) => {
            if v.unicode_len() > 0 {
                Some(String::from_str(v))
            } else {
                None
            }
        },
        None => None,
    }
}

/// `path` with a leading `~` or `$HOME` replaced by the home directory.
pub open spec fn spec_expand_tilde(path: Seq<char>, home: Option<Seq<char>>) -> Seq<char> {
    match home {
        None => path,
        Some(h) => if path == "~"@ {
            h
        } else if has_prefix(path, "~/"@) {
            join_path(h, path.subrange(2, path.len() as int))
        } else if has_prefix(path, "$HOME/"@) {
            join_path(h, path.subrange(6, path.len() as int))
        } else if path == "$HOME"@ {
            h
        } else {
            path
        },
    }
}

/// Expand a leading `~`, `~/`, `$HOME/` or `$HOME` in `path` to `home`. Only a
/// leading one is expanded; `path` is returned unchanged when `home` is unknown.
pub fn expand_tilde(path: &str, home: Option<&str>) -> (r: String)
    ensures
        r@ == spec_expand_tilde(
            path@,
            match home {
                Some(h) => Some(h@),
                None => None,
            },
        ),
{
    let h = match home {
        Some(h) => h,
        None => {
            return String::from_str(path);
        },
    };
    proof {
        reveal_strlit("~");
        reveal_strlit("~/");
        reveal_strlit("$HOME/");
        reveal_strlit("$HOME");
    }
    let p = chars_of(path);
    let tilde = chars_of("~");
    let tilde_slash = chars_of("~/");
    let home_slash = chars_of("$HOME/");
    let home_word = chars_of("$HOME");
    if p.len() == 1 && p[0] == '~' {
        assert(p@ =~= "~"@);
        return String::from_str(h);
    }
    assert(p@ != "~"@ ==> !(p@ =~= "~"@));
    if starts_with_chars(&p, &tilde_slash) {
        let rest = suffix_string(&p, 2);
        return join(h, rest.as_str());
    }
    if starts_with_chars(&p, &home_slash) {
        let rest = suffix_string(&p, 6);
        return join(h, rest.as_str());
    }
    if p.len() == 5 && starts_with_chars(&p, &home_word) {
        assert(p@ =~= "$HOME"@) by {
            assert(p@.subrange(0, 5) == p@);
        }
        return String::from_str(h);
    }
    proof {
        if p@ == "$HOME"@ {
            assert(p@.subrange(0, 5) =~= p@);
        }
        if p@ == "~"@ {
            assert(p@.len() == 1);
        }
    }
    String::from_str(path)
}

/// The configuration directory: `<home>/.config/gukab`, or `./.config/gukab`
/// when the home directory is unknown.
pub open spec fn spec_config_dir(home: Option<Seq<char>>) -> Seq<char> {
    let base = match home {
        Some(h) => h,
        None => "."@,
    };
    join_path(join_path(base, ".config"@), "gukab"@)
}

pub open spec fn opt_view(s: Option<&str>) -> Option<Seq<char>> {
    match s {
        Some(h) => Some(h@),
        None => None,
    }
}

/// The configuration directory under `home` (see [`spec_config_dir`]).
pub fn config_dir(home: Option<&str>) -> (r: String)
    ensures
        r@ == spec_config_dir(opt_view(home)),
{
    let base = match home {
        Some(h) => h,
        None => ".",
    };
    let d = join(base, ".config");
    join(d.as_str(), "gukab")
}

/// `hosts.toml` in the configuration directory.
pub fn config_path(home: Option<&str>) -> (r: String)
    ensures
        r@ == join_path(spec_config_dir(opt_view(home)), "hosts.toml"@),
{
    let d = config_dir(home);
    join(d.as_str(), "hosts.toml")
}

/// `automations.toml` in the configuration directory.
pub fn automations_path(home: Option<&str>) -> (r: String)
    ensures
        r@ == join_path(spec_config_dir(opt_view(home)), "automations.toml"@),
{
    let d = config_dir(home);
    join(d.as_str(), "automations.toml")
}

/// The session log directory `log` in the configuration directory.
pub fn log_dir(home: Option<&str>) -> (r: String)
    ensures
        r@ == join_path(spec_config_dir(opt_view(home)), "log"@),
{
    let d = config_dir(home);
    join(d.as_str(), "log")
}

/// The notes directory `notes` in the configuration directory (the folder name
/// does not follow the section's display label).
pub fn notes_dir(home: Option<&str>) -> (r: String)
    ensures
        r@ == join_path(spec_config_dir(opt_view(home)), "notes"@),
{
    let d = config_dir(home);
    join(d.as_str(), "notes")
}

/// `settings.toml` in the configuration directory.
pub fn settings_path(home: Option<&str>) -> (r: String)
    ensures
        r@ == join_path(spec_config_dir(opt_view(home)), "settings.toml"@),
{
    let d = config_dir(home);
    join(d.as_str(), "settings.toml")
}

/// `known_hosts` (trusted SSH host-key fingerprints) in the configuration
/// directory.
pub fn known_hosts_path(home: Option<&str>) -> (r: String)
    ensures
        r@ == join_path(spec_config_dir(opt_view(home)), "known_hosts"@),
{
    let d = config_dir(home);
    join(d.as_str(), "known_hosts")
}

} // verus!
