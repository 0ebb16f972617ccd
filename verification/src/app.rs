//! The host-list application state and its key handling.
//!
//! Everything the interactive screen decides lives here: the line editor used by
//! every text field, the host edit form, the console (serial) form, the macro
//! manager, the filtered and grouped host list, and the per-mode key handlers.
//! The application around this library draws the screen, reads keys, and performs
//! the few requests the handlers hand back (saving a file, writing a keyring
//! entry, listing serial ports), reporting their outcome through [`App::resume`].

use vstd::prelude::*;
use crate::config::{
    copy_expects, copy_macros, Automations, ExpectView, Group, Host, HostView, Macro, MacroView,
};
use crate::forms::{
    build_expect, build_macro, spec_build_params, spec_fields, CField, ConsoleForm, EditDraft,
    ExpectEdit, MacroEdit, MacroFocus, EDIT_FIELD_COUNT, PORT_FIELD_IDX,
};
use crate::hostlist::{
    build_rows, first_host_row, list_input, row_idx, same_groups, select_best_or_first_host, shows, spec_select, Row,
    RowView,
};
use crate::serial::SerialParams;
use crate::session::SshError;
use crate::text::{
    chars_of, concat, is_blank, parse_unsigned, parse_unsigned_chars, split_whitespace, str_eq,
    str_lowercase, string_from_chars, to_lowercase, trim, trim_str, words,
};

verus! {

/// A failure of the interactive screen: a terminal I/O error (with its text),
/// or the failure of the session it started.
#[derive(Debug)]
pub enum TuiError {
    Io(String),
    Ssh(SshError),
}

impl TuiError {
    /// The user-facing text: `IO error: ..` or `SSH error: ..`.
    pub fn message(&self) -> (r: String)
        ensures
            r@ == match self {
                TuiError::Io(m) => "IO error: "@ + m@,
                TuiError::Ssh(e) => "SSH error: "@ + e.text(),
            },
    {
        match self {
            TuiError::Io(m) => concat("IO error: ", m.as_str()),
            TuiError::Ssh(e) => {
                let inner = e.message();
                concat("SSH error: ", inner.as_str())
            },
        }
    }
}

// ───────────────────────── keys ─────────────────────────

/// A key, as the terminal reports it.
#[derive(Clone, Copy, PartialEq, Eq, Structural, Debug)]
pub enum KeyCode {
    Backspace,
    Enter,
    Left,
    Right,
    Up,
    Down,
    Home,
    End,
    PageUp,
    PageDown,
    Tab,
    BackTab,
    Delete,
    Insert,
    Esc,
    F(u8),
    Char(char),
    /// Any other key (media keys, lone modifiers, ...).
    Other,
}

/// The modifier keys held with a key.
#[derive(Clone, Copy, PartialEq, Eq, Structural, Debug)]
pub struct KeyMods {
    pub shift: bool,
    pub control: bool,
    pub alt: bool,
    pub super_key: bool,
    pub hyper: bool,
    pub meta: bool,
}

/// One key press.
#[derive(Clone, Copy, PartialEq, Eq, Structural, Debug)]
pub struct KeyInput {
    pub code: KeyCode,
    pub mods: KeyMods,
}

/// Exactly Ctrl is held, nothing else.
pub open spec fn ctrl_only(m: KeyMods) -> bool {
    m.control && !m.shift && !m.alt && !m.super_key && !m.hyper && !m.meta
}

/// A `Char` key with these modifiers is typed text: plain or shifted chars, and
/// Ctrl+Alt together (how Windows reports AltGr, with the resolved character).
pub open spec fn text_mods(m: KeyMods) -> bool {
    (m.control && m.alt) || !(m.control || m.alt || m.super_key)
}

/// Exactly Ctrl held (`modifiers == CONTROL`).
pub fn is_ctrl_only(m: KeyMods) -> (r: bool)
    ensures
        r == ctrl_only(m),
{
    m.control && !m.shift && !m.alt && !m.super_key && !m.hyper && !m.meta
}

/// True when a `Char` key with modifiers `mods` is typed text.
pub fn is_text_key(mods: KeyMods) -> (r: bool)
    ensures
        r == text_mods(mods),
{
    (mods.control && mods.alt) || !(mods.control || mods.alt || mods.super_key)
}

// ───────────────────────── line editor ─────────────────────────

/// Result of feeding a key to the line editor.
#[derive(Clone, Copy, PartialEq, Eq, Structural, Debug)]
pub struct EditOutcome {
    /// The key was an editing key (consumed here).
    pub consumed: bool,
    /// The text content (not just the caret) changed.
    pub changed: bool,
}

/// The line editor's effect, as plain values.
pub struct EditEffect {
    pub text: Seq<char>,
    pub cursor: int,
    pub consumed: bool,
    pub changed: bool,
}

/// What one key does to a line `text` with the caret before char `cursor`:
/// ←/→/Home/End move the caret, Backspace/Delete remove the char before/after
/// it, a typed char is inserted at it; any other key is not consumed.
pub open spec fn spec_edit(text: Seq<char>, cursor: int, key: KeyInput) -> EditEffect {
    let n = text.len() as int;
    let same = EditEffect { text, cursor, consumed: true, changed: false };
    match key.code {
        KeyCode::Left => EditEffect { cursor: if cursor > 0 { cursor - 1 } else { 0 }, ..same },
        KeyCode::Right => EditEffect { cursor: if cursor < n { cursor + 1 } else { cursor }, ..same },
        KeyCode::Home => EditEffect { cursor: 0, ..same },
        KeyCode::End => EditEffect { cursor: n, ..same },
        KeyCode::Backspace => if cursor > 0 {
            EditEffect { text: text.remove(cursor - 1), cursor: cursor - 1, consumed: true, changed: true }
        } else {
            same
        },
        KeyCode::Delete => if cursor < n {
            EditEffect { text: text.remove(cursor), cursor, consumed: true, changed: true }
        } else {
            same
        },
        KeyCode::Char(c) => if text_mods(key.mods) {
            EditEffect {
                text: text.insert(if cursor <= n { cursor } else { n }, c),
                cursor: cursor + 1,
                consumed: true,
                changed: true,
            }
        } else {
            EditEffect { consumed: false, ..same }
        },
        _ => EditEffect { consumed: false, ..same },
    }
}

/// What `apply_edit_key` needs: Backspace with the caret past the end, or a
/// typed char with the caret past the end at `usize::MAX`, has no next state.
pub open spec fn edit_ok(text: Seq<char>, cursor: usize, key: KeyInput) -> bool {
    &&& (key.code is Backspace ==> cursor <= text.len())
    &&& (key.code is Char && cursor > text.len() ==> cursor < usize::MAX)
}

/// Apply one text-editing key to `(text, cursor)`, where `cursor` is a char
/// index (see [`spec_edit`]). Non-editing keys are left for the caller.
pub fn apply_edit_key(text: &mut String, cursor: &mut usize, key: KeyInput) -> (r: EditOutcome)
    requires
        edit_ok(old(text)@, *old(cursor), key),
    ensures
        final(text)@ == spec_edit(old(text)@, *old(cursor) as int, key).text,
        *final(cursor) == spec_edit(old(text)@, *old(cursor) as int, key).cursor,
        r.consumed == spec_edit(old(text)@, *old(cursor) as int, key).consumed,
        r.changed == spec_edit(old(text)@, *old(cursor) as int, key).changed,
{
    let mut cs = chars_of(text.as_str());
    let n = cs.len();
    match key.code {
        KeyCode::Left => {
            if *cursor > 0 {
                *cursor = *cursor - 1;
            }
            EditOutcome { consumed: true, changed: false }
        },
        KeyCode::Right => {
            if *cursor < n {
                *cursor = *cursor + 1;
            }
            EditOutcome { consumed: true, changed: false }
        },
        KeyCode::Home => {
            *cursor = 0;
            EditOutcome { consumed: true, changed: false }
        },
        KeyCode::End => {
            *cursor = n;
            EditOutcome { consumed: true, changed: false }
        },
        KeyCode::Backspace => {
            if *cursor > 0 {
                cs.remove(*cursor - 1);
                *text = string_from_chars(cs.as_slice());
                *cursor = *cursor - 1;
                EditOutcome { consumed: true, changed: true }
            } else {
                EditOutcome { consumed: true, changed: false }
            }
        },
        KeyCode::Delete => {
            if *cursor < n {
                cs.remove(*cursor);
                *text = string_from_chars(cs.as_slice());
                EditOutcome { consumed: true, changed: true }
            } else {
                EditOutcome { consumed: true, changed: false }
            }
        },
        KeyCode::Char(c) => {
            if is_text_key(key.mods) {
                let at = if *cursor <= n {
                    *cursor
                } else {
                    n
                };
                cs.insert(at, c);
                *text = string_from_chars(cs.as_slice());
                *cursor = *cursor + 1;
                EditOutcome { consumed: true, changed: true }
            } else {
                EditOutcome { consumed: false, changed: false }
            }
        },
        _ => EditOutcome { consumed: false, changed: false },
    }
}

// ───────────────────────── application state ─────────────────────────

#[verifier::external_type_specification]
#[verifier::external_body]
pub struct ExInstant(std::time::Instant);

/// `std::time::Instant::now()`; nothing is stated of the instant.
#[verifier::external_body]
fn instant_now() -> (r: std::time::Instant) {
    std::time::Instant::now()
}

/// Milliseconds elapsed since `t` (`t.elapsed().as_millis()`); it depends on the
/// clock, so nothing is stated of it.
#[verifier::external_body]
fn elapsed_millis(t: &std::time::Instant) -> (r: u128) {
    t.elapsed().as_millis()
}

/// State of the macro manager. `macros` is a working copy of the global macros,
/// written back and persisted only when a macro is saved or deleted.
#[derive(Debug)]
pub struct MacroState {
    pub macros: Vec<Macro>,
    pub list_selected: usize,
    pub screen: MacroScreen,
}

#[derive(Debug)]
pub enum MacroScreen {
    /// The macro list.
    List,
    /// Add (`original_idx = None`) or edit an existing macro.
    Edit(Box<MacroEdit>),
    /// Confirm deletion of the macro at this index.
    ConfirmDeleteMacro(usize),
}

#[derive(Debug)]
pub enum AppMode {
    Normal,
    Editing {
        /// `None` = new host.
        original_idx: Option<usize>,
        draft: EditDraft,
        focused_field: usize,
        /// Caret position (char index) within the focused field.
        cursor: usize,
    },
    /// Standalone keyring credential entry (Ctrl+K).
    Credential {
        reference: String,
        password: String,
        /// 0 = ref field, 1 = password field
        focused: usize,
        cursor: usize,
    },
    /// Confirmation prompt before deleting a host.
    ConfirmDelete {
        idx: usize,
        name: String,
    },
    /// The macro manager (Ctrl+G).
    Macros(MacroState),
    /// The console (serial) connection form.
    Console(ConsoleForm),
}

/// Work the application must do for the state machine and report back through
/// [`App::resume`].
#[derive(Debug)]
pub enum Request {
    /// Write `hosts` and `groups` to `hosts.toml`.
    SaveHosts,
    /// Write `automations` to `automations.toml`.
    SaveAutomations,
    /// Store `password` in the OS keychain under `reference` (and read it back).
    WriteCredential { reference: String, password: String },
    /// Enumerate the serial ports (USB adapters first).
    ListPorts,
}

/// The outcome of a [`Request`].
#[derive(Debug)]
pub enum Outcome {
    /// A save finished; `Err` holds the error text.
    Saved(Result<(), String>),
    /// A keyring write finished; `Err` holds the user-facing message.
    CredentialWritten(Result<(), String>),
    /// The detected ports, and the device to fall back on when there are none.
    Ports { ports: Vec<String>, fallback: String },
}

#[derive(Debug)]
pub struct App {
    pub hosts: Vec<Host>,
    pub groups: Vec<Group>,
    /// Global macros; the macro manager edits these and persists them.
    pub automations: Automations,
    pub filter: String,
    /// Visible rows (group headers + hosts), rebuilt by `apply_filter`.
    pub rows: Vec<Row>,
    /// Names of currently collapsed groups.
    pub collapsed: Vec<String>,
    pub selected: usize,
    pub mode: AppMode,
    pub should_quit: bool,
    pub pending_connect: Option<Host>,
    /// Set by the console form; the application opens the serial port.
    pub pending_serial: Option<SerialParams>,
    pub status: Option<String>,
    /// Caret position (char index) within the search query.
    pub filter_cursor: usize,
    /// When the app started; drives the banner animation.
    pub started: std::time::Instant,
}

/// The focused text of the credential form.
pub open spec fn credential_field(reference: Seq<char>, password: Seq<char>, focused: usize) -> Seq<char> {
    if focused == 0 {
        reference
    } else {
        password
    }
}

/// A macro draft whose focus and carets are in range.
pub open spec fn edit_wf(e: MacroEdit) -> bool {
    &&& e.cmd_lines@.len() >= 1
    &&& (e.focus matches MacroFocus::Cmd(i) ==> i < e.cmd_lines@.len())
    &&& (e.focus matches MacroFocus::Expect(i) ==> i < e.expects@.len())
    &&& (e.spec_focus_field() matches Some(t) ==> e.cursor <= t.len())
    &&& (e.sub matches Some(x) ==> x.focus < 4 && x.cursor <= x.spec_field(x.focus as int).len())
}

/// A mode whose focus and carets are in range.
pub open spec fn mode_wf(m: AppMode, n_hosts: nat) -> bool {
    match m {
        AppMode::Normal => true,
        AppMode::Editing { original_idx, draft, focused_field, cursor } => {
            &&& focused_field < EDIT_FIELD_COUNT
            &&& cursor <= draft.spec_field(focused_field as int).len()
            &&& (original_idx matches Some(i) ==> i < n_hosts)
        },
        AppMode::Credential { reference, password, focused, cursor } => {
            &&& focused < 2
            &&& cursor <= credential_field(reference@, password@, focused).len()
        },
        AppMode::ConfirmDelete { .. } => true,
        AppMode::Macros(st) => match st.screen {
            MacroScreen::Edit(e) => edit_wf(*e),
            _ => true,
        },
        AppMode::Console(form) => {
            &&& form.focus < spec_fields(form.advanced_open).len()
            &&& form.cursor <= form.spec_focus_text_len()
        },
    }
}

/// The `Save failed: ..` status of a failed save.
pub open spec fn save_failed(e: Seq<char>) -> Seq<char> {
    "Save failed: "@ + e
}

impl App {
    /// The rows the current hosts, groups, collapsed set and filter call for.
    pub open spec fn spec_rows(&self) -> Seq<RowView> {
        list_input(
            self.hosts.deep_view(),
            self.groups.deep_view(),
            self.collapsed.deep_view(),
            str_lowercase(self.filter@),
        ).rows()
    }

    /// The top-ranked host for the current filter.
    pub open spec fn spec_best(&self) -> Option<usize> {
        list_input(
            self.hosts.deep_view(),
            self.groups.deep_view(),
            self.collapsed.deep_view(),
            str_lowercase(self.filter@),
        ).best()
    }

    /// The state invariant: the rows match the data, the selection and every
    /// caret are in range, and an empty filter lowercases to an empty one (as
    /// `to_lowercase` promises when the rows are built).
    pub open spec fn wf(&self) -> bool {
        &&& self.rows.deep_view() == self.spec_rows()
        &&& (self.filter@.len() == 0 ==> str_lowercase(self.filter@).len() == 0)
        &&& self.selected < self.rows@.len()
        &&& self.filter_cursor <= self.filter@.len()
        &&& self.collapsed.deep_view().no_duplicates()
        &&& mode_wf(self.mode, self.hosts@.len())
    }

    /// The host shown on the selected row, if it is a host row.
    pub open spec fn spec_selected_host(&self) -> Option<usize> {
        if self.selected < self.rows@.len() {
            match self.rows@[self.selected as int]@ {
                RowView::Host { idx, .. } => if idx < self.hosts@.len() {
                    Some(idx)
                } else {
                    None
                },
                _ => None,
            }
        } else {
            None
        }
    }

    /// The list over `hosts`, `groups` and the global `automations`: no filter,
    /// no collapsed group, selection on the first host row, normal mode.
    pub fn new(hosts: Vec<Host>, groups: Vec<Group>, automations: Automations) -> (r: App)
        ensures
            r.wf(),
            r.hosts == hosts,
            r.groups == groups,
            r.automations == automations,
            r.filter@.len() == 0,
            r.collapsed@.len() == 0,
            r.selected == spec_select(r.spec_rows(), 0, None),
            r.mode is Normal,
            !r.should_quit,
            r.pending_connect is None,
            r.pending_serial is None,
            r.status is None,
            r.filter_cursor == 0,
    {
        let mut app = App {
            hosts,
            groups,
            automations,
            filter: String::new(),
            rows: Vec::new(),
            collapsed: Vec::new(),
            selected: 0,
            mode: AppMode::Normal,
            should_quit: false,
            pending_connect: None,
            pending_serial: None,
            status: None,
            filter_cursor: 0,
            started: instant_now(),
        };
        app.apply_filter();
        proof {
            assert(str_lowercase(app.filter@) =~= str_lowercase(Seq::<char>::empty()));
        }
        app
    }

    /// Current animation frame (~8 fps), from the time elapsed since start:
    /// elapsed milliseconds / 120.
    pub fn anim_frame(&self) -> (r: u64)
        ensures
            exists|ms: u128| r == #[trigger] frame_of(ms),
    {
        let ms = elapsed_millis(&self.started);
        frame_at(ms)
    }

    pub fn set_status(&mut self, msg: String)
        ensures
            final(self).status == Some(msg),
            final(self).hosts == old(self).hosts,
            final(self).groups == old(self).groups,
            final(self).automations == old(self).automations,
            final(self).filter == old(self).filter,
            final(self).rows == old(self).rows,
            final(self).collapsed == old(self).collapsed,
            final(self).selected == old(self).selected,
            final(self).mode == old(self).mode,
            final(self).should_quit == old(self).should_quit,
            final(self).pending_connect == old(self).pending_connect,
            final(self).pending_serial == old(self).pending_serial,
            final(self).filter_cursor == old(self).filter_cursor,
    {
        self.status = Some(msg);
    }

    /// The host index of the selected row, if it is a host row.
    pub fn selected_host_idx(&self) -> (r: Option<usize>)
        ensures
            r == self.spec_selected_host(),
    {
        if self.selected < self.rows.len() {
            match &self.rows[self.selected] {
                Row::Host { idx, .. } => if *idx < self.hosts.len() {
                    Some(*idx)
                } else {
                    None
                },
                _ => None,
            }
        } else {
            None
        }
    }

    /// Rebuild `rows` from the hosts, groups, collapsed set and (lowercased)
    /// filter, and move the selection (see `spec_select`).
    pub fn apply_filter(&mut self)
        ensures
            final(self).rows.deep_view() == final(self).spec_rows(),
            final(self).filter@.len() == 0 ==> str_lowercase(final(self).filter@).len() == 0,
            final(self).selected == spec_select(final(self).spec_rows(), old(self).selected as int, old(self).spec_best()),
            final(self).selected < final(self).rows@.len(),
            old(self).filter@.len() == 0 ==> old(self).spec_best() is None,
            final(self).hosts == old(self).hosts,
            final(self).groups == old(self).groups,
            final(self).automations == old(self).automations,
            final(self).filter == old(self).filter,
            final(self).collapsed == old(self).collapsed,
            final(self).mode == old(self).mode,
            final(self).should_quit == old(self).should_quit,
            final(self).pending_connect == old(self).pending_connect,
            final(self).pending_serial == old(self).pending_serial,
            final(self).status == old(self).status,
            final(self).filter_cursor == old(self).filter_cursor,
    {
        let f = to_lowercase(self.filter.as_str());
        let (rows, best) = build_rows(&self.hosts, &self.groups, &self.collapsed, f.as_str());
        let sel = select_best_or_first_host(&rows, self.selected, best);
        self.rows = rows;
        self.selected = sel;
        proof {
            assert(self.rows.deep_view().len() >= 1);
        }
    }

    /// Keep the selection on a row.
    pub fn clamp_selected(&mut self)
        ensures
            final(self).selected == (if old(self).selected >= old(self).rows@.len() {
                if old(self).rows@.len() > 0 {
                    (old(self).rows@.len() - 1) as usize
                } else {
                    0
                }
            } else {
                old(self).selected
            }),
            final(self).rows == old(self).rows,
            final(self).mode == old(self).mode,
    {
        if self.selected >= self.rows.len() {
            self.selected = if self.rows.len() > 0 {
                self.rows.len() - 1
            } else {
                0
            };
        }
    }
}

/// The animation frame after `ms` milliseconds: one frame per 120 ms.
pub open spec fn frame_of(ms: u128) -> u64 {
    (ms / 120) as u64
}

/// The animation frame after `ms` milliseconds.
pub fn frame_at(ms: u128) -> (r: u64)
    ensures
        r == frame_of(ms),
{
    #[verifier::truncate]
    ((ms / 120) as u64)
}

// ───────────────────────── host operations ─────────────────────────

/// `d` is the draft of host `h` (see `EditDraft::from_host`).
pub open spec fn is_draft_of(d: EditDraft, h: HostView) -> bool {
    &&& d.name@ == h.name
    &&& d.hostname@ == h.hostname
    &&& d.port@ == crate::text::decimal(h.port as nat)
    &&& d.username@ == h.username
    &&& d.group@ == (match h.group {
        Some(g) => g,
        None => Seq::empty(),
    })
    &&& d.credential_ref@ == h.credential_ref
    &&& d.identity_file@ == h.identity_file
    &&& d.on_connect@ == crate::text::join_seqs(h.on_connect, " "@)
    &&& d.password@.len() == 0
}

/// The draft of a new host: every field empty but the port, which is `22`.
pub open spec fn is_blank_draft(d: EditDraft) -> bool {
    &&& d.name@.len() == 0
    &&& d.hostname@.len() == 0
    &&& d.port@ == "22"@
    &&& d.username@.len() == 0
    &&& d.group@.len() == 0
    &&& d.credential_ref@.len() == 0
    &&& d.identity_file@.len() == 0
    &&& d.on_connect@.len() == 0
    &&& d.password@.len() == 0
}

/// The host a draft saves as: the text fields as typed (key file trimmed), the
/// port parsed (22 when it is not a valid port), a blank group as none, the
/// on-connect keys split at whitespace, and the automations of the host being
/// edited (none for a new host).
pub open spec fn spec_draft_host(d: EditDraft, prev: Option<HostView>) -> HostView {
    HostView {
        name: d.name@,
        hostname: d.hostname@,
        port: match parse_unsigned(d.port@, 65535) {
            Some(p) => p as u16,
            None => 22,
        },
        username: d.username@,
        credential_ref: d.credential_ref@,
        identity_file: trim(d.identity_file@),
        group: if trim(d.group@).len() == 0 {
            None
        } else {
            Some(trim(d.group@))
        },
        macros: match prev {
            Some(h) => h.macros,
            None => Seq::empty(),
        },
        expects: match prev {
            Some(h) => h.expects,
            None => Seq::empty(),
        },
        on_connect: words(d.on_connect@),
    }
}

/// The nearest host above (`up`) or below `cur` in the same group as `cur`.
pub open spec fn nearest_same_group(hosts: Seq<HostView>, cur: int, up: bool) -> Option<int> {
    if up {
        nearest_up(hosts, hosts[cur].group, cur - 1)
    } else {
        nearest_down(hosts, hosts[cur].group, cur + 1)
    }
}

pub open spec fn nearest_up(hosts: Seq<HostView>, g: Option<Seq<char>>, j: int) -> Option<int>
    decreases j + 1,
{
    if j < 0 || j >= hosts.len() {
        None
    } else if hosts[j].group == g {
        Some(j)
    } else {
        nearest_up(hosts, g, j - 1)
    }
}

pub open spec fn nearest_down(hosts: Seq<HostView>, g: Option<Seq<char>>, j: int) -> Option<int>
    decreases hosts.len() - j,
{
    if j < 0 || j >= hosts.len() {
        None
    } else if hosts[j].group == g {
        Some(j)
    } else {
        nearest_down(hosts, g, j + 1)
    }
}

proof fn lemma_nearest_up(hosts: Seq<HostView>, g: Option<Seq<char>>, j: int)
    requires
        j < hosts.len(),
    ensures
        nearest_up(hosts, g, j) matches Some(t) ==> 0 <= t <= j && hosts[t].group == g && forall|k: int|
            t < k <= j ==> (#[trigger] hosts[k]).group != g,
    decreases j + 1,
{
    if 0 <= j && hosts[j].group != g {
        lemma_nearest_up(hosts, g, j - 1);
    }
}

proof fn lemma_nearest_down(hosts: Seq<HostView>, g: Option<Seq<char>>, j: int)
    requires
        0 <= j,
    ensures
        nearest_down(hosts, g, j) matches Some(t) ==> j <= t < hosts.len() && hosts[t].group == g && forall|k: int|
            j <= k < t ==> (#[trigger] hosts[k]).group != g,
    decreases hosts.len() - j,
{
    if j < hosts.len() && hosts[j].group != g {
        lemma_nearest_down(hosts, g, j + 1);
    }
}

proof fn lemma_nearest_up_at(hosts: Seq<HostView>, g: Option<Seq<char>>, j: int, t: int)
    requires
        0 <= t <= j < hosts.len(),
        hosts[t].group == g,
        forall|k: int| t < k <= j ==> (#[trigger] hosts[k]).group != g,
    ensures
        nearest_up(hosts, g, j) == Some(t),
    decreases j - t,
{
    if j > t {
        lemma_nearest_up_at(hosts, g, j - 1, t);
    }
}

proof fn lemma_nearest_down_at(hosts: Seq<HostView>, g: Option<Seq<char>>, j: int, t: int)
    requires
        0 <= j <= t < hosts.len(),
        hosts[t].group == g,
        forall|k: int| j <= k < t ==> (#[trigger] hosts[k]).group != g,
    ensures
        nearest_down(hosts, g, j) == Some(t),
    decreases t - j,
{
    if j < t {
        lemma_nearest_down_at(hosts, g, j + 1, t);
    }
}

/// Moving a host one slot within its group and then back the other way puts
/// every host where it was.
pub proof fn lemma_move_undo(hosts: Seq<HostView>, cur: int, up: bool)
    requires
        0 <= cur < hosts.len(),
        nearest_same_group(hosts, cur, up) is Some,
    ensures
        ({
            let t = nearest_same_group(hosts, cur, up)->0;
            let moved = hosts.update(cur, hosts[t]).update(t, hosts[cur]);
            &&& nearest_same_group(moved, t, !up) == Some(cur)
            &&& moved.update(t, moved[cur]).update(cur, moved[t]) == hosts
        }),
{
    let g = hosts[cur].group;
    let t = nearest_same_group(hosts, cur, up)->0;
    let moved = hosts.update(cur, hosts[t]).update(t, hosts[cur]);
    if up {
        lemma_nearest_up(hosts, g, cur - 1);
        assert forall|k: int| t < k < cur implies (#[trigger] moved[k]).group != g by {
            assert(moved[k] == hosts[k]);
        }
        lemma_nearest_down_at(moved, g, t + 1, cur);
    } else {
        lemma_nearest_down(hosts, g, cur + 1);
        assert forall|k: int| cur < k < t implies (#[trigger] moved[k]).group != g by {
            assert(moved[k] == hosts[k]);
        }
        lemma_nearest_up_at(moved, g, t - 1, cur);
    }
    assert(moved.update(t, moved[cur]).update(cur, moved[t]) =~= hosts);
}

/// The first row showing host `h` shows it.
proof fn lemma_first_host_row_shows(rows: Seq<RowView>, h: usize, k: int)
    requires
        0 <= k,
    ensures
        first_host_row(rows, h, k) <= rows.len(),
        first_host_row(rows, h, k) < rows.len() ==> k <= first_host_row(rows, h, k) && (rows[first_host_row(
            rows,
            h,
            k,
        )] matches RowView::Host { idx, .. } && idx == h),
        forall|j: int| k <= j < rows.len() && (#[trigger] rows[j] matches RowView::Host { idx, .. } && idx == h)
            ==> first_host_row(rows, h, k) <= j,
    decreases rows.len() - k,
{
    if k < rows.len() && !(rows[k] matches RowView::Host { idx, .. } && idx == h) {
        lemma_first_host_row_shows(rows, h, k + 1);
    }
}

/// Moving the selected host one slot within its group (Ctrl/Shift+↑ or ↓)
/// and then back the other way restores the host list and its rows, and the
/// selection follows the host both ways: after the first move it is on the
/// moved host in its new place, after the second on the host where it began.
pub proof fn lemma_move_selection_undo(app: App, a1: App, a2: App, up: bool, r1: Option<Request>, r2: Option<Request>)
    requires
        app.wf(),
        a1.wf(),
        a2.wf(),
        app.hosts@.len() <= usize::MAX,
        app.filter@.len() == 0,
        app.spec_selected_host() is Some,
        nearest_same_group(app.hosts.deep_view(), app.spec_selected_host()->0 as int, up) is Some,
        app.move_step(&a1, up, r1),
        a1.move_step(&a2, !up, r2),
    ensures
        ({
            let c = app.spec_selected_host()->0;
            let t = nearest_same_group(app.hosts.deep_view(), c as int, up)->0;
            let hv = app.hosts.deep_view();
            &&& a1.hosts.deep_view() == hv.update(c as int, hv[t]).update(t, hv[c as int])
            &&& a1.spec_selected_host() == Some(t as usize)
            &&& a2.hosts.deep_view() == hv
            &&& a2.rows.deep_view() == app.rows.deep_view()
            &&& a2.spec_selected_host() == Some(c)
        }),
{
    let c = app.spec_selected_host()->0;
    let hv = app.hosts.deep_view();
    let t = nearest_same_group(hv, c as int, up)->0;
    if up {
        lemma_nearest_up(hv, hv[c as int].group, c - 1);
    } else {
        lemma_nearest_down(hv, hv[c as int].group, c + 1);
    }
    lemma_move_undo(hv, c as int, up);
    assert(hv.len() == app.hosts@.len());
    assert(0 <= t < hv.len());
    assert((t as usize) as int == t);
    let moved = hv.update(c as int, hv[t]).update(t, hv[c as int]);
    assert(a1.hosts.deep_view() == moved);
    // Without a filter every host scores, and the rows read the hosts only
    // through their groups, which the swap keeps: the rows stay the same, and
    // the moved host, of the selected host's group, has a row.
    let f = str_lowercase(app.filter@);
    let inp0 = list_input(hv, app.groups.deep_view(), app.collapsed.deep_view(), f);
    let inp1 = list_input(moved, app.groups.deep_view(), app.collapsed.deep_view(), f);
    assert(inp1.scores =~= inp0.scores);
    assert forall|i: int| 0 <= i < inp0.scores.len() implies (#[trigger] inp0.scores[i]) is Some by {}
    assert(same_groups(moved, hv)) by {
        assert forall|i: int| 0 <= i < moved.len() implies (#[trigger] moved[i]).group == hv[i].group by {
            if i == c as int || i == t {
            }
        }
    }
    assert(same_groups(hv, moved)) by {
        assert forall|i: int| 0 <= i < hv.len() implies (#[trigger] hv[i]).group == moved[i].group by {
            assert(moved[i].group == hv[i].group);
        }
    }
    inp1.lemma_rows_by_groups(inp0);
    let rows0 = app.spec_rows();
    let rows1 = a1.spec_rows();
    assert(rows1 == rows0);
    assert(app.rows@[app.selected as int]@ == rows0[app.selected as int]);
    assert(row_idx(rows0[app.selected as int]) == Some(c));
    assert(shows(rows0, c));
    inp0.lemma_same_group_shown(c, t as usize);
    let k = choose|k: int| 0 <= k < rows0.len() && #[trigger] row_idx(rows0[k]) == Some(t as usize);
    lemma_first_host_row_shows(rows1, t as usize, 0);
    assert(rows1[k] matches RowView::Host { idx, .. } && idx == t as usize);
    assert(first_host_row(rows1, t as usize, 0) < rows1.len());
    assert(a1.rows@[a1.selected as int]@ == rows1[a1.selected as int]);
    assert(a1.hosts@.len() == hv.len());
    assert(a1.spec_selected_host() == Some(t as usize));
    assert(a1.filter@.len() == 0);
    assert(nearest_same_group(a1.hosts.deep_view(), (t as usize) as int, !up) == Some(c as int));
    assert(a2.hosts.deep_view() == moved.update(t, moved[c as int]).update(c as int, moved[t]));
    assert(a2.hosts.deep_view() =~= hv);
    assert(a2.spec_rows() == app.spec_rows());
    lemma_first_host_row_shows(rows0, c, 0);
    assert(first_host_row(rows0, c, 0) <= app.selected);
    assert(a2.rows@[a2.selected as int]@ == rows0[a2.selected as int]);
}

fn same_group(a: &Option<String>, b: &Option<String>) -> (r: bool)
    ensures
        r == (a.deep_view() == b.deep_view()),
{
    match (a, b) {
        (Some(x), Some(y)) => str_eq(x.as_str(), y.as_str()),
        (None, None) => true,
        _ => false,
    }
}

/// Swap two entries of a list.
fn swap_entries<T>(v: &mut Vec<T>, a: usize, b: usize, filler: T)
    requires
        a < old(v)@.len(),
        b < old(v)@.len(),
        a != b,
    ensures
        final(v)@ == old(v)@.update(a as int, old(v)@[b as int]).update(b as int, old(v)@[a as int]),
{
    let ghost v0 = v@;
    let mut tmp = filler;
    v.set_and_swap(a, &mut tmp);
    v.set_and_swap(b, &mut tmp);
    v.set_and_swap(a, &mut tmp);
    assert(v@ =~= v0.update(a as int, v0[b as int]).update(b as int, v0[a as int]));
}

impl App {
    /// Open the edit form for the selected host, if the selection is a host.
    pub fn open_edit_selected(&mut self)
        requires
            old(self).wf(),
        ensures
            final(self).wf(),
            match old(self).spec_selected_host() {
                Some(i) => final(self).mode matches AppMode::Editing { original_idx, draft, focused_field, cursor }
                    && original_idx == Some(i) && is_draft_of(draft, old(self).hosts@[i as int]@)
                    && focused_field == 0 && cursor == old(self).hosts@[i as int].name@.len(),
                None => final(self).mode == old(self).mode,
            },
            final(self).hosts == old(self).hosts,
            final(self).groups == old(self).groups,
            final(self).automations == old(self).automations,
            final(self).filter == old(self).filter,
            final(self).rows == old(self).rows,
            final(self).collapsed == old(self).collapsed,
            final(self).selected == old(self).selected,
            final(self).should_quit == old(self).should_quit,
            final(self).pending_connect == old(self).pending_connect,
            final(self).pending_serial == old(self).pending_serial,
            final(self).status == old(self).status,
            final(self).filter_cursor == old(self).filter_cursor,
    {
        if let Some(idx) = self.selected_host_idx() {
            let draft = EditDraft::from_host(&self.hosts[idx]);
            let cursor = draft.field(0).unicode_len();
            self.mode = AppMode::Editing { original_idx: Some(idx), draft, focused_field: 0, cursor };
        }
    }

    /// Remove the host at `idx` (if there is one), rebuild the list and ask for
    /// the hosts to be saved; the status reports the deletion.
    pub fn delete_host(&mut self, idx: usize) -> (r: Option<Request>)
        requires
            old(self).wf(),
            !(old(self).mode is Editing),
        ensures
            final(self).wf(),
            idx >= old(self).hosts@.len() ==> *final(self) == *old(self) && r is None,
            idx < old(self).hosts@.len() ==> ({
                &&& final(self).hosts.deep_view() == old(self).hosts.deep_view().remove(idx as int)
                &&& final(self).status matches Some(m) && m@ == "Deleted host "@ + old(self).hosts@[idx as int].name@
                &&& final(self).selected == spec_select(final(self).spec_rows(), old(self).selected as int, final(self).spec_best())
                &&& r matches Some(Request::SaveHosts)
            }),
            final(self).groups == old(self).groups,
            final(self).automations == old(self).automations,
            final(self).filter == old(self).filter,
            final(self).collapsed == old(self).collapsed,
            final(self).mode == old(self).mode,
            final(self).should_quit == old(self).should_quit,
            final(self).pending_connect == old(self).pending_connect,
            final(self).pending_serial == old(self).pending_serial,
            final(self).filter_cursor == old(self).filter_cursor,
    {
        if idx >= self.hosts.len() {
            return None;
        }
        let ghost before = self.hosts.deep_view();
        let removed = self.hosts.remove(idx);
        proof {
            assert(self.hosts.deep_view() =~= before.remove(idx as int));
        }
        let msg = concat("Deleted host ", removed.name.as_str());
        self.set_status(msg);
        self.apply_filter();
        Some(Request::SaveHosts)
    }

    /// What moving the selected host up (or down) does (see
    /// [`App::move_selected_host`]).
    pub open spec fn move_step(&self, post: &App, up: bool, r: Option<Request>) -> bool {
        &&& (self.filter@.len() > 0 ==> ({
            &&& r is None
            &&& post.status matches Some(m) && m@ == "Clear the search to reorder hosts"@
            &&& post.hosts == self.hosts
            &&& post.selected == self.selected
        }))
        &&& (self.filter@.len() == 0 ==> match self.spec_selected_host() {
            None => r is None && *post == *self,
            Some(cur) => match nearest_same_group(self.hosts.deep_view(), cur as int, up) {
                None => r is None && *post == *self,
                Some(t) => {
                    let hv = self.hosts.deep_view();
                    &&& post.hosts.deep_view() == hv.update(cur as int, hv[t]).update(t, hv[cur as int])
                    &&& r matches Some(Request::SaveHosts)
                    &&& post.status == self.status
                    &&& post.selected == (if first_host_row(post.spec_rows(), t as usize, 0)
                        < post.spec_rows().len() {
                        first_host_row(post.spec_rows(), t as usize, 0)
                    } else {
                        spec_select(post.spec_rows(), self.selected as int, None)
                    })
                },
            },
        })
        &&& (post.groups == self.groups)
        &&& (post.automations == self.automations)
        &&& (post.filter == self.filter)
        &&& (post.collapsed == self.collapsed)
        &&& (post.mode == self.mode)
        &&& (post.should_quit == self.should_quit)
        &&& (post.pending_connect == self.pending_connect)
        &&& (post.pending_serial == self.pending_serial)
        &&& (post.filter_cursor == self.filter_cursor)
    }

    /// Move the selected host one slot up or down within its own group and ask
    /// for the hosts to be saved; the selection follows the moved host. Refused
    /// (with a status) while a search filter is active.
    pub fn move_selected_host(&mut self, up: bool) -> (r: Option<Request>)
        requires
            old(self).wf(),
        ensures
            final(self).wf(),
            old(self).move_step(final(self), up, r),
    {
        if self.filter.as_str().unicode_len() > 0 {
            self.set_status(String::from_str("Clear the search to reorder hosts"));
            return None;
        }
        let cur = match self.selected_host_idx() {
            Some(c) => c,
            None => {
                return None;
            },
        };
        let n_hosts = self.hosts.len();
        assert(cur < n_hosts);
        let ghost hv = self.hosts.deep_view();
        let ghost g = hv[cur as int].group;
        let target: Option<usize> = if up {
            let mut j: usize = cur;
            while j > 0 && !same_group(&self.hosts[j - 1].group, &self.hosts[cur].group)
                invariant
                    0 <= j <= cur,
                    cur < self.hosts@.len(),
                    hv == self.hosts.deep_view(),
                    g == hv[cur as int].group,
                    nearest_up(hv, g, cur - 1) == nearest_up(hv, g, j - 1),
                decreases j,
            {
                proof {
                    assert(hv[j - 1] == self.hosts@[j - 1]@);
                }
                j = j - 1;
            }
            if j > 0 {
                proof {
                    assert(hv[j - 1] == self.hosts@[j - 1]@);
                }
                Some(j - 1)
            } else {
                None
            }
        } else {
            let mut j: usize = cur + 1;
            while j < self.hosts.len() && !same_group(&self.hosts[j].group, &self.hosts[cur].group)
                invariant
                    cur < j <= self.hosts@.len(),
                    hv == self.hosts.deep_view(),
                    g == hv[cur as int].group,
                    nearest_down(hv, g, cur + 1) == nearest_down(hv, g, j as int),
                decreases self.hosts@.len() - j,
            {
                proof {
                    assert(hv[j as int] == self.hosts@[j as int]@);
                }
                j = j + 1;
            }
            if j < self.hosts.len() {
                proof {
                    assert(hv[j as int] == self.hosts@[j as int]@);
                }
                Some(j)
            } else {
                None
            }
        };
        let t = match target {
            Some(t) => t,
            None => {
                return None;
            },
        };
        swap_entries(&mut self.hosts, cur, t, Host::default());
        proof {
            assert(self.hosts.deep_view() =~= hv.update(cur as int, hv[t as int]).update(t as int, hv[cur as int]));
        }
        self.apply_filter();
        let mut p: usize = 0;
        let ghost rv = self.rows.deep_view();
        while p < self.rows.len() && !is_host_row_of(&self.rows[p], t)
            invariant
                0 <= p <= self.rows@.len(),
                rv == self.rows.deep_view(),
                crate::hostlist::first_host_row(rv, t, 0) == crate::hostlist::first_host_row(rv, t, p as int),
            decreases self.rows@.len() - p,
        {
            proof {
                assert(rv[p as int] == self.rows@[p as int]@);
            }
            p = p + 1;
        }
        if p < self.rows.len() {
            proof {
                assert(rv[p as int] == self.rows@[p as int]@);
            }
            self.selected = p;
        }
        Some(Request::SaveHosts)
    }
}

fn is_host_row_of(r: &Row, t: usize) -> (b: bool)
    ensures
        b == (r@ matches RowView::Host { idx, .. } && idx == t),
{
    match r {
        Row::Host { idx, .. } => *idx == t,
        _ => false,
    }
}

/// Toggle `name` in a duplicate-free list of names: removed when present,
/// appended otherwise.
fn toggle_name(names: &mut Vec<String>, name: &str)
    requires
        old(names).deep_view().no_duplicates(),
    ensures
        final(names).deep_view().no_duplicates(),
        forall|x: Seq<char>|
            #[trigger] final(names).deep_view().contains(x) == (if x == name@ {
                !old(names).deep_view().contains(x)
            } else {
                old(names).deep_view().contains(x)
            }),
{
    let ghost nv = names.deep_view();
    let mut i: usize = 0;
    while i < names.len() && !str_eq(names[i].as_str(), name)
        invariant
            0 <= i <= names@.len(),
            nv == names.deep_view(),
            forall|k: int| 0 <= k < i ==> nv[k] != name@,
        decreases names@.len() - i,
    {
        proof {
            assert(nv[i as int] == names@[i as int]@);
        }
        i = i + 1;
    }
    if i < names.len() {
        proof {
            assert(nv[i as int] == name@);
        }
        names.remove(i);
        proof {
            let after = names.deep_view();
            assert(after =~= nv.remove(i as int));
            assert forall|x: Seq<char>| #[trigger] after.contains(x) == (if x == name@ {
                !nv.contains(x)
            } else {
                nv.contains(x)
            }) by {
                if after.contains(x) {
                    let k = choose|k: int| 0 <= k < after.len() && after[k] == x;
                    if k < i {
                        assert(nv[k] == x);
                    } else {
                        assert(nv[k + 1] == x);
                    }
                }
                if x != name@ && nv.contains(x) {
                    let k = choose|k: int| 0 <= k < nv.len() && nv[k] == x;
                    if k < i {
                        assert(after[k] == x);
                    } else {
                        assert(k != i);
                        assert(after[k - 1] == x);
                    }
                }
                if x == name@ {
                    assert(nv.contains(x));
                }
            }
            assert forall|a: int, b: int| 0 <= a < after.len() && 0 <= b < after.len() && a != b implies after[a] != after[b] by {
                let a2 = if a < i { a } else { a + 1 };
                let b2 = if b < i { b } else { b + 1 };
                assert(after[a] == nv[a2]);
                assert(after[b] == nv[b2]);
            }
        }
    } else {
        names.push(String::from_str(name));
        proof {
            let after = names.deep_view();
            assert(after =~= nv.push(name@));
            assert(!nv.contains(name@));
            assert forall|x: Seq<char>| #[trigger] after.contains(x) == (if x == name@ {
                !nv.contains(x)
            } else {
                nv.contains(x)
            }) by {
                if after.contains(x) && x != name@ {
                    let k = choose|k: int| 0 <= k < after.len() && after[k] == x;
                    assert(k < nv.len());
                    assert(nv[k] == x);
                }
                if nv.contains(x) {
                    let k = choose|k: int| 0 <= k < nv.len() && nv[k] == x;
                    assert(after[k] == x);
                }
                if x == name@ {
                    assert(after[nv.len() as int] == x);
                }
            }
        }
    }
}

/// Ctrl or Shift is held (`intersects(CONTROL | SHIFT)`).
pub open spec fn ctrl_or_shift(m: KeyMods) -> bool {
    m.control || m.shift
}

/// The keys the host list handles itself; every other key edits the filter.
pub open spec fn normal_command(key: KeyInput) -> bool {
    ||| key.code is Esc
    ||| key.code is Up
    ||| key.code is Down
    ||| key.code is Enter
    ||| (ctrl_only(key.mods) && (key.code == KeyCode::Char('d') || key.code == KeyCode::Char('k')
        || key.code == KeyCode::Char('g') || key.code == KeyCode::Char('l') || key.code == KeyCode::Char('n')
        || key.code == KeyCode::Char('e')))
}

/// The data fields that only the list operations change.
pub open spec fn same_data(a: &App, b: &App) -> bool {
    &&& a.hosts == b.hosts
    &&& a.groups == b.groups
    &&& a.automations == b.automations
    &&& a.filter == b.filter
    &&& a.rows == b.rows
    &&& a.collapsed == b.collapsed
    &&& a.selected == b.selected
    &&& a.pending_connect == b.pending_connect
    &&& a.pending_serial == b.pending_serial
    &&& a.filter_cursor == b.filter_cursor
    &&& a.should_quit == b.should_quit
}

impl App {
    /// What a key does in the host list (see [`App::update_normal`]).
    pub open spec fn normal_step(&self, post: &App, key: KeyInput, r: Option<Request>) -> bool {
        &&& ((key.code is Up || key.code is Down) && ctrl_or_shift(key.mods)) ==> App { status: None, ..*self }.move_step(
            post,
            key.code is Up,
            r,
        )
        &&& !((key.code is Up || key.code is Down) && ctrl_or_shift(key.mods)) ==> post.status is None
        &&& ((key.code == KeyCode::Char('e') && ctrl_only(key.mods)) || (key.code is Enter && key.mods.shift)) ==> ({
            &&& r is None
            &&& same_data(post, self)
            &&& match self.spec_selected_host() {
                Some(i) => post.mode matches AppMode::Editing { original_idx, draft, focused_field, cursor }
                    && original_idx == Some(i) && is_draft_of(draft, self.hosts@[i as int]@) && focused_field == 0
                    && cursor == self.hosts@[i as int].name@.len(),
                None => post.mode is Normal,
            }
        })
        &&& (r is None || r matches Some(Request::ListPorts) || r matches Some(Request::SaveHosts))
        &&& (key.code is Esc ==> post.should_quit && same_data(post, &App { should_quit: true, ..*self })
            && post.mode is Normal && post.status is None && r is None)
        &&& ((key.code is Down && !ctrl_or_shift(key.mods)) ==> post.selected == (if self.selected + 1
            < self.rows@.len() {
            self.selected + 1
        } else {
            self.rows@.len() - 1
        }) && post.mode is Normal && r is None && same_data(post, &App { selected: post.selected, ..*self }))
        &&& ((key.code is Up && !ctrl_or_shift(key.mods)) ==> post.selected == (if self.selected > 0 {
            self.selected - 1
        } else {
            0
        }) && post.mode is Normal && r is None && same_data(post, &App { selected: post.selected, ..*self }))
        &&& ((key.code == KeyCode::Char('d') && ctrl_only(key.mods)) ==> ({
            &&& r is None
            &&& same_data(post, self)
            &&& match self.spec_selected_host() {
                Some(i) => post.mode matches AppMode::ConfirmDelete { idx, name } && idx == i
                    && name@ == self.hosts@[i as int].name@,
                None => post.mode is Normal,
            }
        }))
        &&& ((key.code == KeyCode::Char('k') && ctrl_only(key.mods)) ==> ({
            &&& r is None
            &&& same_data(post, self)
            &&& post.mode matches AppMode::Credential { reference, password, focused, cursor }
                && reference@.len() == 0 && password@.len() == 0 && focused == 0 && cursor == 0
        }))
        &&& ((key.code == KeyCode::Char('g') && ctrl_only(key.mods)) ==> ({
            &&& r is None
            &&& same_data(post, self)
            &&& post.mode matches AppMode::Macros(st) && st.macros.deep_view()
                == self.automations.macros.deep_view() && st.list_selected == 0 && st.screen is List
        }))
        &&& ((key.code == KeyCode::Char('l') && ctrl_only(key.mods)) ==> ({
            &&& r matches Some(Request::ListPorts)
            &&& same_data(post, self)
            &&& post.mode is Normal
        }))
        &&& ((key.code == KeyCode::Char('n') && ctrl_only(key.mods)) ==> ({
            &&& r is None
            &&& same_data(post, self)
            &&& post.mode matches AppMode::Editing { original_idx, draft, focused_field, cursor }
                && original_idx is None && is_blank_draft(draft) && focused_field == 0 && cursor == 0
        }))
        &&& ((key.code is Enter && !key.mods.shift) ==> match self.rows@[self.selected as int]@ {
            RowView::Group { name, .. } => {
                &&& r is None
                &&& post.mode is Normal
                &&& same_data(
                    post,
                    &App { collapsed: post.collapsed, rows: post.rows, selected: post.selected, ..*self },
                )
                &&& post.rows.deep_view() == post.spec_rows()
                &&& post.selected == spec_select(post.spec_rows(), self.selected as int, post.spec_best())
                &&& forall|x: Seq<char>| #[trigger] post.collapsed.deep_view().contains(x)
                    == (if x == name {
                    !self.collapsed.deep_view().contains(x)
                } else {
                    self.collapsed.deep_view().contains(x)
                })
            },
            RowView::Host { idx, .. } => {
                &&& r is None
                &&& post.should_quit
                &&& post.pending_connect matches Some(h) && h@ == self.hosts@[idx as int]@
                &&& post.mode is Normal
                &&& same_data(post, &App { should_quit: true, pending_connect: post.pending_connect, ..*self })
            },
            RowView::ConsoleAction => {
                &&& r matches Some(Request::ListPorts)
                &&& post.mode is Normal
                &&& same_data(post, self)
            },
        })
        &&& (!normal_command(key) ==> ({
            let e = spec_edit(self.filter@, self.filter_cursor as int, key);
            &&& r is None
            &&& post.mode is Normal
            &&& post.filter@ == e.text
            &&& e.consumed ==> post.filter_cursor == (if e.cursor < e.text.len() {
                e.cursor
            } else {
                e.text.len() as int
            })
            &&& !e.consumed ==> post.filter_cursor == self.filter_cursor
            &&& post.hosts == self.hosts
            &&& post.groups == self.groups
            &&& post.automations == self.automations
            &&& post.collapsed == self.collapsed
            &&& post.should_quit == self.should_quit
            &&& post.pending_connect == self.pending_connect
            &&& post.pending_serial == self.pending_serial
            &&& (e.consumed && e.changed) ==> post.rows.deep_view() == post.spec_rows() && post.selected
                == spec_select(post.spec_rows(), self.selected as int, post.spec_best())
            &&& !(e.consumed && e.changed) ==> post.rows == self.rows && post.selected == self.selected
        }))
    }

    /// A key on the host list (normal mode). Any standing status is cleared
    /// first. Esc quits; Ctrl/Shift+↑↓ move the selected host within its group;
    /// ↑↓ move the selection; Ctrl+D asks to delete the selected host; Ctrl+K
    /// opens the credential form; Ctrl+G the macro manager; Ctrl+L (or Enter on
    /// the action row) asks for the serial ports to open the console form;
    /// Ctrl+N adds a host; Ctrl+E or Shift+Enter edits the selected one; Enter
    /// toggles a group or connects to a host; other keys edit the search filter.
    pub fn update_normal(&mut self, key: KeyInput) -> (r: Option<Request>)
        requires
            old(self).wf(),
            old(self).mode is Normal,
        ensures
            final(self).wf(),
            old(self).normal_step(final(self), key, r),
    {
        self.status = None;
        let ctrl = is_ctrl_only(key.mods);
        match key.code {
            KeyCode::Esc => {
                self.should_quit = true;
                None
            },
            KeyCode::Up if key.mods.control || key.mods.shift => self.move_selected_host(true),
            KeyCode::Down if key.mods.control || key.mods.shift => self.move_selected_host(false),
            KeyCode::Down => {
                if self.rows.len() > 0 {
                    self.selected = if self.selected + 1 < self.rows.len() {
                        self.selected + 1
                    } else {
                        self.rows.len() - 1
                    };
                }
                None
            },
            KeyCode::Up => {
                if self.selected > 0 {
                    self.selected = self.selected - 1;
                }
                None
            },
            KeyCode::Char('d') if ctrl => {
                if let Some(idx) = self.selected_host_idx() {
                    let name = self.hosts[idx].name.clone();
                    self.mode = AppMode::ConfirmDelete { idx, name };
                }
                None
            },
            KeyCode::Char('k') if ctrl => {
                self.mode = AppMode::Credential {
                    reference: String::new(),
                    password: String::new(),
                    focused: 0,
                    cursor: 0,
                };
                None
            },
            KeyCode::Char('g') if ctrl => {
                let macros = copy_macros(&self.automations.macros);
                self.mode = AppMode::Macros(MacroState { macros, list_selected: 0, screen: MacroScreen::List });
                None
            },
            KeyCode::Char('l') if ctrl => Some(Request::ListPorts),
            KeyCode::Char('n') if ctrl => {
                let draft = EditDraft::blank();
                assert(draft.spec_field(0).len() == 0);
                self.mode = AppMode::Editing {
                    original_idx: None,
                    draft,
                    focused_field: 0,
                    cursor: 0,
                };
                None
            },
            KeyCode::Char('e') if ctrl => {
                self.open_edit_selected();
                None
            },
            KeyCode::Enter if key.mods.shift => {
                self.open_edit_selected();
                None
            },
            KeyCode::Enter => {
                let sel = self.selected;
                let kind: u8 = match &self.rows[sel] {
                    Row::Group { .. } => 0,
                    Row::Host { .. } => 1,
                    Row::ConsoleAction => 2,
                };
                if kind == 0 {
                    let name = match &self.rows[sel] {
                        Row::Group { name, .. } => name.clone(),
                        _ => String::new(),
                    };
                    toggle_name(&mut self.collapsed, name.as_str());
                    self.apply_filter();
                    None
                } else if kind == 1 {
                    let idx = match &self.rows[sel] {
                        Row::Host { idx, .. } => *idx,
                        _ => 0,
                    };
                    proof {
                        lemma_host_rows_in_range(self);
                        assert(self.rows.deep_view()[sel as int] == self.rows@[sel as int]@);
                    }
                    let host = self.hosts[idx].duplicate();
                    self.pending_connect = Some(host);
                    self.should_quit = true;
                    None
                } else {
                    Some(Request::ListPorts)
                }
            },
            _ => {
                let mut cursor = self.filter_cursor;
                let outcome = apply_edit_key(&mut self.filter, &mut cursor, key);
                if outcome.consumed {
                    let n = self.filter.as_str().unicode_len();
                    self.filter_cursor = if cursor < n {
                        cursor
                    } else {
                        n
                    };
                    if outcome.changed {
                        self.apply_filter();
                    }
                }
                None
            },
        }
    }
}

/// Every host row of a well-formed app shows one of its hosts.
pub proof fn lemma_host_rows_in_range(app: &App)
    requires
        app.wf(),
    ensures
        crate::hostlist::rows_below(app.rows.deep_view(), app.hosts@.len() as int),
{
    let inp = list_input(
        app.hosts.deep_view(),
        app.groups.deep_view(),
        app.collapsed.deep_view(),
        str_lowercase(app.filter@),
    );
    inp.lemma_rows_below();
}

// ───────────────────────── host edit form ─────────────────────────

/// The hosts after saving draft `d` (the host at `original_idx` replaced, or a
/// new host appended).
pub open spec fn committed_hosts(hosts: Seq<HostView>, original_idx: Option<usize>, d: EditDraft) -> Seq<HostView> {
    match original_idx {
        Some(i) => hosts.update(i as int, spec_draft_host(d, Some(hosts[i as int]))),
        None => hosts.push(spec_draft_host(d, None)),
    }
}

/// The host a draft saves as (see [`spec_draft_host`]).
pub fn draft_host(d: &EditDraft, prev: Option<&Host>) -> (r: Host)
    ensures
        r@ == spec_draft_host(
            *d,
            match prev {
                Some(h) => Some(h@),
                None => None,
            },
        ),
{
    let port: u16 = match parse_unsigned_chars(&chars_of(d.port.as_str()), 65535) {
        Some(v) => v as u16,
        None => 22,
    };
    let g = trim_str(d.group.as_str());
    let group = if g.as_str().unicode_len() == 0 {
        None
    } else {
        Some(g)
    };
    let (macros, expects) = match prev {
        Some(h) => (copy_macros(&h.macros), copy_expects(&h.expects)),
        None => (Vec::new(), Vec::new()),
    };
    let r = Host {
        name: d.name.clone(),
        hostname: d.hostname.clone(),
        port,
        username: d.username.clone(),
        credential_ref: d.credential_ref.clone(),
        identity_file: trim_str(d.identity_file.as_str()),
        group,
        macros,
        expects,
        on_connect: split_whitespace(d.on_connect.as_str()),
    };
    proof {
        if prev is None {
            assert(r.macros.deep_view() =~= Seq::<MacroView>::empty());
            assert(r.expects.deep_view() =~= Seq::<ExpectView>::empty());
        }
    }
    r
}

impl App {
    /// Save the draft being edited into the host list (replacing the edited host
    /// or appending a new one), rebuild the list, return to normal mode and ask
    /// for the hosts to be saved.
    pub fn commit_edit(&mut self) -> (r: Option<Request>)
        requires
            old(self).wf(),
            old(self).mode is Editing,
        ensures
            final(self).wf(),
            final(self).hosts.deep_view() == committed_hosts(
                old(self).hosts.deep_view(),
                old(self).mode->Editing_original_idx,
                old(self).mode->Editing_draft,
            ),
            final(self).mode is Normal,
            r matches Some(Request::SaveHosts),
            final(self).status == old(self).status,
            final(self).groups == old(self).groups,
            final(self).automations == old(self).automations,
            final(self).filter == old(self).filter,
            final(self).collapsed == old(self).collapsed,
            final(self).should_quit == old(self).should_quit,
            final(self).pending_connect == old(self).pending_connect,
            final(self).pending_serial == old(self).pending_serial,
            final(self).filter_cursor == old(self).filter_cursor,
            final(self).selected == spec_select(final(self).spec_rows(), old(self).selected as int, final(self).spec_best()),
    {
        let mut mode = AppMode::Normal;
        std::mem::swap(&mut mode, &mut self.mode);
        match mode {
            AppMode::Editing { original_idx, draft, focused_field, cursor } => {
                let ghost hv = self.hosts.deep_view();
                match original_idx {
                    Some(i) => {
                        let host = draft_host(&draft, Some(&self.hosts[i]));
                        self.hosts.set(i, host);
                        proof {
                            assert(self.hosts.deep_view() =~= committed_hosts(hv, original_idx, draft));
                        }
                    },
                    None => {
                        let host = draft_host(&draft, None);
                        self.hosts.push(host);
                        proof {
                            assert(self.hosts.deep_view() =~= committed_hosts(hv, original_idx, draft));
                        }
                    },
                }
                self.apply_filter();
                Some(Request::SaveHosts)
            },
            other => {
                self.mode = other;
                None
            },
        }
    }

    /// What a key does in the host form (see [`App::update_editing`]).
    pub open spec fn editing_step(&self, post: &App, key: KeyInput, r: Option<Request>) -> bool {
        &&& ({
            let oi = self.mode->Editing_original_idx;
            let d = self.mode->Editing_draft;
            let ff = self.mode->Editing_focused_field;
            let cur = self.mode->Editing_cursor;
            &&& key.code is Esc ==> post.mode is Normal && r is None && same_data(post, self)
            &&& key.code is Tab ==> r is None && same_data(post, self)
                && post.mode == (AppMode::Editing {
                original_idx: oi,
                draft: d,
                focused_field: ((ff + 1) % 9) as usize,
                cursor: d.spec_field((ff + 1) % 9).len() as usize,
            })
            &&& key.code is BackTab ==> r is None && same_data(post, self)
                && post.mode == (AppMode::Editing {
                original_idx: oi,
                draft: d,
                focused_field: if ff == 0 { 8 } else { (ff - 1) as usize },
                cursor: d.spec_field(if ff == 0 { 8 } else { ff - 1 }).len() as usize,
            })
            &&& !(key.code is Enter && d.password@.len() > 0 && d.credential_ref@.len() == 0) ==> post.status
                == self.status
            &&& (key.code is Enter && d.password@.len() == 0) ==> {
                &&& post.hosts.deep_view() == committed_hosts(self.hosts.deep_view(), oi, d)
                &&& post.mode is Normal
                &&& r matches Some(Request::SaveHosts)
                &&& same_data(
                    post,
                    &App { hosts: post.hosts, rows: post.rows, selected: post.selected, ..*self },
                )
                &&& post.selected == spec_select(post.spec_rows(), self.selected as int, post.spec_best())
            }
            &&& (key.code is Enter && d.password@.len() > 0 && d.credential_ref@.len() == 0) ==> {
                &&& r is None
                &&& post.mode == self.mode
                &&& post.status matches Some(m)
                    && m@ == "Credential ref cannot be empty when setting a password"@
                &&& same_data(post, self)
            }
            &&& (key.code is Enter && d.password@.len() > 0 && d.credential_ref@.len() > 0) ==> {
                &&& r matches Some(Request::WriteCredential { reference, password })
                    && reference@ == d.credential_ref@ && password@ == d.password@
                &&& post.mode == self.mode
                &&& same_data(post, self)
            }
            &&& (key.code matches KeyCode::Char(c) && ff == PORT_FIELD_IDX && !crate::text::is_ascii_digit(c)
                && text_mods(key.mods)) ==> r is None && *post == *self
            &&& (!(key.code is Esc || key.code is Tab || key.code is BackTab || key.code is Enter)
                && !(key.code matches KeyCode::Char(c) && ff == PORT_FIELD_IDX
                && !crate::text::is_ascii_digit(c) && text_mods(key.mods))) ==> {
                let e = spec_edit(d.spec_field(ff as int), cur as int, key);
                &&& r is None
                &&& same_data(post, self)
                &&& post.mode matches AppMode::Editing { original_idx, draft, focused_field, cursor }
                    && original_idx == oi && focused_field == ff && cursor == e.cursor
                    && draft.spec_field(ff as int) == e.text
                    && forall|k: int| crate::forms::field_slot(k) != ff ==> #[trigger] draft.spec_field(k) == d.spec_field(k)
            }
        })
    }

    /// A key in the host edit form: Esc cancels; Tab / Shift+Tab move between
    /// the fields (caret to the end); Enter saves, first asking for a given
    /// password to be stored in the keychain (which needs a credential ref); the
    /// port field takes digits only; other keys edit the focused field.
    pub fn update_editing(&mut self, key: KeyInput) -> (r: Option<Request>)
        requires
            old(self).wf(),
            old(self).mode is Editing,
        ensures
            final(self).wf(),
            old(self).editing_step(final(self), key, r),
    {
        let mut mode = AppMode::Normal;
        std::mem::swap(&mut mode, &mut self.mode);
        match mode {
            AppMode::Editing { original_idx, mut draft, mut focused_field, mut cursor } => {
                match key.code {
                    KeyCode::Esc => None,
                    KeyCode::Tab => {
                        focused_field = (focused_field + 1) % EDIT_FIELD_COUNT;
                        cursor = draft.field(focused_field).unicode_len();
                        self.mode = AppMode::Editing { original_idx, draft, focused_field, cursor };
                        None
                    },
                    KeyCode::BackTab => {
                        focused_field = if focused_field == 0 {
                            EDIT_FIELD_COUNT - 1
                        } else {
                            focused_field - 1
                        };
                        cursor = draft.field(focused_field).unicode_len();
                        self.mode = AppMode::Editing { original_idx, draft, focused_field, cursor };
                        None
                    },
                    KeyCode::Enter => {
                        if draft.password.as_str().unicode_len() > 0 {
                            if draft.credential_ref.as_str().unicode_len() == 0 {
                                self.mode = AppMode::Editing { original_idx, draft, focused_field, cursor };
                                self.set_status(
                                    String::from_str("Credential ref cannot be empty when setting a password"),
                                );
                                return None;
                            }
                            let req = Request::WriteCredential {
                                reference: draft.credential_ref.clone(),
                                password: draft.password.clone(),
                            };
                            self.mode = AppMode::Editing { original_idx, draft, focused_field, cursor };
                            return Some(req);
                        }
                        self.mode = AppMode::Editing { original_idx, draft, focused_field, cursor };
                        self.commit_edit()
                    },
                    KeyCode::Char(c) if focused_field == PORT_FIELD_IDX && !('0' <= c && c <= '9')
                        && is_text_key(key.mods) => {
                        self.mode = AppMode::Editing { original_idx, draft, focused_field, cursor };
                        None
                    },
                    _ => {
                        draft.edit_field(focused_field, &mut cursor, key);
                        proof {
                            lemma_edit_cursor_in_range(old(self).mode->Editing_draft.spec_field(focused_field as int), old(self).mode->Editing_cursor as int, key);
                        }
                        self.mode = AppMode::Editing { original_idx, draft, focused_field, cursor };
                        None
                    },
                }
            },
            other => {
                self.mode = other;
                None
            },
        }
    }
}

/// The line editor keeps the caret within the text.
pub proof fn lemma_edit_cursor_in_range(text: Seq<char>, cursor: int, key: KeyInput)
    requires
        0 <= cursor <= text.len(),
    ensures
        0 <= spec_edit(text, cursor, key).cursor <= spec_edit(text, cursor, key).text.len(),
{
}

/// Delete removes the char just after the caret and leaves the caret where it
/// is; at the end of the line it does nothing. Backspace removes the char just
/// before the caret, which moves back one; at the start it does nothing.
pub proof fn lemma_delete_and_backspace(text: Seq<char>, cursor: int, key: KeyInput)
    requires
        0 <= cursor <= text.len(),
    ensures
        key.code is Delete && cursor < text.len() ==> spec_edit(text, cursor, key).text == text.subrange(0, cursor)
            + text.subrange(cursor + 1, text.len() as int) && spec_edit(text, cursor, key).cursor == cursor,
        key.code is Delete && cursor == text.len() ==> spec_edit(text, cursor, key).text == text && spec_edit(
            text,
            cursor,
            key,
        ).cursor == cursor,
        key.code is Backspace && cursor > 0 ==> spec_edit(text, cursor, key).text == text.subrange(0, cursor - 1)
            + text.subrange(cursor, text.len() as int) && spec_edit(text, cursor, key).cursor == cursor - 1,
        key.code is Backspace && cursor == 0 ==> spec_edit(text, cursor, key).text == text && spec_edit(
            text,
            cursor,
            key,
        ).cursor == 0,
        (key.code is Delete || key.code is Backspace) ==> spec_edit(text, cursor, key).consumed,
{
    if key.code is Delete && cursor < text.len() {
        assert(text.remove(cursor) =~= text.subrange(0, cursor) + text.subrange(cursor + 1, text.len() as int));
    }
    if key.code is Backspace && cursor > 0 {
        assert(text.remove(cursor - 1) =~= text.subrange(0, cursor - 1) + text.subrange(cursor, text.len() as int));
    }
}

/// Typing a character and then pressing Backspace gives back the text and the
/// caret position.
pub proof fn lemma_type_then_backspace(text: Seq<char>, cursor: int, typed: KeyInput, back: KeyInput)
    requires
        0 <= cursor <= text.len(),
        typed.code is Char,
        text_mods(typed.mods),
        back.code is Backspace,
    ensures
        ({
            let e = spec_edit(text, cursor, typed);
            let b = spec_edit(e.text, e.cursor, back);
            b.text == text && b.cursor == cursor
        }),
{
    let e = spec_edit(text, cursor, typed);
    assert(e.text.remove(cursor) =~= text);
}

/// Keys that only move the caret leave the text as it was.
pub proof fn lemma_moves_keep_text(text: Seq<char>, cursor: int, key: KeyInput)
    ensures
        !spec_edit(text, cursor, key).changed ==> spec_edit(text, cursor, key).text == text,
{
}

// ───────────────────────── credential form / delete prompt ─────────────────────────

impl App {
    /// What a key does in the credential form (see [`App::update_credential`]).
    pub open spec fn credential_step(&self, post: &App, key: KeyInput, r: Option<Request>) -> bool {
        &&& (r is None || r matches Some(Request::WriteCredential { .. }))
        &&& (same_data(post, self))
        &&& ({
            let re = self.mode->reference;
            let pw = self.mode->password;
            let f = self.mode->focused;
            let cur = self.mode->Credential_cursor;
            &&& key.code is Esc ==> post.mode is Normal && r is None
            &&& !(key.code is Enter && (re@.len() == 0 || pw@.len() == 0)) ==> post.status == self.status
            &&& (key.code is Tab || key.code is BackTab) ==> ({
                &&& r is None
                &&& post.mode matches AppMode::Credential { reference, password, focused, cursor }
                    && reference == re && password == pw && focused == 1 - f
                    && cursor == credential_field(re@, pw@, (1 - f) as usize).len()
            })
            &&& (key.code is Enter && (re@.len() == 0 || pw@.len() == 0)) ==> ({
                &&& r is None
                &&& post.mode == self.mode
                &&& post.status matches Some(m) && m@ == "Both ref and password are required"@
            })
            &&& (key.code is Enter && re@.len() > 0 && pw@.len() > 0) ==> ({
                &&& r matches Some(Request::WriteCredential { reference, password })
                    && reference@ == re@ && password@ == pw@
                &&& post.mode == self.mode
                &&& post.status == self.status
            })
            &&& !(key.code is Esc || key.code is Tab || key.code is BackTab || key.code is Enter) ==> ({
                let e = spec_edit(credential_field(re@, pw@, f), cur as int, key);
                &&& r is None
                &&& post.mode matches AppMode::Credential { reference, password, focused, cursor }
                    && focused == f && cursor == e.cursor
                    && (if f == 0 { reference@ == e.text && password == pw } else { password@ == e.text && reference == re })
            })
        })
    }

    /// A key in the standalone credential form: Esc cancels; Tab / Shift+Tab
    /// switch between the reference and the password (caret to the end); Enter
    /// asks for the password to be stored under the reference (both are
    /// required); other keys edit the focused field.
    pub fn update_credential(&mut self, key: KeyInput) -> (r: Option<Request>)
        requires
            old(self).wf(),
            old(self).mode is Credential,
        ensures
            final(self).wf(),
            old(self).credential_step(final(self), key, r),
    {
        let mut mode = AppMode::Normal;
        std::mem::swap(&mut mode, &mut self.mode);
        match mode {
            AppMode::Credential { mut reference, mut password, mut focused, mut cursor } => {
                match key.code {
                    KeyCode::Esc => None,
                    KeyCode::Tab | KeyCode::BackTab => {
                        focused = 1 - focused;
                        cursor = if focused == 0 {
                            reference.as_str().unicode_len()
                        } else {
                            password.as_str().unicode_len()
                        };
                        self.mode = AppMode::Credential { reference, password, focused, cursor };
                        None
                    },
                    KeyCode::Enter => {
                        if reference.as_str().unicode_len() == 0 || password.as_str().unicode_len() == 0 {
                            self.mode = AppMode::Credential { reference, password, focused, cursor };
                            self.set_status(String::from_str("Both ref and password are required"));
                            return None;
                        }
                        let req = Request::WriteCredential {
                            reference: reference.clone(),
                            password: password.clone(),
                        };
                        self.mode = AppMode::Credential { reference, password, focused, cursor };
                        Some(req)
                    },
                    _ => {
                        proof {
                            lemma_edit_cursor_in_range(credential_field(reference@, password@, focused), cursor as int, key);
                        }
                        if focused == 0 {
                            apply_edit_key(&mut reference, &mut cursor, key);
                        } else {
                            apply_edit_key(&mut password, &mut cursor, key);
                        }
                        self.mode = AppMode::Credential { reference, password, focused, cursor };
                        None
                    },
                }
            },
            other => {
                self.mode = other;
                None
            },
        }
    }

    /// What a key does at the delete prompt (see [`App::update_confirm_delete`]).
    pub open spec fn confirm_delete_step(&self, post: &App, key: KeyInput, r: Option<Request>) -> bool {
        &&& (r is None || r matches Some(Request::SaveHosts))
        &&& ({
            let i = self.mode->ConfirmDelete_idx;
            let yes = key.code == KeyCode::Char('y') || key.code == KeyCode::Char('Y') || key.code is Enter;
            let no = key.code == KeyCode::Char('n') || key.code == KeyCode::Char('N') || key.code is Esc;
            &&& yes ==> post.mode is Normal && (i < self.hosts@.len() ==> ({
                &&& post.hosts.deep_view() == self.hosts.deep_view().remove(i as int)
                &&& post.status matches Some(m) && m@ == "Deleted host "@ + self.hosts@[i as int].name@
                &&& r matches Some(Request::SaveHosts)
                &&& same_data(
                    post,
                    &App { hosts: post.hosts, rows: post.rows, selected: post.selected, ..*self },
                )
                &&& post.selected == spec_select(post.spec_rows(), self.selected as int, post.spec_best())
            })) && (i >= self.hosts@.len() ==> r is None && same_data(post, self) && post.status == self.status)
            &&& (!yes && no) ==> post.mode is Normal && r is None && same_data(post, self)
                && post.status == self.status
            &&& (!yes && !no) ==> *post == *self && r is None
        })
    }

    /// A key in the delete prompt: y / Y / Enter delete the host and return to
    /// the list; n / N / Esc return without deleting; other keys do nothing.
    pub fn update_confirm_delete(&mut self, key: KeyInput) -> (r: Option<Request>)
        requires
            old(self).wf(),
            old(self).mode is ConfirmDelete,
        ensures
            final(self).wf(),
            old(self).confirm_delete_step(final(self), key, r),
    {
        let idx = match &self.mode {
            AppMode::ConfirmDelete { idx, .. } => *idx,
            _ => 0,
        };
        match key.code {
            KeyCode::Char('y') | KeyCode::Char('Y') | KeyCode::Enter => {
                let r = self.delete_host(idx);
                self.mode = AppMode::Normal;
                r
            },
            KeyCode::Char('n') | KeyCode::Char('N') | KeyCode::Esc => {
                self.mode = AppMode::Normal;
                None
            },
            _ => None,
        }
    }
}

// ───────────────────────── console form ─────────────────────────

/// One of the Advanced value rows (data bits, parity, stop bits, flow control).
pub open spec fn is_enum_field(f: CField) -> bool {
    f == CField::DataBits || f == CField::Parity || f == CField::StopBits || f == CField::Flow
}

/// The form's settings other than its ports, caret and focus are those of `b`.
pub open spec fn same_settings(a: ConsoleForm, b: ConsoleForm) -> bool {
    &&& a.device == b.device
    &&& a.baud == b.baud
    &&& a.advanced_open == b.advanced_open
    &&& a.data_bits == b.data_bits
    &&& a.parity == b.parity
    &&& a.stop_bits == b.stop_bits
    &&& a.flow == b.flow
}

/// `f` is `form` with the value of `field` cycled forward (or back); the other
/// fields, the focus and the caret are kept.
pub open spec fn values_cycled(form: ConsoleForm, f: ConsoleForm, field: CField, fwd: bool) -> bool {
    &&& f.ports == form.ports
    &&& f.device == form.device
    &&& f.baud == form.baud
    &&& f.advanced_open == form.advanced_open
    &&& f.focus == form.focus
    &&& f.cursor == form.cursor
    &&& f.data_bits == (if field == CField::DataBits {
        crate::forms::spec_cycle_in(seq![8u8, 7, 6, 5], form.data_bits, fwd)
    } else {
        form.data_bits
    })
    &&& f.parity == (if field == CField::Parity {
        crate::forms::spec_cycle_in(crate::forms::parity_options(), form.parity, fwd)
    } else {
        form.parity
    })
    &&& f.stop_bits == (if field == CField::StopBits {
        crate::forms::spec_cycle_in(seq![1u8, 2], form.stop_bits, fwd)
    } else {
        form.stop_bits
    })
    &&& f.flow == (if field == CField::Flow {
        crate::forms::spec_cycle_in(crate::forms::flow_options(), form.flow, fwd)
    } else {
        form.flow
    })
}

/// `f` is `form` with the Advanced section opened or closed: the focus kept in
/// range of the new field list, the caret at the end of the focused field, the
/// values kept.
pub open spec fn advanced_toggled(form: ConsoleForm, f: ConsoleForm) -> bool {
    let n = spec_fields(!form.advanced_open).len();
    &&& f.advanced_open == !form.advanced_open
    &&& f.focus == (if form.focus >= n { (n - 1) as usize } else { form.focus })
    &&& f.cursor == f.spec_focus_text_len()
    &&& f.ports == form.ports
    &&& f.device == form.device
    &&& f.baud == form.baud
    &&& f.data_bits == form.data_bits
    &&& f.parity == form.parity
    &&& f.stop_bits == form.stop_bits
    &&& f.flow == form.flow
}

/// `f` is `form` after ↑ (`fwd` false) or ↓ on the focused field: the next
/// detected port (nothing without ports) or baud preset, caret at the end; or
/// the next value of an Advanced row.
pub open spec fn console_cycled(form: ConsoleForm, f: ConsoleForm, fwd: bool) -> bool {
    let current = form.spec_current();
    if current == CField::Device {
        if form.ports@.len() > 0 {
            &&& f.device@ == crate::forms::spec_cycle_snap(form.ports.deep_view(), form.device@, fwd)
            &&& f.cursor == f.device@.len()
            &&& f.ports == form.ports
            &&& f.baud == form.baud
            &&& same_values(f, form)
            &&& f.focus == form.focus
        } else {
            f == form
        }
    } else if current == CField::Baud {
        &&& f.baud@ == crate::forms::spec_cycle_baud(form.baud@, fwd)
        &&& f.cursor == f.baud@.len()
        &&& f.ports == form.ports
        &&& f.device == form.device
        &&& same_values(f, form)
        &&& f.focus == form.focus
    } else {
        values_cycled(form, f, current, fwd)
    }
}

/// The Advanced section and its values are the same in `a` and `b`.
pub open spec fn same_values(a: ConsoleForm, b: ConsoleForm) -> bool {
    &&& a.advanced_open == b.advanced_open
    &&& a.data_bits == b.data_bits
    &&& a.parity == b.parity
    &&& a.stop_bits == b.stop_bits
    &&& a.flow == b.flow
}

/// `f` is `form` after the line editor took `key` on the focused text field
/// (device or baud); on the other rows nothing changes.
pub open spec fn console_text_edited(form: ConsoleForm, f: ConsoleForm, key: KeyInput) -> bool {
    let current = form.spec_current();
    if current == CField::Device {
        let e = spec_edit(form.device@, form.cursor as int, key);
        &&& f.device@ == e.text
        &&& f.cursor == e.cursor
        &&& f.ports == form.ports
        &&& f.baud == form.baud
        &&& same_values(f, form)
        &&& f.focus == form.focus
    } else if current == CField::Baud {
        let e = spec_edit(form.baud@, form.cursor as int, key);
        &&& f.baud@ == e.text
        &&& f.cursor == e.cursor
        &&& f.ports == form.ports
        &&& f.device == form.device
        &&& same_values(f, form)
        &&& f.focus == form.focus
    } else {
        f == form
    }
}

impl App {
    /// What a key does in the console form (see [`App::update_console`]).
    pub open spec fn console_step(&self, post: &App, key: KeyInput, r: Option<Request>) -> bool {
        let form = self.mode->Console_0;
        let fs = spec_fields(form.advanced_open);
        let len = fs.len() as int;
        let current = form.spec_current();
        let ctrl = ctrl_only(key.mods);
        let is_enum = is_enum_field(current);
        let submit = key.code is Enter && current != CField::Advanced;
        let built = spec_build_params(form.device@, form.baud@);
        let non_digit_baud = key.code matches KeyCode::Char(c) && current == CField::Baud && !('0' <= c
            && c <= '9') && text_mods(key.mods);
        let edit_key = !(key.code is Esc) && !(key.code == KeyCode::Char('r') && ctrl) && !(key.code is Tab)
            && !(key.code is BackTab) && !(key.code is Up) && !(key.code is Down) && !((key.code is Left
            || key.code is Right) && is_enum) && !(key.code == KeyCode::Char(' ') && (current
            == CField::Advanced || is_enum)) && !(key.code is Enter) && !non_digit_baud;
        &&& (post.hosts == self.hosts)
        &&& (post.rows == self.rows)
        &&& (post.selected == self.selected)
        &&& (post.filter == self.filter)
        &&& (post.filter_cursor == self.filter_cursor)
        &&& (post.groups == self.groups)
        &&& (post.collapsed == self.collapsed)
        &&& (post.automations == self.automations)
        &&& (post.pending_connect == self.pending_connect)
        &&& !(submit && built is Ok) ==> post.should_quit == self.should_quit && post.pending_serial
            == self.pending_serial
        &&& !(submit && built is Err) ==> post.status is None
        &&& r == (if key.code == KeyCode::Char('r') && ctrl {
            Some(Request::ListPorts)
        } else {
            None
        })
        &&& key.code is Esc ==> post.mode is Normal
        &&& (key.code == KeyCode::Char('r') && ctrl) ==> post.mode == self.mode
        &&& key.code is Tab ==> (post.mode matches AppMode::Console(f) && f.focus == (form.focus + 1) % len
            && f.cursor == f.spec_focus_text_len() && same_settings(f, form) && f.ports == form.ports)
        &&& key.code is BackTab ==> (post.mode matches AppMode::Console(f) && f.focus == (form.focus + len
            - 1) % len && f.cursor == f.spec_focus_text_len() && same_settings(f, form) && f.ports
            == form.ports)
        &&& (key.code is Up || key.code is Down) ==> (post.mode matches AppMode::Console(f)
            && console_cycled(form, f, key.code is Down))
        &&& ((key.code is Left || key.code is Right) && is_enum) ==> (post.mode matches AppMode::Console(f)
            && values_cycled(form, f, current, key.code is Right))
        &&& (key.code == KeyCode::Char(' ') && is_enum) ==> (post.mode matches AppMode::Console(f)
            && values_cycled(form, f, current, true))
        &&& ((key.code == KeyCode::Char(' ') || key.code is Enter) && current == CField::Advanced)
            ==> (post.mode matches AppMode::Console(f) && advanced_toggled(form, f))
        &&& submit ==> match built {
            Ok((d, b)) => {
                &&& post.should_quit
                &&& post.pending_serial matches Some(p) && p.device@ == d && p.baud == b && p.data_bits
                    == form.data_bits && p.parity == form.parity && p.stop_bits == form.stop_bits && p.flow
                    == form.flow
                &&& post.mode == self.mode
            },
            Err(m) => {
                &&& post.status matches Some(e) && e@ == m
                &&& post.mode == self.mode
            },
        }
        &&& non_digit_baud ==> post.mode == self.mode
        &&& edit_key ==> (post.mode matches AppMode::Console(f) && console_text_edited(form, f, key))
    }

    /// A key in the console (serial) form. The status is cleared first. Esc
    /// cancels; Ctrl+R asks to re-scan the ports; Tab / Shift+Tab move between
    /// fields; ↑↓ cycle the focused field (ports, baud presets, or the value);
    /// ←→ and Space cycle the Advanced value rows; Space or Enter on Advanced
    /// expands or collapses it; Enter elsewhere validates the form and, when
    /// valid, leaves to open the port; Baud takes digits only; other keys edit
    /// the device or baud text.
    pub fn update_console(&mut self, key: KeyInput) -> (r: Option<Request>)
        requires
            old(self).wf(),
            old(self).mode is Console,
        ensures
            final(self).wf(),
            old(self).console_step(final(self), key, r),
    {
        self.status = None;
        let ctrl = is_ctrl_only(key.mods);
        let mut mode = AppMode::Normal;
        std::mem::swap(&mut mode, &mut self.mode);
        match mode {
            AppMode::Console(mut form) => {
                let len = form.fields().len();
                let current = form.current();
                let is_enum = match current {
                    CField::DataBits | CField::Parity | CField::StopBits | CField::Flow => true,
                    _ => false,
                };
                let mut leave = false;
                let mut req: Option<Request> = None;
                match key.code {
                    KeyCode::Esc => {
                        leave = true;
                    },
                    KeyCode::Char('r') if ctrl => {
                        req = Some(Request::ListPorts);
                    },
                    KeyCode::Tab => {
                        form.focus = (form.focus + 1) % len;
                        form.cursor = form.focus_text_len();
                    },
                    KeyCode::BackTab => {
                        form.focus = (form.focus + len - 1) % len;
                        form.cursor = form.focus_text_len();
                    },
                    KeyCode::Up => match current {
                        CField::Device => form.cycle_port(false),
                        CField::Baud => form.cycle_baud(false),
                        _ => form.cycle_value(current, false),
                    },
                    KeyCode::Down => match current {
                        CField::Device => form.cycle_port(true),
                        CField::Baud => form.cycle_baud(true),
                        _ => form.cycle_value(current, true),
                    },
                    KeyCode::Left if is_enum => form.cycle_value(current, false),
                    KeyCode::Right if is_enum => form.cycle_value(current, true),
                    KeyCode::Char(' ') if current == CField::Advanced => {
                        form.advanced_open = !form.advanced_open;
                        form.clamp_focus();
                    },
                    KeyCode::Char(' ') if is_enum => form.cycle_value(current, true),
                    KeyCode::Enter => {
                        if current == CField::Advanced {
                            form.advanced_open = !form.advanced_open;
                            form.clamp_focus();
                        } else {
                            match form.build_params() {
                                Ok(params) => {
                                    self.pending_serial = Some(params);
                                    self.should_quit = true;
                                },
                                Err(e) => {
                                    self.status = Some(e);
                                },
                            }
                        }
                    },
                    KeyCode::Char(c) if current == CField::Baud && !('0' <= c && c <= '9') && is_text_key(
                        key.mods,
                    ) => {},
                    _ => {
                        proof {
                            if current == CField::Device {
                                lemma_edit_cursor_in_range(form.device@, form.cursor as int, key);
                            }
                            if current == CField::Baud {
                                lemma_edit_cursor_in_range(form.baud@, form.cursor as int, key);
                            }
                        }
                        match current {
                            CField::Device => {
                                apply_edit_key(&mut form.device, &mut form.cursor, key);
                            },
                            CField::Baud => {
                                apply_edit_key(&mut form.baud, &mut form.cursor, key);
                            },
                            _ => {},
                        }
                    },
                }
                if !leave {
                    self.mode = AppMode::Console(form);
                }
                req
            },
            other => {
                self.mode = other;
                None
            },
        }
    }
}

// ───────────────────────── macro manager ─────────────────────────

/// The rules after saving rule `e` from a draft that edits rule `original_idx`
/// (replaced when it exists, appended otherwise).
pub open spec fn saved_into<T>(list: Seq<T>, original_idx: Option<usize>, e: T) -> Seq<T> {
    match original_idx {
        Some(i) => if i < list.len() {
            list.update(i as int, e)
        } else {
            list.push(e)
        },
        None => list.push(e),
    }
}

/// The draft `b` equals `a` apart from its expect sub-form.
pub open spec fn same_but_sub(a: MacroEdit, b: MacroEdit) -> bool {
    &&& a.original_idx == b.original_idx
    &&& a.key == b.key
    &&& a.cmd_lines == b.cmd_lines
    &&& a.expects == b.expects
    &&& a.focus == b.focus
    &&& a.cursor == b.cursor
}

/// The expect-rule draft `x` is `e`'s rule draft `sub` with the same texts,
/// the same rule it edits and the same `once`.
pub open spec fn same_rule_texts(x: ExpectEdit, sub: ExpectEdit) -> bool {
    &&& x.original_idx == sub.original_idx
    &&& x.pattern == sub.pattern
    &&& x.send == sub.send
    &&& x.send_credential == sub.send_credential
    &&& x.once == sub.once
}

/// What a key does to a draft whose expect-rule sub-form is open (`e` before,
/// `e2` after, with the status message shown). Esc closes the sub-form; Tab /
/// Shift+Tab cycle its four rows (caret to the end); Space on the last row
/// toggles `once`; Enter or Ctrl+S validates the rule and stores it in the draft
/// (closing the sub-form), or keeps everything and shows the message; any other
/// key goes to the line editor of the focused text row.
pub open spec fn expect_key_step(
    e: MacroEdit,
    e2: MacroEdit,
    status: Option<String>,
    key: KeyInput,
    ctrl: bool,
) -> bool {
    let sub = e.sub->0;
    if key.code is Esc {
        e2.sub is None && same_but_sub(e2, e) && status is None
    } else if key.code is Tab || key.code is BackTab {
        &&& status is None
        &&& same_but_sub(e2, e)
        &&& e2.sub matches Some(x) && same_rule_texts(x, sub) && x.focus == (if key.code is Tab {
            (sub.focus + 1) % 4
        } else {
            (sub.focus + 3) % 4
        }) && x.cursor == x.spec_field(x.focus as int).len()
    } else if key.code == KeyCode::Char(' ') && sub.focus == 3 {
        &&& status is None
        &&& same_but_sub(e2, e)
        &&& e2.sub matches Some(x) && x.once == !sub.once && x.focus == sub.focus && x.cursor == sub.cursor
            && x.original_idx == sub.original_idx && x.pattern == sub.pattern && x.send == sub.send
            && x.send_credential == sub.send_credential
    } else if key.code is Enter || (key.code == KeyCode::Char('s') && ctrl) {
        match crate::forms::spec_build_expect(sub.pattern@, sub.send@, sub.send_credential@) {
            Ok((send, cred)) => status is None && e2.sub is None && e2.expects.deep_view() == saved_into(
                e.expects.deep_view(),
                sub.original_idx,
                crate::config::ExpectView { pattern: sub.pattern@, send, send_credential: cred, once: sub.once },
            ) && e2.key == e.key && e2.cmd_lines == e.cmd_lines && e2.focus == e.focus && e2.cursor == e.cursor
                && e2.original_idx == e.original_idx,
            Err(m) => (status matches Some(x) && x@ == m) && e2 == e,
        }
    } else {
        let ed = spec_edit(sub.spec_field(sub.focus as int), sub.cursor as int, key);
        &&& status is None
        &&& same_but_sub(e2, e)
        &&& e2.sub matches Some(x) && x.original_idx == sub.original_idx && x.focus == sub.focus && x.once
            == sub.once && (if sub.focus < 3 {
            &&& x.cursor == ed.cursor
            &&& x.pattern@ == (if sub.focus == 0 { ed.text } else { sub.pattern@ })
            &&& x.send@ == (if sub.focus == 1 { ed.text } else { sub.send@ })
            &&& x.send_credential@ == (if sub.focus == 2 { ed.text } else { sub.send_credential@ })
        } else {
            x.cursor == sub.cursor && x.pattern == sub.pattern && x.send == sub.send && x.send_credential
                == sub.send_credential
        })
    }
}

/// The draft `e2` is `e` with focus `f`, the caret parked at the end of the
/// focused row, and the same texts, rules and sub-form.
pub open spec fn refocused(e: MacroEdit, e2: MacroEdit, f: MacroFocus) -> bool {
    &&& e2.focus == f
    &&& e2.cursor == focus_cursor(e2)
    &&& e2.original_idx == e.original_idx
    &&& e2.key == e.key
    &&& e2.cmd_lines == e.cmd_lines
    &&& e2.expects == e.expects
    &&& e2.sub == e.sub
}

/// The draft `e2` is `e` with the rule editor opened on rule `i`: its pattern,
/// response, credential and `once`, the pattern row focused, caret at its end.
pub open spec fn rule_opened(e: MacroEdit, e2: MacroEdit, i: usize) -> bool {
    let ex = e.expects@[i as int];
    &&& same_but_sub(e2, e)
    &&& e2.sub matches Some(x) && x.original_idx == Some(i) && x.pattern@ == ex.pattern@ && x.send@ == (
    match ex.send {
        Some(t) => t@,
        None => Seq::empty(),
    }) && x.send_credential@ == (match ex.send_credential {
        Some(t) => t@,
        None => Seq::empty(),
    }) && x.once == ex.once && x.focus == 0 && x.cursor == ex.pattern@.len()
}

/// What a key other than Esc and Ctrl+S does to a macro draft without an open
/// rule editor (`e` before, `e2` after):
/// - Ctrl+X opens a blank rule editor;
/// - Tab / ↓ and Shift+Tab / ↑ move the focus along key, command lines, rules;
/// - Ctrl+E on a rule opens it;
/// - Ctrl+D removes the focused command line (a sole line is emptied) or rule;
/// - Enter moves from the key to the first line, inserts an empty line after a
///   command line, or opens the focused rule;
/// - Backspace at the start of an empty command line removes it (not the last);
/// - any other key goes to the line editor of the key or the focused line.
pub open spec fn draft_key_step(e: MacroEdit, e2: MacroEdit, key: KeyInput, ctrl: bool) -> bool {
    let order = crate::forms::spec_focus_order(e.cmd_lines@.len(), e.expects@.len());
    let cur = match crate::forms::first_index(order, e.focus) {
        Some(i) => i,
        None => 0,
    };
    let n = e.cmd_lines@.len();
    if key.code == KeyCode::Char('x') && ctrl {
        &&& same_but_sub(e2, e)
        &&& e2.sub matches Some(x) && x.original_idx is None && x.pattern@.len() == 0 && x.send@.len() == 0
            && x.send_credential@.len() == 0 && x.once && x.focus == 0 && x.cursor == 0
    } else if key.code is Tab || key.code is Down {
        refocused(e, e2, order[crate::forms::spec_step(cur, order.len() as int, true)])
    } else if key.code is BackTab || key.code is Up {
        refocused(e, e2, order[crate::forms::spec_step(cur, order.len() as int, false)])
    } else if key.code == KeyCode::Char('e') && ctrl {
        match e.focus {
            MacroFocus::Expect(i) => rule_opened(e, e2, i),
            _ => e2 == e,
        }
    } else if key.code == KeyCode::Char('d') && ctrl {
        match e.focus {
            MacroFocus::Cmd(i) => {
                &&& e2.cmd_lines.deep_view() == (if n > 1 {
                    e.cmd_lines.deep_view().remove(i as int)
                } else {
                    seq![Seq::<char>::empty()]
                })
                &&& e2.focus == MacroFocus::Cmd(if n > 1 && i < n - 1 {
                    i
                } else if n > 1 {
                    (n - 2) as usize
                } else {
                    0
                })
                &&& e2.cursor == focus_cursor(e2)
                &&& e2.original_idx == e.original_idx
                &&& e2.key == e.key
                &&& e2.expects == e.expects
                &&& e2.sub == e.sub
            },
            MacroFocus::Expect(i) => {
                &&& e2.expects.deep_view() == e.expects.deep_view().remove(i as int)
                &&& e2.focus == (if e.expects@.len() == 1 {
                    MacroFocus::Key
                } else {
                    MacroFocus::Expect(
                        if i < e.expects@.len() - 1 {
                            i
                        } else {
                            (e.expects@.len() - 2) as usize
                        },
                    )
                })
                &&& e2.cursor == focus_cursor(e2)
                &&& e2.original_idx == e.original_idx
                &&& e2.key == e.key
                &&& e2.cmd_lines == e.cmd_lines
                &&& e2.sub == e.sub
            },
            MacroFocus::Key => e2 == e,
        }
    } else if key.code is Enter {
        match e.focus {
            MacroFocus::Key => refocused(e, e2, MacroFocus::Cmd(0)),
            MacroFocus::Cmd(i) => {
                &&& e2.cmd_lines.deep_view() == e.cmd_lines.deep_view().insert(i + 1, Seq::empty())
                &&& e2.focus == MacroFocus::Cmd((i + 1) as usize)
                &&& e2.cursor == 0
                &&& e2.original_idx == e.original_idx
                &&& e2.key == e.key
                &&& e2.expects == e.expects
                &&& e2.sub == e.sub
            },
            MacroFocus::Expect(i) => rule_opened(e, e2, i),
        }
    } else if key.code is Backspace && e.focus is Cmd && e.cursor == 0 {
        let i = e.focus->Cmd_0;
        if n > 1 && e.cmd_lines@[i as int]@.len() == 0 {
            &&& e2.cmd_lines.deep_view() == e.cmd_lines.deep_view().remove(i as int)
            &&& e2.focus == MacroFocus::Cmd(if i > 0 { (i - 1) as usize } else { 0 })
            &&& e2.cursor == focus_cursor(e2)
            &&& e2.original_idx == e.original_idx
            &&& e2.key == e.key
            &&& e2.expects == e.expects
            &&& e2.sub == e.sub
        } else {
            e2 == e
        }
    } else {
        match e.focus {
            MacroFocus::Key => {
                let ed = spec_edit(e.key@, e.cursor as int, key);
                &&& e2.key@ == ed.text
                &&& e2.cursor == ed.cursor
                &&& e2.focus == e.focus
                &&& e2.original_idx == e.original_idx
                &&& e2.cmd_lines == e.cmd_lines
                &&& e2.expects == e.expects
                &&& e2.sub == e.sub
            },
            MacroFocus::Cmd(i) => {
                let ed = spec_edit(e.cmd_lines@[i as int]@, e.cursor as int, key);
                &&& e2.cmd_lines.deep_view() == e.cmd_lines.deep_view().update(i as int, ed.text)
                &&& e2.cursor == ed.cursor
                &&& e2.focus == e.focus
                &&& e2.original_idx == e.original_idx
                &&& e2.key == e.key
                &&& e2.expects == e.expects
                &&& e2.sub == e.sub
            },
            MacroFocus::Expect(_) => e2 == e,
        }
    }
}

/// A key in the expect-rule sub-form of the macro draft `edit`. Esc closes the
/// sub-form; Tab / Shift+Tab cycle its four rows (caret to the end); Space on
/// the last row toggles `once`; Enter or Ctrl+S validates the rule and stores it
/// in the draft (the status message on failure is returned); other keys edit
/// the focused text row.
pub fn expect_form_key(edit: &mut MacroEdit, key: KeyInput, ctrl: bool) -> (status: Option<String>)
    requires
        edit_wf(*old(edit)),
        old(edit).sub is Some,
    ensures
        edit_wf(*final(edit)),
        expect_key_step(*old(edit), *final(edit), status, key, ctrl),
{
    let mut sub_opt: Option<ExpectEdit> = None;
    std::mem::swap(&mut sub_opt, &mut edit.sub);
    let mut sub = match sub_opt {
        Some(x) => x,
        None => {
            return None;
        },
    };
    match key.code {
        KeyCode::Esc => None,
        KeyCode::Tab => {
            sub.focus = (sub.focus + 1) % 4;
            sub.cursor = sub.field_len();
            edit.sub = Some(sub);
            None
        },
        KeyCode::BackTab => {
            sub.focus = (sub.focus + 3) % 4;
            sub.cursor = sub.field_len();
            edit.sub = Some(sub);
            None
        },
        KeyCode::Char(' ') if sub.focus == 3 => {
            sub.once = !sub.once;
            edit.sub = Some(sub);
            None
        },
        KeyCode::Enter => save_expect(edit, sub),
        KeyCode::Char('s') if ctrl => save_expect(edit, sub),
        _ => {
            proof {
                lemma_edit_cursor_in_range(sub.spec_field(sub.focus as int), sub.cursor as int, key);
            }
            if sub.focus == 0 {
                apply_edit_key(&mut sub.pattern, &mut sub.cursor, key);
            } else if sub.focus == 1 {
                apply_edit_key(&mut sub.send, &mut sub.cursor, key);
            } else if sub.focus == 2 {
                apply_edit_key(&mut sub.send_credential, &mut sub.cursor, key);
            }
            edit.sub = Some(sub);
            None
        },
    }
}

/// Validate the rule draft `sub` and store it in the macro draft (closing the
/// sub-form), or put the sub-form back and return the message.
fn save_expect(edit: &mut MacroEdit, sub: ExpectEdit) -> (status: Option<String>)
    requires
        old(edit).sub is None,
        edit_wf(*old(edit)),
        sub.focus < 4,
        sub.cursor <= sub.spec_field(sub.focus as int).len(),
    ensures
        edit_wf(*final(edit)),
        match crate::forms::spec_build_expect(sub.pattern@, sub.send@, sub.send_credential@) {
            Ok((send, cred)) => status is None && final(edit).sub is None && final(edit).expects.deep_view()
                == saved_into(
                old(edit).expects.deep_view(),
                sub.original_idx,
                crate::config::ExpectView { pattern: sub.pattern@, send, send_credential: cred, once: sub.once },
            ) && final(edit).key == old(edit).key && final(edit).cmd_lines == old(edit).cmd_lines
                && final(edit).focus == old(edit).focus && final(edit).cursor == old(edit).cursor
                && final(edit).original_idx == old(edit).original_idx,
            Err(m) => (status matches Some(e) && e@ == m) && final(edit).sub == Some(sub) && same_but_sub(
                *final(edit),
                *old(edit),
            ),
        },
{
    match build_expect(&sub) {
        Ok(exp) => {
            let ghost before = edit.expects.deep_view();
            match sub.original_idx {
                Some(i) => {
                    if i < edit.expects.len() {
                        edit.expects.set(i, exp);
                    } else {
                        edit.expects.push(exp);
                    }
                },
                None => {
                    edit.expects.push(exp);
                },
            }
            proof {
                assert(edit.expects.deep_view() =~= saved_into(before, sub.original_idx, exp@));
            }
            None
        },
        Err(e) => {
            edit.sub = Some(sub);
            Some(e)
        },
    }
}

/// What a key in the macro draft asks of the manager.
#[derive(Debug)]
pub struct MacroKeyOutcome {
    /// Return to the macro list.
    pub back: bool,
    /// The macro list changed and should be persisted.
    pub persist: bool,
    /// A status message to show.
    pub status: Option<String>,
    /// The validated macro to store (when saved).
    pub saved: Option<Macro>,
}

/// The caret position `set_focus` parks at for draft `e` with focus `f`.
pub open spec fn focus_cursor(e: MacroEdit) -> int {
    match e.spec_focus_field() {
        Some(t) => t.len() as int,
        None => 0,
    }
}

/// A key in the macro draft (no expect sub-form open). Esc returns to the list;
/// Ctrl+S validates the draft and stores it in `macros` (persisting, with the
/// status "Macro saved"); Ctrl+X opens a new expect rule; Tab/↓ and
/// Shift+Tab/↑ move between rows; Ctrl+E (or Enter) on an expect row edits it;
/// Ctrl+D deletes the focused command line or expect rule; Enter on the key
/// moves to the first command line and on a command line inserts a new line
/// below it; Backspace at the start of an empty command line removes it; other
/// keys edit the focused key or command line.
pub fn macro_form_key(edit: &mut MacroEdit, macros: &Vec<Macro>, key: KeyInput, ctrl: bool) -> (r: MacroKeyOutcome)
    requires
        edit_wf(*old(edit)),
        old(edit).sub is None,
    ensures
        edit_wf(*final(edit)),
        r.persist <==> r.saved is Some,
        key.code is Esc ==> r.back && !r.persist && r.status is None && *final(edit) == *old(edit),
        (key.code == KeyCode::Char('s') && ctrl) ==> match crate::forms::spec_build_macro(
            old(edit).key@,
            old(edit).cmd_lines.deep_view(),
            old(edit).original_idx,
            macros.deep_view(),
        ) {
            Ok((k, send)) => r.back && r.persist && (r.status matches Some(m) && m@ == "Macro saved"@)
                && (r.saved matches Some(m) && m@ == MacroView { key: k, send, expects: old(edit).expects.deep_view() })
                && *final(edit) == *old(edit),
            Err(m) => !r.back && !r.persist && (r.status matches Some(e) && e@ == m) && *final(edit) == *old(edit),
        },
        (!(key.code is Esc) && !(key.code == KeyCode::Char('s') && ctrl)) ==> !r.back && !r.persist
            && r.status is None && draft_key_step(*old(edit), *final(edit), key, ctrl),
{
    let none = MacroKeyOutcome { back: false, persist: false, status: None, saved: None };
    match key.code {
        KeyCode::Esc => MacroKeyOutcome { back: true, persist: false, status: None, saved: None },
        KeyCode::Char('s') if ctrl => {
            match build_macro(edit, macros) {
                Ok(m) => MacroKeyOutcome {
                    back: true,
                    persist: true,
                    status: Some(String::from_str("Macro saved")),
                    saved: Some(m),
                },
                Err(e) => MacroKeyOutcome { back: false, persist: false, status: Some(e), saved: None },
            }
        },
        KeyCode::Char('x') if ctrl => {
            edit.sub = Some(ExpectEdit::new_blank());
            none
        },
        KeyCode::Tab | KeyCode::Down => {
            edit.move_focus(true);
            proof {
                lemma_focus_order_valid(*old(edit), true);
            }
            none
        },
        KeyCode::BackTab | KeyCode::Up => {
            edit.move_focus(false);
            proof {
                lemma_focus_order_valid(*old(edit), false);
            }
            none
        },
        KeyCode::Char('e') if ctrl => {
            match edit.focus {
                MacroFocus::Expect(i) => {
                    if i < edit.expects.len() {
                        let sub = ExpectEdit::from_expect(i, &edit.expects[i]);
                        edit.sub = Some(sub);
                    }
                },
                _ => {},
            }
            none
        },
        KeyCode::Char('d') if ctrl => {
            match edit.focus {
                MacroFocus::Cmd(i) => {
                    if edit.cmd_lines.len() > 1 {
                        let ghost before = edit.cmd_lines.deep_view();
                        edit.cmd_lines.remove(i);
                        proof {
                            assert(edit.cmd_lines.deep_view() =~= before.remove(i as int));
                        }
                        let last = edit.cmd_lines.len() - 1;
                        edit.set_focus(MacroFocus::Cmd(
                            if i < last {
                                i
                            } else {
                                last
                            },
                        ));
                    } else {
                        edit.cmd_lines.set(0, String::new());
                        assert(edit.cmd_lines.deep_view() =~= seq![Seq::<char>::empty()]);
                        edit.set_focus(MacroFocus::Cmd(0));
                    }
                },
                MacroFocus::Expect(i) => {
                    let ghost before = edit.expects.deep_view();
                    if i < edit.expects.len() {
                        edit.expects.remove(i);
                    }
                    proof {
                        assert(edit.expects.deep_view() =~= before.remove(i as int));
                    }
                    if edit.expects.len() == 0 {
                        edit.set_focus(MacroFocus::Key);
                    } else {
                        let last = edit.expects.len() - 1;
                        edit.set_focus(MacroFocus::Expect(
                            if i < last {
                                i
                            } else {
                                last
                            },
                        ));
                    }
                },
                MacroFocus::Key => {},
            }
            none
        },
        KeyCode::Enter => {
            match edit.focus {
                MacroFocus::Key => edit.set_focus(MacroFocus::Cmd(0)),
                MacroFocus::Cmd(i) => {
                    let n = edit.cmd_lines.len();
                    assert(i < n);
                    let ghost before = edit.cmd_lines.deep_view();
                    edit.cmd_lines.insert(i + 1, String::new());
                    proof {
                        assert(edit.cmd_lines.deep_view() =~= before.insert(i + 1, Seq::empty()));
                    }
                    edit.set_focus(MacroFocus::Cmd(i + 1));
                },
                MacroFocus::Expect(i) => {
                    if i < edit.expects.len() {
                        let sub = ExpectEdit::from_expect(i, &edit.expects[i]);
                        edit.sub = Some(sub);
                    }
                },
            }
            none
        },
        KeyCode::Backspace if (match edit.focus {
            MacroFocus::Cmd(_) => true,
            _ => false,
        }) && edit.cursor == 0 => {
            match edit.focus {
                MacroFocus::Cmd(i) => {
                    if edit.cmd_lines.len() > 1 && edit.cmd_lines[i].as_str().unicode_len() == 0 {
                        let ghost before = edit.cmd_lines.deep_view();
                        edit.cmd_lines.remove(i);
                        proof {
                            assert(edit.cmd_lines.deep_view() =~= before.remove(i as int));
                        }
                        edit.set_focus(MacroFocus::Cmd(
                            if i > 0 {
                                i - 1
                            } else {
                                0
                            },
                        ));
                    }
                },
                _ => {},
            }
            none
        },
        _ => {
            let mut cursor = edit.cursor;
            match edit.focus {
                MacroFocus::Key => {
                    proof {
                        lemma_edit_cursor_in_range(edit.key@, cursor as int, key);
                    }
                    apply_edit_key(&mut edit.key, &mut cursor, key);
                    edit.cursor = cursor;
                },
                MacroFocus::Cmd(i) => {
                    if i < edit.cmd_lines.len() {
                        let ghost before = edit.cmd_lines.deep_view();
                        let mut line = String::new();
                        edit.cmd_lines.set_and_swap(i, &mut line);
                        proof {
                            assert(line@ == before[i as int]);
                            lemma_edit_cursor_in_range(line@, cursor as int, key);
                        }
                        apply_edit_key(&mut line, &mut cursor, key);
                        edit.cmd_lines.set(i, line);
                        edit.cursor = cursor;
                        proof {
                            assert(edit.cmd_lines.deep_view() =~= before.update(i as int, edit.cmd_lines@[i as int]@));
                        }
                    }
                },
                MacroFocus::Expect(_) => {},
            }
            none
        },
    }
}

/// Moving focus keeps the draft's focus on a row that exists.
proof fn lemma_focus_order_valid(e: MacroEdit, forward: bool)
    ensures
        ({
            let order = crate::forms::spec_focus_order(e.cmd_lines@.len(), e.expects@.len());
            forall|k: int| 0 <= k < order.len() ==> match #[trigger] order[k] {
                MacroFocus::Cmd(i) => i < e.cmd_lines@.len(),
                MacroFocus::Expect(i) => i < e.expects@.len(),
                MacroFocus::Key => true,
            }
        }),
{
    let order = crate::forms::spec_focus_order(e.cmd_lines@.len(), e.expects@.len());
    assert forall|k: int| 0 <= k < order.len() implies match #[trigger] order[k] {
        MacroFocus::Cmd(i) => i < e.cmd_lines@.len(),
        MacroFocus::Expect(i) => i < e.expects@.len(),
        MacroFocus::Key => true,
    } by {
        let n = e.cmd_lines@.len() as int;
        if k == 0 {
        } else if k <= n {
            assert(order[k] == MacroFocus::Cmd((k - 1) as usize));
        } else {
            assert(order[k] == MacroFocus::Expect((k - 1 - n) as usize));
        }
    }
}

/// Open the draft of the selected macro (if the selection is on one).
fn open_selected_macro(st: &mut MacroState)
    requires
        old(st).screen is List,
    ensures
        final(st).macros == old(st).macros,
        final(st).list_selected == old(st).list_selected,
        old(st).list_selected < old(st).macros@.len() ==> (final(st).screen matches MacroScreen::Edit(e)
            && e.original_idx == Some(old(st).list_selected) && e.key@ == old(st).macros@[old(st).list_selected as int].key@
            && e.cmd_lines.deep_view() == crate::text::split_char(old(st).macros@[old(st).list_selected as int].send@, '\n')
            && e.expects.deep_view() == old(st).macros@[old(st).list_selected as int].expects.deep_view()
            && e.focus == MacroFocus::Key && e.cursor == old(st).macros@[old(st).list_selected as int].key@.len()
            && e.sub is None && edit_wf(*e)),
        old(st).list_selected >= old(st).macros@.len() ==> final(st).screen is List,
{
    if st.list_selected < st.macros.len() {
        let e = MacroEdit::from_macro(st.list_selected, &st.macros[st.list_selected]);
        proof {
            crate::text::lemma_split_char_nonempty(st.macros@[st.list_selected as int].send@, '\n');
        }
        st.screen = MacroScreen::Edit(Box::new(e));
    }
}

impl App {
    /// What a key does in the macro manager (see [`App::update_macros`]).
    pub open spec fn macros_step(&self, post: &App, key: KeyInput, r: Option<Request>) -> bool {
        &&& (post.hosts == self.hosts)
        &&& (post.groups == self.groups)
        &&& (post.filter_cursor == self.filter_cursor)
        &&& (post.should_quit == self.should_quit)
        &&& (post.rows == self.rows)
        &&& (post.selected == self.selected)
        &&& (post.filter == self.filter)
        &&& (post.collapsed == self.collapsed)
        &&& (post.pending_connect == self.pending_connect)
        &&& (post.pending_serial == self.pending_serial)
        &&& (r is None || r matches Some(Request::SaveAutomations))
        &&& (r is None ==> post.automations == self.automations)
        &&& (r is Some ==> (post.mode matches AppMode::Macros(st)
            && post.automations.macros.deep_view() == st.macros.deep_view()))
        &&& ({
            let st = self.mode->Macros_0;
            let n = st.macros@.len();
            let ctrl = ctrl_only(key.mods);
            &&& (st.screen is List && key.code is Esc) ==> post.mode is Normal && r is None
            &&& (st.screen is List && key.code is Up) ==> (post.mode matches AppMode::Macros(s2)
                && s2.list_selected == (if st.list_selected > 0 { st.list_selected - 1 } else { 0 })
                && s2.macros == st.macros && s2.screen is List)
            &&& (st.screen is List && key.code is Down) ==> (post.mode matches AppMode::Macros(s2)
                && s2.list_selected == (if n == 0 {
                st.list_selected as int
            } else if st.list_selected + 1 < n {
                st.list_selected + 1
            } else {
                n - 1
            }) && s2.macros == st.macros && s2.screen is List)
            &&& st.screen is List ==> r is None && post.status is None
            &&& (st.screen is List && key.code == KeyCode::Char('n') && ctrl) ==> (post.mode matches AppMode::Macros(s2)
                && s2.macros == st.macros && s2.list_selected == st.list_selected
                && (s2.screen matches MacroScreen::Edit(e) && e.original_idx is None && e.key@.len() == 0
                && e.cmd_lines.deep_view() == seq![Seq::<char>::empty()] && e.expects@.len() == 0
                && e.focus == MacroFocus::Key && e.cursor == 0 && e.sub is None))
            &&& (st.screen is List && key.code == KeyCode::Char('d') && ctrl) ==> (post.mode matches AppMode::Macros(s2)
                && s2.macros == st.macros && s2.list_selected == st.list_selected
                && (if n > 0 { s2.screen == MacroScreen::ConfirmDeleteMacro(st.list_selected) } else { s2.screen is List }))
            &&& (st.screen is List && (key.code is Enter || (key.code == KeyCode::Char('e') && ctrl))
                && st.list_selected < n) ==> ({
                let m = st.macros@[st.list_selected as int];
                post.mode matches AppMode::Macros(s2) && s2.macros == st.macros && s2.list_selected
                    == st.list_selected && (s2.screen matches MacroScreen::Edit(e) && e.original_idx == Some(
                    st.list_selected,
                ) && e.key@ == m.key@ && e.cmd_lines.deep_view() == crate::text::split_char(m.send@, '\n')
                    && e.expects.deep_view() == m.expects.deep_view() && e.focus == MacroFocus::Key && e.cursor
                    == m.key@.len() && e.sub is None)
            })
            &&& (st.screen is List && (key.code is Enter || (key.code == KeyCode::Char('e') && ctrl))
                && st.list_selected >= n) ==> post.mode == self.mode
            &&& (st.screen is List && !(key.code is Esc) && !(key.code is Up) && !(key.code is Down)
                && !(key.code == KeyCode::Char('n') && ctrl) && !(key.code == KeyCode::Char('d') && ctrl)
                && !(key.code is Enter) && !(key.code == KeyCode::Char('e') && ctrl)) ==> post.mode == self.mode
            &&& (st.screen is ConfirmDeleteMacro && !(key.code == KeyCode::Char('y') || key.code == KeyCode::Char('Y')
                || key.code is Enter) && !(key.code == KeyCode::Char('n') || key.code == KeyCode::Char('N')
                || key.code is Esc)) ==> r is None && post.status is None && post.mode == self.mode
            &&& (st.screen is ConfirmDeleteMacro && (key.code == KeyCode::Char('y')
                || key.code == KeyCode::Char('Y') || key.code is Enter)) ==> ({
                let i = st.screen->ConfirmDeleteMacro_0;
                let rest = if i < n { st.macros.deep_view().remove(i as int) } else { st.macros.deep_view() };
                &&& r matches Some(Request::SaveAutomations)
                &&& post.status matches Some(m) && m@ == "Macro deleted"@
                &&& post.mode matches AppMode::Macros(s2) && s2.screen is List
                    && s2.macros.deep_view() == rest
                    && s2.list_selected == (if st.list_selected >= rest.len() {
                    if rest.len() > 0 { (rest.len() - 1) as usize } else { 0 }
                } else {
                    st.list_selected
                })
            })
            &&& (st.screen is ConfirmDeleteMacro && (key.code == KeyCode::Char('n')
                || key.code == KeyCode::Char('N') || key.code is Esc)) ==> r is None
                && (post.mode matches AppMode::Macros(s2) && s2.screen is List && s2.macros == st.macros)
            &&& (st.screen is Edit && st.screen->Edit_0.sub is Some) ==> r is None && (post.mode matches AppMode::Macros(
                s2,
            ) && s2.macros == st.macros && s2.list_selected == st.list_selected && (s2.screen matches MacroScreen::Edit(
                e2,
            ) && expect_key_step(*st.screen->Edit_0, *e2, post.status, key, ctrl)))
            &&& (st.screen is Edit && st.screen->Edit_0.sub is None && !(key.code == KeyCode::Char('s') && ctrl))
                ==> r is None && post.status is None && (post.mode matches AppMode::Macros(s2) && s2.macros
                == st.macros && s2.list_selected == st.list_selected && (if key.code is Esc {
                s2.screen is List
            } else {
                (s2.screen matches MacroScreen::Edit(e2) && draft_key_step(*st.screen->Edit_0, *e2, key, ctrl))
            }))
            &&& (st.screen is Edit && st.screen->Edit_0.sub is None && key.code == KeyCode::Char('s')
                && ctrl) ==> match crate::forms::spec_build_macro(
                st.screen->Edit_0.key@,
                st.screen->Edit_0.cmd_lines.deep_view(),
                st.screen->Edit_0.original_idx,
                st.macros.deep_view(),
            ) {
                Ok((k, send)) => {
                    &&& r matches Some(Request::SaveAutomations)
                    &&& post.status matches Some(m) && m@ == "Macro saved"@
                    &&& post.mode matches AppMode::Macros(s2) && s2.screen is List
                        && s2.macros.deep_view() == saved_into(st.macros.deep_view(), st.screen->Edit_0.original_idx,
                        MacroView { key: k, send, expects: st.screen->Edit_0.expects.deep_view() })
                },
                Err(m) => {
                    &&& r is None
                    &&& post.status matches Some(x) && x@ == m
                    &&& post.mode == self.mode
                },
            }
        })
    }

    /// A key in the macro manager. The status is cleared first.
    ///
    /// On the list: Esc closes the manager; ↑↓ move the selection; Ctrl+N adds a
    /// macro; Ctrl+D asks to delete the selected one; Enter or Ctrl+E edits it.
    /// In the delete prompt: y / Y / Enter delete it (persisting, status "Macro
    /// deleted"); n / N / Esc return to the list. In a draft: see
    /// [`macro_form_key`] and [`expect_form_key`]; a saved macro is stored in the
    /// manager's list and the global macros, which are persisted.
    pub fn update_macros(&mut self, key: KeyInput) -> (r: Option<Request>)
        requires
            old(self).wf(),
            old(self).mode is Macros,
        ensures
            final(self).wf(),
            old(self).macros_step(final(self), key, r),
    {
        self.status = None;
        let ctrl = is_ctrl_only(key.mods);
        let mut mode = AppMode::Normal;
        std::mem::swap(&mut mode, &mut self.mode);
        let mut st = match mode {
            AppMode::Macros(st) => st,
            other => {
                self.mode = other;
                return None;
            },
        };
        let mut close = false;
        let mut persist = false;
        let mut status_msg: Option<String> = None;
        let mut screen = MacroScreen::List;
        std::mem::swap(&mut screen, &mut st.screen);
        match screen {
            MacroScreen::List => {
                match key.code {
                    KeyCode::Esc => {
                        close = true;
                    },
                    KeyCode::Up => {
                        if st.list_selected > 0 {
                            st.list_selected = st.list_selected - 1;
                        }
                    },
                    KeyCode::Down => {
                        if st.macros.len() > 0 {
                            st.list_selected = if st.list_selected < st.macros.len() - 1 {
                                st.list_selected + 1
                            } else {
                                st.macros.len() - 1
                            };
                        }
                    },
                    KeyCode::Char('n') if ctrl => {
                        let e = MacroEdit::new_blank();
                        assert(e.cmd_lines.deep_view().len() == 1);
                        st.screen = MacroScreen::Edit(Box::new(e));
                    },
                    KeyCode::Char('d') if ctrl => {
                        if st.macros.len() > 0 {
                            st.screen = MacroScreen::ConfirmDeleteMacro(st.list_selected);
                        }
                    },
                    KeyCode::Enter => open_selected_macro(&mut st),
                    KeyCode::Char('e') if ctrl => open_selected_macro(&mut st),
                    _ => {},
                }
            },
            MacroScreen::ConfirmDeleteMacro(i) => {
                match key.code {
                    KeyCode::Char('y') | KeyCode::Char('Y') | KeyCode::Enter => {
                        let ghost before = st.macros.deep_view();
                        if i < st.macros.len() {
                            st.macros.remove(i);
                            proof {
                                assert(st.macros.deep_view() =~= before.remove(i as int));
                            }
                        }
                        if st.list_selected >= st.macros.len() {
                            st.list_selected = if st.macros.len() > 0 {
                                st.macros.len() - 1
                            } else {
                                0
                            };
                        }
                        persist = true;
                        status_msg = Some(String::from_str("Macro deleted"));
                    },
                    KeyCode::Char('n') | KeyCode::Char('N') | KeyCode::Esc => {},
                    _ => {
                        st.screen = MacroScreen::ConfirmDeleteMacro(i);
                    },
                }
            },
            MacroScreen::Edit(mut b) => {
                if b.sub.is_some() {
                    status_msg = expect_form_key(&mut b, key, ctrl);
                    st.screen = MacroScreen::Edit(b);
                } else {
                    let out = macro_form_key(&mut b, &st.macros, key, ctrl);
                    match out.saved {
                        Some(m) => {
                            let ghost before = st.macros.deep_view();
                            match b.original_idx {
                                Some(i) => {
                                    if i < st.macros.len() {
                                        st.macros.set(i, m);
                                    } else {
                                        st.macros.push(m);
                                    }
                                },
                                None => {
                                    st.macros.push(m);
                                },
                            }
                            proof {
                                assert(st.macros.deep_view() =~= saved_into(before, b.original_idx, m@));
                            }
                        },
                        None => {},
                    }
                    persist = out.persist;
                    status_msg = out.status;
                    if !out.back {
                        st.screen = MacroScreen::Edit(b);
                    }
                }
            },
        }
        let mut req: Option<Request> = None;
        if persist {
            self.automations.macros = copy_macros(&st.macros);
            req = Some(Request::SaveAutomations);
        }
        match status_msg {
            Some(m) => {
                self.status = Some(m);
            },
            None => {},
        }
        if !close {
            self.mode = AppMode::Macros(st);
        }
        req
    }
}

// ───────────────────────── dispatch ─────────────────────────

impl App {
    /// Handle one key according to the mode: see [`App::update_normal`],
    /// [`App::update_editing`], [`App::update_credential`],
    /// [`App::update_confirm_delete`], [`App::update_macros`] and
    /// [`App::update_console`]. A returned request must be performed and its
    /// outcome handed to [`App::resume`].
    pub fn update(&mut self, key: KeyInput) -> (r: Option<Request>)
        requires
            old(self).wf(),
        ensures
            final(self).wf(),
            old(self).mode is Normal ==> old(self).normal_step(final(self), key, r),
            old(self).mode is Editing ==> old(self).editing_step(final(self), key, r),
            old(self).mode is Credential ==> old(self).credential_step(final(self), key, r),
            old(self).mode is ConfirmDelete ==> old(self).confirm_delete_step(final(self), key, r),
            old(self).mode is Macros ==> old(self).macros_step(final(self), key, r),
            old(self).mode is Console ==> old(self).console_step(final(self), key, r),
    {
        let kind: u8 = match &self.mode {
            AppMode::Normal => 0,
            AppMode::Editing { .. } => 1,
            AppMode::Credential { .. } => 2,
            AppMode::ConfirmDelete { .. } => 3,
            AppMode::Macros(_) => 4,
            AppMode::Console(_) => 5,
        };
        if kind == 0 {
            self.update_normal(key)
        } else if kind == 1 {
            self.update_editing(key)
        } else if kind == 2 {
            self.update_credential(key)
        } else if kind == 3 {
            self.update_confirm_delete(key)
        } else if kind == 4 {
            self.update_macros(key)
        } else {
            self.update_console(key)
        }
    }

    /// Take the outcome of a request back. A failed save shows `Save failed: ..`.
    /// A stored credential is reported (`Credential saved (ref: ..)`) and then
    /// the host draft is saved, or the credential form closes; a failed one shows
    /// its message and keeps the form open. Listed ports open the console form
    /// (from the list) or refresh its ports (in the form).
    pub fn resume(&mut self, outcome: Outcome) -> (r: Option<Request>)
        requires
            old(self).wf(),
        ensures
            final(self).wf(),
            match outcome {
                Outcome::Saved(Ok(())) => r is None && *final(self) == *old(self),
                Outcome::Saved(Err(e)) => r is None && (final(self).status matches Some(m) && m@ == save_failed(e@))
                    && final(self).mode == old(self).mode && same_data(final(self), old(self)),
                Outcome::CredentialWritten(Err(e)) => r is None && (final(self).status matches Some(m) && m@ == e@)
                    && final(self).mode == old(self).mode && same_data(final(self), old(self)),
                Outcome::CredentialWritten(Ok(())) => match old(self).mode {
                    AppMode::Editing { original_idx, draft, .. } => {
                        &&& r matches Some(Request::SaveHosts)
                        &&& final(self).status matches Some(m) && m@ == "Credential saved (ref: "@ + draft.credential_ref@ + ")"@
                        &&& final(self).hosts.deep_view() == committed_hosts(old(self).hosts.deep_view(), original_idx, draft)
                        &&& final(self).mode is Normal
                        &&& same_data(
                            final(self),
                            &App {
                                hosts: final(self).hosts,
                                rows: final(self).rows,
                                selected: final(self).selected,
                                ..*old(self)
                            },
                        )
                        &&& final(self).selected == spec_select(
                            final(self).spec_rows(),
                            old(self).selected as int,
                            final(self).spec_best(),
                        )
                    },
                    AppMode::Credential { reference, .. } => {
                        &&& r is None
                        &&& final(self).status matches Some(m) && m@ == "Credential saved (ref: "@ + reference@ + ")"@
                        &&& final(self).mode is Normal
                        &&& same_data(final(self), old(self))
                    },
                    _ => r is None && *final(self) == *old(self),
                },
                Outcome::Ports { ports, fallback } => match old(self).mode {
                    AppMode::Normal => {
                        &&& r is None
                        &&& final(self).mode matches AppMode::Console(f)
                            && f.ports.deep_view() == ports.deep_view()
                            && f.device@ == (if ports@.len() > 0 { ports@[0]@ } else { fallback@ })
                            && f.focus == 0 && !f.advanced_open
                        &&& same_data(final(self), old(self))
                    },
                    AppMode::Console(form) => {
                        &&& r is None
                        &&& final(self).mode matches AppMode::Console(f)
                            && f.ports == ports && same_settings(f, form) && f.focus == form.focus
                            && f.cursor == form.cursor
                        &&& same_data(final(self), old(self))
                    },
                    _ => r is None && *final(self) == *old(self),
                },
            },
    {
        match outcome {
            Outcome::Saved(res) => {
                match res {
                    Ok(()) => {},
                    Err(e) => {
                        let m = concat("Save failed: ", e.as_str());
                        self.set_status(m);
                    },
                }
                None
            },
            Outcome::CredentialWritten(res) => {
                match res {
                    Err(e) => {
                        self.set_status(e);
                        None
                    },
                    Ok(()) => {
                        let kind: u8 = match &self.mode {
                            AppMode::Editing { .. } => 1,
                            AppMode::Credential { .. } => 2,
                            _ => 0,
                        };
                        if kind == 1 {
                            let reference = match &self.mode {
                                AppMode::Editing { draft, .. } => draft.credential_ref.clone(),
                                _ => String::new(),
                            };
                            let head = concat("Credential saved (ref: ", reference.as_str());
                            let m = concat(head.as_str(), ")");
                            self.set_status(m);
                            self.commit_edit()
                        } else if kind == 2 {
                            let reference = match &self.mode {
                                AppMode::Credential { reference, .. } => reference.clone(),
                                _ => String::new(),
                            };
                            let head = concat("Credential saved (ref: ", reference.as_str());
                            let m = concat(head.as_str(), ")");
                            self.set_status(m);
                            self.mode = AppMode::Normal;
                            None
                        } else {
                            None
                        }
                    },
                }
            },
            Outcome::Ports { ports, fallback } => {
                let mut mode = AppMode::Normal;
                std::mem::swap(&mut mode, &mut self.mode);
                match mode {
                    AppMode::Normal => {
                        let form = ConsoleForm::new(ports, fallback);
                        self.mode = AppMode::Console(form);
                    },
                    AppMode::Console(mut form) => {
                        form.ports = ports;
                        self.mode = AppMode::Console(form);
                    },
                    other => {
                        self.mode = other;
                    },
                }
                None
            },
        }
    }
}

} // verus!
