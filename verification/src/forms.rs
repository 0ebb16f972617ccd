//! The edit forms of the host list: the host draft, the console (serial) form,
//! and the macro / expect-rule drafts of the macro manager, with the validation
//! that turns a draft into configuration.

use vstd::prelude::*;
use crate::app::{apply_edit_key, edit_ok, spec_edit, EditOutcome, KeyInput};
use crate::config::{copy_expects, Expect, ExpectView, Host, Macro, MacroView};
use crate::matcher::CompiledRegex;
use crate::serial::{baud_preset, baud_presets, Flow, Parity, SerialParams};
use crate::text::{
    chars_of, concat, decimal, decimal_string, is_blank, join_seqs, join_strings, parse_unsigned,
    parse_unsigned_chars, split_char, split_on, string_from_chars, trim, trim_chars, trim_str,
};

verus! {

// ───────────────────────── host draft ─────────────────────────

/// Number of fields of the host edit form.
pub const EDIT_FIELD_COUNT: usize = 9;

/// Index of the port field (digits only).
pub const PORT_FIELD_IDX: usize = 2;

/// Index of the password field (never stored in the configuration).
pub const PASSWORD_FIELD_IDX: usize = 8;

/// Flat text form of a host while it is edited. `password` goes to the OS
/// keychain on save and is never pre-filled.
#[derive(Debug)]
pub struct EditDraft {
    pub name: String,
    pub hostname: String,
    pub port: String,
    pub username: String,
    pub group: String,
    pub credential_ref: String,
    pub identity_file: String,
    pub on_connect: String,
    pub password: String,
}

/// Field indices past the last one address the last (password) field.
pub open spec fn field_slot(idx: int) -> int {
    if 0 <= idx < 8 {
        idx
    } else {
        8
    }
}

impl EditDraft {
    /// The text of field `idx` (in form order; 8 and above is the password).
    pub open spec fn spec_field(&self, idx: int) -> Seq<char> {
        let k = field_slot(idx);
        if k == 0 {
            self.name@
        } else if k == 1 {
            self.hostname@
        } else if k == 2 {
            self.port@
        } else if k == 3 {
            self.username@
        } else if k == 4 {
            self.group@
        } else if k == 5 {
            self.credential_ref@
        } else if k == 6 {
            self.identity_file@
        } else if k == 7 {
            self.on_connect@
        } else {
            self.password@
        }
    }

    /// An empty draft for a new host (port pre-filled with `22`).
    pub fn blank() -> (r: EditDraft)
        ensures
            forall|k: int| k != 2 ==> #[trigger] r.spec_field(k).len() == 0,
            r.port@ == "22"@,
            crate::app::is_blank_draft(r),
    {
        EditDraft {
            name: String::new(),
            hostname: String::new(),
            port: String::from_str("22"),
            username: String::new(),
            group: String::new(),
            credential_ref: String::new(),
            identity_file: String::new(),
            on_connect: String::new(),
            password: String::new(),
        }
    }

    /// The draft of an existing host: its fields as text, the port in decimal,
    /// no group as an empty field, the on-connect keys joined by spaces, and an
    /// empty password.
    pub fn from_host(h: &Host) -> (r: EditDraft)
        ensures
            r.name@ == h.name@,
            r.hostname@ == h.hostname@,
            r.port@ == decimal(h.port as nat),
            r.username@ == h.username@,
            r.group@ == (match h.group {
                Some(g) => g@,
                None => Seq::empty(),
            }),
            r.credential_ref@ == h.credential_ref@,
            r.identity_file@ == h.identity_file@,
            r.on_connect@ == join_seqs(h.on_connect.deep_view(), " "@),
            r.password@.len() == 0,
    {
        EditDraft {
            name: h.name.clone(),
            hostname: h.hostname.clone(),
            port: decimal_string(h.port as u64),
            username: h.username.clone(),
            group: match &h.group {
                Some(g) => g.clone(),
                None => String::new(),
            },
            credential_ref: h.credential_ref.clone(),
            identity_file: h.identity_file.clone(),
            on_connect: join_strings(&h.on_connect, " "),
            password: String::new(),
        }
    }

    /// The text of field `idx`.
    pub fn field(&self, idx: usize) -> (r: &str)
        ensures
            r@ == self.spec_field(idx as int),
    {
        match idx {
            0 => self.name.as_str(),
            1 => self.hostname.as_str(),
            2 => self.port.as_str(),
            3 => self.username.as_str(),
            4 => self.group.as_str(),
            5 => self.credential_ref.as_str(),
            6 => self.identity_file.as_str(),
            7 => self.on_connect.as_str(),
            _ => self.password.as_str(),
        }
    }

    /// Feed `key` to the line editor on field `idx` with caret `cursor`; the
    /// other fields are unchanged.
    pub fn edit_field(&mut self, idx: usize, cursor: &mut usize, key: KeyInput) -> (r: EditOutcome)
        requires
            edit_ok(old(self).spec_field(idx as int), *old(cursor), key),
        ensures
            ({
                let e = spec_edit(old(self).spec_field(idx as int), *old(cursor) as int, key);
                &&& final(self).spec_field(idx as int) == e.text
                &&& *final(cursor) == e.cursor
                &&& r.consumed == e.consumed
                &&& r.changed == e.changed
            }),
            forall|k: int|
                field_slot(k) != field_slot(idx as int) ==> #[trigger] final(self).spec_field(k)
                    == old(self).spec_field(k),
    {
        match idx {
            0 => apply_edit_key(&mut self.name, cursor, key),
            1 => apply_edit_key(&mut self.hostname, cursor, key),
            2 => apply_edit_key(&mut self.port, cursor, key),
            3 => apply_edit_key(&mut self.username, cursor, key),
            4 => apply_edit_key(&mut self.group, cursor, key),
            5 => apply_edit_key(&mut self.credential_ref, cursor, key),
            6 => apply_edit_key(&mut self.identity_file, cursor, key),
            7 => apply_edit_key(&mut self.on_connect, cursor, key),
            _ => apply_edit_key(&mut self.password, cursor, key),
        }
    }
}

// ───────────────────────── console form ─────────────────────────

/// Which field of the console form has focus.
#[derive(Clone, Copy, PartialEq, Eq, Structural, Debug)]
pub enum CField {
    Device,
    Baud,
    Advanced,
    DataBits,
    Parity,
    StopBits,
    Flow,
}

/// The focusable fields in order; the Advanced rows only when expanded.
pub open spec fn spec_fields(advanced_open: bool) -> Seq<CField> {
    if advanced_open {
        seq![
            CField::Device,
            CField::Baud,
            CField::Advanced,
            CField::DataBits,
            CField::Parity,
            CField::StopBits,
            CField::Flow,
        ]
    } else {
        seq![CField::Device, CField::Baud, CField::Advanced]
    }
}

/// `i` moved one step forward or back within `0..len`, wrapping.
pub open spec fn spec_step(i: int, len: int, forward: bool) -> int {
    if forward {
        (i + 1) % len
    } else {
        (i + len - 1) % len
    }
}

/// Step an index forward/backward within `0..len`, wrapping.
pub fn step(i: usize, len: usize, forward: bool) -> (r: usize)
    requires
        len > 0,
        forward ==> i < usize::MAX,
    ensures
        r == spec_step(i as int, len as int, forward),
        r < len,
{
    if forward {
        (i + 1) % len
    } else if i == 0 {
        proof {
            vstd::arithmetic::div_mod::lemma_small_mod((len - 1) as nat, len as nat);
        }
        len - 1
    } else {
        proof {
            vstd::arithmetic::div_mod::lemma_mod_add_multiples_vanish((i - 1) as int, len as int);
            assert(i + len - 1 == len + (i - 1));
        }
        (i - 1) % len
    }
}

/// The first index of `x` in `s`.
pub open spec fn first_index<T>(s: Seq<T>, x: T) -> Option<int>
    decreases s.len(),
{
    if s.len() == 0 {
        None
    } else {
        match first_index(s.drop_last(), x) {
            Some(i) => Some(i),
            None => if s.last() == x {
                Some(s.len() - 1)
            } else {
                None
            },
        }
    }
}

pub proof fn lemma_first_index<T>(s: Seq<T>, x: T)
    ensures
        match first_index(s, x) {
            Some(i) => 0 <= i < s.len() && s[i] == x && forall|j: int| 0 <= j < i ==> s[j] != x,
            None => forall|j: int| 0 <= j < s.len() ==> s[j] != x,
        },
    decreases s.len(),
{
    if s.len() > 0 {
        lemma_first_index(s.drop_last(), x);
        assert(forall|j: int| 0 <= j < s.len() - 1 ==> s.drop_last()[j] == s[j]);
    }
}

/// The option after (or before) `cur` in `opts`, wrapping; `cur` itself when
/// it is not among them.
pub open spec fn spec_cycle_in<T>(opts: Seq<T>, cur: T, forward: bool) -> T {
    match first_index(opts, cur) {
        Some(i) => opts[spec_step(i, opts.len() as int, forward)],
        None => cur,
    }
}

/// The option after (or before) `cur` in `opts`, wrapping; the first option
/// when `cur` is not among them (the value snaps to the list).
pub open spec fn spec_cycle_snap<T>(opts: Seq<T>, cur: T, forward: bool) -> T {
    match first_index(opts, cur) {
        Some(i) => opts[spec_step(i, opts.len() as int, forward)],
        None => opts[0],
    }
}

/// The option after (or before) `cur` in `opts` (see [`spec_cycle_in`]).
pub fn cycle_in(opts: &Vec<u8>, cur: u8, forward: bool) -> (r: u8)
    ensures
        r == spec_cycle_in(opts@, cur, forward),
{
    proof {
        lemma_first_index(opts@, cur);
    }
    let mut i: usize = 0;
    while i < opts.len()
        invariant
            0 <= i <= opts@.len(),
            forall|j: int| 0 <= j < i ==> opts@[j] != cur,
        decreases opts@.len() - i,
    {
        if opts[i] == cur {
            proof {
                lemma_first_index(opts@, cur);
                assert(opts@[i as int] == cur);
                assert(first_index(opts@, cur) == Some(i as int));
            }
            let k = step(i, opts.len(), forward);
            return opts[k];
        }
        i = i + 1;
    }
    cur
}

pub open spec fn parity_options() -> Seq<Parity> {
    seq![Parity::NoParity, Parity::Even, Parity::Odd]
}

pub open spec fn flow_options() -> Seq<Flow> {
    seq![Flow::NoFlow, Flow::Software, Flow::Hardware]
}

/// The next parity setting in the cycle None → Even → Odd.
pub fn cycle_parity(p: Parity, forward: bool) -> (r: Parity)
    ensures
        r == spec_cycle_in(parity_options(), p, forward),
{
    proof {
        let o = parity_options();
        lemma_first_index(o, p);
        assert(o[0] == Parity::NoParity && o[1] == Parity::Even && o[2] == Parity::Odd);
    }
    match (p, forward) {
        (Parity::NoParity, true) => Parity::Even,
        (Parity::NoParity, false) => Parity::Odd,
        (Parity::Even, true) => Parity::Odd,
        (Parity::Even, false) => Parity::NoParity,
        (Parity::Odd, true) => Parity::NoParity,
        (Parity::Odd, false) => Parity::Even,
    }
}

/// The next flow control setting in the cycle None → Software → Hardware.
pub fn cycle_flow(f: Flow, forward: bool) -> (r: Flow)
    ensures
        r == spec_cycle_in(flow_options(), f, forward),
{
    proof {
        let o = flow_options();
        lemma_first_index(o, f);
        assert(o[0] == Flow::NoFlow && o[1] == Flow::Software && o[2] == Flow::Hardware);
    }
    match (f, forward) {
        (Flow::NoFlow, true) => Flow::Software,
        (Flow::NoFlow, false) => Flow::Hardware,
        (Flow::Software, true) => Flow::Hardware,
        (Flow::Software, false) => Flow::NoFlow,
        (Flow::Hardware, true) => Flow::NoFlow,
        (Flow::Hardware, false) => Flow::Software,
    }
}

/// The baud rate the form reads from its field: the trimmed text as a `u32`,
/// or 0 when it is not one.
pub open spec fn baud_value(baud: Seq<char>) -> u32 {
    match parse_unsigned(trim(baud), u32::MAX as nat) {
        Some(v) => v as u32,
        None => 0,
    }
}

/// The baud field after cycling: the preset after (before) the current value,
/// written in decimal.
pub open spec fn spec_cycle_baud(baud: Seq<char>, forward: bool) -> Seq<char> {
    decimal(spec_cycle_snap(baud_presets(), baud_value(baud), forward) as nat)
}

/// Stepping an index one way and then the other returns to it.
pub proof fn lemma_step_undo(i: int, len: int, forward: bool)
    requires
        0 <= i < len,
    ensures
        0 <= spec_step(i, len, forward) < len,
        spec_step(spec_step(i, len, forward), len, !forward) == i,
{
    vstd::arithmetic::div_mod::lemma_mod_self_0(len);
    vstd::arithmetic::div_mod::lemma_mod_add_multiples_vanish(i, len);
    vstd::arithmetic::div_mod::lemma_small_mod(i as nat, len as nat);
    if i + 1 < len {
        vstd::arithmetic::div_mod::lemma_small_mod((i + 1) as nat, len as nat);
    }
    if i > 0 {
        vstd::arithmetic::div_mod::lemma_mod_add_multiples_vanish(i - 1, len);
        vstd::arithmetic::div_mod::lemma_small_mod((i - 1) as nat, len as nat);
        assert(i + len - 1 == len + (i - 1));
    } else {
        vstd::arithmetic::div_mod::lemma_small_mod((len - 1) as nat, len as nat);
    }
    if forward {
        if i + 1 < len {
            assert(spec_step(i, len, forward) == i + 1);
            assert(i + 1 + len - 1 == len + i);
        } else {
            assert(spec_step(i, len, forward) == 0);
        }
    } else if i > 0 {
        assert(spec_step(i, len, forward) == i - 1);
    } else {
        assert(spec_step(i, len, forward) == len - 1);
        assert(len - 1 + 1 == len);
    }
}

/// Cycling an option one way and then the other gives it back, when the
/// options are distinct and the option is one of them.
pub proof fn lemma_cycle_undo<T>(opts: Seq<T>, cur: T, forward: bool)
    requires
        opts.no_duplicates(),
        opts.contains(cur),
    ensures
        spec_cycle_in(opts, spec_cycle_in(opts, cur, forward), !forward) == cur,
{
    lemma_first_index(opts, cur);
    let i = first_index(opts, cur)->0;
    let j = spec_step(i, opts.len() as int, forward);
    lemma_step_undo(i, opts.len() as int, forward);
    lemma_first_index(opts, opts[j]);
    let k = first_index(opts, opts[j])->0;
    assert(k == j);
}

/// Cycling the baud field one way and then the other gives back the preset it
/// held.
pub proof fn lemma_baud_cycle_undo(baud: Seq<char>, forward: bool)
    requires
        baud_presets().contains(baud_value(baud)),
    ensures
        spec_cycle_baud(spec_cycle_baud(baud, forward), !forward) == decimal(baud_value(baud) as nat),
{
    let p = baud_presets();
    assert(p.no_duplicates()) by {
        assert(p[0] == 9600u32 && p[1] == 19200u32 && p[2] == 38400u32 && p[3] == 57600u32 && p[4] == 115200u32);
    }
    let q = spec_cycle_snap(p, baud_value(baud), forward);
    lemma_first_index(p, baud_value(baud));
    assert(q == spec_cycle_in(p, baud_value(baud), forward));
    lemma_first_index(p, q);
    lemma_step_undo(first_index(p, baud_value(baud))->0, 5, forward);
    crate::text::lemma_parse_decimal(q as nat, u32::MAX as nat);
    assert(baud_value(decimal(q as nat)) == q);
    lemma_cycle_undo(p, baud_value(baud), forward);
}

/// Transient state of the console-connect form.
#[derive(Debug)]
pub struct ConsoleForm {
    /// Detected serial ports, cycled into `device` with ↑/↓.
    pub ports: Vec<String>,
    pub device: String,
    pub baud: String,
    /// The Advanced section (data/parity/stop/flow) is collapsed by default.
    pub advanced_open: bool,
    pub data_bits: u8,
    pub parity: Parity,
    pub stop_bits: u8,
    pub flow: Flow,
    /// Index into `fields()`.
    pub focus: usize,
    /// Caret within the focused text field (Device / Baud).
    pub cursor: usize,
}

/// What `build_params` decides, as plain values: the serial parameters, or the
/// message shown to the user.
pub open spec fn spec_build_params(device: Seq<char>, baud: Seq<char>) -> Result<(Seq<char>, u32), Seq<char>> {
    if trim(device).len() == 0 {
        Err("Device path cannot be empty"@)
    } else {
        match parse_unsigned(trim(baud), u32::MAX as nat) {
            None => Err("Baud must be a number"@),
            Some(b) => if b == 0 {
                Err("Baud must be greater than 0"@)
            } else {
                Ok((trim(device), b as u32))
            },
        }
    }
}

impl ConsoleForm {
    /// The form as first shown: the first detected port (or `fallback` when none
    /// is detected) at 9600 baud, 8-N-1, no flow control, Advanced collapsed,
    /// focus on the device with the caret at its end.
    pub fn new(ports: Vec<String>, fallback: String) -> (r: ConsoleForm)
        ensures
            r.ports.deep_view() == ports.deep_view(),
            r.device@ == (if ports@.len() > 0 {
                ports@[0]@
            } else {
                fallback@
            }),
            r.cursor == r.device@.len(),
            r.baud@ == "9600"@,
            !r.advanced_open,
            r.data_bits == 8,
            r.parity == Parity::NoParity,
            r.stop_bits == 1,
            r.flow == Flow::NoFlow,
            r.focus == 0,
    {
        let device = if ports.len() > 0 {
            ports[0].clone()
        } else {
            fallback
        };
        let cursor = device.as_str().unicode_len();
        ConsoleForm {
            ports,
            device,
            baud: String::from_str("9600"),
            advanced_open: false,
            data_bits: 8,
            parity: Parity::NoParity,
            stop_bits: 1,
            flow: Flow::NoFlow,
            focus: 0,
            cursor,
        }
    }

    /// The focusable fields in order (see [`spec_fields`]).
    pub fn fields(&self) -> (r: Vec<CField>)
        ensures
            r@ == spec_fields(self.advanced_open),
    {
        let mut v: Vec<CField> = Vec::new();
        v.push(CField::Device);
        v.push(CField::Baud);
        v.push(CField::Advanced);
        if self.advanced_open {
            v.push(CField::DataBits);
            v.push(CField::Parity);
            v.push(CField::StopBits);
            v.push(CField::Flow);
        }
        assert(v@ =~= spec_fields(self.advanced_open));
        v
    }

    /// The focused field: `focus`, capped at the last field.
    pub open spec fn spec_current(&self) -> CField {
        let f = spec_fields(self.advanced_open);
        if self.focus < f.len() {
            f[self.focus as int]
        } else {
            f[f.len() - 1]
        }
    }

    /// The focused field.
    pub fn current(&self) -> (r: CField)
        ensures
            r == self.spec_current(),
    {
        let fields = self.fields();
        let last = fields.len() - 1;
        let i = if self.focus < last {
            self.focus
        } else {
            last
        };
        fields[i]
    }

    /// Cycle the value of an enum-style field (data bits 8 → 7 → 6 → 5, parity,
    /// stop bits 1 → 2, flow control); other fields are left alone.
    pub fn cycle_value(&mut self, field: CField, forward: bool)
        ensures
            final(self).data_bits == (if field == CField::DataBits {
                spec_cycle_in(seq![8u8, 7, 6, 5], old(self).data_bits, forward)
            } else {
                old(self).data_bits
            }),
            final(self).parity == (if field == CField::Parity {
                spec_cycle_in(parity_options(), old(self).parity, forward)
            } else {
                old(self).parity
            }),
            final(self).stop_bits == (if field == CField::StopBits {
                spec_cycle_in(seq![1u8, 2], old(self).stop_bits, forward)
            } else {
                old(self).stop_bits
            }),
            final(self).flow == (if field == CField::Flow {
                spec_cycle_in(flow_options(), old(self).flow, forward)
            } else {
                old(self).flow
            }),
            final(self).ports == old(self).ports,
            final(self).device == old(self).device,
            final(self).baud == old(self).baud,
            final(self).advanced_open == old(self).advanced_open,
            final(self).focus == old(self).focus,
            final(self).cursor == old(self).cursor,
    {
        match field {
            CField::DataBits => {
                let opts: Vec<u8> = vec![8u8, 7, 6, 5];
                assert(opts@ =~= seq![8u8, 7, 6, 5]);
                self.data_bits = cycle_in(&opts, self.data_bits, forward);
            },
            CField::Parity => {
                self.parity = cycle_parity(self.parity, forward);
            },
            CField::StopBits => {
                let opts: Vec<u8> = vec![1u8, 2];
                assert(opts@ =~= seq![1u8, 2]);
                self.stop_bits = cycle_in(&opts, self.stop_bits, forward);
            },
            CField::Flow => {
                self.flow = cycle_flow(self.flow, forward);
            },
            _ => {},
        }
    }

    /// Cycle the detected ports into the Device field: the port after (before)
    /// the current device, wrapping, or the first port when the device is not a
    /// detected one; nothing happens without detected ports. The caret goes to
    /// the end.
    pub fn cycle_port(&mut self, forward: bool)
        ensures
            old(self).ports@.len() == 0 ==> *final(self) == *old(self),
            old(self).ports@.len() > 0 ==> {
                let ps = old(self).ports.deep_view();
                &&& final(self).device@ == spec_cycle_snap(ps, old(self).device@, forward)
                &&& final(self).cursor == final(self).device@.len()
                &&& final(self).ports == old(self).ports
                &&& final(self).baud == old(self).baud
                &&& final(self).advanced_open == old(self).advanced_open
                &&& final(self).data_bits == old(self).data_bits
                &&& final(self).parity == old(self).parity
                &&& final(self).stop_bits == old(self).stop_bits
                &&& final(self).flow == old(self).flow
                &&& final(self).focus == old(self).focus
            },
    {
        let n = self.ports.len();
        if n == 0 {
            return;
        }
        let ghost ps = self.ports.deep_view();
        proof {
            lemma_first_index(ps, self.device@);
        }
        let mut i: usize = 0;
        while i < n && !crate::text::str_eq(self.ports[i].as_str(), self.device.as_str())
            invariant
                0 <= i <= n,
                n == self.ports@.len(),
                ps == self.ports.deep_view(),
                forall|j: int| 0 <= j < i ==> ps[j] != self.device@,
            decreases n - i,
        {
            i = i + 1;
        }
        let next = if i < n {
            proof {
                assert(ps[i as int] == self.ports@[i as int]@);
                assert(first_index(ps, self.device@) == Some(i as int));
            }
            step(i, n, forward)
        } else {
            0
        };
        self.device = self.ports[next].clone();
        self.cursor = self.device.as_str().unicode_len();
    }

    /// Cycle the baud field through the presets: the preset after (before) the
    /// current value, wrapping; the first preset when the value is not one. The
    /// caret goes to the end.
    pub fn cycle_baud(&mut self, forward: bool)
        ensures
            final(self).baud@ == spec_cycle_baud(old(self).baud@, forward),
            final(self).cursor == final(self).baud@.len(),
            final(self).ports == old(self).ports,
            final(self).device == old(self).device,
            final(self).advanced_open == old(self).advanced_open,
            final(self).data_bits == old(self).data_bits,
            final(self).parity == old(self).parity,
            final(self).stop_bits == old(self).stop_bits,
            final(self).flow == old(self).flow,
            final(self).focus == old(self).focus,
    {
        let t = trim_chars(&chars_of(self.baud.as_str()));
        let cur: u32 = match parse_unsigned_chars(&t, 0xFFFF_FFFF) {
            Some(v) => v as u32,
            None => 0,
        };
        let mut presets: Vec<u32> = Vec::new();
        let mut k: usize = 0;
        while k < 5
            invariant
                0 <= k <= 5,
                presets@ == baud_presets().take(k as int),
            decreases 5 - k,
        {
            presets.push(baud_preset(k));
            k = k + 1;
            assert(presets@ =~= baud_presets().take(k as int));
        }
        assert(presets@ =~= baud_presets());
        proof {
            lemma_first_index(presets@, cur);
        }
        let mut i: usize = 0;
        while i < 5 && presets[i] != cur
            invariant
                0 <= i <= 5,
                presets@ == baud_presets(),
                forall|j: int| 0 <= j < i ==> presets@[j] != cur,
            decreases 5 - i,
        {
            i = i + 1;
        }
        let next = if i < 5 {
            proof {
                assert(first_index(presets@, cur) == Some(i as int));
            }
            step(i, 5, forward)
        } else {
            0
        };
        self.baud = decimal_string(presets[next] as u64);
        self.cursor = self.baud.as_str().unicode_len();
    }

    /// Char length of the focused text field (0 for the other fields).
    pub open spec fn spec_focus_text_len(&self) -> int {
        match self.spec_current() {
            CField::Device => self.device@.len() as int,
            CField::Baud => self.baud@.len() as int,
            _ => 0,
        }
    }

    /// Char length of the focused text field (0 for the other fields).
    pub fn focus_text_len(&self) -> (r: usize)
        ensures
            r == self.spec_focus_text_len(),
    {
        match self.current() {
            CField::Device => self.device.as_str().unicode_len(),
            CField::Baud => self.baud.as_str().unicode_len(),
            _ => 0,
        }
    }

    /// Keep `focus` in range after the Advanced section collapses, and put the
    /// caret at the end of the focused field.
    pub fn clamp_focus(&mut self)
        ensures
            final(self).focus == (if old(self).focus >= spec_fields(old(self).advanced_open).len() {
                (spec_fields(old(self).advanced_open).len() - 1) as usize
            } else {
                old(self).focus
            }),
            final(self).cursor == final(self).spec_focus_text_len(),
            final(self).ports == old(self).ports,
            final(self).device == old(self).device,
            final(self).baud == old(self).baud,
            final(self).advanced_open == old(self).advanced_open,
            final(self).data_bits == old(self).data_bits,
            final(self).parity == old(self).parity,
            final(self).stop_bits == old(self).stop_bits,
            final(self).flow == old(self).flow,
    {
        let len = self.fields().len();
        if self.focus >= len {
            self.focus = len - 1;
        }
        self.cursor = self.focus_text_len();
    }

    /// Validate the form and build the serial parameters (see
    /// [`spec_build_params`]): a blank device or a baud that is not a positive
    /// `u32` is refused with a message.
    pub fn build_params(&self) -> (r: Result<SerialParams, String>)
        ensures
            match spec_build_params(self.device@, self.baud@) {
                Ok((d, b)) => r matches Ok(p) && p.device@ == d && p.baud == b && p.data_bits
                    == self.data_bits && p.parity == self.parity && p.stop_bits == self.stop_bits
                    && p.flow == self.flow,
                Err(m) => r matches Err(e) && e@ == m,
            },
    {
        let device = trim_str(self.device.as_str());
        if device.as_str().unicode_len() == 0 {
            return Err(String::from_str("Device path cannot be empty"));
        }
        let t = trim_chars(&chars_of(self.baud.as_str()));
        let baud: u32 = match parse_unsigned_chars(&t, 0xFFFF_FFFF) {
            Some(v) => v as u32,
            None => {
                return Err(String::from_str("Baud must be a number"));
            },
        };
        if baud == 0 {
            return Err(String::from_str("Baud must be greater than 0"));
        }
        Ok(
            SerialParams {
                device,
                baud,
                data_bits: self.data_bits,
                parity: self.parity,
                stop_bits: self.stop_bits,
                flow: self.flow,
            },
        )
    }
}

// ───────────────────────── macro manager drafts ─────────────────────────

/// Which row of the macro edit form has focus.
#[derive(Clone, Copy, PartialEq, Eq, Structural, Debug)]
pub enum MacroFocus {
    Key,
    /// The `n`-th command line of `send`.
    Cmd(usize),
    /// The `n`-th expect rule (summary row).
    Expect(usize),
}

/// Draft of one expect rule being added or edited within a macro.
#[derive(Debug)]
pub struct ExpectEdit {
    pub original_idx: Option<usize>,
    pub pattern: String,
    pub send: String,
    pub send_credential: String,
    pub once: bool,
    /// 0 = pattern, 1 = send, 2 = credential, 3 = once.
    pub focus: usize,
    pub cursor: usize,
}

/// Draft of one macro being added or edited. `send` is edited as a list of
/// single-line command rows, joined with newlines on save.
#[derive(Debug)]
pub struct MacroEdit {
    pub original_idx: Option<usize>,
    pub key: String,
    pub cmd_lines: Vec<String>,
    pub expects: Vec<Expect>,
    pub focus: MacroFocus,
    /// Char caret within the focused single-line field (Key or a command line).
    pub cursor: usize,
    /// `Some` while adding or editing one of this macro's expect rules.
    pub sub: Option<ExpectEdit>,
}

/// The focusable rows: the key, each command line, each expect rule.
pub open spec fn spec_focus_order(n_cmd: nat, n_exp: nat) -> Seq<MacroFocus> {
    seq![MacroFocus::Key] + Seq::new(n_cmd, |i: int| MacroFocus::Cmd(i as usize)) + Seq::new(
        n_exp,
        |i: int| MacroFocus::Expect(i as usize),
    )
}

impl MacroEdit {
    /// A blank draft for a new macro: empty key, one empty command line.
    pub fn new_blank() -> (r: MacroEdit)
        ensures
            r.original_idx is None,
            r.key@.len() == 0,
            r.cmd_lines.deep_view() == seq![Seq::<char>::empty()],
            r.expects@.len() == 0,
            r.focus == MacroFocus::Key,
            r.cursor == 0,
            r.sub is None,
    {
        let mut cmd_lines: Vec<String> = Vec::new();
        cmd_lines.push(String::new());
        assert(cmd_lines.deep_view() =~= seq![Seq::<char>::empty()]);
        MacroEdit {
            original_idx: None,
            key: String::new(),
            cmd_lines,
            expects: Vec::new(),
            focus: MacroFocus::Key,
            cursor: 0,
            sub: None,
        }
    }

    /// The draft of macro `m` at index `idx`: one command row per line of its
    /// `send`, focus on the key with the caret at its end.
    pub fn from_macro(idx: usize, m: &Macro) -> (r: MacroEdit)
        ensures
            r.original_idx == Some(idx),
            r.key@ == m.key@,
            r.cmd_lines.deep_view() == split_char(m.send@, '\n'),
            r.expects.deep_view() == m.expects.deep_view(),
            r.focus == MacroFocus::Key,
            r.cursor == m.key@.len(),
            r.sub is None,
    {
        MacroEdit {
            original_idx: Some(idx),
            key: m.key.clone(),
            cmd_lines: split_on(m.send.as_str(), '\n'),
            expects: copy_expects(&m.expects),
            focus: MacroFocus::Key,
            cursor: m.key.as_str().unicode_len(),
            sub: None,
        }
    }

    /// The ordered list of focusable rows.
    pub fn focus_order(&self) -> (r: Vec<MacroFocus>)
        ensures
            r@ == spec_focus_order(self.cmd_lines@.len(), self.expects@.len()),
    {
        let mut order: Vec<MacroFocus> = Vec::new();
        order.push(MacroFocus::Key);
        let mut i: usize = 0;
        while i < self.cmd_lines.len()
            invariant
                0 <= i <= self.cmd_lines@.len(),
                order@ == seq![MacroFocus::Key] + Seq::new(i as nat, |k: int| MacroFocus::Cmd(k as usize)),
            decreases self.cmd_lines@.len() - i,
        {
            order.push(MacroFocus::Cmd(i));
            i = i + 1;
            assert(order@ =~= seq![MacroFocus::Key] + Seq::new(i as nat, |k: int| MacroFocus::Cmd(k as usize)));
        }
        let mut j: usize = 0;
        while j < self.expects.len()
            invariant
                0 <= j <= self.expects@.len(),
                order@ == seq![MacroFocus::Key] + Seq::new(self.cmd_lines@.len(), |k: int| MacroFocus::Cmd(k as usize))
                    + Seq::new(j as nat, |k: int| MacroFocus::Expect(k as usize)),
            decreases self.expects@.len() - j,
        {
            order.push(MacroFocus::Expect(j));
            j = j + 1;
            assert(order@ =~= seq![MacroFocus::Key] + Seq::new(self.cmd_lines@.len(), |k: int| MacroFocus::Cmd(k as usize))
                    + Seq::new(j as nat, |k: int| MacroFocus::Expect(k as usize)));
        }
        order
    }

    /// Text of the focused single-line field (`None` on an expect row or a
    /// command row past the end).
    pub open spec fn spec_focus_field(&self) -> Option<Seq<char>> {
        match self.focus {
            MacroFocus::Key => Some(self.key@),
            MacroFocus::Cmd(i) => if i < self.cmd_lines@.len() {
                Some(self.cmd_lines@[i as int]@)
            } else {
                None
            },
            MacroFocus::Expect(_) => None,
        }
    }

    /// Text of the focused single-line field.
    pub fn focus_field(&self) -> (r: Option<&str>)
        ensures
            match self.spec_focus_field() {
                Some(t) => r matches Some(x) && x@ == t,
                None => r is None,
            },
    {
        match self.focus {
            MacroFocus::Key => Some(self.key.as_str()),
            MacroFocus::Cmd(i) => if i < self.cmd_lines.len() {
                Some(self.cmd_lines[i].as_str())
            } else {
                None
            },
            MacroFocus::Expect(_) => None,
        }
    }

    /// Set focus and park the caret at the end of the newly focused field.
    pub fn set_focus(&mut self, f: MacroFocus)
        ensures
            final(self).focus == f,
            final(self).cursor == (match final(self).spec_focus_field() {
                Some(t) => t.len(),
                None => 0,
            }),
            final(self).original_idx == old(self).original_idx,
            final(self).key == old(self).key,
            final(self).cmd_lines == old(self).cmd_lines,
            final(self).expects == old(self).expects,
            final(self).sub == old(self).sub,
    {
        self.focus = f;
        self.cursor = match self.focus_field() {
            Some(t) => t.unicode_len(),
            None => 0,
        };
    }

    /// Move focus to the next (previous) row, wrapping; from a row that is not
    /// in the order, to the row after (before) the key.
    pub fn move_focus(&mut self, forward: bool)
        ensures
            ({
                let order = spec_focus_order(old(self).cmd_lines@.len(), old(self).expects@.len());
                let cur = match first_index(order, old(self).focus) {
                    Some(i) => i,
                    None => 0,
                };
                final(self).focus == order[spec_step(cur, order.len() as int, forward)]
            }),
            final(self).cursor == (match final(self).spec_focus_field() {
                Some(t) => t.len(),
                None => 0,
            }),
            final(self).original_idx == old(self).original_idx,
            final(self).key == old(self).key,
            final(self).cmd_lines == old(self).cmd_lines,
            final(self).expects == old(self).expects,
            final(self).sub == old(self).sub,
    {
        let order = self.focus_order();
        let n = order.len();
        proof {
            lemma_first_index(order@, self.focus);
        }
        let mut i: usize = 0;
        while i < n && order[i] != self.focus
            invariant
                0 <= i <= n,
                n == order@.len(),
                forall|j: int| 0 <= j < i ==> order@[j] != self.focus,
            decreases n - i,
        {
            i = i + 1;
        }
        let cur = if i < n {
            proof {
                assert(order@[i as int] == self.focus);
                assert(first_index(order@, self.focus) == Some(i as int));
            }
            i
        } else {
            0
        };
        let next = step(cur, n, forward);
        self.set_focus(order[next]);
    }
}

impl ExpectEdit {
    /// A blank rule draft (`once` on).
    pub fn new_blank() -> (r: ExpectEdit)
        ensures
            r.original_idx is None,
            r.pattern@.len() == 0,
            r.send@.len() == 0,
            r.send_credential@.len() == 0,
            r.once,
            r.focus == 0,
            r.cursor == 0,
    {
        ExpectEdit {
            original_idx: None,
            pattern: String::new(),
            send: String::new(),
            send_credential: String::new(),
            once: true,
            focus: 0,
            cursor: 0,
        }
    }

    /// The draft of rule `e` at index `idx`; an absent send / credential is an
    /// empty field. Focus on the pattern with the caret at its end.
    pub fn from_expect(idx: usize, e: &Expect) -> (r: ExpectEdit)
        ensures
            r.original_idx == Some(idx),
            r.pattern@ == e.pattern@,
            r.send@ == (match e.send {
                Some(s) => s@,
                None => Seq::empty(),
            }),
            r.send_credential@ == (match e.send_credential {
                Some(s) => s@,
                None => Seq::empty(),
            }),
            r.once == e.once,
            r.focus == 0,
            r.cursor == e.pattern@.len(),
    {
        ExpectEdit {
            original_idx: Some(idx),
            pattern: e.pattern.clone(),
            send: match &e.send {
                Some(s) => s.clone(),
                None => String::new(),
            },
            send_credential: match &e.send_credential {
                Some(s) => s.clone(),
                None => String::new(),
            },
            once: e.once,
            focus: 0,
            cursor: e.pattern.as_str().unicode_len(),
        }
    }

    /// The text of field `idx` (0 pattern, 1 send, 2 credential; empty otherwise).
    pub open spec fn spec_field(&self, idx: int) -> Seq<char> {
        if idx == 0 {
            self.pattern@
        } else if idx == 1 {
            self.send@
        } else if idx == 2 {
            self.send_credential@
        } else {
            Seq::empty()
        }
    }

    /// The text of field `idx`.
    pub fn field(&self, idx: usize) -> (r: &str)
        ensures
            r@ == self.spec_field(idx as int),
    {
        match idx {
            0 => self.pattern.as_str(),
            1 => self.send.as_str(),
            2 => self.send_credential.as_str(),
            _ => {
                proof {
                    reveal_strlit("");
                }
                ""
            },
        }
    }

    /// Char length of the focused field.
    pub fn field_len(&self) -> (r: usize)
        ensures
            r == self.spec_field(self.focus as int).len(),
    {
        self.field(self.focus).unicode_len()
    }
}

/// The command lines with trailing blank lines dropped (one line always stays).
pub open spec fn drop_trailing_blank(lines: Seq<Seq<char>>) -> Seq<Seq<char>>
    decreases lines.len(),
{
    if lines.len() > 1 && trim(lines.last()).len() == 0 {
        drop_trailing_blank(lines.drop_last())
    } else {
        lines
    }
}

/// A macro other than the one at `original_idx` already uses `key`.
pub open spec fn key_taken(macros: Seq<MacroView>, key: Seq<char>, original_idx: Option<usize>) -> bool {
    exists|i: int| 0 <= i < macros.len() && #[trigger] macros[i].key == key && original_idx != Some(i as usize)
}

/// What `build_macro` decides: the macro (key, send, expects), or the message.
pub open spec fn spec_build_macro(
    key: Seq<char>,
    cmd_lines: Seq<Seq<char>>,
    original_idx: Option<usize>,
    macros: Seq<MacroView>,
) -> Result<(Seq<char>, Seq<char>), Seq<char>> {
    let k = trim(key);
    let lines = drop_trailing_blank(cmd_lines);
    if k.len() == 0 {
        Err("Key cannot be empty"@)
    } else if key_taken(macros, k, original_idx) {
        Err("A macro with key '"@ + k + "' already exists"@)
    } else if forall|i: int| 0 <= i < lines.len() ==> trim(#[trigger] lines[i]).len() == 0 {
        Err("Add at least one command line"@)
    } else {
        Ok((k, join_seqs(lines, "\n"@)))
    }
}

/// Opening a macro in the editor and saving it unchanged keeps it as it was,
/// for a macro that was valid to begin with: its key is trimmed and used by no
/// other macro, its last line is not blank, and it has a non-blank line.
pub proof fn lemma_unchanged_macro_kept(macros: Seq<MacroView>, idx: usize)
    requires
        idx < macros.len(),
        macros[idx as int].key.len() > 0,
        trim(macros[idx as int].key) == macros[idx as int].key,
        !key_taken(macros, macros[idx as int].key, Some(idx)),
        ({
            let lines = split_char(macros[idx as int].send, '\n');
            &&& lines.len() == 1 || trim(lines.last()).len() > 0
            &&& exists|i: int| 0 <= i < lines.len() && trim(#[trigger] lines[i]).len() > 0
        }),
    ensures
        spec_build_macro(macros[idx as int].key, split_char(macros[idx as int].send, '\n'), Some(idx), macros)
            == Ok::<(Seq<char>, Seq<char>), Seq<char>>((macros[idx as int].key, macros[idx as int].send)),
{
    let m = macros[idx as int];
    let lines = split_char(m.send, '\n');
    crate::text::lemma_split_char_pieces(m.send, '\n');
    assert(drop_trailing_blank(lines) == lines);
    crate::text::lemma_join_split(m.send, '\n');
    reveal_strlit("\n");
    assert("\n"@ =~= seq!['\n']);
}

/// Validate a macro draft against the current list `macros` and build the
/// `Macro` (see [`spec_build_macro`]): the key is trimmed and must be non-empty
/// and not used by another macro; trailing blank command lines are dropped and
/// at least one command must remain; the lines are joined with newlines.
pub fn build_macro(edit: &MacroEdit, macros: &Vec<Macro>) -> (r: Result<Macro, String>)
    ensures
        match spec_build_macro(edit.key@, edit.cmd_lines.deep_view(), edit.original_idx, macros.deep_view()) {
            Ok((k, send)) => r matches Ok(m) && m.key@ == k && m.send@ == send
                && m.expects.deep_view() == edit.expects.deep_view(),
            Err(msg) => r matches Err(e) && e@ == msg,
        },
{
    let key = trim_str(edit.key.as_str());
    if key.as_str().unicode_len() == 0 {
        return Err(String::from_str("Key cannot be empty"));
    }
    let ghost mv = macros.deep_view();
    let mut i: usize = 0;
    while i < macros.len()
        invariant
            0 <= i <= macros@.len(),
            mv == macros.deep_view(),
            key@ == trim(edit.key@),
            key@.len() > 0,
            forall|j: int| 0 <= j < i ==> !(#[trigger] mv[j].key == key@ && edit.original_idx != Some(j as usize)),
        decreases macros@.len() - i,
    {
        let same_key = crate::text::str_eq(macros[i].key.as_str(), key.as_str());
        let other = match edit.original_idx {
            Some(o) => o != i,
            None => true,
        };
        if same_key && other {
            proof {
                assert(mv[i as int].key == key@);
                assert(key_taken(mv, key@, edit.original_idx));
            }
            let head = concat("A macro with key '", key.as_str());
            let msg = concat(head.as_str(), "' already exists");
            return Err(msg);
        }
        i = i + 1;
    }
    let mut lines = crate::config::copy_strings(&edit.cmd_lines);
    while lines.len() > 1 && is_blank(lines[lines.len() - 1].as_str())
        invariant
            drop_trailing_blank(lines.deep_view()) == drop_trailing_blank(edit.cmd_lines.deep_view()),
        decreases lines@.len(),
    {
        let ghost before = lines.deep_view();
        proof {
            assert(before.last() == lines@[lines@.len() - 1]@);
        }
        lines.pop();
        proof {
            assert(lines.deep_view() =~= before.drop_last());
        }
    }
    assert(drop_trailing_blank(lines.deep_view()) == lines.deep_view());
    let ghost ls = lines.deep_view();
    let mut j: usize = 0;
    let mut any = false;
    while j < lines.len()
        invariant
            0 <= j <= lines@.len(),
            ls == lines.deep_view(),
            any == exists|k: int| 0 <= k < j && trim(#[trigger] ls[k]).len() != 0,
        decreases lines@.len() - j,
    {
        if !is_blank(lines[j].as_str()) {
            any = true;
        }
        proof {
            assert(ls[j as int] == lines@[j as int]@);
        }
        j = j + 1;
    }
    if !any {
        return Err(String::from_str("Add at least one command line"));
    }
    Ok(Macro { key, send: join_strings(&lines, "\n"), expects: copy_expects(&edit.expects) })
}

/// What `build_expect` decides: the rule (pattern, send, credential), or the
/// message.
pub open spec fn spec_build_expect(pattern: Seq<char>, send: Seq<char>, cred: Seq<char>) -> Result<
    (Option<Seq<char>>, Option<Seq<char>>),
    Seq<char>,
> {
    if trim(pattern).len() == 0 {
        Err("Pattern cannot be empty"@)
    } else if crate::matcher::regex_new_error(pattern) is Some {
        Err("Invalid regex: "@ + crate::matcher::regex_new_error(pattern)->0)
    } else if (send.len() > 0) == (cred.len() > 0) {
        Err("Set exactly one of Send / Credential"@)
    } else if send.len() > 0 {
        Ok((Some(send), None))
    } else {
        Ok((None, Some(cred)))
    }
}

/// Validate an expect draft and build the `Expect` (see [`spec_build_expect`]):
/// a non-blank pattern that compiles as a regex, and exactly one of send /
/// credential.
pub fn build_expect(edit: &ExpectEdit) -> (r: Result<Expect, String>)
    ensures
        match spec_build_expect(edit.pattern@, edit.send@, edit.send_credential@) {
            Ok((send, cred)) => r matches Ok(e) && e.pattern@ == edit.pattern@ && e.send.deep_view()
                == send && e.send_credential.deep_view() == cred && e.once == edit.once,
            Err(msg) => r matches Err(e) && e@ == msg,
        },
{
    if is_blank(edit.pattern.as_str()) {
        return Err(String::from_str("Pattern cannot be empty"));
    }
    match CompiledRegex::compile(edit.pattern.as_str()) {
        Ok(_) => {},
        Err(m) => {
            return Err(concat("Invalid regex: ", m.as_str()));
        },
    }
    let has_send = edit.send.as_str().unicode_len() > 0;
    let has_cred = edit.send_credential.as_str().unicode_len() > 0;
    if has_send == has_cred {
        return Err(String::from_str("Set exactly one of Send / Credential"));
    }
    Ok(
        Expect {
            pattern: edit.pattern.clone(),
            send: if has_send {
                Some(edit.send.clone())
            } else {
                None
            },
            send_credential: if has_cred {
                Some(edit.send_credential.clone())
            } else {
                None
            },
            once: edit.once,
        },
    )
}

/// An expect rule that the editor accepts is one the automation engine
/// compiles, answered with the text or the credential that was set.
pub proof fn lemma_saved_expect_compiles(pattern: Seq<char>, send: Seq<char>, cred: Seq<char>)
    requires
        spec_build_expect(pattern, send, cred) is Ok,
    ensures
        match spec_build_expect(pattern, send, cred) {
            Ok((s, c)) => crate::session::spec_build_automation(pattern, s, c) == if send.len() > 0 {
                Ok::<(bool, Seq<char>), Seq<char>>((true, send))
            } else {
                Ok::<(bool, Seq<char>), Seq<char>>((false, cred))
            },
            Err(_) => false,
        },
{
}

} // verus!
