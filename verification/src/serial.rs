//! Serial console parameters: what the console form produces and what opening a
//! port needs (the port itself is opened by the application).

use vstd::prelude::*;
use crate::text::{chars_of, concat};

verus! {

/// Baud rates offered as presets in the console form and the in-session chooser.
pub const BAUD_PRESETS: [u32; 5] = [9600, 19200, 38400, 57600, 115200];

/// The presets as a sequence.
pub open spec fn baud_presets() -> Seq<u32> {
    seq![9600u32, 19200, 38400, 57600, 115200]
}

/// The `i`-th preset (`BAUD_PRESETS[i]`).
pub fn baud_preset(i: usize) -> (r: u32)
    requires
        i < 5,
    ensures
        r == baud_presets()[i as int],
{
    let presets = BAUD_PRESETS;
    assert(presets@ == baud_presets());
    presets[i]
}

#[derive(Clone, Copy, PartialEq, Eq, Structural, Debug)]
pub enum Parity {
    /// No parity bit (`None` in the configuration vocabulary).
    NoParity,
    Even,
    Odd,
}

#[derive(Clone, Copy, PartialEq, Eq, Structural, Debug)]
pub enum Flow {
    /// No flow control (`None` in the configuration vocabulary).
    NoFlow,
    Software,
    Hardware,
}

/// Everything needed to open a serial line; never written to the configuration.
#[derive(Clone, Debug)]
pub struct SerialParams {
    pub device: String,
    pub baud: u32,
    /// 5..=8
    pub data_bits: u8,
    pub parity: Parity,
    /// 1..=2
    pub stop_bits: u8,
    pub flow: Flow,
}

/// The part of `d` after its last `/` (all of `d` when it has none).
pub open spec fn last_component(d: Seq<char>) -> Seq<char>
    decreases d.len(),
{
    if d.len() == 0 {
        d
    } else if d.last() == '/' {
        Seq::empty()
    } else {
        last_component(d.drop_last()).push(d.last())
    }
}

/// The log label of a device path: its last path component, or `serial` when
/// that is empty.
pub open spec fn spec_log_label(d: Seq<char>) -> Seq<char> {
    if last_component(d).len() == 0 {
        "serial"@
    } else {
        last_component(d)
    }
}

pub proof fn lemma_last_component(d: Seq<char>, k: int)
    requires
        0 <= k <= d.len(),
        forall|i: int| k <= i < d.len() ==> d[i] != '/',
        k == 0 || d[k - 1] == '/',
    ensures
        last_component(d) == d.subrange(k, d.len() as int),
    decreases d.len(),
{
    if d.len() > k {
        lemma_last_component(d.drop_last(), k);
        assert(d.drop_last().subrange(k, d.len() - 1).push(d.last()) =~= d.subrange(
            k,
            d.len() as int,
        ));
    } else if d.len() > 0 {
        assert(d.subrange(k, d.len() as int) =~= Seq::<char>::empty());
    } else {
        assert(d.subrange(k, d.len() as int) =~= d);
    }
}

impl SerialParams {
    /// The data bits to open the port with: 5, 6 or 7 as set, anything else 8.
    pub fn data_bits_sp(&self) -> (r: u8)
        ensures
            r == (if self.data_bits == 5 || self.data_bits == 6 || self.data_bits == 7 {
                self.data_bits
            } else {
                8
            }),
    {
        match self.data_bits {
            5 => 5,
            6 => 6,
            7 => 7,
            _ => 8,
        }
    }

    /// The stop bits to open the port with: 2 when set to 2, otherwise 1.
    pub fn stop_bits_sp(&self) -> (r: u8)
        ensures
            r == (if self.stop_bits == 2 {
                2u8
            } else {
                1u8
            }),
    {
        if self.stop_bits == 2 {
            2
        } else {
            1
        }
    }

    /// Short label for the log folder: the device's final path component
    /// (`serial` when there is none).
    pub fn log_label(&self) -> (r: &str)
        ensures
            r@ == spec_log_label(self.device@),
    {
        let cs = chars_of(self.device.as_str());
        let n = cs.len();
        let mut k: usize = n;
        while k > 0 && cs[k - 1] != '/'
            invariant
                0 <= k <= n,
                n == cs@.len(),
                forall|i: int| k <= i < n ==> cs@[i] != '/',
            decreases k,
        {
            k = k - 1;
        }
        proof {
            lemma_last_component(cs@, k as int);
        }
        if k == n {
            proof {
                reveal_strlit("serial");
            }
            return "serial";
        }
        self.device.as_str().substring_char(k, n)
    }
}

/// The device used when no port is detected, for the operating system `os`
/// (`std::env::consts::OS`): `/dev/ttyUSB0` on Linux, `COM1` on Windows,
/// empty elsewhere (macOS nodes are named after the adapter).
pub fn default_device(os: &str) -> (r: String)
    ensures
        r@ == (if os@ == "linux"@ {
            "/dev/ttyUSB0"@
        } else if os@ == "windows"@ {
            "COM1"@
        } else {
            Seq::empty()
        }),
{
    if crate::text::str_eq(os, "linux") {
        String::from_str("/dev/ttyUSB0")
    } else if crate::text::str_eq(os, "windows") {
        String::from_str("COM1")
    } else {
        String::new()
    }
}

/// A detected serial port: its name and whether it is a USB adapter.
#[derive(Debug)]
pub struct PortInfo {
    pub name: String,
    pub usb: bool,
}

/// `a` is listed before `b`: USB adapters first, then by name.
pub open spec fn port_before(a: (Seq<char>, bool), b: (Seq<char>, bool)) -> bool {
    (a.1 && !b.1) || (a.1 == b.1 && crate::notes::lex_less(a.0, b.0))
}

/// The first position at or after `k` of `sorted` that `x` is listed before.
pub open spec fn port_pos(sorted: Seq<(Seq<char>, bool)>, x: (Seq<char>, bool), k: int) -> int
    decreases sorted.len() - k,
{
    if k < 0 || k >= sorted.len() {
        sorted.len() as int
    } else if port_before(x, sorted[k]) {
        k
    } else {
        port_pos(sorted, x, k + 1)
    }
}

/// The first `k` ports, USB adapters first, then by name; ties keep their order.
pub open spec fn sort_ports(ports: Seq<(Seq<char>, bool)>, k: int) -> Seq<(Seq<char>, bool)>
    decreases k,
{
    if k <= 0 {
        Seq::empty()
    } else {
        let r = sort_ports(ports, k - 1);
        r.insert(port_pos(r, ports[k - 1], 0), ports[k - 1])
    }
}

proof fn lemma_port_pos(sorted: Seq<(Seq<char>, bool)>, x: (Seq<char>, bool), k: int)
    requires
        0 <= k <= sorted.len(),
    ensures
        k <= port_pos(sorted, x, k) <= sorted.len(),
        forall|i: int| k <= i < port_pos(sorted, x, k) ==> !port_before(x, #[trigger] sorted[i]),
        port_pos(sorted, x, k) < sorted.len() ==> port_before(x, sorted[port_pos(sorted, x, k)]),
    decreases sorted.len() - k,
{
    if k < sorted.len() && !port_before(x, sorted[k]) {
        lemma_port_pos(sorted, x, k + 1);
    }
}

/// The ports are listed USB adapters first, each kind by name.
pub proof fn lemma_ports_usb_first(ports: Seq<(Seq<char>, bool)>, k: int)
    requires
        0 <= k <= ports.len(),
    ensures
        sort_ports(ports, k).len() == k,
        forall|i: int, j: int| 0 <= i < j < k ==> !port_before(
            #[trigger] sort_ports(ports, k)[j],
            #[trigger] sort_ports(ports, k)[i],
        ),
    decreases k,
{
    if k > 0 {
        lemma_ports_usb_first(ports, k - 1);
        let r = sort_ports(ports, k - 1);
        let x = ports[k - 1];
        let p = port_pos(r, x, 0);
        lemma_port_pos(r, x, 0);
        let r2 = r.insert(p, x);
        assert forall|i: int, j: int| 0 <= i < j < k implies !port_before(#[trigger] r2[j], #[trigger] r2[i]) by {
            if j < p {
                assert(r2[i] == r[i] && r2[j] == r[j]);
            } else if j == p {
                assert(r2[i] == r[i]);
                assert(!port_before(x, r[i]));
            } else if i > p {
                assert(r2[i] == r[i - 1] && r2[j] == r[j - 1]);
            } else if i == p {
                assert(r2[j] == r[j - 1]);
                assert(port_before(x, r[p]));
                if j - 1 > p {
                    assert(!port_before(r[j - 1], r[p]));
                }
                if port_before(r[j - 1], x) {
                    if r[j - 1].1 == x.1 && x.1 == r[p].1 {
                        crate::notes::lemma_lex_less_trans(r[j - 1].0, x.0, r[p].0);
                        if j - 1 == p {
                            crate::notes::lemma_lex_less_irrefl(r[p].0);
                        }
                    }
                    assert(false);
                }
            } else {
                assert(r2[i] == r[i] && r2[j] == r[j - 1]);
                assert(!port_before(r[j - 1], r[i]));
            }
        }
    }
}

pub open spec fn port_key(p: PortInfo) -> (Seq<char>, bool) {
    (p.name@, p.usb)
}

/// The names of the detected ports for the form's device picker: USB adapters
/// (the connected console cable) first, then the others, each by name.
pub fn order_ports(ports: &Vec<PortInfo>) -> (r: Vec<String>)
    ensures
        r.deep_view() == ({
            let pv = ports@.map_values(|p: PortInfo| port_key(p));
            sort_ports(pv, pv.len() as int).map_values(|x: (Seq<char>, bool)| x.0)
        }),
{
    let ghost pv = ports@.map_values(|p: PortInfo| port_key(p));
    let mut sorted: Vec<PortInfo> = Vec::new();
    let mut k: usize = 0;
    while k < ports.len()
        invariant
            0 <= k <= ports@.len(),
            pv == ports@.map_values(|p: PortInfo| port_key(p)),
            sorted@.map_values(|p: PortInfo| port_key(p)) == sort_ports(pv, k as int),
        decreases ports@.len() - k,
    {
        let x = &ports[k];
        let xn = chars_of(x.name.as_str());
        let ghost sv = sorted@.map_values(|p: PortInfo| port_key(p));
        let mut p: usize = 0;
        while p < sorted.len() && !((x.usb && !sorted[p].usb) || (x.usb == sorted[p].usb
            && crate::notes::lex_less_exec(&xn, &chars_of(sorted[p].name.as_str()))))
            invariant
                0 <= p <= sorted@.len(),
                sv == sorted@.map_values(|q: PortInfo| port_key(q)),
                xn@ == x.name@,
                port_pos(sv, port_key(*x), 0) == port_pos(sv, port_key(*x), p as int),
            decreases sorted@.len() - p,
        {
            p = p + 1;
        }
        let item = PortInfo { name: x.name.clone(), usb: x.usb };
        sorted.insert(p, item);
        proof {
            assert(port_key(item) == pv[k as int]);
            assert(sorted@.map_values(|q: PortInfo| port_key(q)) =~= sv.insert(p as int, pv[k as int]));
        }
        k = k + 1;
    }
    let ghost sk = sorted@.map_values(|q: PortInfo| port_key(q));
    let mut names: Vec<String> = Vec::new();
    let mut i: usize = 0;
    while i < sorted.len()
        invariant
            0 <= i <= sorted@.len(),
            sk == sorted@.map_values(|q: PortInfo| port_key(q)),
            names@.len() == i,
            forall|j: int| 0 <= j < i ==> (#[trigger] names@[j])@ == sk[j].0,
        decreases sorted@.len() - i,
    {
        names.push(sorted[i].name.clone());
        i = i + 1;
    }
    assert(names.deep_view() =~= sk.map_values(|x: (Seq<char>, bool)| x.0));
    names
}

// ───────────────────────── opening the port ─────────────────────────

/// The family of the operating system, as far as port errors go.
#[derive(Clone, Copy, PartialEq, Eq, Structural, Debug)]
pub enum OsFamily {
    Unix,
    Windows,
    Other,
}

/// The group named on one `/etc/group` line (`name:passwd:gid:members`) when
/// its gid field is `gid`.
pub open spec fn group_line_owner(line: Seq<char>, gid: u32) -> Option<Seq<char>> {
    let f = crate::text::split_char(line, ':');
    if f.len() >= 3 && crate::text::parse_unsigned(f[2], u32::MAX as nat) == Some(gid as nat) {
        Some(f[0])
    } else {
        None
    }
}

/// The owner of `gid` among the lines from `k` on (`str::lines`: a line break
/// is `\n` or `\r\n`).
pub open spec fn gid_owner_from(lines: Seq<Seq<char>>, gid: u32, k: int) -> Option<Seq<char>>
    decreases lines.len() - k,
{
    if k < 0 || k >= lines.len() {
        None
    } else {
        let line = if k < lines.len() - 1 {
            crate::session::strip_cr(lines[k])
        } else {
            lines[k]
        };
        match group_line_owner(line, gid) {
            Some(n) => Some(n),
            None => gid_owner_from(lines, gid, k + 1),
        }
    }
}

/// The name of the group with id `gid` in the `/etc/group` text `groups`.
pub open spec fn spec_group_name(groups: Seq<char>, gid: u32) -> Option<Seq<char>> {
    gid_owner_from(crate::text::split_char(groups, '\n'), gid, 0)
}

/// The name of the group with id `gid` in the `/etc/group` text `groups` (see
/// [`spec_group_name`]).
pub fn group_name(groups: &str, gid: u32) -> (r: Option<String>)
    ensures
        match spec_group_name(groups@, gid) {
            Some(n) => r matches Some(x) && x@ == n,
            None => r is None,
        },
{
    let lines = crate::text::split_on(groups, '\n');
    let ghost lv = lines.deep_view();
    let n = lines.len();
    let mut k: usize = 0;
    while k < n
        invariant
            0 <= k <= n,
            n == lines@.len(),
            lv == lines.deep_view(),
            lv == crate::text::split_char(groups@, '\n'),
            gid_owner_from(lv, gid, 0) == gid_owner_from(lv, gid, k as int),
        decreases n - k,
    {
        assert(lv[k as int] == lines@[k as int]@);
        let cs = chars_of(lines[k].as_str());
        let m = cs.len();
        let line: String = if k + 1 < n && m > 0 && cs[m - 1] == '\r' {
            let mut t: Vec<char> = Vec::new();
            let mut q: usize = 0;
            while q < m - 1
                invariant
                    0 <= q <= m - 1,
                    m == cs@.len(),
                    m > 0,
                    t@ == cs@.subrange(0, q as int),
                decreases m - 1 - q,
            {
                t.push(cs[q]);
                q = q + 1;
                assert(t@ =~= cs@.subrange(0, q as int));
            }
            assert(t@ =~= cs@.drop_last());
            crate::text::string_from_chars(t.as_slice())
        } else {
            lines[k].clone()
        };
        proof {
            let expect = if k < lv.len() - 1 {
                crate::session::strip_cr(lv[k as int])
            } else {
                lv[k as int]
            };
            assert(line@ == expect);
        }
        let fields = crate::text::split_on(line.as_str(), ':');
        if fields.len() >= 3 {
            let g = chars_of(fields[2].as_str());
            match crate::text::parse_unsigned_chars(&g, 0xFFFF_FFFF) {
                Some(v) => {
                    if v == gid as u64 {
                        assert(fields.deep_view()[0] == fields@[0]@);
                        assert(fields.deep_view()[2] == fields@[2]@);
                        return Some(fields[0].clone());
                    }
                },
                None => {},
            }
            assert(fields.deep_view()[2] == fields@[2]@);
        }
        k = k + 1;
    }
    None
}

/// The message for a port that could not be opened: `cannot open <device>:
/// <detail>`, unless permission was denied. Then on Windows the port is
/// probably held by another program; on Unix the user is told to join the
/// group that owns the device (`group`, else `dialout`), and how.
pub open spec fn spec_open_error(device: Seq<char>, detail: Seq<char>, permission: bool, os: OsFamily, group: Option<Seq<char>>) -> Seq<char> {
    if !permission {
        "cannot open "@ + device + ": "@ + detail
    } else {
        match os {
            OsFamily::Windows => "access denied opening "@ + device
                + " — the port may be open in another program (close the other terminal / PuTTY), or the name may be wrong."@,
            OsFamily::Unix => {
                let g = match group {
                    Some(g) => g,
                    None => "dialout"@,
                };
                "permission denied opening "@ + device + ".\nThis device is owned by the '"@ + g
                    + "' group. Add yourself to it (one-time):\n    sudo usermod -aG "@ + g
                    + " $USER\nThen LOG OUT and back in for the change to take effect.\nTo use it in the current shell right now (no logout): newgrp "@
                    + g
            },
            OsFamily::Other => "permission denied opening "@ + device,
        }
    }
}

/// The error for a port that could not be opened (see [`spec_open_error`]).
pub fn open_error(device: &str, detail: &str, permission: bool, os: OsFamily, group: Option<&str>) -> (r: crate::session::SshError)
    ensures
        r matches crate::session::SshError::Serial(m) && m@ == spec_open_error(
            device@,
            detail@,
            permission,
            os,
            match group {
                Some(g) => Some(g@),
                None => None,
            },
        ),
{
    if !permission {
        let a = concat("cannot open ", device);
        let b = concat(a.as_str(), ": ");
        return crate::session::SshError::Serial(concat(b.as_str(), detail));
    }
    match os {
        OsFamily::Windows => {
            let a = concat("access denied opening ", device);
            crate::session::SshError::Serial(
                concat(
                    a.as_str(),
                    " — the port may be open in another program (close the other terminal / PuTTY), or the name may be wrong.",
                ),
            )
        },
        OsFamily::Unix => {
            let g: &str = match group {
                Some(g) => g,
                None => "dialout",
            };
            let a = concat("permission denied opening ", device);
            let b = concat(a.as_str(), ".\nThis device is owned by the '");
            let c = concat(b.as_str(), g);
            let d = concat(c.as_str(), "' group. Add yourself to it (one-time):\n    sudo usermod -aG ");
            let e = concat(d.as_str(), g);
            let f = concat(
                e.as_str(),
                " $USER\nThen LOG OUT and back in for the change to take effect.\nTo use it in the current shell right now (no logout): newgrp ",
            );
            crate::session::SshError::Serial(concat(f.as_str(), g))
        },
        OsFamily::Other => crate::session::SshError::Serial(concat("permission denied opening ", device)),
    }
}

} // verus!
