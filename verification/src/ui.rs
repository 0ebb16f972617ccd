//! What the screen shows, as text: column fitting, the seven-segment clock,
//! the labels of the serial settings, the LED animation of the side panel and
//! the width of the host-name column. The drawing itself is the application's.

use vstd::prelude::*;
use vstd::wrapping::u64_specs::{wrapping_add, wrapping_mul};
use crate::app::App;
use crate::config::HostView;
use crate::hostlist::{Row, RowView};
use crate::serial::{Flow, Parity};
use crate::text::{chars_of, string_from_chars};

verus! {

/// Min width of the host-name column.
pub const NAME_MIN: usize = 12;

/// Max width of the host-name column.
pub const NAME_CAP: usize = 26;

/// `s` fitted into exactly `w` columns: longer values are cut to `w - 1`
/// chars followed by `…` (nothing at all when `w` is 0), shorter ones padded
/// with spaces.
pub open spec fn spec_fit_width(s: Seq<char>, w: int) -> Seq<char> {
    if w <= 0 {
        Seq::empty()
    } else if s.len() > w {
        s.take(w - 1).push('…')
    } else {
        s + Seq::new((w - s.len()) as nat, |i: int| ' ')
    }
}

/// A fitted value takes exactly `w` columns; one that fits is kept, padded on
/// the right; a longer one keeps its first `w - 1` chars.
pub proof fn lemma_fit_width(s: Seq<char>, w: int)
    requires
        w >= 0,
    ensures
        spec_fit_width(s, w).len() == w,
        s.len() <= w ==> spec_fit_width(s, w).take(s.len() as int) == s,
        s.len() > w >= 1 ==> spec_fit_width(s, w).take(w - 1) == s.take(w - 1),
{
    if w == 0 {
    } else if s.len() <= w {
        assert(spec_fit_width(s, w).take(s.len() as int) =~= s);
    } else {
        assert(spec_fit_width(s, w).take(w - 1) =~= s.take(w - 1));
    }
}

/// Fit `s` into exactly `w` columns (see [`spec_fit_width`]).
pub fn fit_width(s: &str, w: usize) -> (r: String)
    ensures
        r@ == spec_fit_width(s@, w as int),
{
    let cs = chars_of(s);
    let n = cs.len();
    let mut out: Vec<char> = Vec::new();
    if w == 0 {
        return String::new();
    }
    if n > w {
        let keep = w - 1;
        let mut i: usize = 0;
        while i < keep
            invariant
                0 <= i <= keep,
                keep < n,
                n == cs@.len(),
                out@ == cs@.take(i as int),
            decreases keep - i,
        {
            out.push(cs[i]);
            i = i + 1;
            assert(out@ =~= cs@.take(i as int));
        }
        out.push('…');
    } else {
        let mut i: usize = 0;
        while i < n
            invariant
                0 <= i <= n,
                n == cs@.len(),
                out@ == cs@.take(i as int),
            decreases n - i,
        {
            out.push(cs[i]);
            i = i + 1;
            assert(out@ =~= cs@.take(i as int));
        }
        assert(cs@.take(n as int) =~= cs@);
        let mut j: usize = 0;
        while j < w - n
            invariant
                0 <= j <= w - n,
                n <= w,
                out@ == cs@ + Seq::new(j as nat, |k: int| ' '),
            decreases w - n - j,
        {
            out.push(' ');
            j = j + 1;
            assert(out@ =~= cs@ + Seq::new(j as nat, |k: int| ' '));
        }
    }
    string_from_chars(out.as_slice())
}

/// One row (0, 1 or 2) of the seven-segment glyph of `c` (digits and `:`;
/// anything else is blank).
pub open spec fn glyph_row(c: char, r: int) -> Seq<char> {
    if c == ':' {
        if r == 1 { ":"@ } else { " "@ }
    } else if r == 0 {
        if c == '0' || c == '2' || c == '3' || c == '5' || c == '6' || c == '7' || c == '8' || c == '9' {
            " _ "@
        } else {
            "   "@
        }
    } else if r == 1 {
        if c == '0' { "| |"@ } else if c == '1' || c == '7' { "  |"@ } else if c == '2' || c == '3' { " _|"@ }
        else if c == '4' || c == '8' || c == '9' { "|_|"@ } else if c == '5' || c == '6' { "|_ "@ } else { "   "@ }
    } else {
        if c == '0' || c == '6' || c == '8' { "|_|"@ } else if c == '1' || c == '4' || c == '7' { "  |"@ }
        else if c == '2' { "|_ "@ } else if c == '3' || c == '5' || c == '9' { " _|"@ } else { "   "@ }
    }
}

/// Row `r` of `text` in seven-segment art: the glyph rows of its chars, one
/// space apart.
pub open spec fn segment_row(text: Seq<char>, r: int) -> Seq<char>
    decreases text.len(),
{
    if text.len() == 0 {
        Seq::empty()
    } else if text.len() == 1 {
        glyph_row(text[0], r)
    } else {
        segment_row(text.drop_last(), r) + " "@ + glyph_row(text.last(), r)
    }
}

fn glyph_row_exec(c: char, r: usize) -> (g: &'static str)
    requires
        r < 3,
    ensures
        g@ == glyph_row(c, r as int),
{
    if c == ':' {
        if r == 1 { ":" } else { " " }
    } else if r == 0 {
        if c == '0' || c == '2' || c == '3' || c == '5' || c == '6' || c == '7' || c == '8' || c == '9' {
            " _ "
        } else {
            "   "
        }
    } else if r == 1 {
        if c == '0' { "| |" } else if c == '1' || c == '7' { "  |" } else if c == '2' || c == '3' { " _|" }
        else if c == '4' || c == '8' || c == '9' { "|_|" } else if c == '5' || c == '6' { "|_ " } else { "   " }
    } else {
        if c == '0' || c == '6' || c == '8' { "|_|" } else if c == '1' || c == '4' || c == '7' { "  |" }
        else if c == '2' { "|_ " } else if c == '3' || c == '5' || c == '9' { " _|" } else { "   " }
    }
}

fn segment_row_exec(cs: &Vec<char>, r: usize) -> (s: String)
    requires
        r < 3,
    ensures
        s@ == segment_row(cs@, r as int),
{
    let mut out = String::new();
    let mut i: usize = 0;
    while i < cs.len()
        invariant
            0 <= i <= cs@.len(),
            r < 3,
            out@ == segment_row(cs@.take(i as int), r as int),
        decreases cs@.len() - i,
    {
        proof {
            assert(cs@.take(i + 1).drop_last() =~= cs@.take(i as int));
            assert(cs@.take(i + 1).last() == cs@[i as int]);
        }
        if i > 0 {
            out.append(" ");
        } else {
            assert(cs@.take(1)[0] == cs@[0]);
        }
        out.append(glyph_row_exec(cs[i], r));
        i = i + 1;
    }
    assert(cs@.take(cs@.len() as int) =~= cs@);
    out
}

/// `text` (digits and `:`) as three rows of seven-segment art.
pub fn seven_segment(text: &str) -> (r: [String; 3])
    ensures
        r[0]@ == segment_row(text@, 0),
        r[1]@ == segment_row(text@, 1),
        r[2]@ == segment_row(text@, 2),
{
    let cs = chars_of(text);
    [segment_row_exec(&cs, 0), segment_row_exec(&cs, 1), segment_row_exec(&cs, 2)]
}

/// The one-letter parity code of the 8-N-1 notation.
pub fn parity_short(p: Parity) -> (r: &'static str)
    ensures
        r@ == match p {
            Parity::NoParity => "N"@,
            Parity::Even => "E"@,
            Parity::Odd => "O"@,
        },
{
    match p {
        Parity::NoParity => "N",
        Parity::Even => "E",
        Parity::Odd => "O",
    }
}

/// The parity's name.
pub fn parity_label(p: Parity) -> (r: &'static str)
    ensures
        r@ == match p {
            Parity::NoParity => "None"@,
            Parity::Even => "Even"@,
            Parity::Odd => "Odd"@,
        },
{
    match p {
        Parity::NoParity => "None",
        Parity::Even => "Even",
        Parity::Odd => "Odd",
    }
}

/// The flow control's name.
pub fn flow_label(fl: Flow) -> (r: &'static str)
    ensures
        r@ == match fl {
            Flow::NoFlow => "None"@,
            Flow::Software => "Software (XON/XOFF)"@,
            Flow::Hardware => "Hardware (RTS/CTS)"@,
        },
{
    match fl {
        Flow::NoFlow => "None",
        Flow::Software => "Software (XON/XOFF)",
        Flow::Hardware => "Hardware (RTS/CTS)",
    }
}

/// The state of one LED of the side panel.
#[derive(Clone, Copy, PartialEq, Eq, Structural, Debug)]
pub enum Led {
    /// The rare amber port.
    Amber,
    LightGreen,
    Green,
    Off,
}

/// The integer hash behind the LED pattern of `port` at animation `frame`
/// (`salt` tells the two LED rows apart); each state holds two frames.
pub open spec fn led_hash(port: u64, frame: u64, salt: u64) -> u64 {
    let seed = frame / 2;
    let h0 = wrapping_add(wrapping_add(wrapping_mul(port, 2654435761), wrapping_mul(seed, 2246822519)), wrapping_mul(salt, 40503));
    let h1 = h0 ^ (h0 >> 13u64);
    let h2 = wrapping_mul(h1, 3266489917);
    h2 ^ (h2 >> 16u64)
}

/// The LED state: about half the ports lit, mostly green, the odd one amber.
pub open spec fn spec_blink(port: u64, frame: u64, salt: u64) -> Led {
    let v = led_hash(port, frame, salt) % 16;
    if v == 0 {
        Led::Amber
    } else if v <= 3 {
        Led::LightGreen
    } else if v <= 7 {
        Led::Green
    } else {
        Led::Off
    }
}

/// The state of LED `port` at animation `frame` (see [`spec_blink`]).
pub fn blink_color(port: u64, frame: u64, salt: u64) -> (r: Led)
    ensures
        r == spec_blink(port, frame, salt),
{
    let seed = frame / 2;
    let mut h = port.wrapping_mul(2654435761).wrapping_add(seed.wrapping_mul(2246822519)).wrapping_add(
        salt.wrapping_mul(40503),
    );
    h = h ^ (h >> 13u64);
    h = h.wrapping_mul(3266489917);
    h = h ^ (h >> 16u64);
    let v = h % 16;
    if v == 0 {
        Led::Amber
    } else if v <= 3 {
        Led::LightGreen
    } else if v <= 7 {
        Led::Green
    } else {
        Led::Off
    }
}

/// The longest host name among the first `k` rows (`None` without host rows).
pub open spec fn longest_name(rows: Seq<RowView>, hosts: Seq<HostView>, k: int) -> Option<nat>
    decreases k,
{
    if k <= 0 {
        None
    } else {
        let rest = longest_name(rows, hosts, k - 1);
        match rows[k - 1] {
            RowView::Host { idx, .. } => {
                let n = hosts[idx as int].name.len();
                match rest {
                    Some(m) => Some(if m >= n { m } else { n }),
                    None => Some(n),
                }
            },
            _ => rest,
        }
    }
}

/// The width of the host-name column: the longest visible host name, between
/// `NAME_MIN` and `NAME_CAP` (`NAME_MIN` without hosts).
pub open spec fn spec_name_width(rows: Seq<RowView>, hosts: Seq<HostView>) -> nat {
    let m = match longest_name(rows, hosts, rows.len() as int) {
        Some(m) => m,
        None => NAME_MIN as nat,
    };
    if m < NAME_MIN {
        NAME_MIN as nat
    } else if m > NAME_CAP {
        NAME_CAP as nat
    } else {
        m
    }
}

/// The width of the host-name column of the list (see [`spec_name_width`]).
pub fn name_width(app: &App) -> (r: usize)
    requires
        app.wf(),
    ensures
        r == spec_name_width(app.rows.deep_view(), app.hosts.deep_view()),
{
    proof {
        crate::app::lemma_host_rows_in_range(app);
    }
    let ghost rv = app.rows.deep_view();
    let ghost hv = app.hosts.deep_view();
    let mut best: Option<usize> = None;
    let mut i: usize = 0;
    while i < app.rows.len()
        invariant
            0 <= i <= app.rows@.len(),
            rv == app.rows.deep_view(),
            hv == app.hosts.deep_view(),
            crate::hostlist::rows_below(rv, app.hosts@.len() as int),
            match longest_name(rv, hv, i as int) {
                Some(m) => best matches Some(b) && b == m,
                None => best is None,
            },
        decreases app.rows@.len() - i,
    {
        proof {
            assert(rv[i as int] == app.rows@[i as int]@);
        }
        match &app.rows[i] {
            Row::Host { idx, .. } => {
                let n = app.hosts[*idx].name.as_str().unicode_len();
                proof {
                    assert(hv[*idx as int] == app.hosts@[*idx as int]@);
                }
                best = match best {
                    Some(m) => Some(if m >= n { m } else { n }),
                    None => Some(n),
                };
            },
            _ => {},
        }
        i = i + 1;
    }
    let m = match best {
        Some(m) => m,
        None => NAME_MIN,
    };
    if m < NAME_MIN {
        NAME_MIN
    } else if m > NAME_CAP {
        NAME_CAP
    } else {
        m
    }
}

} // verus!
