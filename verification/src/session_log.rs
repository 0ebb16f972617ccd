//! Where a session's transcript goes: the per-session folder, the file named
//! after the start time, and the header line. Writing it is the application's.

use vstd::prelude::*;
use chrono::{Datelike, Timelike};
use crate::config::join_path;
use crate::text::{chars_of, concat, decimal, decimal_chars, string_from_chars};

verus! {

/// Kept as is in a log folder name: ASCII letters and digits, `.`, `_`, `-`.
pub open spec fn safe_name_char(c: char) -> bool {
    ('a' <= c <= 'z') || ('A' <= c <= 'Z') || ('0' <= c <= '9') || c == '.' || c == '_' || c == '-'
}

/// `name` with every other char replaced by `_`; an empty result, `.` or `..`
/// becomes `host`, so a crafted name can never leave the log directory.
pub open spec fn spec_sanitize(name: Seq<char>) -> Seq<char> {
    let cleaned = Seq::new(name.len(), |i: int| if safe_name_char(name[i]) { name[i] } else { '_' });
    if cleaned.len() == 0 || cleaned == "."@ || cleaned == ".."@ {
        "host"@
    } else {
        cleaned
    }
}

/// A safe single path component for the session label `name` (see
/// [`spec_sanitize`]).
pub fn sanitize(name: &str) -> (r: String)
    ensures
        r@ == spec_sanitize(name@),
{
    let cs = chars_of(name);
    let ghost cleaned = Seq::new(name@.len(), |i: int| if safe_name_char(name@[i]) { name@[i] } else { '_' });
    let mut out: Vec<char> = Vec::new();
    let mut i: usize = 0;
    while i < cs.len()
        invariant
            0 <= i <= cs@.len(),
            cs@ == name@,
            cleaned == Seq::new(name@.len(), |k: int| if safe_name_char(name@[k]) { name@[k] } else { '_' }),
            out@ == cleaned.take(i as int),
        decreases cs@.len() - i,
    {
        let c = cs[i];
        let keep = ('a' <= c && c <= 'z') || ('A' <= c && c <= 'Z') || ('0' <= c && c <= '9') || c == '.'
            || c == '_' || c == '-';
        out.push(if keep { c } else { '_' });
        i = i + 1;
        assert(out@ =~= cleaned.take(i as int));
    }
    assert(cleaned.take(cs@.len() as int) =~= cleaned);
    proof {
        reveal_strlit(".");
        reveal_strlit("..");
        reveal_strlit("host");
    }
    let n = out.len();
    let dot_only = (n == 1 && out[0] == '.') || (n == 2 && out[0] == '.' && out[1] == '.');
    proof {
        if n == 1 && out@[0] == '.' {
            assert(out@ =~= "."@);
        }
        if n == 2 && out@[0] == '.' && out@[1] == '.' {
            assert(out@ =~= ".."@);
        }
    }
    if n == 0 || dot_only {
        String::from_str("host")
    } else {
        string_from_chars(out.as_slice())
    }
}

/// A sanitized label is one safe path component: not empty, not `.` or `..`,
/// and made only of ASCII letters, digits, `.`, `_` and `-`.
pub proof fn lemma_sanitize_safe(name: Seq<char>)
    ensures
        spec_sanitize(name).len() > 0,
        spec_sanitize(name) != "."@,
        spec_sanitize(name) != ".."@,
        forall|i: int| 0 <= i < spec_sanitize(name).len() ==> safe_name_char(#[trigger] spec_sanitize(name)[i]),
{
    reveal_strlit(".");
    reveal_strlit("..");
    reveal_strlit("host");
    let cleaned = Seq::new(name.len(), |i: int| if safe_name_char(name[i]) { name[i] } else { '_' });
    if !(cleaned.len() == 0 || cleaned == "."@ || cleaned == ".."@) {
        assert forall|i: int| 0 <= i < cleaned.len() implies safe_name_char(#[trigger] cleaned[i]) by {}
    } else {
        assert("host"@.len() == 4);
        assert forall|i: int| 0 <= i < 4 implies safe_name_char(#[trigger] "host"@[i]) by {}
    }
}

/// Sanitizing a sanitized label changes nothing.
pub proof fn lemma_sanitize_idempotent(name: Seq<char>)
    ensures
        spec_sanitize(spec_sanitize(name)) == spec_sanitize(name),
{
    lemma_sanitize_safe(name);
    let s = spec_sanitize(name);
    let again = Seq::new(s.len(), |i: int| if safe_name_char(s[i]) { s[i] } else { '_' });
    assert(again =~= s);
}

// ───────────────────────── the transcript file ─────────────────────────

/// Where a session's transcript goes and the line it starts with.
#[derive(Debug)]
pub struct LogPlan {
    /// The folder of this label's sessions.
    pub dir: String,
    /// The transcript file, named after the start time.
    pub file: String,
    /// The first line written to it.
    pub header: String,
}

/// The header line: `==== gukab session <time> — <label> ====`.
pub open spec fn header_text(stamp: Seq<char>, label: Seq<char>) -> Seq<char> {
    "==== gukab session "@ + stamp + " — "@ + label + " ====\n"@
}

/// The plan for a session of `label` that starts at the time written
/// `file_stamp` (as `%Y-%m-%d_%H-%M-%S`) and `header_stamp` (as
/// `%Y-%m-%d %H:%M:%S`): the folder `<log_dir>/<sanitized label>`, the file
/// `<file_stamp>.log` in it, and the header.
pub fn log_plan_at(log_dir: &str, label: &str, file_stamp: &str, header_stamp: &str) -> (r: LogPlan)
    ensures
        r.dir@ == join_path(log_dir@, spec_sanitize(label@)),
        r.file@ == join_path(r.dir@, file_stamp@ + ".log"@),
        r.header@ == header_text(header_stamp@, label@),
{
    let name = sanitize(label);
    let dir = crate::config::join(log_dir, name.as_str());
    let fname = concat(file_stamp, ".log");
    let file = crate::config::join(dir.as_str(), fname.as_str());
    let a = concat("==== gukab session ", header_stamp);
    let b = concat(a.as_str(), " — ");
    let c = concat(b.as_str(), label);
    let header = concat(c.as_str(), " ====\n");
    LogPlan { dir, file, header }
}

/// A reading of the local clock, field by field as chrono gives it; a
/// nanosecond count of a billion or more marks a leap second.
#[derive(Debug, Clone, Copy)]
pub struct ClockReading {
    pub year: i32,
    pub month: u32,
    pub day: u32,
    pub hour: u32,
    pub minute: u32,
    pub second: u32,
    pub nanosecond: u32,
}

/// The ranges chrono documents for the fields of a reading.
pub open spec fn reading_ok(c: ClockReading) -> bool {
    &&& 1 <= c.month <= 12
    &&& 1 <= c.day <= 31
    &&& c.hour < 24
    &&& c.minute < 60
    &&& c.second < 60
    &&& c.nanosecond < 2_000_000_000
}

/// `s` padded on the left with zeros to `w` chars.
pub open spec fn zero_padded(s: Seq<char>, w: nat) -> Seq<char> {
    if s.len() < w {
        Seq::new((w - s.len()) as nat, |i: int| '0') + s
    } else {
        s
    }
}

/// A field written with two digits (`%m`, `%d`, `%H`, `%M`, `%S`).
pub open spec fn two_digits(n: nat) -> Seq<char> {
    zero_padded(decimal(n), 2)
}

/// The year as `%Y` writes it: four digits for years 0 to 9999, otherwise a
/// sign and at least four digits.
pub open spec fn year_text(y: int) -> Seq<char> {
    if 0 <= y <= 9999 {
        zero_padded(decimal(y as nat), 4)
    } else if y < 0 {
        "-"@ + zero_padded(decimal((-y) as nat), 4)
    } else {
        "+"@ + zero_padded(decimal(y as nat), 4)
    }
}

/// The second as `%S` writes it: 60 during a leap second.
pub open spec fn shown_second(c: ClockReading) -> nat {
    (c.second + c.nanosecond / 1_000_000_000) as nat
}

/// The reading as `%Y-%m-%d_%H-%M-%S`: the transcript's file name.
pub open spec fn file_stamp(c: ClockReading) -> Seq<char> {
    year_text(c.year as int) + "-"@ + two_digits(c.month as nat) + "-"@ + two_digits(c.day as nat) + "_"@
        + two_digits(c.hour as nat) + "-"@ + two_digits(c.minute as nat) + "-"@ + two_digits(shown_second(c))
}

/// The reading as `%Y-%m-%d %H:%M:%S`: the time in the header line.
pub open spec fn header_stamp(c: ClockReading) -> Seq<char> {
    year_text(c.year as int) + "-"@ + two_digits(c.month as nat) + "-"@ + two_digits(c.day as nat) + " "@
        + two_digits(c.hour as nat) + ":"@ + two_digits(c.minute as nat) + ":"@ + two_digits(shown_second(c))
}

/// `n` in decimal, padded on the left with zeros to `w` chars.
fn padded_decimal(n: u64, w: usize) -> (r: String)
    ensures
        r@ == zero_padded(decimal(n as nat), w as nat),
{
    let d = decimal_chars(n);
    if d.len() >= w {
        return string_from_chars(d.as_slice());
    }
    let mut out: Vec<char> = Vec::new();
    let pad = w - d.len();
    let mut i: usize = 0;
    while i < pad
        invariant
            0 <= i <= pad,
            out@ == Seq::new(i as nat, |k: int| '0'),
        decreases pad - i,
    {
        out.push('0');
        i = i + 1;
        assert(out@ =~= Seq::new(i as nat, |k: int| '0'));
    }
    let mut j: usize = 0;
    while j < d.len()
        invariant
            0 <= j <= d@.len(),
            out@ == Seq::new(pad as nat, |k: int| '0') + d@.take(j as int),
        decreases d@.len() - j,
    {
        out.push(d[j]);
        j = j + 1;
        assert(out@ =~= Seq::new(pad as nat, |k: int| '0') + d@.take(j as int));
    }
    assert(d@.take(d@.len() as int) =~= d@);
    string_from_chars(out.as_slice())
}

/// The year as `%Y` writes it (see [`year_text`]).
fn year_string(y: i32) -> (r: String)
    ensures
        r@ == year_text(y as int),
{
    if 0 <= y && y <= 9999 {
        padded_decimal(y as u64, 4)
    } else if y < 0 {
        let a = (-(y as i64)) as u64;
        let p = padded_decimal(a, 4);
        concat("-", p.as_str())
    } else {
        let p = padded_decimal(y as u64, 4);
        concat("+", p.as_str())
    }
}

/// The two stamps of a reading: for the file name ([`file_stamp`]) and for the
/// header ([`header_stamp`]).
pub fn clock_stamps(c: &ClockReading) -> (r: (String, String))
    requires
        reading_ok(*c),
    ensures
        r.0@ == file_stamp(*c),
        r.1@ == header_stamp(*c),
{
    let y = year_string(c.year);
    let mo = padded_decimal(c.month as u64, 2);
    let d = padded_decimal(c.day as u64, 2);
    let h = padded_decimal(c.hour as u64, 2);
    let mi = padded_decimal(c.minute as u64, 2);
    let sec = c.second + c.nanosecond / 1_000_000_000;
    let s = padded_decimal(sec as u64, 2);
    let f1 = concat(y.as_str(), "-");
    let f2 = concat(f1.as_str(), mo.as_str());
    let f3 = concat(f2.as_str(), "-");
    let f4 = concat(f3.as_str(), d.as_str());
    let date = f4;
    let g1 = concat(date.as_str(), "_");
    let g2 = concat(g1.as_str(), h.as_str());
    let g3 = concat(g2.as_str(), "-");
    let g4 = concat(g3.as_str(), mi.as_str());
    let g5 = concat(g4.as_str(), "-");
    let file = concat(g5.as_str(), s.as_str());
    let k1 = concat(date.as_str(), " ");
    let k2 = concat(k1.as_str(), h.as_str());
    let k3 = concat(k2.as_str(), ":");
    let k4 = concat(k3.as_str(), mi.as_str());
    let k5 = concat(k4.as_str(), ":");
    let header = concat(k5.as_str(), s.as_str());
    (file, header)
}

/// One reading of the local clock (`chrono::Local::now`), field by field
/// (`Datelike::year`, `month`, `day`, `Timelike::hour`, `minute`, `second`,
/// `nanosecond`). Only the ranges chrono documents for the fields are stated:
/// the value is the time.
#[verifier::external_body]
fn local_clock() -> (r: ClockReading)
    ensures
        reading_ok(r),
{
    let now = chrono::Local::now();
    ClockReading {
        year: now.year(),
        month: now.month(),
        day: now.day(),
        hour: now.hour(),
        minute: now.minute(),
        second: now.second(),
        nanosecond: now.nanosecond(),
    }
}

/// The plan for a session of `label` starting now (see [`log_plan_at`]): the
/// file and header carry the stamps of some reading of the clock.
pub fn log_plan(log_dir: &str, label: &str) -> (r: LogPlan)
    ensures
        r.dir@ == join_path(log_dir@, spec_sanitize(label@)),
        exists|c: ClockReading| #[trigger] reading_ok(c) && r.file@ == join_path(r.dir@, file_stamp(c) + ".log"@)
            && r.header@ == header_text(header_stamp(c), label@),
{
    let c = local_clock();
    let (f, h) = clock_stamps(&c);
    let r = log_plan_at(log_dir, label, f.as_str(), h.as_str());
    assert(reading_ok(c));
    r
}

} // verus!
