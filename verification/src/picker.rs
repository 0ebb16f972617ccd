//! The in-session pickers: the macro picker opened by the escape prefix, and the
//! baud-rate chooser of serial sessions. Here are their filtering and the effect
//! of each chunk of typed bytes; the application draws them and feeds the bytes.

use vstd::prelude::*;
use crate::config::{Macro, MacroView};
use crate::fuzzy::{fuzzy_score, spec_fuzzy_i32};
use crate::hostlist::{
    better, dec, dec_score, lemma_better_keeps, lemma_ranked, lemma_visible_upto, rank, ranked, take_better, visible,
    visible_upto,
};
use crate::serial::{baud_preset, baud_presets};
use crate::text::{chars_of, decimal, decimal_string, is_control, parse_unsigned, parse_unsigned_chars, str_lowercase, string_from_chars, to_lowercase, trim, trim_chars, char_is_control};

verus! {

/// Outcome of the macro picker.
#[derive(Debug)]
pub enum Pick {
    /// Run the macro with this key.
    Run(String),
    /// Open the baud chooser (serial sessions only).
    Baud,
    /// Close the picker, keep the session.
    Cancel,
    /// End the session.
    Disconnect,
}

/// Relevance of macro `m` to the lowercased query: the better of its key's
/// score and its body's score one point lower (a key hit wins a tie).
pub open spec fn spec_macro_score(q: Seq<char>, m: MacroView) -> Option<i32> {
    better(better(None, spec_fuzzy_i32(q, str_lowercase(m.key))), dec_score(spec_fuzzy_i32(q, str_lowercase(m.send))))
}

/// The scores of all macros.
pub open spec fn macro_scores(macros: Seq<MacroView>, q: Seq<char>) -> Seq<Option<i32>> {
    Seq::new(macros.len(), |i: int| spec_macro_score(q, macros[i]))
}

/// The macros (indices) matching `query`, best first, ties in list order; all
/// of them, in order, for an empty query.
pub open spec fn spec_filter(macros: Seq<MacroView>, query: Seq<char>) -> Seq<usize> {
    if query.len() == 0 {
        Seq::new(macros.len(), |i: int| i as usize)
    } else {
        let sc = macro_scores(macros, str_lowercase(query));
        ranked(visible_upto(sc, sc.len() as int), sc, true)
    }
}

/// In the macro picker, a macro whose key matches the (non-empty) query is
/// listed, scoring at least its key's score; one whose body matches is listed
/// too, scoring at least the body's score less one.
pub proof fn lemma_filter_finds_key_or_body(macros: Seq<MacroView>, query: Seq<char>, i: int)
    requires
        query.len() > 0,
        0 <= i < macros.len(),
        macros.len() <= usize::MAX,
    ensures
        ({
            let q = str_lowercase(query);
            let key = spec_fuzzy_i32(q, str_lowercase(macros[i].key));
            let body = spec_fuzzy_i32(q, str_lowercase(macros[i].send));
            &&& key matches Some(s) ==> (spec_filter(macros, query).contains(i as usize)
                && (spec_macro_score(q, macros[i]) matches Some(t) && t >= s))
            &&& body matches Some(s) ==> (spec_filter(macros, query).contains(i as usize)
                && (spec_macro_score(q, macros[i]) matches Some(t) && t >= s - 1))
        }),
{
    let q = str_lowercase(query);
    let m = macros[i];
    let k = spec_fuzzy_i32(q, str_lowercase(m.key));
    let b = dec_score(spec_fuzzy_i32(q, str_lowercase(m.send)));
    lemma_better_keeps(None, k);
    lemma_better_keeps(better(None, k), b);
    let sc = macro_scores(macros, q);
    assert(sc[i] == spec_macro_score(q, m));
    if sc[i] is Some {
        lemma_visible_upto(sc, sc.len() as int);
        let vis = visible_upto(sc, sc.len() as int);
        assert(vis.contains(i as usize));
        lemma_ranked(vis, sc, true);
    }
}

/// The macros matching `query`, ranked (see [`spec_filter`]).
pub fn filter_macros(macros: &Vec<Macro>, query: &str) -> (r: Vec<usize>)
    ensures
        r@ == spec_filter(macros.deep_view(), query@),
        forall|k: int| 0 <= k < r@.len() ==> #[trigger] r@[k] < macros@.len(),
{
    if query.unicode_len() == 0 {
        let mut all: Vec<usize> = Vec::new();
        let mut i: usize = 0;
        while i < macros.len()
            invariant
                0 <= i <= macros@.len(),
                all@ == Seq::new(i as nat, |k: int| k as usize),
            decreases macros@.len() - i,
        {
            all.push(i);
            i = i + 1;
            assert(all@ =~= Seq::new(i as nat, |k: int| k as usize));
        }
        return all;
    }
    let q = to_lowercase(query);
    let mut scores: Vec<Option<i32>> = Vec::new();
    let mut i: usize = 0;
    while i < macros.len()
        invariant
            0 <= i <= macros@.len(),
            scores@.len() == i,
            forall|k: int| 0 <= k < i ==> scores@[k] == spec_macro_score(q@, #[trigger] macros@[k]@),
        decreases macros@.len() - i,
    {
        let m = &macros[i];
        let k = to_lowercase(m.key.as_str());
        let b = to_lowercase(m.send.as_str());
        let s = take_better(take_better(None, fuzzy_score(q.as_str(), k.as_str())), dec(fuzzy_score(q.as_str(), b.as_str())));
        scores.push(s);
        i = i + 1;
    }
    assert(scores@ =~= macro_scores(macros.deep_view(), q@));
    let vis = visible(&scores);
    rank(&vis, &scores, true)
}

/// The number of rows the picker shows: the matching macros, plus the pinned
/// baud row on serial sessions while the query is empty.
pub open spec fn spec_row_count(macros: Seq<MacroView>, query: Seq<char>, baud_now: Option<u32>) -> int {
    spec_filter(macros, query).len() + if baud_now is Some && query.len() == 0 { 1int } else { 0 }
}

/// The macro picker's state: the query typed so far and the selected row.
#[derive(Debug)]
pub struct PickerState {
    pub query: String,
    pub selected: usize,
}

/// The chars of `s` that are not control characters.
pub open spec fn printable(s: Seq<char>) -> Seq<char>
    decreases s.len(),
{
    if s.len() == 0 {
        s
    } else if char_is_control(s.last()) {
        printable(s.drop_last())
    } else {
        printable(s.drop_last()).push(s.last())
    }
}

/// What a chunk of bytes does to the picker: the new query and selection, or
/// the outcome. Arrow keys move the selection; Esc cancels; Ctrl+D disconnects;
/// Enter picks the selected row; Backspace deletes the last query char;
/// printable ASCII extends the query (both reset the selection).
pub open spec fn picker_step(
    query: Seq<char>,
    selected: int,
    chunk: Seq<u8>,
    k: int,
    macros: Seq<MacroView>,
    baud_now: Option<u32>,
) -> (Seq<char>, int, Option<PickView>)
    decreases chunk.len() - k,
{
    if k < 0 || k >= chunk.len() {
        (query, selected, None)
    } else {
        let b = chunk[k];
        if b == 0x04 {
            (query, selected, Some(PickView::Disconnect))
        } else if b == 0x0d || b == 0x0a {
            let off: int = if baud_now is Some && query.len() == 0 { 1 } else { 0 };
            if off == 1 && selected == 0 {
                (query, selected, Some(PickView::Baud))
            } else {
                let ms = spec_filter(macros, query);
                if 0 <= selected - off < ms.len() {
                    (query, selected, Some(PickView::Run(macros[ms[selected - off] as int].key)))
                } else {
                    (query, selected, Some(PickView::Cancel))
                }
            }
        } else if b == 0x7f || b == 0x08 {
            picker_step(if query.len() > 0 { query.drop_last() } else { query }, 0, chunk, k + 1, macros, baud_now)
        } else if 0x20 <= b <= 0x7e {
            picker_step(query.push((b as u32) as char), 0, chunk, k + 1, macros, baud_now)
        } else {
            picker_step(query, selected, chunk, k + 1, macros, baud_now)
        }
    }
}

/// A picker outcome as plain values.
pub enum PickView {
    Run(Seq<char>),
    Baud,
    Cancel,
    Disconnect,
}

pub open spec fn pick_view(p: Pick) -> PickView {
    match p {
        Pick::Run(k) => PickView::Run(k@),
        Pick::Baud => PickView::Baud,
        Pick::Cancel => PickView::Cancel,
        Pick::Disconnect => PickView::Disconnect,
    }
}

fn char_of_byte(b: u8) -> (c: char)
    requires
        b < 0x80,
    ensures
        c == (b as u32) as char,
{
    b as char
}

impl PickerState {
    /// A picker whose query starts with the printable chars of `seed` (the bytes
    /// typed together with the escape prefix, decoded).
    pub fn new(seed: &[u8]) -> (r: PickerState)
        ensures
            r.query@ == printable(crate::session::lossy_decode(seed@)),
            r.selected == 0,
    {
        let s = crate::session::utf8_lossy(seed);
        let cs = chars_of(s.as_str());
        let mut q: Vec<char> = Vec::new();
        let mut i: usize = 0;
        while i < cs.len()
            invariant
                0 <= i <= cs@.len(),
                q@ == printable(cs@.take(i as int)),
            decreases cs@.len() - i,
        {
            proof {
                assert(cs@.take(i + 1).drop_last() =~= cs@.take(i as int));
            }
            if !is_control(cs[i]) {
                q.push(cs[i]);
            }
            i = i + 1;
        }
        assert(cs@.take(cs@.len() as int) =~= cs@);
        PickerState { query: string_from_chars(q.as_slice()), selected: 0 }
    }

    /// Keep the selection on a shown row (the first row when there is none).
    pub fn clamp(&mut self, macros: &Vec<Macro>, baud_now: Option<u32>)
        ensures
            final(self).query == old(self).query,
            final(self).selected == (if old(self).selected >= spec_row_count(macros.deep_view(), old(self).query@, baud_now) {
                if spec_row_count(macros.deep_view(), old(self).query@, baud_now) > 0 {
                    spec_row_count(macros.deep_view(), old(self).query@, baud_now) - 1
                } else {
                    0
                }
            } else {
                old(self).selected as int
            }),
    {
        let n = filter_macros(macros, self.query.as_str()).len();
        let count: u128 = if baud_now.is_some() && self.query.as_str().unicode_len() == 0 {
            n as u128 + 1
        } else {
            n as u128
        };
        if self.selected as u128 >= count {
            self.selected = if count > 0 {
                (count - 1) as usize
            } else {
                0
            };
        }
    }

    /// Feed one chunk of typed bytes (see [`picker_step`]); `Some` ends the
    /// picker.
    pub fn handle_chunk(&mut self, chunk: &[u8], macros: &Vec<Macro>, baud_now: Option<u32>) -> (r: Option<Pick>)
        ensures
            chunk@ == seq![0x1bu8] ==> r matches Some(Pick::Cancel),
            chunk@ == seq![0x1bu8, 0x5b, 0x41] ==> r is None && final(self).query == old(self).query
                && final(self).selected == (if old(self).selected > 0 { old(self).selected - 1 } else { 0 }),
            chunk@ == seq![0x1bu8, 0x5b, 0x42] ==> r is None && final(self).query == old(self).query
                && final(self).selected == (if old(self).selected + 1 < spec_row_count(macros.deep_view(), old(self).query@, baud_now) {
                old(self).selected + 1
            } else {
                old(self).selected as int
            }),
            (chunk@ != seq![0x1bu8] && chunk@ != seq![0x1bu8, 0x5b, 0x41] && chunk@ != seq![0x1bu8, 0x5b, 0x42]) ==> ({
                let (q, sel, out) = picker_step(old(self).query@, old(self).selected as int, chunk@, 0, macros.deep_view(), baud_now);
                &&& final(self).query@ == q
                &&& final(self).selected == sel
                &&& match out {
                    Some(p) => r matches Some(x) && pick_view(x) == p,
                    None => r is None,
                }
            }),
    {
        let n = chunk.len();
        if n == 1 && chunk[0] == 0x1b {
            assert(chunk@ =~= seq![0x1bu8]);
            return Some(Pick::Cancel);
        }
        if n == 3 && chunk[0] == 0x1b && chunk[1] == 0x5b && chunk[2] == 0x41 {
            assert(chunk@ =~= seq![0x1bu8, 0x5b, 0x41]);
            if self.selected > 0 {
                self.selected = self.selected - 1;
            }
            return None;
        }
        if n == 3 && chunk[0] == 0x1b && chunk[1] == 0x5b && chunk[2] == 0x42 {
            assert(chunk@ =~= seq![0x1bu8, 0x5b, 0x42]);
            let m = filter_macros(macros, self.query.as_str()).len();
            let total: u128 = if baud_now.is_some() && self.query.as_str().unicode_len() == 0 {
                m as u128 + 1
            } else {
                m as u128
            };
            if total > 0 && (self.selected as u128) < total - 1 {
                self.selected = self.selected + 1;
            }
            return None;
        }
        proof {
            if n == 1 {
                assert(chunk@ != seq![0x1bu8] ==> chunk@[0] != 0x1b);
            }
            if n == 3 {
                assert(chunk@ != seq![0x1bu8, 0x5b, 0x41] ==> !(chunk@[0] == 0x1b && chunk@[1] == 0x5b && chunk@[2] == 0x41));
                assert(chunk@ != seq![0x1bu8, 0x5b, 0x42] ==> !(chunk@[0] == 0x1b && chunk@[1] == 0x5b && chunk@[2] == 0x42));
            }
        }
        let ghost mv = macros.deep_view();
        let mut q = chars_of(self.query.as_str());
        let mut sel = self.selected;
        let mut k: usize = 0;
        while k < n
            invariant
                0 <= k <= n,
                n == chunk@.len(),
                mv == macros.deep_view(),
                picker_step(old(self).query@, old(self).selected as int, chunk@, 0, mv, baud_now)
                    == picker_step(q@, sel as int, chunk@, k as int, mv, baud_now),
            decreases n - k,
        {
            let b = chunk[k];
            if b == 0x04 {
                self.query = string_from_chars(q.as_slice());
                self.selected = sel;
                return Some(Pick::Disconnect);
            }
            if b == 0x0d || b == 0x0a {
                self.query = string_from_chars(q.as_slice());
                self.selected = sel;
                let off: usize = if baud_now.is_some() && q.len() == 0 {
                    1
                } else {
                    0
                };
                if off == 1 && sel == 0 {
                    return Some(Pick::Baud);
                }
                let ms = filter_macros(macros, self.query.as_str());
                if sel >= off && sel - off < ms.len() {
                    let idx = ms[sel - off];
                    proof {
                        assert(mv[idx as int] == macros@[idx as int]@);
                    }
                    return Some(Pick::Run(macros[idx].key.clone()));
                }
                return Some(Pick::Cancel);
            }
            if b == 0x7f || b == 0x08 {
                if q.len() > 0 {
                    q.pop();
                }
                sel = 0;
            } else if 0x20 <= b && b <= 0x7e {
                q.push(char_of_byte(b));
                sel = 0;
            }
            k = k + 1;
        }
        self.query = string_from_chars(q.as_slice());
        self.selected = sel;
        None
    }
}

// ───────────────────────── baud chooser ─────────────────────────

/// The baud chooser's state: the editable value and the highlighted preset
/// (`None` once the user types).
#[derive(Debug)]
pub struct BaudChooser {
    pub field: String,
    pub sel: Option<usize>,
}

/// What a chunk does to the chooser: the new field and preset, or the outcome
/// (`Some(None)` cancels, `Some(Some(n))` applies `n`).
pub open spec fn chooser_step(field: Seq<char>, sel: Option<usize>, chunk: Seq<u8>, k: int) -> (Seq<char>, Option<usize>, Option<Option<u32>>)
    decreases chunk.len() - k,
{
    if k < 0 || k >= chunk.len() {
        (field, sel, None)
    } else {
        let b = chunk[k];
        if b == 0x04 {
            (field, sel, Some(None))
        } else if b == 0x0d || b == 0x0a {
            match parse_unsigned(trim(field), u32::MAX as nat) {
                Some(v) => if v > 0 {
                    (field, sel, Some(Some(v as u32)))
                } else {
                    chooser_step(field, sel, chunk, k + 1)
                },
                None => chooser_step(field, sel, chunk, k + 1),
            }
        } else if b == 0x7f || b == 0x08 {
            chooser_step(if field.len() > 0 { field.drop_last() } else { field }, None, chunk, k + 1)
        } else if 0x30 <= b <= 0x39 {
            chooser_step(field.push((b as u32) as char), None, chunk, k + 1)
        } else {
            chooser_step(field, sel, chunk, k + 1)
        }
    }
}

/// Confirming the chooser as it opened applies the current rate again: the
/// rate written out and read back is the same.
pub proof fn lemma_chooser_keeps_current(current: u32, sel: Option<usize>)
    requires
        current > 0,
    ensures
        chooser_step(decimal(current as nat), sel, seq![0x0du8], 0).2 == Some(Some(current)),
{
    crate::text::lemma_parse_decimal(current as nat, u32::MAX as nat);
}

impl BaudChooser {
    /// The chooser for the current rate: the field pre-filled with it, its
    /// preset highlighted when it is one.
    pub fn new(current: u32) -> (r: BaudChooser)
        ensures
            r.sel matches Some(i) ==> i < 5,
            r.field@ == decimal(current as nat),
            r.sel == (match crate::forms::first_index(baud_presets(), current) {
                Some(i) => Some(i as usize),
                None => None,
            }),
    {
        let mut i: usize = 0;
        proof {
            crate::forms::lemma_first_index(baud_presets(), current);
        }
        while i < 5 && baud_preset(i) != current
            invariant
                0 <= i <= 5,
                forall|j: int| 0 <= j < i ==> baud_presets()[j] != current,
            decreases 5 - i,
        {
            i = i + 1;
        }
        let sel = if i < 5 {
            proof {
                crate::forms::lemma_first_index(baud_presets(), current);
                assert(crate::forms::first_index(baud_presets(), current) == Some(i as int));
            }
            Some(i)
        } else {
            proof {
                crate::forms::lemma_first_index(baud_presets(), current);
            }
            None
        };
        BaudChooser { field: decimal_string(current as u64), sel }
    }

    /// Feed one chunk of typed bytes. ↑↓ pick the previous / next preset into
    /// the field; Esc and Ctrl+D cancel; Enter applies a positive value (an
    /// invalid one is ignored); Backspace and digits edit the value.
    pub fn handle_chunk(&mut self, chunk: &[u8]) -> (r: Option<Option<u32>>)
        requires
            old(self).sel matches Some(i) ==> i < 5,
        ensures
            final(self).sel matches Some(i) ==> i < 5,
            chunk@ == seq![0x1bu8] ==> r == Some(None::<u32>),
            chunk@ == seq![0x1bu8, 0x5b, 0x41] ==> r is None && ({
                let i = match old(self).sel { Some(i) => if i > 0 { i - 1 } else { 0 }, None => 0 };
                &&& final(self).sel == Some(i as usize)
                &&& final(self).field@ == decimal(baud_presets()[i] as nat)
            }),
            chunk@ == seq![0x1bu8, 0x5b, 0x42] ==> r is None && ({
                let i = match old(self).sel { Some(i) => if i + 1 < 5 { i + 1 } else { 4 }, None => 0 };
                &&& final(self).sel == Some(i as usize)
                &&& final(self).field@ == decimal(baud_presets()[i] as nat)
            }),
            (chunk@ != seq![0x1bu8] && chunk@ != seq![0x1bu8, 0x5b, 0x41] && chunk@ != seq![0x1bu8, 0x5b, 0x42]) ==> ({
                let (f, s, out) = chooser_step(old(self).field@, old(self).sel, chunk@, 0);
                &&& final(self).field@ == f
                &&& final(self).sel == s
                &&& r == out
            }),
    {
        let n = chunk.len();
        if n == 1 && chunk[0] == 0x1b {
            assert(chunk@ =~= seq![0x1bu8]);
            return Some(None);
        }
        if n == 3 && chunk[0] == 0x1b && chunk[1] == 0x5b && (chunk[2] == 0x41 || chunk[2] == 0x42) {
            let up = chunk[2] == 0x41;
            let i: usize = if up {
                match self.sel {
                    Some(i) => if i > 0 {
                        i - 1
                    } else {
                        0
                    },
                    None => 0,
                }
            } else {
                match self.sel {
                    Some(i) => if i < 4 {
                        i + 1
                    } else {
                        4
                    },
                    None => 0,
                }
            };
            if i < 5 {
                self.sel = Some(i);
                self.field = decimal_string(baud_preset(i) as u64);
            }
            proof {
                if up {
                    assert(chunk@ =~= seq![0x1bu8, 0x5b, 0x41]);
                } else {
                    assert(chunk@ =~= seq![0x1bu8, 0x5b, 0x42]);
                }
            }
            return None;
        }
        proof {
            if n == 1 {
                assert(chunk@ != seq![0x1bu8] ==> chunk@[0] != 0x1b);
            }
            if n == 3 {
                assert(chunk@ != seq![0x1bu8, 0x5b, 0x41] ==> !(chunk@[0] == 0x1b && chunk@[1] == 0x5b && chunk@[2] == 0x41));
                assert(chunk@ != seq![0x1bu8, 0x5b, 0x42] ==> !(chunk@[0] == 0x1b && chunk@[1] == 0x5b && chunk@[2] == 0x42));
            }
        }
        let mut f = chars_of(self.field.as_str());
        let mut sel = self.sel;
        let mut k: usize = 0;
        while k < n
            invariant
                0 <= k <= n,
                n == chunk@.len(),
                chooser_step(old(self).field@, old(self).sel, chunk@, 0) == chooser_step(f@, sel, chunk@, k as int),
                sel matches Some(i) ==> i < 5,
            decreases n - k,
        {
            let b = chunk[k];
            if b == 0x04 {
                self.field = string_from_chars(f.as_slice());
                self.sel = sel;
                return Some(None);
            }
            if b == 0x0d || b == 0x0a {
                let t = trim_chars(&f);
                match parse_unsigned_chars(&t, 0xFFFF_FFFF) {
                    Some(v) => {
                        if v > 0 {
                            self.field = string_from_chars(f.as_slice());
                            self.sel = sel;
                            return Some(Some(v as u32));
                        }
                    },
                    None => {},
                }
            } else if b == 0x7f || b == 0x08 {
                if f.len() > 0 {
                    f.pop();
                }
                sel = None;
            } else if 0x30 <= b && b <= 0x39 {
                f.push(char_of_byte(b));
                sel = None;
            }
            k = k + 1;
        }
        self.field = string_from_chars(f.as_slice());
        self.sel = sel;
        None
    }
}

} // verus!
