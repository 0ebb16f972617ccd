//! Line-based colorization of the session output.
//!
//! Only complete lines that arrive before any of their bytes have been shown are
//! colored; the trailing partial line (prompts, what is being typed) is emitted
//! raw at once and never recolored. Colors are named ANSI codes so they follow
//! the terminal's theme.

use vstd::prelude::*;
use vstd::utf8::{decode_utf8, encode_utf8, valid_utf8};
use crate::matcher::{regex_match_spans, CompiledRegex};

verus! {

/// `ESC [ 0 m`
pub open spec fn reset() -> Seq<u8> {
    seq![0x1bu8, 0x5b, 0x30, 0x6d]
}

/// `ESC [ 3 1 m`
pub open spec fn red() -> Seq<u8> {
    seq![0x1bu8, 0x5b, 0x33, 0x31, 0x6d]
}

/// `ESC [ 3 2 m`
pub open spec fn green() -> Seq<u8> {
    seq![0x1bu8, 0x5b, 0x33, 0x32, 0x6d]
}

/// `ESC [ 3 6 m`
pub open spec fn cyan() -> Seq<u8> {
    seq![0x1bu8, 0x5b, 0x33, 0x36, 0x6d]
}

/// The length of the color code `s` starts with (0 when it starts with none).
pub open spec fn code_at(s: Seq<u8>) -> int {
    if s.len() >= 4 && s.take(4) == reset() {
        4
    } else if s.len() >= 5 && (s.take(5) == red() || s.take(5) == green() || s.take(5) == cyan()) {
        5
    } else {
        0
    }
}

/// `s` with its color codes removed.
pub open spec fn uncolor(s: Seq<u8>) -> Seq<u8>
    decreases s.len(),
{
    if s.len() == 0 {
        Seq::empty()
    } else if code_at(s) > 0 {
        uncolor(s.skip(code_at(s)))
    } else {
        seq![s[0]] + uncolor(s.drop_first())
    }
}

/// Every escape byte of `s` starts one of the color codes.
pub open spec fn clean(s: Seq<u8>) -> bool
    decreases s.len(),
{
    if s.len() == 0 {
        true
    } else if code_at(s) > 0 {
        clean(s.skip(code_at(s)))
    } else {
        s[0] != 0x1b && clean(s.drop_first())
    }
}

/// `s` holds no escape byte.
pub open spec fn no_esc(s: Seq<u8>) -> bool {
    forall|i: int| 0 <= i < s.len() ==> #[trigger] s[i] != 0x1b
}

proof fn lemma_codes_start_with_esc(s: Seq<u8>)
    ensures
        code_at(s) > 0 ==> s[0] == 0x1b,
        0 <= code_at(s) <= s.len(),
{
    if code_at(s) == 4 {
        assert(s.take(4)[0] == s[0]);
    } else if code_at(s) == 5 {
        assert(s.take(5)[0] == s[0]);
    }
}

proof fn lemma_no_esc_plain(s: Seq<u8>)
    requires
        no_esc(s),
    ensures
        clean(s),
        uncolor(s) == s,
    decreases s.len(),
{
    if s.len() > 0 {
        lemma_codes_start_with_esc(s);
        assert(s[0] != 0x1b);
        assert(no_esc(s.drop_first())) by {
            assert forall|i: int| 0 <= i < s.drop_first().len() implies #[trigger] s.drop_first()[i] != 0x1b by {
                assert(s.drop_first()[i] == s[i + 1]);
            }
        }
        lemma_no_esc_plain(s.drop_first());
        assert(seq![s[0]] + s.drop_first() =~= s);
    }
}

/// Removing the codes from a clean text and what follows it is done piece by
/// piece.
proof fn lemma_uncolor_concat(a: Seq<u8>, b: Seq<u8>)
    requires
        clean(a),
    ensures
        uncolor(a + b) == uncolor(a) + uncolor(b),
        clean(b) ==> clean(a + b),
    decreases a.len(),
{
    if a.len() == 0 {
        assert(a + b =~= b);
    } else {
        let m = code_at(a);
        lemma_codes_start_with_esc(a);
        if m > 0 {
            assert((a + b).take(m) =~= a.take(m));
            assert(code_at(a + b) == m);
            assert((a + b).skip(m) =~= a.skip(m) + b);
            lemma_uncolor_concat(a.skip(m), b);
        } else {
            assert((a + b)[0] == a[0]);
            lemma_codes_start_with_esc(a + b);
            assert(code_at(a + b) == 0);
            assert((a + b).drop_first() =~= a.drop_first() + b);
            lemma_uncolor_concat(a.drop_first(), b);
            assert(seq![a[0]] + (uncolor(a.drop_first()) + uncolor(b)) =~= (seq![a[0]] + uncolor(a.drop_first()))
                + uncolor(b));
        }
    }
}

/// A color code alone is clean and shows nothing.
proof fn lemma_code_alone(c: Seq<u8>)
    requires
        c == reset() || c == red() || c == green() || c == cyan(),
    ensures
        clean(c),
        uncolor(c) == Seq::<u8>::empty(),
{
    assert(c.take(c.len() as int) =~= c);
    if c == reset() {
        assert(code_at(c) == 4);
    } else {
        assert(c.len() == 5);
        assert(c.take(4)[2] == c[2]);
        assert(c[2] != 0x30);
        assert(reset()[2] == 0x30);
        assert(c.take(4) != reset());
        assert(code_at(c) == 5);
    }
    let m = code_at(c);
    assert(c.skip(m) =~= Seq::<u8>::empty());
    assert(uncolor(c) == uncolor(c.skip(m)));
    assert(clean(c) == clean(c.skip(m)));
}

proof fn lemma_no_esc_sub(text: Seq<u8>, a: int, b: int)
    requires
        no_esc(text),
        0 <= a <= b <= text.len(),
    ensures
        no_esc(text.subrange(a, b)),
{
    assert forall|i: int| 0 <= i < text.subrange(a, b).len() implies #[trigger] text.subrange(a, b)[i] != 0x1b by {
        assert(text.subrange(a, b)[i] == text[a + i]);
    }
}

/// Plain bytes around a color code, then a reset: shows the plain bytes.
proof fn lemma_painted(pre: Seq<u8>, code: Seq<u8>, body: Seq<u8>, post: Seq<u8>)
    requires
        no_esc(pre),
        no_esc(body),
        no_esc(post),
        code == red() || code == green() || code == cyan(),
    ensures
        clean(pre + code + body + reset() + post),
        uncolor(pre + code + body + reset() + post) == pre + body + post,
{
    lemma_no_esc_plain(pre);
    lemma_no_esc_plain(body);
    lemma_no_esc_plain(post);
    lemma_code_alone(code);
    lemma_code_alone(reset());
    lemma_uncolor_concat(reset(), post);
    let t1 = reset() + post;
    lemma_uncolor_concat(body, t1);
    let t2 = body + t1;
    lemma_uncolor_concat(code, t2);
    let t3 = code + t2;
    lemma_uncolor_concat(pre, t3);
    assert(pre + code + body + reset() + post =~= pre + t3);
    assert(Seq::<u8>::empty() + post =~= post);
    assert(Seq::<u8>::empty() + (body + post) =~= body + post);
    assert(pre + (body + post) =~= pre + body + post);
}

fn push_all(out: &mut Vec<u8>, bytes: &[u8])
    ensures
        final(out)@ == old(out)@ + bytes@,
{
    let mut i: usize = 0;
    while i < bytes.len()
        invariant
            0 <= i <= bytes@.len(),
            out@ == old(out)@ + bytes@.take(i as int),
        decreases bytes@.len() - i,
    {
        out.push(bytes[i]);
        i = i + 1;
        assert(out@ =~= old(out)@ + bytes@.take(i as int));
    }
    assert(bytes@.take(bytes@.len() as int) =~= bytes@);
}

fn push_range(out: &mut Vec<u8>, bytes: &[u8], from: usize, to: usize)
    requires
        from <= to <= bytes@.len(),
    ensures
        final(out)@ == old(out)@ + bytes@.subrange(from as int, to as int),
{
    let mut i: usize = from;
    while i < to
        invariant
            from <= i <= to,
            to <= bytes@.len(),
            out@ == old(out)@ + bytes@.subrange(from as int, i as int),
        decreases to - i,
    {
        out.push(bytes[i]);
        i = i + 1;
        assert(out@ =~= old(out)@ + bytes@.subrange(from as int, i as int));
    }
}

fn color_bytes(which: u8) -> (r: Vec<u8>)
    ensures
        r@ == (if which == 0 {
            reset()
        } else if which == 1 {
            red()
        } else if which == 2 {
            green()
        } else {
            cyan()
        }),
{
    let v = if which == 0 {
        vec![0x1bu8, 0x5b, 0x30, 0x6d]
    } else if which == 1 {
        vec![0x1bu8, 0x5b, 0x33, 0x31, 0x6d]
    } else if which == 2 {
        vec![0x1bu8, 0x5b, 0x33, 0x32, 0x6d]
    } else {
        vec![0x1bu8, 0x5b, 0x33, 0x36, 0x6d]
    };
    assert(v@ =~= (if which == 0 {
        reset()
    } else if which == 1 {
        red()
    } else if which == 2 {
        green()
    } else {
        cyan()
    }));
    v
}

// ───────────────────────── words ─────────────────────────

/// An ASCII letter or digit: what a word may not touch.
pub open spec fn word_byte(b: u8) -> bool {
    (0x30 <= b <= 0x39) || (0x41 <= b <= 0x5a) || (0x61 <= b <= 0x7a)
}

/// True for an ASCII letter or digit.
pub fn is_word_byte(b: u8) -> (r: bool)
    ensures
        r == word_byte(b),
{
    (0x30 <= b && b <= 0x39) || (0x41 <= b && b <= 0x5a) || (0x61 <= b && b <= 0x7a)
}

/// `word` occurs in `h` at `s`, bounded by bytes that are not ASCII letters or
/// digits (or by the ends).
pub open spec fn word_at(h: Seq<u8>, w: Seq<u8>, s: int) -> bool {
    &&& 0 <= s
    &&& s + w.len() <= h.len()
    &&& h.subrange(s, s + w.len()) == w
    &&& (s == 0 || !word_byte(h[s - 1]))
    &&& (s + w.len() == h.len() || !word_byte(h[s + w.len()]))
}

/// `word` appears in `h` as a standalone token, so "up" matches "is up," but
/// not "backup".
pub open spec fn spec_has_word(h: Seq<u8>, w: Seq<u8>) -> bool {
    exists|s: int| #[trigger] word_at(h, w, s)
}

/// True if `word` appears in `haystack` bounded by non-alphanumeric bytes.
pub fn has_word(haystack: &[u8], word: &[u8]) -> (r: bool)
    ensures
        r == spec_has_word(haystack@, word@),
{
    let n = haystack.len();
    let m = word.len();
    if m > n {
        return false;
    }
    let mut s: usize = 0;
    let mut more = true;
    while more
        invariant
            m <= n,
            s <= n - m,
            n == haystack@.len(),
            m == word@.len(),
            forall|t: int| 0 <= t < s ==> !#[trigger] word_at(haystack@, word@, t),
            !more ==> s == n - m && !word_at(haystack@, word@, s as int),
        decreases n - m - s + (if more { 1int } else { 0int }),
    {
        let mut k: usize = 0;
        while k < m && haystack[s + k] == word[k]
            invariant
                0 <= k <= m,
                s + m <= n,
                n == haystack@.len(),
                m == word@.len(),
                forall|j: int| 0 <= j < k ==> haystack@[s + j] == word@[j],
            decreases m - k,
        {
            k = k + 1;
        }
        let before_ok = s == 0 || !is_word_byte(haystack[s - 1]);
        let after_ok = s + m == n || !is_word_byte(haystack[s + m]);
        if k == m {
            assert(haystack@.subrange(s as int, s + m) =~= word@);
            if before_ok && after_ok {
                assert(word_at(haystack@, word@, s as int));
                return true;
            }
        } else {
            assert(haystack@.subrange(s as int, s + m)[k as int] != word@[k as int]);
        }
        if s < n - m {
            s = s + 1;
        } else {
            more = false;
        }
    }
    proof {
        assert forall|t: int| !#[trigger] word_at(haystack@, word@, t) by {
            if 0 <= t && t + m <= n {
                assert(t <= s);
            }
        }
    }
    false
}

/// Words that color a whole line red when present as standalone tokens.
pub open spec fn red_words() -> Seq<Seq<u8>> {
    seq![
        seq![0x64u8, 0x6f, 0x77, 0x6e],
        seq![0x65u8, 0x72, 0x72],
        seq![0x65u8, 0x72, 0x72, 0x2d, 0x64, 0x69, 0x73, 0x61, 0x62, 0x6c, 0x65, 0x64],
        seq![0x66u8, 0x61, 0x69, 0x6c],
        seq![0x66u8, 0x61, 0x69, 0x6c, 0x65, 0x64],
        seq![0x65u8, 0x72, 0x72, 0x6f, 0x72],
        seq![0x64u8, 0x65, 0x6e, 0x69, 0x65, 0x64],
        seq![0x69u8, 0x6e, 0x76, 0x61, 0x6c, 0x69, 0x64],
        seq![0x6eu8, 0x6f, 0x74, 0x63, 0x6f, 0x6e, 0x6e, 0x65, 0x63, 0x74],
    ]
}

/// Words that color a whole line green when present as standalone tokens.
pub open spec fn green_words() -> Seq<Seq<u8>> {
    seq![
        seq![0x75u8, 0x70],
        seq![0x63u8, 0x6f, 0x6e, 0x6e, 0x65, 0x63, 0x74, 0x65, 0x64],
        seq![0x66u8, 0x6f, 0x72, 0x77, 0x61, 0x72, 0x64, 0x69, 0x6e, 0x67],
        seq![0x61u8, 0x63, 0x74, 0x69, 0x76, 0x65],
        seq![0x70u8, 0x65, 0x72, 0x6d, 0x69, 0x74],
    ]
}

/// The red words: down, err, err-disabled, fail, failed, error, denied,
/// invalid, notconnect.
fn red_word_list() -> (r: Vec<Vec<u8>>)
    ensures
        r.deep_view() == red_words(),
        forall|j: int| 0 <= j < r@.len() ==> (#[trigger] r@[j])@.len() > 0,
{
    let v = vec![
        vec![0x64u8, 0x6f, 0x77, 0x6e],
        vec![0x65u8, 0x72, 0x72],
        vec![0x65u8, 0x72, 0x72, 0x2d, 0x64, 0x69, 0x73, 0x61, 0x62, 0x6c, 0x65, 0x64],
        vec![0x66u8, 0x61, 0x69, 0x6c],
        vec![0x66u8, 0x61, 0x69, 0x6c, 0x65, 0x64],
        vec![0x65u8, 0x72, 0x72, 0x6f, 0x72],
        vec![0x64u8, 0x65, 0x6e, 0x69, 0x65, 0x64],
        vec![0x69u8, 0x6e, 0x76, 0x61, 0x6c, 0x69, 0x64],
        vec![0x6eu8, 0x6f, 0x74, 0x63, 0x6f, 0x6e, 0x6e, 0x65, 0x63, 0x74],
    ];
    assert(v.deep_view() =~~= red_words());
    v
}

/// The green words: up, connected, forwarding, active, permit.
fn green_word_list() -> (r: Vec<Vec<u8>>)
    ensures
        r.deep_view() == green_words(),
        forall|j: int| 0 <= j < r@.len() ==> (#[trigger] r@[j])@.len() > 0,
{
    let v = vec![
        vec![0x75u8, 0x70],
        vec![0x63u8, 0x6f, 0x6e, 0x6e, 0x65, 0x63, 0x74, 0x65, 0x64],
        vec![0x66u8, 0x6f, 0x72, 0x77, 0x61, 0x72, 0x64, 0x69, 0x6e, 0x67],
        vec![0x61u8, 0x63, 0x74, 0x69, 0x76, 0x65],
        vec![0x70u8, 0x65, 0x72, 0x6d, 0x69, 0x74],
    ];
    assert(v.deep_view() =~~= green_words());
    v
}

/// Some word of `words` appears in `h` as a token.
pub open spec fn any_word(h: Seq<u8>, words: Seq<Seq<u8>>) -> bool {
    exists|i: int| 0 <= i < words.len() && spec_has_word(h, #[trigger] words[i])
}

fn has_any_word(h: &[u8], words: &Vec<Vec<u8>>) -> (r: bool)
    requires
        forall|j: int| 0 <= j < words@.len() ==> (#[trigger] words@[j])@.len() > 0,
    ensures
        r == any_word(h@, words.deep_view()),
{
    let ghost wv = words.deep_view();
    let mut i: usize = 0;
    while i < words.len()
        invariant
            0 <= i <= words@.len(),
            wv == words.deep_view(),
            forall|j: int| 0 <= j < i ==> !spec_has_word(h@, #[trigger] wv[j]),
            forall|j: int| 0 <= j < words@.len() ==> (#[trigger] words@[j])@.len() > 0,
        decreases words@.len() - i,
    {
        if has_word(h, words[i].as_slice()) {
            proof {
                assert(wv[i as int] == words@[i as int]@);
            }
            return true;
        }
        proof {
            assert(wv[i as int] == words@[i as int]@);
        }
        i = i + 1;
    }
    false
}

/// ASCII letters lowercased, every other byte kept (`to_ascii_lowercase`).
pub open spec fn lower_ascii(s: Seq<u8>) -> Seq<u8> {
    Seq::new(s.len(), |i: int| if 0x41 <= s[i] <= 0x5a { (s[i] + 32) as u8 } else { s[i] })
}

fn lower_ascii_exec(s: &[u8]) -> (r: Vec<u8>)
    ensures
        r@ == lower_ascii(s@),
{
    let mut v: Vec<u8> = Vec::new();
    let mut i: usize = 0;
    while i < s.len()
        invariant
            0 <= i <= s@.len(),
            v@ == lower_ascii(s@).take(i as int),
        decreases s@.len() - i,
    {
        let b = s[i];
        v.push(if 0x41 <= b && b <= 0x5a { b + 32 } else { b });
        i = i + 1;
        assert(v@ =~= lower_ascii(s@).take(i as int));
    }
    assert(lower_ascii(s@).take(s@.len() as int) =~= lower_ascii(s@));
    v
}

// ───────────────────────── token highlighting ─────────────────────────

/// The first position at or after `k` in `sorted` whose start is after `x`'s.
pub open spec fn span_pos(sorted: Seq<(usize, usize)>, x: (usize, usize), k: int) -> int
    decreases sorted.len() - k,
{
    if k < 0 || k >= sorted.len() {
        sorted.len() as int
    } else if sorted[k].0 > x.0 {
        k
    } else {
        span_pos(sorted, x, k + 1)
    }
}

/// The first `k` spans sorted by start, equal starts keeping their order.
pub open spec fn sort_spans(spans: Seq<(usize, usize)>, k: int) -> Seq<(usize, usize)>
    decreases k,
{
    if k <= 0 {
        Seq::empty()
    } else {
        let r = sort_spans(spans, k - 1);
        r.insert(span_pos(r, spans[k - 1], 0), spans[k - 1])
    }
}

/// The text with the first `k` (sorted) spans wrapped in cyan, skipping spans
/// that overlap an earlier one: the output so far and the position reached.
pub open spec fn wrap_spans(text: Seq<u8>, spans: Seq<(usize, usize)>, k: int) -> (Seq<u8>, int)
    decreases k,
{
    if k <= 0 {
        (Seq::empty(), 0)
    } else {
        let (out, pos) = wrap_spans(text, spans, k - 1);
        let (s, e) = spans[k - 1];
        if s < pos {
            (out, pos)
        } else {
            (out + text.subrange(pos, s as int) + cyan() + text.subrange(s as int, e as int) + reset(), e as int)
        }
    }
}

/// `text` (valid UTF-8) with IPv4 addresses and interface names in cyan: the
/// matches of both patterns, by start, each wrapped unless it overlaps an
/// earlier one.
pub open spec fn spec_tokens(text: Seq<u8>, ipv4: Seq<char>, iface: Seq<char>) -> Seq<u8> {
    let chars = decode_utf8(text);
    let spans = regex_match_spans(ipv4, chars) + regex_match_spans(iface, chars);
    if spans.len() == 0 {
        text
    } else {
        let sorted = sort_spans(spans, spans.len() as int);
        let (out, pos) = wrap_spans(text, sorted, sorted.len() as int);
        out + text.subrange(pos, text.len() as int)
    }
}

proof fn lemma_span_pos_range(r: Seq<(usize, usize)>, x: (usize, usize), k: int)
    requires
        0 <= k <= r.len(),
    ensures
        k <= span_pos(r, x, k) <= r.len(),
    decreases r.len() - k,
{
    if k < r.len() && r[k].0 <= x.0 {
        lemma_span_pos_range(r, x, k + 1);
    }
}

/// Every span is `start <= end <= n`.
pub open spec fn spans_in(spans: Seq<(usize, usize)>, n: int) -> bool {
    forall|i: int| 0 <= i < spans.len() ==> (#[trigger] spans[i]).0 <= spans[i].1 <= n
}

fn insert_span(r: &mut Vec<(usize, usize)>, x: (usize, usize), n: usize)
    requires
        spans_in(old(r)@, n as int),
        x.0 <= x.1 <= n,
    ensures
        final(r)@ == old(r)@.insert(span_pos(old(r)@, x, 0), x),
        spans_in(final(r)@, n as int),
{
    let mut k: usize = 0;
    while k < r.len() && r[k].0 <= x.0
        invariant
            0 <= k <= r@.len(),
            r@ == old(r)@,
            span_pos(r@, x, 0) == span_pos(r@, x, k as int),
        decreases r@.len() - k,
    {
        k = k + 1;
    }
    let ghost before = r@;
    r.insert(k, x);
    proof {
        assert forall|i: int| 0 <= i < r@.len() implies (#[trigger] r@[i]).0 <= r@[i].1 <= n by {
            if i < k {
                assert(r@[i] == before[i]);
            } else if i > k {
                assert(r@[i] == before[i - 1]);
            }
        }
    }
}

/// Wrap IPv4 addresses and interface names of `text` (the decoded `bytes`) in
/// cyan (see [`spec_tokens`]).
pub fn highlight_tokens(bytes: &[u8], text: &str, ipv4: &CompiledRegex, iface: &CompiledRegex) -> (r: Vec<u8>)
    requires
        valid_utf8(bytes@),
        text@ == decode_utf8(bytes@),
    ensures
        r@ == spec_tokens(bytes@, ipv4@, iface@),
        no_esc(bytes@) ==> clean(r@) && uncolor(r@) == bytes@,
{
    proof {
        vstd::utf8::decode_utf8_encode_utf8(bytes@);
    }
    let n = bytes.len();
    assert(encode_utf8(text@) == bytes@);
    let a = ipv4.match_spans(text);
    let b = iface.match_spans(text);
    assert(forall|j: int| 0 <= j < a@.len() ==> (#[trigger] a@[j]).0 <= a@[j].1 <= n);
    assert(forall|j: int| 0 <= j < b@.len() ==> (#[trigger] b@[j]).0 <= b@[j].1 <= n);
    let mut spans: Vec<(usize, usize)> = Vec::new();
    let mut i: usize = 0;
    while i < a.len()
        invariant
            0 <= i <= a@.len(),
            spans@ == a@.take(i as int),
            forall|j: int| 0 <= j < a@.len() ==> (#[trigger] a@[j]).0 <= a@[j].1 <= n,
        decreases a@.len() - i,
    {
        spans.push(a[i]);
        i = i + 1;
        assert(spans@ =~= a@.take(i as int));
    }
    let mut j: usize = 0;
    while j < b.len()
        invariant
            0 <= j <= b@.len(),
            spans@ == a@ + b@.take(j as int),
            forall|q: int| 0 <= q < a@.len() ==> (#[trigger] a@[q]).0 <= a@[q].1 <= n,
            forall|q: int| 0 <= q < b@.len() ==> (#[trigger] b@[q]).0 <= b@[q].1 <= n,
        decreases b@.len() - j,
    {
        spans.push(b[j]);
        j = j + 1;
        assert(spans@ =~= a@ + b@.take(j as int));
    }
    assert(a@.take(a@.len() as int) =~= a@);
    assert(spans@ =~= a@ + b@);
    let ghost all = spans@;
    assert(spans_in(all, n as int)) by {
        assert forall|k: int| 0 <= k < all.len() implies (#[trigger] all[k]).0 <= all[k].1 <= n by {
            if k < a@.len() {
                assert(all[k] == a@[k]);
            } else {
                assert(all[k] == b@[k - a@.len()]);
            }
        }
    }
    if spans.len() == 0 {
        let mut out: Vec<u8> = Vec::new();
        push_all(&mut out, bytes);
        proof {
            if no_esc(bytes@) {
                lemma_no_esc_plain(bytes@);
            }
            assert(out@ =~= bytes@);
        }
        return out;
    }
    let mut sorted: Vec<(usize, usize)> = Vec::new();
    let mut k: usize = 0;
    while k < spans.len()
        invariant
            0 <= k <= spans@.len(),
            spans@ == all,
            spans_in(all, n as int),
            sorted@ == sort_spans(all, k as int),
            spans_in(sorted@, n as int),
        decreases spans@.len() - k,
    {
        insert_span(&mut sorted, spans[k], n);
        k = k + 1;
    }
    let mut out: Vec<u8> = Vec::new();
    let mut pos: usize = 0;
    let reset_b = color_bytes(0);
    let cyan_b = color_bytes(3);
    let mut t: usize = 0;
    while t < sorted.len()
        invariant
            0 <= t <= sorted@.len(),
            spans_in(sorted@, n as int),
            n == bytes@.len(),
            pos <= n,
            reset_b@ == reset(),
            cyan_b@ == cyan(),
            (out@, pos as int) == wrap_spans(bytes@, sorted@, t as int),
            no_esc(bytes@) ==> clean(out@) && uncolor(out@) == bytes@.subrange(0, pos as int),
        decreases sorted@.len() - t,
    {
        let (s, e) = sorted[t];
        if s >= pos {
            let ghost before = out@;
            push_range(&mut out, bytes, pos, s);
            push_all(&mut out, cyan_b.as_slice());
            push_range(&mut out, bytes, s, e);
            push_all(&mut out, reset_b.as_slice());
            proof {
                assert(s <= e) by {
                    assert(sorted@[t as int].0 <= sorted@[t as int].1);
                }
                if no_esc(bytes@) {
                    let piece = bytes@.subrange(pos as int, s as int) + cyan() + bytes@.subrange(s as int, e as int)
                        + reset() + Seq::<u8>::empty();
                    lemma_no_esc_sub(bytes@, pos as int, s as int);
                    lemma_no_esc_sub(bytes@, s as int, e as int);
                    lemma_painted(
                        bytes@.subrange(pos as int, s as int),
                        cyan(),
                        bytes@.subrange(s as int, e as int),
                        Seq::<u8>::empty(),
                    );
                    lemma_uncolor_concat(before, piece);
                    assert(out@ =~= before + piece);
                    assert(bytes@.subrange(0, pos as int) + (bytes@.subrange(pos as int, s as int) + bytes@.subrange(
                        s as int,
                        e as int,
                    ) + Seq::<u8>::empty()) =~= bytes@.subrange(0, e as int));
                }
            }
            pos = e;
        }
        t = t + 1;
    }
    let ghost before = out@;
    push_range(&mut out, bytes, pos, n);
    proof {
        if no_esc(bytes@) {
            lemma_no_esc_sub(bytes@, pos as int, n as int);
            lemma_no_esc_plain(bytes@.subrange(pos as int, n as int));
            lemma_uncolor_concat(before, bytes@.subrange(pos as int, n as int));
            assert(bytes@.subrange(0, pos as int) + bytes@.subrange(pos as int, n as int) =~= bytes@);
        }
    }
    out
}

// ───────────────────────── lines ─────────────────────────

/// A control byte other than `\r`, `\n` and `\t`.
pub open spec fn foreign_control(b: u8) -> bool {
    b < 0x20 && b != 0x0d && b != 0x0a && b != 0x09
}

/// The length of `line` without its trailing `\r` / `\n` bytes.
pub open spec fn content_len(line: Seq<u8>, k: int) -> int
    decreases k,
{
    if k > 0 && (line[k - 1] == 0x0a || line[k - 1] == 0x0d) {
        content_len(line, k - 1)
    } else {
        k
    }
}

/// How one complete line is shown. Lines carrying their own control bytes, and
/// lines that are not UTF-8, are left untouched. A line starting with `%` or
/// holding a red word is red; one holding a green word is green; otherwise
/// addresses and interface names are cyan. The line terminator is kept.
pub open spec fn spec_colorize(line: Seq<u8>, ipv4: Seq<char>, iface: Seq<char>) -> Seq<u8> {
    let c = content_len(line, line.len() as int);
    let content = line.subrange(0, c);
    let term = line.subrange(c, line.len() as int);
    let lower = lower_ascii(content);
    if exists|i: int| 0 <= i < line.len() && foreign_control(#[trigger] line[i]) {
        line
    } else if !valid_utf8(content) {
        line
    } else if (content.len() > 0 && content[0] == 0x25) || any_word(lower, red_words()) {
        red() + content + reset() + term
    } else if any_word(lower, green_words()) {
        green() + content + reset() + term
    } else {
        spec_tokens(content, ipv4, iface) + term
    }
}

/// A complete line that starts with `%` or holds an alarm word as a token
/// (down, err, err-disabled, fail, failed, error, denied, invalid, notconnect,
/// in any case) is shown whole in red (`ESC[31m` .. `ESC[0m`), whatever else it
/// holds: an alarm outweighs an "up" on the same line.
pub proof fn lemma_alarm_line_is_red(content: Seq<u8>, ipv4: Seq<char>, iface: Seq<char>)
    requires
        content.len() == 0 || (content.last() != 0x0a && content.last() != 0x0d),
        forall|i: int| 0 <= i < content.len() ==> !foreign_control(#[trigger] content[i]),
        valid_utf8(content),
        (content.len() > 0 && content[0] == 0x25) || ({
            let alarms = seq![
                seq![0x64u8, 0x6f, 0x77, 0x6e],
                seq![0x65u8, 0x72, 0x72],
                seq![0x65u8, 0x72, 0x72, 0x2d, 0x64, 0x69, 0x73, 0x61, 0x62, 0x6c, 0x65, 0x64],
                seq![0x66u8, 0x61, 0x69, 0x6c],
                seq![0x66u8, 0x61, 0x69, 0x6c, 0x65, 0x64],
                seq![0x65u8, 0x72, 0x72, 0x6f, 0x72],
                seq![0x64u8, 0x65, 0x6e, 0x69, 0x65, 0x64],
                seq![0x69u8, 0x6e, 0x76, 0x61, 0x6c, 0x69, 0x64],
                seq![0x6eu8, 0x6f, 0x74, 0x63, 0x6f, 0x6e, 0x6e, 0x65, 0x63, 0x74],
            ];
            exists|k: int| 0 <= k < alarms.len() && spec_has_word(lower_ascii(content), #[trigger] alarms[k])
        }),
    ensures
        spec_colorize(content.push(0x0a), ipv4, iface) == seq![0x1bu8, 0x5b, 0x33, 0x31, 0x6d] + content + seq![
            0x1bu8,
            0x5b,
            0x30,
            0x6d,
        ] + seq![0x0au8],
{
    let line = content.push(0x0a);
    let n = content.len() as int;
    assert(line[n] == 0x0a);
    if n > 0 {
        assert(line[n - 1] == content.last());
    }
    assert(content_len(line, n) == n);
    assert(content_len(line, n + 1) == n);
    assert(line.subrange(0, n) =~= content);
    assert(line.subrange(n, n + 1) =~= seq![0x0au8]);
    assert(!exists|i: int| 0 <= i < line.len() && foreign_control(#[trigger] line[i])) by {
        assert forall|i: int| 0 <= i < line.len() implies !foreign_control(#[trigger] line[i]) by {
            if i < n {
                assert(line[i] == content[i]);
            }
        }
    }
    let alarms = seq![
        seq![0x64u8, 0x6f, 0x77, 0x6e],
        seq![0x65u8, 0x72, 0x72],
        seq![0x65u8, 0x72, 0x72, 0x2d, 0x64, 0x69, 0x73, 0x61, 0x62, 0x6c, 0x65, 0x64],
        seq![0x66u8, 0x61, 0x69, 0x6c],
        seq![0x66u8, 0x61, 0x69, 0x6c, 0x65, 0x64],
        seq![0x65u8, 0x72, 0x72, 0x6f, 0x72],
        seq![0x64u8, 0x65, 0x6e, 0x69, 0x65, 0x64],
        seq![0x69u8, 0x6e, 0x76, 0x61, 0x6c, 0x69, 0x64],
        seq![0x6eu8, 0x6f, 0x74, 0x63, 0x6f, 0x6e, 0x6e, 0x65, 0x63, 0x74],
    ];
    assert(red_words() =~= alarms);
    assert(red() =~= seq![0x1bu8, 0x5b, 0x33, 0x31, 0x6d]);
    assert(reset() =~= seq![0x1bu8, 0x5b, 0x30, 0x6d]);
}

/// `std::str::from_utf8`, as an owned `String`: `None` exactly when the bytes
/// are not valid UTF-8, otherwise their decoding.
#[verifier::external_body]
fn str_from_utf8(bytes: &[u8]) -> (r: Option<String>)
    ensures
        r is Some <==> valid_utf8(bytes@),
        r matches Some(s) ==> s@ == decode_utf8(bytes@),
{
    match std::str::from_utf8(bytes) {
        Ok(s) => Some(s.to_string()),
        Err(_) => None,
    }
}

fn copy_bytes(s: &[u8]) -> (r: Vec<u8>)
    ensures
        r@ == s@,
{
    let mut out: Vec<u8> = Vec::new();
    push_all(&mut out, s);
    out
}

/// Colorize one complete line (see [`spec_colorize`]).
pub fn colorize_line(line: &[u8], ipv4: &CompiledRegex, iface: &CompiledRegex) -> (r: Vec<u8>)
    ensures
        r@ == spec_colorize(line@, ipv4@, iface@),
        no_esc(line@) ==> clean(r@) && uncolor(r@) == line@,
{
    proof {
        if no_esc(line@) {
            lemma_no_esc_plain(line@);
        }
    }
    let n = line.len();
    let mut i: usize = 0;
    while i < n
        invariant
            0 <= i <= n,
            n == line@.len(),
            forall|j: int| 0 <= j < i ==> !foreign_control(#[trigger] line@[j]),
            no_esc(line@) ==> clean(line@) && uncolor(line@) == line@,
        decreases n - i,
    {
        let b = line[i];
        if b < 0x20 && b != 0x0d && b != 0x0a && b != 0x09 {
            proof {
                assert(foreign_control(line@[i as int]));
            }
            return copy_bytes(line);
        }
        i = i + 1;
    }
    let mut c: usize = n;
    while c > 0 && (line[c - 1] == 0x0a || line[c - 1] == 0x0d)
        invariant
            0 <= c <= n,
            n == line@.len(),
            content_len(line@, n as int) == content_len(line@, c as int),
        decreases c,
    {
        c = c - 1;
    }
    let mut content: Vec<u8> = Vec::new();
    push_range(&mut content, line, 0, c);
    let text = match str_from_utf8(content.as_slice()) {
        Some(t) => t,
        None => {
            return copy_bytes(line);
        },
    };
    let lower = lower_ascii_exec(content.as_slice());
    let mut out: Vec<u8> = Vec::new();
    let is_red = (c > 0 && content[0] == 0x25) || has_any_word(lower.as_slice(), &red_word_list());
    let ghost term = line@.subrange(c as int, n as int);
    proof {
        if no_esc(line@) {
            lemma_no_esc_sub(line@, 0, c as int);
            lemma_no_esc_sub(line@, c as int, n as int);
            assert(line@.subrange(0, c as int) + term =~= line@);
        }
    }
    if is_red {
        push_all(&mut out, color_bytes(1).as_slice());
        push_all(&mut out, content.as_slice());
        push_all(&mut out, color_bytes(0).as_slice());
        push_range(&mut out, line, c, n);
        proof {
            if no_esc(line@) {
                lemma_painted(Seq::empty(), red(), content@, term);
                assert(out@ =~= Seq::<u8>::empty() + red() + content@ + reset() + term);
                assert(Seq::<u8>::empty() + content@ + term =~= line@);
            }
        }
    } else if has_any_word(lower.as_slice(), &green_word_list()) {
        push_all(&mut out, color_bytes(2).as_slice());
        push_all(&mut out, content.as_slice());
        push_all(&mut out, color_bytes(0).as_slice());
        push_range(&mut out, line, c, n);
        proof {
            if no_esc(line@) {
                lemma_painted(Seq::empty(), green(), content@, term);
                assert(out@ =~= Seq::<u8>::empty() + green() + content@ + reset() + term);
                assert(Seq::<u8>::empty() + content@ + term =~= line@);
            }
        }
    } else {
        let toks = highlight_tokens(content.as_slice(), text.as_str(), ipv4, iface);
        push_all(&mut out, toks.as_slice());
        push_range(&mut out, line, c, n);
        proof {
            if no_esc(line@) {
                lemma_no_esc_plain(term);
                lemma_uncolor_concat(toks@, term);
                assert(out@ =~= toks@ + term);
            }
        }
    }
    out
}

// ───────────────────────── the highlighter ─────────────────────────

/// Flush the line buffer raw once it grows past this without a newline.
pub const MAX_PENDING: usize = 65536;

/// The IPv4 address pattern.
pub open spec fn ipv4_pattern() -> Seq<char> {
    "\\b\\d{1,3}(?:\\.\\d{1,3}){3}\\b"@
}

/// The interface-name pattern (Cisco-style abbreviations followed by a number).
pub open spec fn iface_pattern() -> Seq<char> {
    "(?i)\\b(?:Gi|Fa|Te|Tw|Fo|Hu|Eth|Gig\\w*|Ten\\w*|Po|Vl|Vlan|Lo|Se|Tu)\\d[\\d/.:]*\\b"@
}

/// The output colorizer of one session.
#[derive(Debug)]
pub struct Highlighter {
    /// Bytes not yet completed by a newline.
    pub pending: Vec<u8>,
    /// How many leading bytes of `pending` have already been written out.
    pub emitted: usize,
    pub ipv4: CompiledRegex,
    pub iface: CompiledRegex,
}

/// Complete lines of `pending` turned into output: a line none of whose bytes
/// was shown is colorized; otherwise only its unshown rest is emitted, raw.
/// Returns the output, the remaining partial line and how much of it is shown.
pub open spec fn drain_lines(pending: Seq<u8>, emitted: int, ipv4: Seq<char>, iface: Seq<char>) -> (Seq<u8>, Seq<u8>, int)
    decreases pending.len(),
{
    match crate::session::first_byte(pending, 0x0a, 0) {
        None => (Seq::empty(), pending, emitted),
        Some(nl) => {
            let end = nl + 1;
            let piece = if emitted == 0 {
                spec_colorize(pending.subrange(0, end), ipv4, iface)
            } else {
                pending.subrange(if emitted < end { emitted } else { end }, end)
            };
            if end <= pending.len() && end > 0 {
                let (out, rest, e) = drain_lines(
                    pending.subrange(end, pending.len() as int),
                    if emitted > end { emitted - end } else { 0 },
                    ipv4,
                    iface,
                );
                (piece + out, rest, e)
            } else {
                (Seq::empty(), pending, emitted)
            }
        },
    }
}

/// What feeding `data` does: the output, then the new partial line and how much
/// of it is shown. Complete lines are drained; a partial line longer than
/// `MAX_PENDING` is flushed raw and dropped; otherwise its unshown tail is
/// emitted raw at once.
pub open spec fn spec_process(pending: Seq<u8>, emitted: int, data: Seq<u8>, ipv4: Seq<char>, iface: Seq<char>) -> (Seq<u8>, Seq<u8>, int) {
    let (out, rest, e) = drain_lines(pending + data, emitted, ipv4, iface);
    if rest.len() > MAX_PENDING {
        (out + rest.subrange(e, rest.len() as int), Seq::empty(), 0)
    } else if rest.len() > e {
        (out + rest.subrange(e, rest.len() as int), rest, rest.len() as int)
    } else {
        (out, rest, e)
    }
}

proof fn lemma_first_byte(s: Seq<u8>, b: u8, k: int)
    requires
        0 <= k,
    ensures
        crate::session::first_byte(s, b, k) matches Some(p) ==> k <= p < s.len() && s[p] == b,
    decreases s.len() - k,
{
    if k < s.len() && s[k] != b {
        lemma_first_byte(s, b, k + 1);
    }
}

proof fn lemma_drain_bound(pending: Seq<u8>, emitted: int, ipv4: Seq<char>, iface: Seq<char>)
    requires
        0 <= emitted <= pending.len(),
    ensures
        0 <= drain_lines(pending, emitted, ipv4, iface).2 <= drain_lines(pending, emitted, ipv4, iface).1.len(),
    decreases pending.len(),
{
    lemma_first_byte(pending, 0x0a, 0);
    match crate::session::first_byte(pending, 0x0a, 0) {
        None => {},
        Some(nl) => {
            let end = nl + 1;
            lemma_drain_bound(pending.subrange(end, pending.len() as int), if emitted > end { emitted - end } else { 0 }, ipv4, iface);
        },
    }
}

proof fn lemma_data_part(p: Seq<u8>, d: Seq<u8>, a: int, b: int)
    requires
        no_esc(d),
        p.len() <= a <= b <= p.len() + d.len(),
    ensures
        no_esc((p + d).subrange(a, b)),
        (p + d).subrange(a, b) == d.subrange(a - p.len(), b - p.len()),
{
    assert((p + d).subrange(a, b) =~= d.subrange(a - p.len(), b - p.len()));
    lemma_no_esc_sub(d, a - p.len(), b - p.len());
}

impl Highlighter {
    /// The partial line held back has been shown in full (it is kept only to
    /// recognize where it ends), and it is not over the limit.
    pub open spec fn wf(&self) -> bool {
        &&& self.emitted == self.pending@.len()
        &&& self.pending@.len() <= MAX_PENDING
    }

    /// A highlighter with nothing pending. `None` only if one of the two
    /// constant patterns fails to compile.
    pub fn new() -> (r: Option<Highlighter>)
        ensures
            r is Some <==> (crate::matcher::regex_new_error(ipv4_pattern()) is None
                && crate::matcher::regex_new_error(iface_pattern()) is None),
            r matches Some(h) ==> h.wf() && h.pending@.len() == 0 && h.emitted == 0
                && h.ipv4@ == ipv4_pattern() && h.iface@ == iface_pattern(),
    {
        let ipv4 = match CompiledRegex::compile("\\b\\d{1,3}(?:\\.\\d{1,3}){3}\\b") {
            Ok(r) => r,
            Err(_) => {
                return None;
            },
        };
        let iface = match CompiledRegex::compile(
            "(?i)\\b(?:Gi|Fa|Te|Tw|Fo|Hu|Eth|Gig\\w*|Ten\\w*|Po|Vl|Vlan|Lo|Se|Tu)\\d[\\d/.:]*\\b",
        ) {
            Ok(r) => r,
            Err(_) => {
                return None;
            },
        };
        Some(Highlighter { pending: Vec::new(), emitted: 0, ipv4, iface })
    }

    /// Feed a chunk of output; returns the bytes to show (see [`spec_process`]).
    /// Every byte fed is shown once, in order, at once: with the color codes
    /// removed, the output is the chunk itself (when the chunk carries no escape
    /// byte of its own).
    pub fn process(&mut self, data: &[u8]) -> (r: Vec<u8>)
        requires
            old(self).wf(),
        ensures
            final(self).wf(),
            no_esc(data@) ==> clean(r@) && uncolor(r@) == data@,
            (r@, final(self).pending@, final(self).emitted as int) == spec_process(
                old(self).pending@,
                old(self).emitted as int,
                data@,
                old(self).ipv4@,
                old(self).iface@,
            ),
            final(self).ipv4 == old(self).ipv4,
            final(self).iface == old(self).iface,
    {
        let ghost start = self.pending@ + data@;
        push_all(&mut self.pending, data);
        let mut out: Vec<u8> = Vec::new();
        let ghost e0 = self.emitted as int;
        let ghost mut c: int = 0;
        proof {
            lemma_drain_bound(start, e0, self.ipv4@, self.iface@);
            assert(start.subrange(0, start.len() as int) =~= start);
            assert(start.subrange(e0, e0) =~= Seq::<u8>::empty());
            lemma_no_esc_plain(Seq::<u8>::empty());
        }
        loop
            invariant
                self.emitted <= self.pending@.len(),
                self.ipv4@ == old(self).ipv4@,
                self.iface@ == old(self).iface@,
                self.ipv4 == old(self).ipv4,
                self.iface == old(self).iface,
                ({
                    let (o, rest, e) = drain_lines(self.pending@, self.emitted as int, self.ipv4@, self.iface@);
                    drain_lines(start, e0, self.ipv4@, self.iface@) == (out@ + o, rest, e)
                }),
                start == old(self).pending@ + data@,
                e0 == old(self).pending@.len(),
                0 <= c <= start.len(),
                self.pending@ == start.subrange(c, start.len() as int),
                e0 <= c + self.emitted,
                no_esc(data@) ==> clean(out@) && uncolor(out@) == start.subrange(e0, c + self.emitted),
            ensures
                crate::session::first_byte(self.pending@, 0x0a, 0) is None,
                self.emitted <= self.pending@.len(),
                drain_lines(start, e0, self.ipv4@, self.iface@) == (out@, self.pending@, self.emitted as int),
                0 <= c <= start.len(),
                self.pending@ == start.subrange(c, start.len() as int),
                e0 <= c + self.emitted,
                no_esc(data@) ==> clean(out@) && uncolor(out@) == start.subrange(e0, c + self.emitted),
            decreases self.pending@.len(),
        {
            let n = self.pending.len();
            let mut nl: usize = 0;
            while nl < n && self.pending[nl] != 0x0a
                invariant
                    0 <= nl <= n,
                    n == self.pending@.len(),
                    crate::session::first_byte(self.pending@, 0x0a, 0) == crate::session::first_byte(self.pending@, 0x0a, nl as int),
                decreases n - nl,
            {
                nl = nl + 1;
            }
            if nl == n {
                proof {
                    assert(drain_lines(self.pending@, self.emitted as int, self.ipv4@, self.iface@).0 =~= Seq::<u8>::empty());
                    assert(out@ + Seq::<u8>::empty() =~= out@);
                }
                break;
            }
            let end = nl + 1;
            let ghost before = self.pending@;
            let ghost ebefore = self.emitted as int;
            let ghost out0 = out@;
            if self.emitted == 0 {
                let mut line: Vec<u8> = Vec::new();
                push_range(&mut line, self.pending.as_slice(), 0, end);
                proof {
                    if no_esc(data@) {
                        assert(line@ =~= start.subrange(c, c + end));
                        lemma_data_part(old(self).pending@, data@, c, c + end);
                    }
                }
                let painted = colorize_line(line.as_slice(), &self.ipv4, &self.iface);
                push_all(&mut out, painted.as_slice());
                proof {
                    if no_esc(data@) {
                        lemma_uncolor_concat(out0, painted@);
                        assert(start.subrange(e0, c) + start.subrange(c, c + end) =~= start.subrange(e0, c + end));
                    }
                }
            } else {
                let from = if self.emitted < end {
                    self.emitted
                } else {
                    end
                };
                push_range(&mut out, self.pending.as_slice(), from, end);
                proof {
                    if no_esc(data@) {
                        let piece = self.pending@.subrange(from as int, end as int);
                        assert(piece =~= start.subrange(c + from, c + end));
                        if from < end {
                            lemma_data_part(old(self).pending@, data@, c + from, c + end);
                        } else {
                            assert(piece =~= Seq::<u8>::empty());
                        }
                        lemma_no_esc_plain(piece);
                        lemma_uncolor_concat(out0, piece);
                        if from < end {
                            assert(start.subrange(e0, c + from) + start.subrange(c + from, c + end) =~= start.subrange(
                                e0,
                                c + end,
                            ));
                        } else {
                            assert(start.subrange(e0, c + ebefore) + piece =~= start.subrange(e0, c + ebefore));
                        }
                    }
                }
            }
            let mut rest: Vec<u8> = Vec::new();
            push_range(&mut rest, self.pending.as_slice(), end, n);
            self.pending = rest;
            self.emitted = if self.emitted > end {
                self.emitted - end
            } else {
                0
            };
            proof {
                assert(drain_lines(before, ebefore, self.ipv4@, self.iface@).0 =~= drain_lines(before, ebefore, self.ipv4@, self.iface@).0);
                assert(self.pending@ =~= start.subrange(c + end, start.len() as int));
                c = c + end;
            }
        }
        let ghost drained = out@;
        proof {
            if no_esc(data@) {
                let tail = self.pending@.subrange(self.emitted as int, self.pending@.len() as int);
                assert(tail =~= start.subrange(c + self.emitted, start.len() as int));
                if c + self.emitted < start.len() {
                    lemma_data_part(old(self).pending@, data@, c + self.emitted, start.len() as int);
                } else {
                    assert(tail =~= Seq::<u8>::empty());
                }
                lemma_no_esc_plain(tail);
                lemma_uncolor_concat(drained, tail);
                assert(start.subrange(e0, c + self.emitted) + tail =~= data@);
                assert(start.subrange(e0, start.len() as int) =~= data@);
            }
        }
        if self.pending.len() > MAX_PENDING {
            push_range(&mut out, self.pending.as_slice(), self.emitted, self.pending.len());
            self.pending = Vec::new();
            self.emitted = 0;
            return out;
        }
        if self.pending.len() > self.emitted {
            push_range(&mut out, self.pending.as_slice(), self.emitted, self.pending.len());
            self.emitted = self.pending.len();
        } else {
            proof {
                if no_esc(data@) {
                    assert(self.pending@.subrange(self.emitted as int, self.pending@.len() as int) =~= Seq::<u8>::empty());
                    assert(drained + Seq::<u8>::empty() =~= drained);
                }
            }
        }
        out
    }
}

} // verus!
