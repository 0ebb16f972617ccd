//! Plain-file notes: safe file names for note titles, where a new note goes,
//! the order the notes are listed in, and which editor opens them. Reading,
//! writing and running the editor are the application's business.

use vstd::prelude::*;
use crate::config::join_path;
use crate::serial::last_component;
use crate::text::{
    char_is_control, chars_of, concat, is_control, is_whitespace, is_ws, split_whitespace, string_from_chars, trim,
    trim_chars, words,
};

verus! {

/// A failure of a note operation.
#[derive(Debug)]
pub enum NotesError {
    /// A file operation failed, with its error text.
    Io(String),
    /// The request was refused, with the reason.
    Invalid(String),
}

impl NotesError {
    /// The user-facing text: `IO error: ..`, or the reason as is.
    pub fn message(&self) -> (r: String)
        ensures
            r@ == match self {
                NotesError::Io(m) => "IO error: "@ + m@,
                NotesError::Invalid(m) => m@,
            },
    {
        match self {
            NotesError::Io(m) => concat("IO error: ", m.as_str()),
            NotesError::Invalid(m) => m.clone(),
        }
    }
}

/// A note on disk: display title (file stem), path, and modification time (in
/// nanoseconds since the epoch) for sorting.
#[derive(Debug, Clone)]
pub struct NoteMeta {
    pub title: String,
    pub path: String,
    pub modified: u128,
}

// ───────────────────────── titles ─────────────────────────

/// Characters that are not allowed in file names on some platform.
pub open spec fn forbidden_char(c: char) -> bool {
    c == '/' || c == '\\' || c == ':' || c == '*' || c == '?' || c == '"' || c == '<' || c == '>' || c == '|'
}

/// A character stripped from the ends of a title: a dot (a leading one hides
/// the file, a trailing one is refused on Windows) or white space.
pub open spec fn edge_char(c: char) -> bool {
    c == '.' || is_ws(c)
}

/// `s` without its leading dots and white space.
pub open spec fn skip_leading_edge(s: Seq<char>) -> Seq<char>
    decreases s.len(),
{
    if s.len() > 0 && edge_char(s[0]) {
        skip_leading_edge(s.drop_first())
    } else {
        s
    }
}

/// `s` without its trailing dots and white space.
pub open spec fn skip_trailing_edge(s: Seq<char>) -> Seq<char>
    decreases s.len(),
{
    if s.len() > 0 && edge_char(s.last()) {
        skip_trailing_edge(s.drop_last())
    } else {
        s
    }
}

/// A title made safe as a file name on every platform: trimmed; path
/// separators, Windows-forbidden characters and control characters replaced by
/// `_`; then dots and white space stripped from both ends until neither ends
/// it (no hidden file, no `..`, no trailing dot). Other Unicode passes through
/// untouched.
pub open spec fn spec_sanitize_title(title: Seq<char>) -> Seq<char> {
    let t = trim(title);
    let cleaned = Seq::new(
        t.len(),
        |i: int| if forbidden_char(t[i]) || char_is_control(t[i]) { '_' } else { t[i] },
    );
    skip_trailing_edge(skip_leading_edge(cleaned))
}

/// A character that may stand in a note's file name on every platform.
pub open spec fn title_char_ok(c: char) -> bool {
    !forbidden_char(c) && !char_is_control(c)
}

proof fn lemma_skip_leading_edge_run(s: Seq<char>)
    ensures
        skip_leading_edge(s).len() <= s.len(),
        skip_leading_edge(s) == s.subrange(s.len() - skip_leading_edge(s).len(), s.len() as int),
        skip_leading_edge(s).len() > 0 ==> !edge_char(skip_leading_edge(s)[0]),
    decreases s.len(),
{
    if s.len() > 0 && edge_char(s[0]) {
        lemma_skip_leading_edge_run(s.drop_first());
        let r = skip_leading_edge(s.drop_first());
        assert(s.drop_first().subrange(s.drop_first().len() - r.len(), s.drop_first().len() as int) =~= s.subrange(
            s.len() - r.len(),
            s.len() as int,
        ));
    } else {
        assert(s.subrange(0, s.len() as int) =~= s);
    }
}

proof fn lemma_skip_trailing_edge_run(s: Seq<char>)
    ensures
        skip_trailing_edge(s).len() <= s.len(),
        skip_trailing_edge(s) == s.subrange(0, skip_trailing_edge(s).len() as int),
        skip_trailing_edge(s).len() > 0 ==> !edge_char(skip_trailing_edge(s).last()),
    decreases s.len(),
{
    if s.len() > 0 && edge_char(s.last()) {
        lemma_skip_trailing_edge_run(s.drop_last());
        let r = skip_trailing_edge(s.drop_last());
        assert(s.drop_last().subrange(0, r.len() as int) =~= s.subrange(0, r.len() as int));
    } else {
        assert(s.subrange(0, s.len() as int) =~= s);
    }
}

/// A sanitized title holds no path separator, no character that some platform
/// forbids in file names and no control character; it neither begins nor ends
/// with a dot or white space; and it is no longer than the title.
pub proof fn lemma_sanitized_title_safe(title: Seq<char>)
    ensures
        forall|i: int| 0 <= i < spec_sanitize_title(title).len() ==> title_char_ok(
            #[trigger] spec_sanitize_title(title)[i],
        ),
        spec_sanitize_title(title).len() > 0 ==> !edge_char(spec_sanitize_title(title)[0]) && !edge_char(
            spec_sanitize_title(title).last(),
        ),
        spec_sanitize_title(title).len() <= title.len(),
{
    let t = trim(title);
    let cleaned = Seq::new(
        t.len(),
        |i: int| if forbidden_char(t[i]) || char_is_control(t[i]) { '_' } else { t[i] },
    );
    let a = skip_leading_edge(cleaned);
    let r = skip_trailing_edge(a);
    lemma_skip_leading_edge_run(cleaned);
    lemma_skip_trailing_edge_run(a);
    crate::text::lemma_trim_run(title);
    assert forall|i: int| 0 <= i < r.len() implies title_char_ok(#[trigger] r[i]) by {
        assert(r[i] == a[i]);
        let k = cleaned.len() - a.len() + i;
        assert(a[i] == cleaned[k]);
    }
    if r.len() > 0 {
        assert(r[0] == a[0]);
    }
}

/// Make a title safe as a file name (see [`spec_sanitize_title`]).
pub fn sanitize_title(title: &str) -> (r: String)
    ensures
        r@ == spec_sanitize_title(title@),
{
    let t = trim_chars(&chars_of(title));
    let ghost cleaned = Seq::new(
        t@.len(),
        |i: int| if forbidden_char(t@[i]) || char_is_control(t@[i]) { '_' } else { t@[i] },
    );
    let mut c: Vec<char> = Vec::new();
    let mut i: usize = 0;
    while i < t.len()
        invariant
            0 <= i <= t@.len(),
            cleaned == Seq::new(
                t@.len(),
                |k: int| if forbidden_char(t@[k]) || char_is_control(t@[k]) { '_' } else { t@[k] },
            ),
            c@ == cleaned.take(i as int),
        decreases t@.len() - i,
    {
        let ch = t[i];
        let bad = ch == '/' || ch == '\\' || ch == ':' || ch == '*' || ch == '?' || ch == '"' || ch == '<'
            || ch == '>' || ch == '|' || is_control(ch);
        c.push(if bad { '_' } else { ch });
        i = i + 1;
        assert(c@ =~= cleaned.take(i as int));
    }
    assert(cleaned.take(t@.len() as int) =~= cleaned);
    // Leading dots and white space.
    let n = c.len();
    let mut a: usize = 0;
    while a < n && (c[a] == '.' || is_whitespace(c[a]))
        invariant
            0 <= a <= n,
            n == c@.len(),
            skip_leading_edge(c@) == skip_leading_edge(c@.subrange(a as int, n as int)),
        decreases n - a,
    {
        assert(c@.subrange(a as int, n as int).drop_first() =~= c@.subrange(a + 1, n as int));
        a = a + 1;
    }
    assert(c@.subrange(0, n as int) =~= c@);
    // Trailing dots and white space.
    let mut b: usize = n;
    while b > a && (c[b - 1] == '.' || is_whitespace(c[b - 1]))
        invariant
            a <= b <= n,
            n == c@.len(),
            skip_trailing_edge(c@.subrange(a as int, n as int)) == skip_trailing_edge(c@.subrange(a as int, b as int)),
        decreases b,
    {
        assert(c@.subrange(a as int, b as int).drop_last() =~= c@.subrange(a as int, b - 1));
        b = b - 1;
    }
    let mut mid: Vec<char> = Vec::new();
    let mut k: usize = a;
    while k < b
        invariant
            a <= k <= b,
            b <= n,
            n == c@.len(),
            mid@ == c@.subrange(a as int, k as int),
        decreases b - k,
    {
        mid.push(c[k]);
        k = k + 1;
        assert(mid@ =~= c@.subrange(a as int, k as int));
    }
    proof {
        let s = c@.subrange(a as int, n as int);
        assert(skip_leading_edge(c@) == s) by {
            if a < n {
                assert(s[0] == c@[a as int]);
            }
        }
        let u = c@.subrange(a as int, b as int);
        assert(skip_trailing_edge(s) == u) by {
            if b > a {
                assert(u.last() == c@[b - 1]);
            }
        }
    }
    string_from_chars(mid.as_slice())
}

// ───────────────────────── new notes ─────────────────────────

/// Where a new note would go: its sanitized name and its path.
#[derive(Debug)]
pub struct NoteTarget {
    pub name: String,
    pub path: String,
}

/// `<dir>/<sanitized title>.md`, or why not: `Title cannot be empty`.
pub fn note_path(dir: &str, title: &str) -> (r: Result<NoteTarget, NotesError>)
    ensures
        spec_sanitize_title(title@).len() == 0 ==> (r matches Err(NotesError::Invalid(m))
            && m@ == "Title cannot be empty"@),
        spec_sanitize_title(title@).len() > 0 ==> (r matches Ok(t) && t.name@ == spec_sanitize_title(title@)
            && t.path@ == join_path(dir@, spec_sanitize_title(title@) + ".md"@)),
{
    let name = sanitize_title(title);
    if name.as_str().unicode_len() == 0 {
        return Err(NotesError::Invalid(String::from_str("Title cannot be empty")));
    }
    let file = concat(name.as_str(), ".md");
    let path = crate::config::join(dir, file.as_str());
    Ok(NoteTarget { name, path })
}

impl NoteTarget {
    /// Take the path when nothing exists there yet; otherwise refuse with
    /// `A note named '<name>' already exists`.
    pub fn claim(&self, exists: bool) -> (r: Result<String, NotesError>)
        ensures
            exists ==> (r matches Err(NotesError::Invalid(m)) && m@ == "A note named '"@ + self.name@
                + "' already exists"@),
            !exists ==> (r matches Ok(p) && p@ == self.path@),
    {
        if exists {
            let a = concat("A note named '", self.name.as_str());
            return Err(NotesError::Invalid(concat(a.as_str(), "' already exists")));
        }
        Ok(self.path.clone())
    }
}

/// The path for a new note titled `title` in `dir`, whose entries are named
/// `existing`: `<dir>/<sanitized title>.md`. Refused with `Title cannot be
/// empty` when nothing is left of the title, and with `A note named '<name>'
/// already exists` when `dir` already has an entry of that file name.
pub fn create_note(dir: &str, title: &str, existing: &Vec<String>) -> (r: Result<String, NotesError>)
    ensures
        ({
            let name = spec_sanitize_title(title@);
            let file = name + ".md"@;
            &&& name.len() == 0 ==> (r matches Err(NotesError::Invalid(m)) && m@ == "Title cannot be empty"@)
            &&& (name.len() > 0 && existing.deep_view().contains(file)) ==> (r matches Err(NotesError::Invalid(m))
                && m@ == "A note named '"@ + name + "' already exists"@)
            &&& (name.len() > 0 && !existing.deep_view().contains(file)) ==> (r matches Ok(p) && p@ == join_path(
                dir@,
                file,
            ))
        }),
{
    let target = match note_path(dir, title) {
        Ok(t) => t,
        Err(e) => {
            return Err(e);
        },
    };
    let file = concat(target.name.as_str(), ".md");
    let ghost ev = existing.deep_view();
    let mut taken = false;
    let mut i: usize = 0;
    while i < existing.len()
        invariant
            0 <= i <= existing@.len(),
            ev == existing.deep_view(),
            taken <==> exists|k: int| 0 <= k < i && ev[k] == file@,
        decreases existing@.len() - i,
    {
        if crate::text::str_eq(existing[i].as_str(), file.as_str()) {
            assert(ev[i as int] == existing@[i as int]@);
            taken = true;
        }
        i = i + 1;
    }
    proof {
        if taken {
            let k = choose|k: int| 0 <= k < existing@.len() && ev[k] == file@;
            assert(ev.contains(file@));
        }
        if ev.contains(file@) {
            let k = choose|k: int| 0 <= k < ev.len() && ev[k] == file@;
            assert(0 <= k < existing@.len());
        }
    }
    target.claim(taken)
}

// ───────────────────────── listing ─────────────────────────

/// The last `.` of `s` at or before `k - 1`.
pub open spec fn last_dot(s: Seq<char>, k: int) -> Option<int>
    decreases k,
{
    if k <= 0 {
        None
    } else if s[k - 1] == '.' {
        Some(k - 1)
    } else {
        last_dot(s, k - 1)
    }
}

/// The title of the note at `path`: the file name's stem when its extension is
/// `md` (a leading dot does not start an extension); `None` for other files.
pub open spec fn note_title(path: Seq<char>) -> Option<Seq<char>> {
    let name = last_component(path);
    match last_dot(name, name.len() as int) {
        Some(k) => if k > 0 && name.subrange(k + 1, name.len() as int) == "md"@ {
            Some(name.subrange(0, k))
        } else {
            None
        },
        None => None,
    }
}

/// `a` sorts before `b` (lexicographic by character).
pub open spec fn lex_less(a: Seq<char>, b: Seq<char>) -> bool
    decreases a.len(),
{
    if b.len() == 0 {
        false
    } else if a.len() == 0 {
        true
    } else if a[0] != b[0] {
        (a[0] as u32) < (b[0] as u32)
    } else {
        lex_less(a.drop_first(), b.drop_first())
    }
}

/// `a` is listed before `b`: newer first, then by title.
pub open spec fn listed_before(a: (Seq<char>, u128), b: (Seq<char>, u128)) -> bool {
    a.1 > b.1 || (a.1 == b.1 && lex_less(a.0, b.0))
}

/// The first position at or after `k` of `sorted` that `x` is listed before.
pub open spec fn note_pos(sorted: Seq<(Seq<char>, u128)>, x: (Seq<char>, u128), k: int) -> int
    decreases sorted.len() - k,
{
    if k < 0 || k >= sorted.len() {
        sorted.len() as int
    } else if listed_before(x, sorted[k]) {
        k
    } else {
        note_pos(sorted, x, k + 1)
    }
}

/// The first `k` notes ordered newest first, then by title; ties keep their
/// order.
pub open spec fn sort_notes(notes: Seq<(Seq<char>, u128)>, k: int) -> Seq<(Seq<char>, u128)>
    decreases k,
{
    if k <= 0 {
        Seq::empty()
    } else {
        let r = sort_notes(notes, k - 1);
        r.insert(note_pos(r, notes[k - 1], 0), notes[k - 1])
    }
}

/// The notes among the first `k` directory entries (path, mtime): title and
/// time of each `.md` file, in directory order.
pub open spec fn md_entries(entries: Seq<(Seq<char>, u128)>, k: int) -> Seq<(Seq<char>, u128)>
    decreases k,
{
    if k <= 0 {
        Seq::empty()
    } else {
        match note_title(entries[k - 1].0) {
            Some(t) => md_entries(entries, k - 1).push((t, entries[k - 1].1)),
            None => md_entries(entries, k - 1),
        }
    }
}

/// Lexicographic order is transitive.
pub proof fn lemma_lex_less_trans(a: Seq<char>, b: Seq<char>, c: Seq<char>)
    requires
        lex_less(a, b),
        lex_less(b, c),
    ensures
        lex_less(a, c),
    decreases a.len(),
{
    if a.len() > 0 && b.len() > 0 && c.len() > 0 && a[0] == b[0] && b[0] == c[0] {
        lemma_lex_less_trans(a.drop_first(), b.drop_first(), c.drop_first());
    }
}

/// Nothing sorts before itself.
pub proof fn lemma_lex_less_irrefl(a: Seq<char>)
    ensures
        !lex_less(a, a),
    decreases a.len(),
{
    if a.len() > 0 {
        lemma_lex_less_irrefl(a.drop_first());
    }
}

proof fn lemma_note_pos(sorted: Seq<(Seq<char>, u128)>, x: (Seq<char>, u128), k: int)
    requires
        0 <= k <= sorted.len(),
    ensures
        k <= note_pos(sorted, x, k) <= sorted.len(),
        forall|i: int| k <= i < note_pos(sorted, x, k) ==> !listed_before(x, #[trigger] sorted[i]),
        note_pos(sorted, x, k) < sorted.len() ==> listed_before(x, sorted[note_pos(sorted, x, k)]),
    decreases sorted.len() - k,
{
    if k < sorted.len() && !listed_before(x, sorted[k]) {
        lemma_note_pos(sorted, x, k + 1);
    }
}

/// The notes are listed newest first; notes of the same time by title.
pub proof fn lemma_notes_newest_first(notes: Seq<(Seq<char>, u128)>, k: int)
    requires
        0 <= k <= notes.len(),
    ensures
        sort_notes(notes, k).len() == k,
        forall|i: int, j: int| 0 <= i < j < k ==> (#[trigger] sort_notes(notes, k)[i]).1 >= (#[trigger] sort_notes(
            notes,
            k,
        )[j]).1 && !listed_before(sort_notes(notes, k)[j], sort_notes(notes, k)[i]),
    decreases k,
{
    if k > 0 {
        lemma_notes_newest_first(notes, k - 1);
        let r = sort_notes(notes, k - 1);
        let x = notes[k - 1];
        let p = note_pos(r, x, 0);
        lemma_note_pos(r, x, 0);
        let r2 = r.insert(p, x);
        assert forall|i: int, j: int| 0 <= i < j < k implies (#[trigger] r2[i]).1 >= (#[trigger] r2[j]).1
            && !listed_before(r2[j], r2[i]) by {
            if j < p {
                assert(r2[i] == r[i] && r2[j] == r[j]);
            } else if j == p {
                assert(r2[i] == r[i]);
                assert(!listed_before(x, r[i]));
            } else if i > p {
                assert(r2[i] == r[i - 1] && r2[j] == r[j - 1]);
            } else if i == p {
                assert(r2[j] == r[j - 1]);
                assert(listed_before(x, r[p]));
                if j - 1 > p {
                    assert(!listed_before(r[j - 1], r[p]));
                }
                assert(x.1 >= r[p].1);
                assert(r[p].1 >= r[j - 1].1);
                if listed_before(r[j - 1], x) {
                    assert(r[j - 1].1 == x.1 && x.1 == r[p].1);
                    lemma_lex_less_trans(r[j - 1].0, x.0, r[p].0);
                    if j - 1 == p {
                        lemma_lex_less_irrefl(r[p].0);
                    }
                    assert(false);
                }
            } else {
                assert(r2[i] == r[i] && r2[j] == r[j - 1]);
                assert(i < j - 1);
                assert(r[i].1 >= r[j - 1].1 && !listed_before(r[j - 1], r[i]));
            }
        }
    }
}

/// A directory entry: its path and modification time.
#[derive(Debug)]
pub struct DirEntryInfo {
    pub path: String,
    pub modified: u128,
}

/// `a` sorts before `b`.
pub fn lex_less_exec(a: &Vec<char>, b: &Vec<char>) -> (r: bool)
    ensures
        r == lex_less(a@, b@),
{
    let mut i: usize = 0;
    assert(a@.subrange(0, a@.len() as int) =~= a@);
    assert(b@.subrange(0, b@.len() as int) =~= b@);
    while i < a.len() && i < b.len() && a[i] == b[i]
        invariant
            0 <= i <= a@.len(),
            i <= b@.len(),
            lex_less(a@, b@) == lex_less(a@.subrange(i as int, a@.len() as int), b@.subrange(i as int, b@.len() as int)),
        decreases a@.len() - i,
    {
        assert(a@.subrange(i as int, a@.len() as int).drop_first() =~= a@.subrange(i + 1, a@.len() as int));
        assert(b@.subrange(i as int, b@.len() as int).drop_first() =~= b@.subrange(i + 1, b@.len() as int));
        i = i + 1;
    }
    if i == b.len() {
        false
    } else if i == a.len() {
        true
    } else {
        (a[i] as u32) < (b[i] as u32)
    }
}

fn title_of(path: &str) -> (r: Option<String>)
    ensures
        match note_title(path@) {
            Some(t) => r matches Some(x) && x@ == t,
            None => r is None,
        },
{
    let cs = chars_of(path);
    let n = cs.len();
    let mut k: usize = n;
    while k > 0 && cs[k - 1] != '/'
        invariant
            0 <= k <= n,
            n == cs@.len(),
            forall|i: int| k <= i < n ==> cs@[i] != '/',
        decreases k,
    {
        k = k - 1;
    }
    proof {
        crate::serial::lemma_last_component(cs@, k as int);
    }
    let mut name: Vec<char> = Vec::new();
    let mut i: usize = k;
    while i < n
        invariant
            k <= i <= n,
            n == cs@.len(),
            name@ == cs@.subrange(k as int, i as int),
        decreases n - i,
    {
        name.push(cs[i]);
        i = i + 1;
        assert(name@ =~= cs@.subrange(k as int, i as int));
    }
    let m = name.len();
    let mut d: usize = m;
    while d > 0 && name[d - 1] != '.'
        invariant
            0 <= d <= m,
            m == name@.len(),
            last_dot(name@, m as int) == last_dot(name@, d as int),
        decreases d,
    {
        d = d - 1;
    }
    if d == 0 {
        proof {
            assert(last_component(cs@) == name@);
        }
        return None;
    }
    let dot = d - 1;
    proof {
        reveal_strlit("md");
        assert(last_dot(name@, m as int) == Some(dot as int));
        assert(last_component(cs@) == name@);
    }
    if dot == 0 || m != dot + 3 || name[dot + 1] != 'm' || name[dot + 2] != 'd' {
        proof {
            let ext = name@.subrange(dot + 1, m as int);
            if dot > 0 && m == dot + 3 {
                assert(ext[0] == name@[dot + 1]);
                assert(ext[1] == name@[dot + 2]);
                assert("md"@[0] == 'm');
                assert(ext != "md"@);
            }
            if dot > 0 && m != dot + 3 {
                assert(ext.len() != "md"@.len());
            }
        }
        return None;
    }
    assert(name@.subrange(dot + 1, m as int) =~= "md"@);
    let mut stem: Vec<char> = Vec::new();
    let mut j: usize = 0;
    while j < dot
        invariant
            0 <= j <= dot,
            dot < m,
            m == name@.len(),
            stem@ == name@.subrange(0, j as int),
        decreases dot - j,
    {
        stem.push(name[j]);
        j = j + 1;
        assert(stem@ =~= name@.subrange(0, j as int));
    }
    Some(string_from_chars(stem.as_slice()))
}

/// The view of a note used for ordering: (title, time).
pub open spec fn note_key(n: NoteMeta) -> (Seq<char>, u128) {
    (n.title@, n.modified)
}

/// The notes in a directory listing: the `.md` files (title = file stem),
/// newest first, then by title.
pub fn list_notes(entries: &Vec<DirEntryInfo>) -> (r: Vec<NoteMeta>)
    ensures
        r@.map_values(|n: NoteMeta| note_key(n)) == ({
            let es = entries@.map_values(|e: DirEntryInfo| (e.path@, e.modified));
            let md = md_entries(es, es.len() as int);
            sort_notes(md, md.len() as int)
        }),
{
    let ghost es = entries@.map_values(|e: DirEntryInfo| (e.path@, e.modified));
    let mut found: Vec<NoteMeta> = Vec::new();
    let mut i: usize = 0;
    while i < entries.len()
        invariant
            0 <= i <= entries@.len(),
            es == entries@.map_values(|e: DirEntryInfo| (e.path@, e.modified)),
            found@.map_values(|n: NoteMeta| note_key(n)) == md_entries(es, i as int),
        decreases entries@.len() - i,
    {
        let e = &entries[i];
        match title_of(e.path.as_str()) {
            Some(t) => {
                let ghost before = found@;
                found.push(NoteMeta { title: t, path: e.path.clone(), modified: e.modified });
                assert(found@.map_values(|n: NoteMeta| note_key(n)) =~= before.map_values(|n: NoteMeta| note_key(n)).push(
                    note_key(found@[found@.len() - 1]),
                ));
            },
            None => {},
        }
        i = i + 1;
    }
    let ghost md = found@.map_values(|n: NoteMeta| note_key(n));
    let mut sorted: Vec<NoteMeta> = Vec::new();
    let mut k: usize = 0;
    while k < found.len()
        invariant
            0 <= k <= found@.len(),
            md == found@.map_values(|n: NoteMeta| note_key(n)),
            sorted@.map_values(|n: NoteMeta| note_key(n)) == sort_notes(md, k as int),
        decreases found@.len() - k,
    {
        let x = &found[k];
        let xt = chars_of(x.title.as_str());
        let mut p: usize = 0;
        let ghost sv = sorted@.map_values(|n: NoteMeta| note_key(n));
        while p < sorted.len() && !(x.modified > sorted[p].modified || (x.modified == sorted[p].modified
            && lex_less_exec(&xt, &chars_of(sorted[p].title.as_str()))))
            invariant
                0 <= p <= sorted@.len(),
                sv == sorted@.map_values(|n: NoteMeta| note_key(n)),
                xt@ == x.title@,
                note_pos(sv, note_key(*x), 0) == note_pos(sv, note_key(*x), p as int),
            decreases sorted@.len() - p,
        {
            p = p + 1;
        }
        let item = NoteMeta { title: x.title.clone(), path: x.path.clone(), modified: x.modified };
        let ghost before = sorted@;
        sorted.insert(p, item);
        proof {
            assert(note_key(item) == md[k as int]);
            assert(sorted@.map_values(|n: NoteMeta| note_key(n)) =~= sv.insert(p as int, md[k as int]));
        }
        k = k + 1;
    }
    sorted
}

// ───────────────────────── editor ─────────────────────────

/// The fallback editors, in the order they are tried.
pub open spec fn editor_candidate(i: int) -> Seq<char> {
    if i == 0 {
        "nano"@
    } else if i == 1 {
        "vim"@
    } else {
        "vi"@
    }
}

/// The first fallback editor that was found, given which ones were.
pub open spec fn first_found(on_path: Seq<bool>) -> Option<int> {
    if on_path.len() > 0 && on_path[0] {
        Some(0)
    } else if on_path.len() > 1 && on_path[1] {
        Some(1)
    } else if on_path.len() > 2 && on_path[2] {
        Some(2)
    } else {
        None
    }
}

/// An optional text as chars.
pub open spec fn opt_chars(o: Option<&str>) -> Option<Seq<char>> {
    match o {
        Some(s) => Some(s@),
        None => None,
    }
}

/// The editor command as words: those of `visual` when it has any, else those
/// of `editor`, else the first fallback editor found; `None` when there is none.
pub open spec fn spec_editor_command(
    visual: Option<Seq<char>>,
    editor: Option<Seq<char>>,
    on_path: Seq<bool>,
) -> Option<Seq<Seq<char>>> {
    if visual is Some && words(visual->0).len() > 0 {
        Some(words(visual->0))
    } else if editor is Some && words(editor->0).len() > 0 {
        Some(words(editor->0))
    } else {
        match first_found(on_path) {
            Some(i) => Some(seq![editor_candidate(i)]),
            None => None,
        }
    }
}

/// The command (program and leading arguments) that opens a note: the words of
/// `$VISUAL` (`visual`) when it has any, else those of `$EDITOR` (`editor`),
/// else the first of nano, vim and vi that is on the search path (`on_path[i]`
/// says whether the `i`-th is). Refused with `no editor found — set $EDITOR or
/// install nano/vim` when there is none.
pub fn editor_command(visual: Option<&str>, editor: Option<&str>, on_path: &Vec<bool>) -> (r: Result<
    Vec<String>,
    NotesError,
>)
    ensures
        match spec_editor_command(opt_chars(visual), opt_chars(editor), on_path@) {
            Some(cmd) => r matches Ok(v) && v.deep_view() == cmd,
            None => r matches Err(NotesError::Invalid(m)) && m@
                == "no editor found — set $EDITOR or install nano/vim"@,
        },
{
    if let Some(v) = visual {
        let parts = split_whitespace(v);
        if parts.len() > 0 {
            return Ok(parts);
        }
        assert(parts.deep_view().len() == 0);
    }
    if let Some(e) = editor {
        let parts = split_whitespace(e);
        if parts.len() > 0 {
            return Ok(parts);
        }
        assert(parts.deep_view().len() == 0);
    }
    let mut i: usize = 0;
    while i < 3 && i < on_path.len()
        invariant
            0 <= i <= 3,
            forall|k: int| 0 <= k < i && k < on_path@.len() ==> !on_path@[k],
            match opt_chars(visual) {
                Some(v) => words(v).len() == 0,
                None => true,
            },
            match opt_chars(editor) {
                Some(e) => words(e).len() == 0,
                None => true,
            },
        decreases 3 - i,
    {
        if on_path[i] {
            let name = if i == 0 {
                String::from_str("nano")
            } else if i == 1 {
                String::from_str("vim")
            } else {
                String::from_str("vi")
            };
            let cmd = vec![name];
            proof {
                assert(first_found(on_path@) == Some(i as int));
                assert(cmd.deep_view() =~= seq![editor_candidate(i as int)]);
            }
            return Ok(cmd);
        }
        i = i + 1;
    }
    Err(NotesError::Invalid(String::from_str("no editor found — set $EDITOR or install nano/vim")))
}

} // verus!
