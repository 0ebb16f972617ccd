//! Regular expressions, through the `regex` crate.
//!
//! A [`CompiledRegex`] keeps the pattern it was compiled from next to the
//! compiled `regex::Regex`; its view is that pattern. What the crate computes
//! (whether a pattern compiles, whether it matches a text, where the matches
//! are) is named by uninterpreted functions of the pattern and the text, stated
//! by the trusted wrappers below.

use vstd::prelude::*;
use vstd::utf8::encode_utf8;

verus! {

#[verifier::external_type_specification]
#[verifier::external_body]
pub struct ExRegex(regex::Regex);

/// `regex::Regex::new(pattern)`: `None` when the pattern compiles, otherwise the
/// text of the compile error.
pub uninterp spec fn regex_new_error(pattern: Seq<char>) -> Option<Seq<char>>;

/// `Regex::is_match`: whether the compiled `pattern` matches somewhere in `text`.
pub uninterp spec fn regex_is_match(pattern: Seq<char>, text: Seq<char>) -> bool;

/// `Regex::find_iter`: the byte ranges `(start, end)` of the successive
/// non-overlapping matches of `pattern` in `text`.
pub uninterp spec fn regex_match_spans(pattern: Seq<char>, text: Seq<char>) -> Seq<(usize, usize)>;

/// A compiled regular expression together with its pattern.
#[derive(Debug)]
pub struct CompiledRegex {
    pattern: String,
    re: regex::Regex,
}

impl View for CompiledRegex {
    type V = Seq<char>;

    closed spec fn view(&self) -> Seq<char> {
        self.pattern@
    }
}

/// Calls `regex::Regex::new`. The contract names the outcome
/// [`regex_new_error`]: `Ok` exactly when it is `None`, otherwise the error's
/// `Display` text.
#[verifier::external_body]
fn regex_new(pattern: &str) -> (r: Result<regex::Regex, String>)
    ensures
        match r {
            Ok(_) => regex_new_error(pattern@) is None,
            Err(m) => regex_new_error(pattern@) == Some(m@),
        },
{
    regex::Regex::new(pattern).map_err(|e| e.to_string())
}

/// Calls `regex::Regex::is_match` on the compiled form of `re`'s pattern; the
/// result is named [`regex_is_match`] of that pattern and the text.
#[verifier::external_body]
fn regex_find(re: &CompiledRegex, text: &str) -> (r: bool)
    ensures
        r == regex_is_match(re@, text@),
{
    re.re.is_match(text)
}

/// Calls `regex::Regex::find_iter` and collects each match's byte range; the
/// result is named [`regex_match_spans`]. The crate documents that each match's
/// `start..end` slices the haystack, so `start <= end <= text.len()`.
#[verifier::external_body]
fn regex_spans(re: &CompiledRegex, text: &str) -> (r: Vec<(usize, usize)>)
    ensures
        r@ == regex_match_spans(re@, text@),
        forall|i: int|
            0 <= i < r@.len() ==> #[trigger] r@[i].0 <= r@[i].1 <= encode_utf8(text@).len(),
{
    re.re.find_iter(text).map(|m| (m.start(), m.end())).collect()
}

impl CompiledRegex {
    /// Compile `pattern`; `Err` carries the compile error's text.
    pub fn compile(pattern: &str) -> (r: Result<CompiledRegex, String>)
        ensures
            match r {
                Ok(c) => regex_new_error(pattern@) is None && c@ == pattern@,
                Err(m) => regex_new_error(pattern@) == Some(m@),
            },
    {
        match regex_new(pattern) {
            Ok(re) => Ok(CompiledRegex { pattern: String::from_str(pattern), re }),
            Err(m) => Err(m),
        }
    }

    /// The pattern this was compiled from.
    pub fn pattern(&self) -> (r: &str)
        ensures
            r@ == self@,
    {
        self.pattern.as_str()
    }

    /// Whether the pattern matches somewhere in `text`.
    pub fn is_match(&self, text: &str) -> (r: bool)
        ensures
            r == regex_is_match(self@, text@),
    {
        regex_find(self, text)
    }

    /// The byte ranges of the successive non-overlapping matches in `text`.
    pub fn match_spans(&self, text: &str) -> (r: Vec<(usize, usize)>)
        ensures
            r@ == regex_match_spans(self@, text@),
            forall|i: int|
                0 <= i < r@.len() ==> #[trigger] r@[i].0 <= r@[i].1 <= encode_utf8(text@).len(),
    {
        regex_spans(self, text)
    }
}

} // verus!
