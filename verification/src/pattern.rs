//! Regular expressions of the `regex` crate, as this crate uses them.
//!
//! A [`Pattern`] keeps the source text it was compiled from. What the `regex` crate computes
//! from a pattern and a haystack is named by the uninterpreted functions below; the wrappers
//! state that their results are these names applied to the source and the haystack.
use vstd::prelude::*;

verus! {

#[verifier::external_type_specification]
#[verifier::external_body]
pub struct ExRegex(regex::Regex);

#[verifier::external_type_specification]
#[verifier::external_body]
pub struct ExRegexError(regex::Error);

/// Whether `regex::Regex::new` accepts `pattern`.
pub uninterp spec fn regex_valid(pattern: Seq<char>) -> bool;

/// Whether the regular expression `pattern` matches somewhere in `haystack`.
pub uninterp spec fn regex_is_match(pattern: Seq<char>, haystack: Seq<char>) -> bool;

/// The text of the capture group named `group` in the leftmost-first match of `pattern` in
/// `haystack`: `None` if there is no match, `Some(None)` if the group did not take part in it.
pub uninterp spec fn regex_capture(
    pattern: Seq<char>,
    haystack: Seq<char>,
    group: Seq<char>,
) -> Option<Option<Seq<char>>>;

/// `haystack` with every non-overlapping match of `pattern` replaced by `replacement`, where
/// `$n` in the replacement stands for the capture group `n`.
pub uninterp spec fn regex_replace_all(
    pattern: Seq<char>,
    haystack: Seq<char>,
    replacement: Seq<char>,
) -> Seq<char>;

/// The characters that have a meaning in a regular expression.
pub open spec fn is_meta_character(c: char) -> bool {
    c == '\\' || c == '.' || c == '+' || c == '*' || c == '?' || c == '(' || c == ')' || c == '|'
        || c == '[' || c == ']' || c == '{' || c == '}' || c == '^' || c == '$' || c == '#' || c
        == '&' || c == '-' || c == '~'
}

/// `text` with a backslash before every meta character.
pub open spec fn escape_spec(text: Seq<char>) -> Seq<char>
    decreases text.len(),
{
    if text.len() == 0 {
        Seq::empty()
    } else {
        let c = text.last();
        let init = escape_spec(text.drop_last());
        if is_meta_character(c) {
            init.push('\\').push(c)
        } else {
            init.push(c)
        }
    }
}

/// A compiled regular expression together with its source text
#[derive(Debug)]
pub struct Pattern {
    source: String,
    compiled: regex::Regex,
}

impl Pattern {
    /// The source text of the regular expression
    pub closed spec fn source(&self) -> Seq<char> {
        self.source@
    }

    /// Compile the regular expression `source`; `None` if the `regex` crate rejects it
    pub fn new(source: &str) -> (r: Option<Pattern>)
        ensures
            r is Some <==> regex_valid(source@),
            r matches Some(p) ==> p.source() == source@,
    {
        match compile(source) {
            Ok(p) => Some(p),
            Err(_) => None,
        }
    }

    /// Whether the pattern matches somewhere in `haystack`
    pub fn matches(&self, haystack: &str) -> (r: bool)
        ensures
            r == regex_is_match(self.source(), haystack@),
    {
        is_match(self, haystack)
    }

    /// The source text of the regular expression
    pub fn as_str(&self) -> (r: &str)
        ensures
            r@ == self.source(),
    {
        self.source.as_str()
    }
}

/// `regex::Regex::new`: compile `pattern`; an error if the `regex` crate rejects it.
#[verifier::external_body]
pub(crate) fn compile(pattern: &str) -> (r: Result<Pattern, regex::Error>)
    ensures
        r is Ok <==> regex_valid(pattern@),
        r matches Ok(p) ==> p.source() == pattern@,
{
    regex::Regex::new(pattern).map(|compiled| Pattern { source: pattern.to_owned(), compiled })
}

/// `regex::Regex::clone`: a copy of the compiled pattern.
#[verifier::external_body]
pub(crate) fn clone_pattern(re: &Pattern) -> (r: Pattern)
    ensures
        r.source() == re.source(),
{
    Pattern { source: re.source.clone(), compiled: re.compiled.clone() }
}

/// `regex::Regex::is_match`: whether the pattern matches somewhere in `haystack`.
#[verifier::external_body]
pub(crate) fn is_match(re: &Pattern, haystack: &str) -> (r: bool)
    ensures
        r == regex_is_match(re.source(), haystack@),
{
    re.compiled.is_match(haystack)
}

/// `regex::Regex::captures` and `regex::Captures::name`: the text of the named group in the
/// first match.
#[verifier::external_body]
pub(crate) fn capture_group(re: &Pattern, haystack: &str, group: &str) -> (r: Option<Option<String>>)
    ensures
        r matches Some(g) ==> regex_capture(re.source(), haystack@, group@) matches Some(h) && (
        g matches Some(s) ==> h == Some(s@)) && (g is None ==> h is None),
        r is None ==> regex_capture(re.source(), haystack@, group@) is None,
        r is Some <==> regex_is_match(re.source(), haystack@),
{
    re.compiled.captures(haystack).map(|caps| caps.name(group).map(|m| m.as_str().to_owned()))
}

/// `regex::Regex::replace_all`: replace every non-overlapping match.
#[verifier::external_body]
pub(crate) fn replace_all(re: &Pattern, haystack: &str, replacement: &str) -> (r: String)
    ensures
        r@ == regex_replace_all(re.source(), haystack@, replacement@),
{
    re.compiled.replace_all(haystack, replacement).into_owned()
}

/// `regex::escape`: put a backslash before every character with a meaning in a regular
/// expression (`\ . + * ? ( ) | [ ] { } ^ $ # & - ~`).
#[verifier::external_body]
pub(crate) fn escape(text: &str) -> (r: String)
    ensures
        r@ == escape_spec(text@),
{
    regex::escape(text)
}

} // verus!
