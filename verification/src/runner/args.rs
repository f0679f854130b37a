//! The command-line arguments of a benchmark run that the runner reads itself: the benchmark
//! filter, the `--nocapture` option and lists of raw arguments.
use vstd::prelude::*;

use crate::api::{string_seq, RawArgs};
use crate::text::{
    append_str, contains_chars, contains_seq, eq_str, from_chars, lowercase, owned, to_chars,
    to_lowercase,
};

verus! {

/// A filter for benchmarks
///
/// This enum is used instead of a plain `String` for possible future usages to filter by
/// benchmark ids, group name, file name etc.
#[derive(Debug, Clone)]
pub enum BenchmarkFilter {
    /// The name of the benchmark
    Name(String),
}

impl BenchmarkFilter {
    /// A filter of the benchmarks whose name contains `s`
    pub fn from_str(s: &str) -> (r: BenchmarkFilter)
        ensures
            r matches BenchmarkFilter::Name(n) && n@ == s@,
    {
        BenchmarkFilter::Name(crate::text::owned(s))
    }

    /// Return true if the haystack contains the filter
    pub fn apply(&self, haystack: &str) -> (r: bool)
        ensures
            match self {
                BenchmarkFilter::Name(name) => r == contains_seq(haystack@, name@),
            },
    {
        match self {
            BenchmarkFilter::Name(name) => {
                let h = to_chars(haystack);
                let n = to_chars(name.as_str());
                contains_chars(&h, &n)
            },
        }
    }
}

/// The `NoCapture` options for the command-line argument `--nocapture`
#[derive(Debug, Clone, Copy, PartialEq, Eq, Structural)]
pub enum NoCapture {
    /// Don't capture any output
    True,
    /// Capture all output
    False,
    /// Don't capture `stderr`
    Stderr,
    /// Don't capture `stdout`
    Stdout,
}

/// Where an output stream of the benchmark goes
#[derive(Debug, Clone, Copy, PartialEq, Eq, Structural)]
pub enum Redirect {
    /// To the terminal of the runner
    Inherit,
    /// Nowhere
    Null,
}

impl NoCapture {
    /// Where stdout and stderr of a benchmark go: unchanged for `True` and `False`, else the
    /// captured stream is dropped and the other one inherited.
    pub fn redirects(self) -> (r: Option<(Redirect, Redirect)>)
        ensures
            r == match self {
                NoCapture::True | NoCapture::False => None,
                NoCapture::Stderr => Some((Redirect::Null, Redirect::Inherit)),
                NoCapture::Stdout => Some((Redirect::Inherit, Redirect::Null)),
            },
    {
        match self {
            NoCapture::True | NoCapture::False => None,
            NoCapture::Stderr => Some((Redirect::Null, Redirect::Inherit)),
            NoCapture::Stdout => Some((Redirect::Inherit, Redirect::Null)),
        }
    }
}

/// The texts that mean yes, as clap takes them.
pub open spec fn true_literals() -> Seq<Seq<char>> {
    seq!["y"@, "yes"@, "t"@, "true"@, "on"@, "1"@]
}

/// The texts that mean no, as clap takes them.
pub open spec fn false_literals() -> Seq<Seq<char>> {
    seq!["n"@, "no"@, "f"@, "false"@, "off"@, "0"@]
}

/// The `--nocapture` option of the lowercase text of a value.
pub open spec fn nocapture_of(lower: Seq<char>) -> Option<NoCapture> {
    if true_literals().contains(lower) {
        Some(NoCapture::True)
    } else if false_literals().contains(lower) {
        Some(NoCapture::False)
    } else if lower == "stdout"@ {
        Some(NoCapture::Stdout)
    } else if lower == "stderr"@ {
        Some(NoCapture::Stderr)
    } else {
        None
    }
}

/// Whether `v` is one of the six texts.
fn one_of(v: &Vec<char>, a: &str, b: &str, c: &str, d: &str, e: &str, f: &str) -> (r: bool)
    ensures
        r == seq![a@, b@, c@, d@, e@, f@].contains(v@),
{
    let r = eq_str(v, a) || eq_str(v, b) || eq_str(v, c) || eq_str(v, d) || eq_str(v, e) || eq_str(v, f);
    let ghost s = seq![a@, b@, c@, d@, e@, f@];
    proof {
        if r {
            if v@ == a@ {
                assert(s[0] == v@);
            } else if v@ == b@ {
                assert(s[1] == v@);
            } else if v@ == c@ {
                assert(s[2] == v@);
            } else if v@ == d@ {
                assert(s[3] == v@);
            } else if v@ == e@ {
                assert(s[4] == v@);
            } else {
                assert(s[5] == v@);
            }
        }
    }
    r
}

/// The words `shlex::split` makes of `text`, split and unquoted as a POSIX shell would, or
/// `None` where the text is erroneous (such as an unclosed quote).
pub uninterp spec fn shell_words(text: Seq<char>) -> Option<Seq<Seq<char>>>;

/// `shlex::split`: the words of the text as a POSIX shell splits them, `None` where the text is
/// erroneous
#[verifier::external_body]
fn shell_split(text: &str) -> (r: Option<Vec<String>>)
    ensures
        r is Some <==> shell_words(text@) is Some,
        r matches Some(words) ==> string_seq(words@) == shell_words(text@).unwrap(),
{
    shlex::split(text)
}

/// Parse a space separated list of arguments, quoted as in a shell, into [`RawArgs`]; the
/// error `Failed to split args` where the text does not split.
pub fn parse_args(value: &str) -> (r: Result<RawArgs, String>)
    ensures
        match shell_words(value@) {
            Some(words) => r matches Ok(args) && args.args() == words,
            None => r matches Err(m) && m@ == "Failed to split args"@,
        },
{
    match shell_split(value) {
        Some(words) => Ok(RawArgs::new(words)),
        None => Err(owned("Failed to split args")),
    }
}

/// Parse the value of `--nocapture`: the texts clap takes for yes and no (in any case),
/// `stdout` and `stderr`; an error `Invalid value: <value>` for others.
pub fn parse_nocapture(value: &str) -> (r: Result<NoCapture, String>)
    ensures
        match nocapture_of(lowercase(value@)) {
            Some(n) => r == Ok::<NoCapture, String>(n),
            None => r matches Err(m) && m@ == "Invalid value: "@ + value@,
        },
{
    let lower = to_lowercase(value);
    let l = to_chars(lower.as_str());
    if one_of(&l, "y", "yes", "t", "true", "on", "1") {
        Ok(NoCapture::True)
    } else if one_of(&l, "n", "no", "f", "false", "off", "0") {
        Ok(NoCapture::False)
    } else if eq_str(&l, "stdout") {
        Ok(NoCapture::Stdout)
    } else if eq_str(&l, "stderr") {
        Ok(NoCapture::Stderr)
    } else {
        let mut c = to_chars("Invalid value: ");
        append_str(&mut c, value);
        Err(from_chars(&c))
    }
}

} // verus!
