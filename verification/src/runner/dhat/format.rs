//! The terminal output of a [`LogfileSummary`]: one line per field, the name padded to 18
//! characters and the value in bold.
use vstd::prelude::*;

use crate::error::int_text;
use crate::runner::dhat::LogfileSummary;
use crate::text::{append_chars, append_str, contains_seq, from_chars, to_chars};

verus! {

/// The escape sequence that ends a style of the terminal.
pub open spec fn reset_code() -> Seq<char> {
    seq!['\x1B', '[', '0', 'm']
}

/// What `colored` writes for `text` in a style that starts with the escape sequence `code`:
/// the text as it is where colors are off, else the text between `code` and the reset.
pub open spec fn styled(text: Seq<char>, code: Seq<char>, out: Seq<char>) -> bool {
    !contains_seq(text, reset_code()) ==> (out == text || out == code + text + reset_code())
}

/// The escape sequence of bold text.
pub open spec fn bold_code() -> Seq<char> {
    seq!['\x1B', '[', '1', 'm']
}

/// The escape sequence of bold blue text.
pub open spec fn blue_bold_code() -> Seq<char> {
    seq!['\x1B', '[', '1', ';', '3', '4', 'm']
}

/// `colored::Colorize::bold` written out: the text in bold where the terminal takes colors.
/// Whether it does depends on the environment, so the contract states both outcomes; it says
/// nothing where the text holds a reset sequence itself.
#[verifier::external_body]
fn bold(text: &str) -> (r: String)
    ensures
        styled(text@, bold_code(), r@),
{
    colored::Colorize::bold(text).to_string()
}

/// `colored::Colorize::blue` and `bold` written out: the text in bold blue where the terminal
/// takes colors. Whether it does depends on the environment, so the contract states both
/// outcomes; it says nothing where the text holds a reset sequence itself.
#[verifier::external_body]
fn blue_bold(text: &str) -> (r: String)
    ensures
        styled(text@, blue_bold_code(), r@),
{
    colored::Colorize::bold(colored::Colorize::blue(text)).to_string()
}

/// `text` padded with spaces on the right to `width` characters, as `{:<width}` writes it.
pub open spec fn pad_right(text: Seq<char>, width: nat) -> Seq<char> {
    if text.len() < width {
        text + Seq::new((width - text.len()) as nat, |i: int| ' ')
    } else {
        text
    }
}

/// A line of the summary: two spaces, the name padded to 18 characters, the value and a line
/// break.
pub open spec fn summary_line(name: Seq<char>, value: Seq<char>) -> Seq<char> {
    seq![' ', ' '] + pad_right(name, 18) + value + seq!['\n']
}

/// The lines of the fields after the first `n`: each name with a colon.
pub open spec fn field_lines(fields: Seq<(String, String)>, values: Seq<Seq<char>>) -> Seq<char>
    decreases fields.len(),
{
    if fields.len() == 0 || values.len() < fields.len() {
        Seq::empty()
    } else {
        field_lines(fields.drop_last(), values.drop_last()) + summary_line(
            fields.last().0@.push(':'),
            values[fields.len() - 1],
        )
    }
}

/// The text of the summary with the values as written: `Command:`, `PID:` and the fields.
pub open spec fn summary_text(command: Seq<char>, pid: Seq<char>, fields: Seq<(String, String)>, values: Seq<Seq<char>>) -> Seq<char> {
    summary_line("Command:"@, command) + summary_line("PID:"@, pid) + field_lines(fields, values)
}

/// Append `text` padded with spaces to `width` characters.
fn push_padded(out: &mut Vec<char>, text: &Vec<char>, width: usize)
    ensures
        final(out)@ == old(out)@ + pad_right(text@, width as nat),
{
    append_chars(out, text);
    let ghost mid = out@;
    let mut k: usize = text.len();
    while k < width
        invariant
            text.len() <= k,
            k <= width || k == text.len(),
            mid == old(out)@ + text@,
            out@ == mid + Seq::new((k - text.len()) as nat, |i: int| ' '),
        decreases width - k,
    {
        let ghost before = out@;
        out.push(' ');
        assert(out@ =~= mid + Seq::new((k + 1 - text.len()) as nat, |i: int| ' '));
        k += 1;
    }
    if text.len() < width {
        assert(out@ =~= old(out)@ + pad_right(text@, width as nat));
    } else {
        assert(out@ =~= old(out)@ + pad_right(text@, width as nat));
    }
}

/// Append a line of the summary.
fn push_line(out: &mut Vec<char>, name: &Vec<char>, value: &str)
    ensures
        final(out)@ == old(out)@ + summary_line(name@, value@),
{
    out.push(' ');
    out.push(' ');
    push_padded(out, name, 18);
    append_str(out, value);
    out.push('\n');
    assert(final(out)@ =~= old(out)@ + summary_line(name@, value@));
}

/// The terminal output of a summary of a log file
pub struct LogfileSummaryFormatter;

impl LogfileSummaryFormatter {
    /// The summary with its values as they are to be written: one line per field, the name
    /// padded to 18 characters.
    pub fn format_values(summary: &LogfileSummary, command: &str, pid: &str, values: &Vec<String>) -> (r: String)
        requires
            values.len() == summary.fields.len(),
        ensures
            r@ == summary_text(command@, pid@, summary.fields@, values@.map_values(|v: String| v@)),
    {
        let mut out: Vec<char> = Vec::new();
        let label = to_chars("Command:");
        push_line(&mut out, &label, command);
        let label = to_chars("PID:");
        push_line(&mut out, &label, pid);
        let ghost head = out@;
        let ghost vs = values@.map_values(|v: String| v@);
        let mut i: usize = 0;
        assert(summary.fields@.take(0) =~= Seq::<(String, String)>::empty());
        while i < summary.fields.len()
            invariant
                0 <= i <= summary.fields.len(),
                values.len() == summary.fields.len(),
                vs == values@.map_values(|v: String| v@),
                out@ == head + field_lines(summary.fields@.take(i as int), vs.take(i as int)),
            decreases summary.fields.len() - i,
        {
            let mut name = to_chars(summary.fields[i].0.as_str());
            name.push(':');
            push_line(&mut out, &name, values[i].as_str());
            assert(summary.fields@.take(i + 1).drop_last() =~= summary.fields@.take(i as int));
            assert(vs.take(i + 1).drop_last() =~= vs.take(i as int));
            assert(vs.take(i + 1)[i as int] == values@[i as int]@);
            i += 1;
        }
        assert(summary.fields@.take(summary.fields.len() as int) =~= summary.fields@);
        assert(vs.take(summary.fields.len() as int) =~= vs);
        from_chars(&out)
    }

    /// The summary for the terminal: the command in bold blue, the pid and the values of the
    /// fields in bold, where the terminal takes colors.
    pub fn format(summary: &LogfileSummary) -> (r: String)
        ensures
            exists|command: Seq<char>, pid: Seq<char>, values: Seq<Seq<char>>|
                #![trigger summary_text(command, pid, summary.fields@, values)]
                {
                    &&& styled(summary.command@, blue_bold_code(), command)
                    &&& styled(int_text(summary.pid as int), bold_code(), pid)
                    &&& values.len() == summary.fields.len()
                    &&& forall|i: int| 0 <= i < values.len() ==> styled(summary.fields@[i].1@, bold_code(), #[trigger] values[i])
                    &&& r@ == summary_text(command, pid, summary.fields@, values)
                },
    {
        let command = blue_bold(summary.command.as_str());
        let pid_chars = crate::error::i32_to_chars(summary.pid);
        let pid_text = from_chars(&pid_chars);
        let pid = bold(pid_text.as_str());
        let mut values: Vec<String> = Vec::new();
        let mut i: usize = 0;
        while i < summary.fields.len()
            invariant
                0 <= i <= summary.fields.len(),
                values.len() == i,
                forall|j: int| 0 <= j < i ==> styled(summary.fields@[j].1@, bold_code(), #[trigger] values@[j]@),
            decreases summary.fields.len() - i,
        {
            let v = bold(summary.fields[i].1.as_str());
            values.push(v);
            i += 1;
        }
        let r = Self::format_values(summary, command.as_str(), pid.as_str(), &values);
        let ghost vs = values@.map_values(|v: String| v@);
        assert(forall|j: int| 0 <= j < vs.len() ==> styled(summary.fields@[j].1@, bold_code(), #[trigger] vs[j]));
        r
    }
}

} // verus!
