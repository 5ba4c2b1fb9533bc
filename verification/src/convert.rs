//! Markdown to Jira wiki conversion: the pandoc invocation.

use vstd::prelude::*;
use crate::text::{chars_of, lines, lines_of, string_of, trim, trim_chars};

verus! {

/// The pandoc arguments for converting markdown to Jira wiki markup.
pub fn pandoc_jira_args() -> (r: Vec<&'static str>)
    ensures
        r@.len() == 4,
        r@[0]@ == "-f"@,
        r@[1]@ == "markdown"@,
        r@[2]@ == "-t"@,
        r@[3]@ == "jira"@,
{
    vec!["-f", "markdown", "-t", "jira"]
}

/// The version line of `pandoc --version` output: its first line trimmed,
/// when the run succeeded or printed something and that line is not blank.
pub open spec fn version_line_of(success: bool, stdout: Seq<char>) -> Option<Seq<char>> {
    if !success && stdout.len() == 0 {
        None
    } else {
        let ls = lines(stdout);
        if ls.len() == 0 || trim(ls[0]).len() == 0 {
            None
        } else {
            Some(trim(ls[0]))
        }
    }
}

/// The version line of a `pandoc --version` run, from whether it exited
/// successfully and what it printed.
pub fn pandoc_version_line(success: bool, stdout: &str) -> (r: Option<String>)
    ensures
        crate::corpus::opt_view(r) == version_line_of(success, stdout@),
{
    let out = chars_of(stdout);
    if !success && out.len() == 0 {
        return None;
    }
    let ls = lines_of(&out);
    if ls.len() == 0 {
        return None;
    }
    let t = trim_chars(&ls[0]);
    if t.len() == 0 {
        None
    } else {
        Some(string_of(&t))
    }
}

} // verus!
