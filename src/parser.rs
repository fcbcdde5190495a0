use vstd::prelude::*;

verus! {

/// The words that POSIX shell quoting rules make of a line, or `None` where
/// its quoting is malformed.
pub uninterp spec fn shell_words(line: Seq<char>) -> Option<Seq<Seq<char>>>;

/// What a list of owned words reads as.
pub open spec fn words_of(v: Seq<String>) -> Seq<Seq<char>> {
    v.map_values(|w: String| w@)
}

/// What an optional list of owned words reads as.
pub open spec fn opt_words_of(r: Option<Vec<String>>) -> Option<Seq<Seq<char>>> {
    match r {
        Some(v) => Some(words_of(v@)),
        None => None,
    }
}

/// Relies on shlex::split: splits a line by shell quoting rules (double and
/// single quotes, backslash escapes, no expansion) and gives `None` on
/// unbalanced quoting; the result depends on the line alone.
#[verifier::external_body]
fn shlex_split(line: &str) -> (r: Option<Vec<String>>)
    ensures
        opt_words_of(r) == shell_words(line@),
{
    shlex::split(line)
}

/// Tokenizes a command line into its words; `None` marks malformed quoting.
pub fn parse(s: &str) -> (r: Option<Vec<String>>)
    ensures
        opt_words_of(r) == shell_words(s@),
{
    shlex_split(s)
}

} // verus!
