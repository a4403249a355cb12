//! Work on text: comparing, and making line ends uniform.

use regex::Regex;
use vstd::prelude::*;

verus! {

/// `regex::Error`, why a pattern does not compile. Nothing is known of what
/// it holds.
#[verifier::external_type_specification]
#[verifier::external_body]
pub struct ExRegexError(regex::Error);

/// What `regex` gives for a pattern, a text and a replacement: the text with
/// every match of the pattern replaced, or nothing where the pattern does not
/// compile.
pub uninterp spec fn regex_replace_all(
    pattern: Seq<char>,
    haystack: Seq<char>,
    rep: Seq<char>,
) -> Option<Seq<char>>;

/// Calls `Regex::new` on `pattern` and `Regex::replace_all` on the outcome.
///
/// The contract names what comes back, and claims no more than that it
/// depends on the three texts alone: the error of `Regex::new` where the
/// pattern does not compile, and else the text that `replace_all` builds.
#[verifier::external_body]
fn replace_all(pattern: &str, haystack: &str, rep: &str) -> (r: Result<String, regex::Error>)
    ensures
        match r {
            Ok(s) => regex_replace_all(pattern@, haystack@, rep@) == Some(s@),
            Err(_) => regex_replace_all(pattern@, haystack@, rep@) is None,
        },
{
    match Regex::new(pattern) {
        Ok(re) => Ok(re.replace_all(haystack, rep).into_owned()),
        Err(e) => Err(e),
    }
}

/// The text `s` with its line ends made uniform: every match of a carriage
/// return with a line feed behind it, or of a carriage return alone, replaced
/// by one line feed.
pub open spec fn normalised(s: Seq<char>) -> Seq<char> {
    match regex_replace_all("\\r\\n|\\r"@, s, "\n"@) {
        Some(r) => r,
        None => s,
    }
}

/// Makes the line ends of a text uniform.
pub fn normalise_newlines(string: &str) -> (out: String)
    ensures
        out@ == normalised(string@),
{
    match replace_all("\\r\\n|\\r", string, "\n") {
        Ok(s) => s,
        Err(_) => string.to_owned(),
    }
}

/// Whether two texts hold the same characters.
pub fn same_text(a: &str, b: &str) -> (r: bool)
    ensures
        r == (a@ == b@),
{
    let x = a.to_owned();
    let y = b.to_owned();
    x == y
}

/// The texts of a sequence of strings, in order.
pub open spec fn texts(s: Seq<String>) -> Seq<Seq<char>> {
    Seq::new(s.len(), |i: int| s[i]@)
}

/// Copies of the given strings, in order.
pub fn copy_texts(v: &Vec<String>) -> (r: Vec<String>)
    ensures
        texts(r@) == texts(v@),
{
    let mut r: Vec<String> = Vec::new();
    let mut i: usize = 0;
    while i < v.len()
        invariant
            i <= v.len(),
            r@.len() == i,
            forall|j: int| 0 <= j < i ==> (#[trigger] r@[j])@ == v@[j]@,
        decreases v.len() - i,
    {
        r.push(v[i].clone());
        i += 1;
    }
    proof {
        assert(texts(r@) =~= texts(v@));
    }
    r
}

} // verus!
