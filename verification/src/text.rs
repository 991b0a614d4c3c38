//! Pattern matching on text, through the `regex` crate, and ASCII case mapping.
use vstd::prelude::*;

verus! {

/// The pieces of `haystack` between the matches of the regular expression `pattern`,
/// as `regex::Regex::split` yields them; `None` when `pattern` does not compile.
pub uninterp spec fn regex_split(pattern: Seq<char>, haystack: Seq<char>) -> Option<Seq<Seq<char>>>;

/// `haystack` with every match of `pattern` replaced by `replacement`, as
/// `regex::Regex::replace_all` gives it; `None` when `pattern` does not compile.
pub uninterp spec fn regex_replace_all(
    pattern: Seq<char>,
    haystack: Seq<char>,
    replacement: Seq<char>,
) -> Option<Seq<char>>;

/// The text that the group named `group` captures in the leftmost match of `pattern`
/// in `haystack`, as `regex::Regex::captures` and `regex::Captures::name` give it:
/// `None` when `pattern` does not compile, `Some(None)` when nothing matches or the
/// group takes no part in the match.
pub uninterp spec fn regex_capture(
    pattern: Seq<char>,
    haystack: Seq<char>,
    group: Seq<char>,
) -> Option<Option<Seq<char>>>;

/// Compiles `pattern` with `regex::Regex::new` and splits `haystack` with
/// `regex::Regex::split`. The result is named, not described: it is
/// `regex_split(pattern, haystack)`.
#[verifier::external_body]
pub(crate) fn split_by(pattern: &str, haystack: &str) -> (r: Option<Vec<String>>)
    ensures
        (match r {
            Some(v) => regex_split(pattern@, haystack@) == Some(v.deep_view()),
            None => regex_split(pattern@, haystack@) is None,
        }),
{
    match regex::Regex::new(pattern) {
        Ok(re) => Some(re.split(haystack).map(String::from).collect()),
        Err(_) => None,
    }
}

/// Compiles `pattern` with `regex::Regex::new` and replaces its matches with
/// `regex::Regex::replace_all`. The result is named, not described: it is
/// `regex_replace_all(pattern, haystack, replacement)`.
#[verifier::external_body]
pub(crate) fn replace_all_by(pattern: &str, haystack: &str, replacement: &str) -> (r: Option<String>)
    ensures
        (match r {
            Some(s) => regex_replace_all(pattern@, haystack@, replacement@) == Some(s@),
            None => regex_replace_all(pattern@, haystack@, replacement@) is None,
        }),
{
    match regex::Regex::new(pattern) {
        Ok(re) => Some(re.replace_all(haystack, replacement).into_owned()),
        Err(_) => None,
    }
}

/// Compiles `pattern` with `regex::Regex::new`, finds its leftmost match with
/// `regex::Regex::captures` and reads the group `group` with `regex::Captures::name`.
/// The result is named, not described: it is `regex_capture(pattern, haystack, group)`.
#[verifier::external_body]
pub(crate) fn capture_by(pattern: &str, haystack: &str, group: &str) -> (r: Option<Option<String>>)
    ensures
        (match r {
            Some(Some(s)) => regex_capture(pattern@, haystack@, group@) == Some(Some(s@)),
            Some(None) => regex_capture(pattern@, haystack@, group@) == Some(None::<Seq<char>>),
            None => regex_capture(pattern@, haystack@, group@) is None,
        }),
{
    match regex::Regex::new(pattern) {
        Ok(re) => match re.captures(haystack) {
            Some(caps) => match caps.name(group) {
                Some(m) => Some(Some(m.as_str().to_string())),
                None => Some(None),
            },
            None => Some(None),
        },
        Err(_) => None,
    }
}

/// The upper-case form of an ASCII lower-case letter; any other character unchanged.
pub open spec fn ascii_upper(c: char) -> char {
    if 'a' <= c && c <= 'z' {
        ((c as u32) - 32) as char
    } else {
        c
    }
}

/// Text with every ASCII lower-case letter in upper case.
pub open spec fn upper_text(t: Seq<char>) -> Seq<char> {
    t.map_values(|c: char| ascii_upper(c))
}

/// Calls `str::to_ascii_uppercase`, which the standard library documents as mapping
/// 'a' to 'z' onto 'A' to 'Z' and leaving every other character as it is.
#[verifier::external_body]
pub(crate) fn to_ascii_uppercase(s: &str) -> (r: String)
    ensures
        r@ == upper_text(s@),
{
    s.to_ascii_uppercase()
}

} // verus!
