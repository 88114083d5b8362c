//! The boundary to the `regex` crate.
//!
//! A clause component that is not an integer is matched as a
//! case-insensitive, unanchored substring pattern: the component text is
//! wrapped as `(?i).*text.*` and handed to `regex`.  Delimiters are applied
//! as raw patterns.  What those calls return is named by uninterpreted
//! functions; everything the engine states about matching goes through these
//! names.

use vstd::prelude::*;

verus! {

/// Whether the case-insensitive, unanchored pattern derived from a clause
/// component compiles as a regular expression.
pub uninterp spec fn valid_pattern(text: Seq<char>) -> bool;

/// Whether the case-insensitive, unanchored pattern derived from `text`
/// matches `item`; a function of the two strings alone.
pub uninterp spec fn pattern_matches(text: Seq<char>, item: Seq<char>) -> bool;

/// Whether a raw delimiter pattern compiles as a regular expression.
pub uninterp spec fn valid_regex(pattern: Seq<char>) -> bool;

/// The pieces a haystack falls into around the matches of a delimiter
/// pattern; a function of the two strings alone.
pub uninterp spec fn regex_split_parts(pattern: Seq<char>, text: Seq<char>) -> Seq<Seq<char>>;

/// Relies on `regex::Regex::new`: it returns `Ok` exactly when the pattern
/// is a valid regular expression (within the default size limit).  Here the
/// pattern is the case-insensitive wrapping of a clause component.
#[verifier::external_body]
pub(crate) fn check_pattern(text: &str) -> (r: bool)
    ensures
        r == valid_pattern(text@),
{
    let wrapped = format!(r"(?i).*{}.*", text);
    regex::Regex::new(&wrapped).is_ok()
}

/// Relies on `regex::Regex::new` and `regex::Regex::is_match`: whether the
/// case-insensitive, unanchored pattern built from `text` matches `item`.
/// The result depends on the two strings alone.
#[verifier::external_body]
pub(crate) fn pattern_is_match(text: &str, item: &str) -> (r: bool)
    requires
        valid_pattern(text@),
    ensures
        r == pattern_matches(text@, item@),
{
    let wrapped = format!(r"(?i).*{}.*", text);
    regex::Regex::new(&wrapped).expect("pattern was checked at parse time").is_match(item)
}

/// Relies on `regex::Regex::new`: it returns `Ok` exactly when the delimiter
/// is a valid regular expression (within the default size limit).
#[verifier::external_body]
pub(crate) fn check_regex(pattern: &str) -> (r: bool)
    ensures
        r == valid_regex(pattern@),
{
    regex::Regex::new(pattern).is_ok()
}

/// Relies on `regex::Regex::new` and `regex::Regex::split`: the pieces of
/// the haystack between matches of the delimiter pattern, in order.  The
/// result depends on the two strings alone.
#[verifier::external_body]
pub(crate) fn regex_split(pattern: &str, text: &str) -> (r: Vec<String>)
    requires
        valid_regex(pattern@),
    ensures
        r.deep_view() == regex_split_parts(pattern@, text@),
{
    let re = regex::Regex::new(pattern).expect("delimiter was checked before splitting");
    re.split(text).map(String::from).collect()
}

/// A piece before a line feed, with a carriage return immediately before the
/// line feed dropped.
pub open spec fn strip_trailing_cr(line: Seq<char>) -> Seq<char> {
    if line.len() > 0 && line.last() == '\r' {
        line.drop_last()
    } else {
        line
    }
}

/// The lines of a text, as `str::lines` yields them: split at each line
/// feed, dropping a carriage return just before the line feed; the final
/// line ending is optional, and a last line without one keeps any trailing
/// carriage return.
pub open spec fn lines_of(s: Seq<char>) -> Seq<Seq<char>>
    decreases s.len(),
    via lines_of_decreases
{
    if s.len() == 0 {
        Seq::empty()
    } else {
        match s.index_of_first('\n') {
            Some(k) => seq![strip_trailing_cr(s.take(k))] + lines_of(s.skip(k + 1)),
            None => seq![s],
        }
    }
}

#[via_fn]
proof fn lines_of_decreases(s: Seq<char>) {
    if s.len() != 0 {
        match s.index_of_first('\n') {
            Some(k) => {
                s.index_of_first_ensures('\n');
            },
            None => {},
        }
    }
}

/// Relies on `str::lines`: the documented behavior is stated exactly by
/// [`lines_of`].
#[verifier::external_body]
pub(crate) fn split_lines(text: &str) -> (r: Vec<String>)
    ensures
        r.deep_view() == lines_of(text@),
{
    text.lines().map(String::from).collect()
}

} // verus!
