//! Regular-expression checks of identifiers and labels, made by the `regex`
//! crate.

use vstd::prelude::*;

verus! {

/// Pattern of a URL slug: lower-case alphanumeric segments joined by single
/// hyphens.
pub const SLUG_PATTERN: &'static str = "^[a-z0-9]+(?:-[a-z0-9]+)*$";

/// Pattern of a key: 1 to 20 lower-case alphanumeric characters,
/// underscores or hyphens.
pub const KEY_PATTERN: &'static str = "^[a-z0-9_-]{1,20}$";

/// Pattern of a label: 1 to 70 characters, none of which is a comma, a
/// line feed, a tab, a carriage return, a form feed or a vertical tab.
pub const LABEL_PATTERN: &'static str = r"^[^,\n\t\r\f\v]{1,70}$";

/// Whether the character is in `[a-z0-9]`.
pub open spec fn is_alnum_lower(c: char) -> bool {
    ('a' <= c && c <= 'z') || ('0' <= c && c <= '9')
}

/// Whether the text matches `SLUG_PATTERN`: non-empty, made of `[a-z0-9]`
/// and hyphens, neither starting nor ending with a hyphen, and without two
/// hyphens in a row.
pub open spec fn is_slug(s: Seq<char>) -> bool {
    &&& s.len() > 0
    &&& forall|i: int| 0 <= i < s.len() ==> is_alnum_lower(#[trigger] s[i]) || s[i] == '-'
    &&& s[0] != '-'
    &&& s[s.len() - 1] != '-'
    &&& forall|i: int| 0 <= i < s.len() - 1 && #[trigger] s[i] == '-' ==> s[i + 1] != '-'
}

/// Whether the text matches `KEY_PATTERN`.
pub open spec fn is_key(s: Seq<char>) -> bool {
    &&& 1 <= s.len() <= 20
    &&& forall|i: int|
        0 <= i < s.len() ==> is_alnum_lower(#[trigger] s[i]) || s[i] == '_' || s[i] == '-'
}

/// Whether the character is one that a label cannot hold.
pub open spec fn is_label_forbidden(c: char) -> bool {
    c == ',' || c == '\n' || c == '\t' || c == '\r' || c == '\x0C' || c == '\x0B'
}

/// Whether the text matches `LABEL_PATTERN`.
pub open spec fn is_label(s: Seq<char>) -> bool {
    &&& 1 <= s.len() <= 70
    &&& forall|i: int| 0 <= i < s.len() ==> !is_label_forbidden(#[trigger] s[i])
}

/// Whether the `regex` crate finds a match of `pattern` in `haystack`.
pub uninterp spec fn regex_matches(pattern: Seq<char>, haystack: Seq<char>) -> bool;

/// Matches a regular expression: calls `regex::Regex::new` on `pattern` and
/// `regex::Regex::is_match` on `haystack`. `None` when the pattern does not
/// compile. For the patterns of this module the result is what the `regex`
/// syntax documentation gives them: `^` and `$` anchor at the start and the
/// end of the text, a class matches one character, `{m,n}` repeats from `m`
/// to `n` times, `+` at least once and `*` any number of times.
#[verifier::external_body]
fn regex_is_match(pattern: &str, haystack: &str) -> (res: Option<bool>)
    ensures
        res matches Some(b) ==> b == regex_matches(pattern@, haystack@),
        pattern@ == SLUG_PATTERN@ ==> res == Some(is_slug(haystack@)),
        pattern@ == KEY_PATTERN@ ==> res == Some(is_key(haystack@)),
        pattern@ == LABEL_PATTERN@ ==> res == Some(is_label(haystack@)),
{
    match regex::Regex::new(pattern) {
        Ok(re) => Some(re.is_match(haystack)),
        Err(_) => None,
    }
}

/// Whether the text is a valid URL slug.
pub fn matches_slug(s: &str) -> (res: bool)
    ensures
        res == is_slug(s@),
{
    match regex_is_match(SLUG_PATTERN, s) {
        Some(b) => b,
        None => false,
    }
}

/// Whether the text is a valid key.
pub fn matches_key(s: &str) -> (res: bool)
    ensures
        res == is_key(s@),
{
    match regex_is_match(KEY_PATTERN, s) {
        Some(b) => b,
        None => false,
    }
}

/// Whether the text is a valid label.
pub fn matches_label(s: &str) -> (res: bool)
    ensures
        res == is_label(s@),
{
    match regex_is_match(LABEL_PATTERN, s) {
        Some(b) => b,
        None => false,
    }
}

} // verus!
