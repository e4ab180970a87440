//! Regular expressions: the two questions that the library asks of one.
use vstd::prelude::*;
use vstd::string::StringSliceAdditionalSpecFns;
use vstd::utf8::is_char_boundary;

verus! {

/// Whether `haystack` holds a match of the regular expression `pattern`;
/// `None` where `pattern` is no regular expression.
pub uninterp spec fn regex_is_match(pattern: Seq<char>, haystack: Seq<char>) -> Option<bool>;

/// Where the first match of the regular expression `pattern` in `haystack`
/// starts and ends, as offsets into the UTF-8 bytes of `haystack`; `None`
/// where there is no match or `pattern` is no regular expression.
pub uninterp spec fn regex_find(pattern: Seq<char>, haystack: Seq<char>) -> Option<(int, int)>;

/// Compiles `pattern` with `regex::Regex::new` and calls `Regex::is_match`
/// on `haystack`. Trusted: whether there is a match depends on the two texts
/// alone.
#[verifier::external_body]
pub(crate) fn is_match(pattern: &str, haystack: &str) -> (r: Option<bool>)
    ensures
        r == regex_is_match(pattern@, haystack@),
{
    match regex::Regex::new(pattern) {
        Ok(re) => Some(re.is_match(haystack)),
        Err(_) => None,
    }
}

/// The bounds fit `bytes`: start before end, end within, both between
/// characters.
pub open spec fn fits(bytes: Seq<u8>, start: int, end: int) -> bool {
    &&& 0 <= start <= end <= bytes.len()
    &&& is_char_boundary(bytes, start)
    &&& is_char_boundary(bytes, end)
}

/// Compiles `pattern` with `regex::Regex::new` and calls `Regex::find` on
/// `haystack`. Trusted: the first match depends on the two texts alone; it
/// starts no later than it ends, within the haystack, and both offsets fall
/// between characters.
#[verifier::external_body]
pub(crate) fn find(pattern: &str, haystack: &str) -> (r: Option<(usize, usize)>)
    ensures
        match r {
            Some((start, end)) => regex_find(pattern@, haystack@) == Some(
                (start as int, end as int),
            ) && fits(haystack.spec_bytes(), start as int, end as int),
            None => regex_find(pattern@, haystack@) is None,
        },
{
    match regex::Regex::new(pattern) {
        Ok(re) => match re.find(haystack) {
            Some(m) => Some((m.start(), m.end())),
            None => None,
        },
        Err(_) => None,
    }
}

} // verus!
