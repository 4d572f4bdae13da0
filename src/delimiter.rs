use vstd::prelude::*;

verus! {

#[verifier::external_type_specification]
#[verifier::external_body]
pub struct ExRegex(regex::bytes::Regex);

#[verifier::external_type_specification]
#[verifier::external_body]
pub struct ExRegexError(regex::Error);

/// Whether `regex::bytes::Regex::new` accepts a pattern: a matter of the
/// pattern alone (its syntax and the default size limit).
pub uninterp spec fn compiles(pattern: Seq<char>) -> bool;

/// The leftmost-first match, as `(start, end)` byte offsets, of the regex
/// compiled from `pattern` in `hay`.
pub uninterp spec fn leftmost_match(pattern: Seq<char>, hay: Seq<u8>) -> Option<(int, int)>;

/// Byte offsets as mathematical integers.
pub open spec fn as_offsets(m: Option<(usize, usize)>) -> Option<(int, int)> {
    match m {
        Some((a, b)) => Some((a as int, b as int)),
        None => None,
    }
}

/// Relies on `regex::bytes::Regex::new`: it succeeds exactly on the patterns
/// it can compile.
#[verifier::external_body]
fn compile(pattern: &str) -> (r: Result<regex::bytes::Regex, regex::Error>)
    ensures
        r is Ok <==> compiles(pattern@),
{
    regex::bytes::Regex::new(pattern)
}

/// Relies on `regex::bytes::Regex::find` and `Match::start` / `Match::end`:
/// the first match in `hay` of the regex that `d` holds, which was compiled
/// from `d@`, with `start <= end <= hay.len()`.
#[verifier::external_body]
pub(crate) fn find_first(d: &Delimiter, hay: &[u8]) -> (r: Option<(usize, usize)>)
    ensures
        as_offsets(r) == leftmost_match(d@, hay@),
        r matches Some((s, e)) ==> s <= e <= hay@.len(),
{
    d.regex.find(hay).map(|m| (m.start(), m.end()))
}

/// The reason a pattern could not serve as a delimiter.
#[derive(Debug, Clone, Copy, PartialEq, Eq)]
pub enum DelimiterError {
    /// The pattern is not a valid regular expression, or the compiled
    /// expression would exceed the default size limit.
    Invalid,
}

/// A compiled regular expression over bytes, together with the pattern that
/// it was compiled from.
pub struct Delimiter {
    regex: regex::bytes::Regex,
    pattern: Ghost<Seq<char>>,
}

impl View for Delimiter {
    type V = Seq<char>;

    closed spec fn view(&self) -> Seq<char> {
        self.pattern@
    }
}

impl Delimiter {
    /// Compiles `pattern`; fails exactly when the regex engine refuses it.
    pub fn new(pattern: &str) -> (r: Result<Delimiter, DelimiterError>)
        ensures
            r is Ok <==> compiles(pattern@),
            r matches Ok(d) ==> d@ == pattern@,
    {
        match compile(pattern) {
            Ok(regex) => Ok(Delimiter { regex, pattern: Ghost(pattern@) }),
            Err(_) => Err(DelimiterError::Invalid),
        }
    }
}

} // verus!
