//! Regular-expression matching, done by the `regex` crate: the text of one
//! named group of the first match of a pattern in a line.
use vstd::prelude::*;

verus! {

/// What a pattern finds in a text for one named group.
pub enum Capture {
    /// The pattern does not compile.
    InvalidPattern,
    /// The pattern matches nowhere in the text.
    NoMatch,
    /// The pattern matches, but the group took no part in the match (or the
    /// pattern has no group of that name).
    Unset,
    /// The text the group matched.
    Text(String),
}

/// The value a `Capture` stands for, the text taken as characters.
pub enum CaptureView {
    InvalidPattern,
    NoMatch,
    Unset,
    Text(Seq<char>),
}

impl View for Capture {
    type V = CaptureView;

    open spec fn view(&self) -> CaptureView {
        match self {
            Capture::InvalidPattern => CaptureView::InvalidPattern,
            Capture::NoMatch => CaptureView::NoMatch,
            Capture::Unset => CaptureView::Unset,
            Capture::Text(s) => CaptureView::Text(s@),
        }
    }
}

/// What the `regex` crate finds for the group `group` of `pattern` in
/// `haystack`: compiled with `Regex::new`, searched with `Regex::captures`,
/// the group read with `Captures::name`.
pub uninterp spec fn regex_capture(
    pattern: Seq<char>,
    haystack: Seq<char>,
    group: Seq<char>,
) -> CaptureView;

/// Compiles `pattern` with `regex::Regex::new`, finds its first match in
/// `haystack` with `Regex::captures`, and reads the group `group` with
/// `Captures::name` and `Match::as_str`. The contract states only that the
/// outcome is the one `regex_capture` names for these three texts: the
/// semantics of regular expressions is left unsaid.
#[verifier::external_body]
pub(crate) fn capture_group(pattern: &str, haystack: &str, group: &str) -> (c: Capture)
    ensures
        c@ == regex_capture(pattern@, haystack@, group@),
{
    match regex::Regex::new(pattern) {
        Err(_) => Capture::InvalidPattern,
        Ok(re) => match re.captures(haystack) {
            None => Capture::NoMatch,
            Some(caps) => match caps.name(group) {
                None => Capture::Unset,
                Some(m) => Capture::Text(m.as_str().to_string()),
            },
        },
    }
}

} // verus!
