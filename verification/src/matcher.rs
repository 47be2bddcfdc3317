//! Trusted bridge to the `regex` crate: a compiled pattern together with the
//! text it was compiled from, so that contracts can speak of what matching
//! that text means.

use vstd::prelude::*;

verus! {

#[verifier::external_type_specification]
#[verifier::external_body]
pub struct ExRegex(regex::Regex);

#[verifier::external_type_specification]
#[verifier::external_body]
pub struct ExRegexError(regex::Error);

/// What `regex::Regex::is_match` returns for a regex compiled from `pattern`
/// run over `text`: a function of the two strings alone.
pub uninterp spec fn regex_is_match(pattern: Seq<char>, text: Seq<char>) -> bool;

/// The successive non-overlapping matches that `regex::Regex::find_iter`
/// yields over `text`, as character-index spans: a function of the compiled
/// pattern and the text alone.
pub uninterp spec fn regex_match_spans(pattern: Seq<char>, text: Seq<char>) -> Seq<(int, int)>;

/// Capture groups 1 and 2 of the first match `regex::Regex::captures` finds
/// in `text`, or `None` if the regex does not match: a function of the
/// compiled pattern and the text alone.
pub uninterp spec fn regex_captures_pair(pattern: Seq<char>, text: Seq<char>) -> Option<(
    Option<Seq<char>>,
    Option<Seq<char>>,
)>;

/// The view of what `Matcher::captures_pair` hands back, for comparison with
/// `regex_captures_pair`.
pub open spec fn captures_pair_view(r: Option<(Option<String>, Option<String>)>) -> Option<(
    Option<Seq<char>>,
    Option<Seq<char>>,
)> {
    match r {
        None => None,
        Some((g1, g2)) => Some(
            (
                match g1 {
                    None => None,
                    Some(s) => Some(s@),
                },
                match g2 {
                    None => None,
                    Some(s) => Some(s@),
                },
            ),
        ),
    }
}

/// The views of a list of character spans.
pub open spec fn span_views(v: Seq<(usize, usize)>) -> Seq<(int, int)> {
    v.map_values(|p: (usize, usize)| (p.0 as int, p.1 as int))
}

/// A compiled, reusable match predicate: a `regex::Regex` paired with the
/// pattern text it was compiled from, which the contracts speak of.
pub struct Matcher {
    re: regex::Regex,
    pattern: String,
}

impl Matcher {
    /// The pattern this matcher was compiled from.
    pub closed spec fn pat(&self) -> Seq<char> {
        self.pattern@
    }

    /// Relies on regex::Regex::new: compiles `pattern`, returning `Err`
    /// exactly on the patterns the regex crate rejects (invalid syntax, or a
    /// compiled form over the crate's size limit).
    #[verifier::external_body]
    pub fn new(pattern: String) -> (r: Result<Matcher, regex::Error>)
        ensures
            r matches Ok(m) ==> m.pat() == pattern@,
    {
        match regex::Regex::new(&pattern) {
            Ok(re) => Ok(Matcher { re, pattern }),
            Err(e) => Err(e),
        }
    }

    /// Relies on regex::Regex::is_match: true iff the regex matches anywhere
    /// in `text`; a function of the compiled pattern and the text alone.
    #[verifier::external_body]
    pub fn is_match(&self, text: &str) -> (b: bool)
        ensures
            b == regex_is_match(self.pat(), text@),
    {
        self.re.is_match(text)
    }

    /// Relies on regex::Regex::find_iter: the successive non-overlapping
    /// matches over `text`, leftmost first, reported here as character (not
    /// byte) spans. Successive matches begin at or after the end of the
    /// previous one, and every span lies within the text.
    #[verifier::external_body]
    pub fn find_spans(&self, text: &str) -> (r: Vec<(usize, usize)>)
        ensures
            span_views(r@) == regex_match_spans(self.pat(), text@),
            forall|i: int|
                0 <= i < r@.len() ==> (#[trigger] r@[i]).0 <= r@[i].1 && r@[i].1 <= text@.len(),
            forall|i: int| 0 < i < r@.len() ==> (#[trigger] r@[i]).0 >= r@[i - 1].1,
    {
        let mut r = Vec::new();
        for m in self.re.find_iter(text) {
            let s = text[..m.start()].chars().count();
            let e = text[..m.end()].chars().count();
            r.push((s, e));
        }
        r
    }

    /// Relies on regex::Regex::captures: capture groups 1 and 2 of the first
    /// match in `text`, or `None` when the regex does not match; a function
    /// of the compiled pattern and the text alone.
    #[verifier::external_body]
    pub fn captures_pair(&self, text: &str) -> (r: Option<(Option<String>, Option<String>)>)
        ensures
            captures_pair_view(r) == regex_captures_pair(self.pat(), text@),
    {
        match self.re.captures(text) {
            None => None,
            Some(c) => {
                let g1 = match c.get(1) {
                    Some(m) => Some(m.as_str().to_string()),
                    None => None,
                };
                let g2 = match c.get(2) {
                    Some(m) => Some(m.as_str().to_string()),
                    None => None,
                };
                Some((g1, g2))
            },
        }
    }
}

} // verus!
