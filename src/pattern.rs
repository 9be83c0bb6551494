//! Compiled regular expressions, and what the matching engine is relied on for.
use vstd::prelude::*;

verus! {

#[verifier::external_type_specification]
#[verifier::external_body]
pub struct ExRegex(regex::Regex);

#[verifier::external_type_specification]
#[verifier::external_body]
pub struct ExRegexError(regex::Error);

/// Whether `pattern` is accepted by the regular-expression compiler.
pub uninterp spec fn regex_compiles(pattern: Seq<char>) -> bool;

/// The capture-group names of `pattern`, one entry per group, the whole match first.
pub uninterp spec fn regex_group_names(pattern: Seq<char>) -> Seq<Option<Seq<char>>>;

/// Whether `pattern` matches somewhere in `text`.
pub uninterp spec fn regex_is_match(pattern: Seq<char>, text: Seq<char>) -> bool;

/// The successive non-overlapping matches of `pattern` in `text`, left to right: for each,
/// its byte span, the matched text, and the text of the groups named `first` and `second`.
pub uninterp spec fn regex_captures(
    pattern: Seq<char>,
    text: Seq<char>,
    first: Seq<char>,
    second: Seq<char>,
) -> Seq<(nat, nat, Seq<char>, Option<Seq<char>>, Option<Seq<char>>)>;

/// A compiled regular expression together with the pattern text it was built from.
pub struct Pattern {
    re: regex::Regex,
    source: Ghost<Seq<char>>,
}

/// One match of a pattern: its byte span in the searched text, the matched text, and the
/// text of two named groups when they took part.
pub struct Hit {
    pub start: usize,
    pub end: usize,
    pub matched: String,
    pub first: Option<String>,
    pub second: Option<String>,
}

impl Hit {
    pub open spec fn view(&self) -> (nat, nat, Seq<char>, Option<Seq<char>>, Option<Seq<char>>) {
        (
            self.start as nat,
            self.end as nat,
            self.matched@,
            match self.first {
                Some(s) => Some(s@),
                None => None,
            },
            match self.second {
                Some(s) => Some(s@),
                None => None,
            },
        )
    }
}

impl Pattern {
    /// The pattern text this regular expression was compiled from.
    pub closed spec fn source(&self) -> Seq<char> {
        self.source@
    }

    /// Relies on regex::Regex::new: it succeeds exactly on the patterns it accepts.
    #[verifier::external_body]
    pub(crate) fn compile(pattern: &str) -> (r: Result<Pattern, regex::Error>)
        ensures
            r is Ok <==> regex_compiles(pattern@),
            r matches Ok(p) ==> p.source() == pattern@,
    {
        match regex::Regex::new(pattern) {
            Ok(re) => Ok(Pattern { re, source: Ghost(pattern@) }),
            Err(e) => Err(e),
        }
    }

    /// Relies on regex::Regex::capture_names: the name of each group, in order.
    #[verifier::external_body]
    pub(crate) fn group_names(&self) -> (r: Vec<Option<String>>)
        ensures
            r@.len() == regex_group_names(self.source()).len(),
            forall|i: int|
                0 <= i < r@.len() ==> (match #[trigger] r@[i] {
                    Some(s) => regex_group_names(self.source())[i] == Some(s@),
                    None => regex_group_names(self.source())[i] is None,
                }),
    {
        self.re.capture_names().map(|n| n.map(|s| s.to_string())).collect()
    }

    /// Relies on regex::Regex::is_match: whether there is a match anywhere in `text`.
    #[verifier::external_body]
    pub(crate) fn is_match(&self, text: &str) -> (r: bool)
        ensures
            r == regex_is_match(self.source(), text@),
    {
        self.re.is_match(text)
    }

    /// Relies on regex::Regex::captures_iter: the successive non-overlapping matches, with
    /// the groups named `first` and `second`; a match never ends before it starts.
    #[verifier::external_body]
    pub(crate) fn captures(&self, text: &str, first: &str, second: &str) -> (r: Vec<Hit>)
        ensures
            r@.len() == regex_captures(self.source(), text@, first@, second@).len(),
            forall|i: int|
                0 <= i < r@.len() ==> #[trigger] r@[i].view() == regex_captures(
                    self.source(),
                    text@,
                    first@,
                    second@,
                )[i],
            forall|i: int| 0 <= i < r@.len() ==> #[trigger] r@[i].start <= r@[i].end,
    {
        self.re.captures_iter(text).map(|c| {
            let m = c.get(0).unwrap();
            Hit {
                start: m.start(),
                end: m.end(),
                matched: m.as_str().to_string(),
                first: c.name(first).map(|g| g.as_str().to_string()),
                second: c.name(second).map(|g| g.as_str().to_string()),
            }
        }).collect()
    }
}

} // verus!
