//! Placeholder search: the regular expression engine behind the template
//! compiler.
//!
//! Nothing here is proved. The engine is the `regex` crate; this file says
//! what the rest of the library takes from it.

use vstd::prelude::*;

verus! {

/// A compiled regular expression of the `regex` crate.
#[verifier::external_type_specification]
#[verifier::external_body]
pub struct ExRegex(regex::Regex);

/// The error with which the `regex` crate refuses a pattern.
#[verifier::external_type_specification]
#[verifier::external_body]
pub struct ExRegexError(regex::Error);

/// One match of a pattern in a text, told by what surrounds it.
#[derive(Debug, Clone, PartialEq, Eq)]
pub struct Capture {
    /// The text before the match.
    pub before: String,
    /// What the first group of the pattern matched, if it took part.
    pub group: Option<String>,
    /// The text behind the match.
    pub after: String,
}

/// The mathematical value of a [`Capture`].
pub struct CaptureView {
    pub before: Seq<char>,
    pub group: Option<Seq<char>>,
    pub after: Seq<char>,
}

impl View for Capture {
    type V = CaptureView;

    open spec fn view(&self) -> CaptureView {
        CaptureView {
            before: self.before@,
            group: match self.group {
                Some(g) => Some(g@),
                None => None,
            },
            after: self.after@,
        }
    }
}

/// The values of a sequence of captures.
pub open spec fn capture_views(captures: Seq<Capture>) -> Seq<CaptureView> {
    captures.map_values(|c: Capture| c@)
}

/// The pattern from which `regex::Regex::new` compiled an expression;
/// `None` for an expression that was built in another way.
pub uninterp spec fn source_of(re: regex::Regex) -> Option<Seq<char>>;

/// The successive matches that do not overlap of the expression that
/// `regex::Regex::new` compiles from a pattern, in a text, in the order in
/// which `regex::Regex::captures_iter` yields them. The name stands for
/// both calls, one behind the other, and for the cutting of the text at
/// the offsets of each match.
pub uninterp spec fn captures_in(pattern: Seq<char>, haystack: Seq<char>) -> Seq<CaptureView>;

/// Whether captures lie in a text as successive matches do: each stands
/// between a start and an end of the text that do not overlap, and each
/// starts where the one before it has ended, or behind.
pub open spec fn captures_lie_in(haystack: Seq<char>, captures: Seq<CaptureView>) -> bool {
    &&& forall|i: int|
        0 <= i < captures.len() ==> {
            let c = #[trigger] captures[i];
            &&& c.before.len() + c.after.len() <= haystack.len()
            &&& c.before == haystack.take(c.before.len() as int)
            &&& c.after == haystack.skip(haystack.len() - c.after.len())
        }
    &&& forall|i: int, j: int|
        0 <= i < j < captures.len() ==> haystack.len() - (#[trigger] captures[i]).after.len()
            <= (#[trigger] captures[j]).before.len()
}

/// `regex::Regex::new`: compiles a pattern. Whether it succeeds is the
/// engine's to say: it turns on the pattern and on a limit of size that
/// the machine has a part in. An expression that comes back was compiled
/// from the pattern.
#[verifier::external_body]
pub(crate) fn compile_pattern(pattern: &str) -> (r: Result<regex::Regex, regex::Error>)
    ensures
        r matches Ok(re) ==> source_of(re) == Some(pattern@),
{
    regex::Regex::new(pattern)
}

/// `regex::Regex::captures_iter`: the matches of the expression in
/// `haystack`, each handed out as the text before it, the text of its first
/// group and the text behind it. For an expression that
/// `regex::Regex::new` compiled, the matches depend on the pattern and the
/// text alone. The matches come in order and do not overlap, and the
/// offsets of a match are places in the text, its start not behind its
/// end: so what stands before a match starts the text, what stands behind
/// it ends the text, and a match starts where the one before it has ended,
/// or behind.
#[verifier::external_body]
pub(crate) fn find_captures(re: &regex::Regex, haystack: &str) -> (found: Vec<Capture>)
    ensures
        source_of(*re) matches Some(pattern) ==> capture_views(found@) == captures_in(
            pattern,
            haystack@,
        ),
        captures_lie_in(haystack@, capture_views(found@)),
{
    re.captures_iter(haystack).map(
        |c|
            {
                let m = c.get_match();
                Capture {
                    before: haystack[..m.start()].to_string(),
                    group: c.get(1).map(|g| g.as_str().to_string()),
                    after: haystack[m.end()..].to_string(),
                }
            },
    ).collect()
}

} // verus!
