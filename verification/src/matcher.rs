//! A pattern, compiled once, that lines are tested against.
//!
//! Patterns are regular expressions in the syntax of the `regex` crate, and
//! that crate compiles and runs them. What it answers is not restated here:
//! [`pattern_compiles`] and [`pattern_matches`] stand for its answers, and
//! the contracts of this crate are stated over them.
use crate::text::line_text;
use vstd::prelude::*;

verus! {

/// `regex::Regex`, a compiled regular expression. Nothing is known of
/// what is inside; it is kept and handed back to its crate.
#[verifier::external_type_specification]
#[verifier::external_body]
pub struct ExRegex(regex::Regex);

/// `regex::Error`, the reason a pattern was refused. Nothing is known of
/// what is inside; its message is read with `regex_error_message`.
#[verifier::external_type_specification]
#[verifier::external_body]
pub struct ExRegexError(regex::Error);

/// Whether `regex::Regex::new` accepts the pattern.
pub uninterp spec fn pattern_compiles(pattern: Seq<char>) -> bool;

/// Whether the regular expression that `regex::Regex::new` builds from
/// `pattern` finds a match somewhere in `text`: the answer of
/// `regex::Regex::is_match` with `text` as the whole haystack.
pub uninterp spec fn pattern_matches(pattern: Seq<char>, text: Seq<char>) -> bool;

/// What is reported of one line under `pattern`: its text, where it has one
/// and the pattern matches it; nothing otherwise.
pub open spec fn reported_text(pattern: Seq<char>, line: Seq<u8>) -> Option<Seq<char>> {
    match line_text(line) {
        Some(text) => if pattern_matches(pattern, text) {
            Some(text)
        } else {
            None
        },
        None => None,
    }
}

/// [`reported_text`] for a fixed pattern, as a function of the line.
pub open spec fn line_reporter(pattern: Seq<char>) -> spec_fn(Seq<u8>) -> Option<Seq<char>> {
    |line: Seq<u8>| reported_text(pattern, line)
}

/// The texts of the lines that `pattern` matches, in the order of the
/// lines. A line is in exactly when it has a text and the pattern matches
/// that text.
pub open spec fn matching_lines(pattern: Seq<char>, lines: Seq<Seq<u8>>) -> Seq<Seq<char>> {
    lines.filter_map(line_reporter(pattern))
}

/// A text is reported exactly when it is the text of one of the lines and
/// the pattern matches it.
pub proof fn lemma_reported_iff_matching(pattern: Seq<char>, lines: Seq<Seq<u8>>, text: Seq<char>)
    ensures
        matching_lines(pattern, lines).contains(text) <==> pattern_matches(pattern, text) && exists|
            k: int,
        |
            0 <= k < lines.len() && line_text(#[trigger] lines[k]) == Some(text),
    decreases lines.len(),
{
    let reporter = line_reporter(pattern);
    let reports = matching_lines(pattern, lines);
    if lines.len() > 0 {
        let front = lines.drop_last();
        let last = lines.last();
        lemma_reported_iff_matching(pattern, front, text);
        let earlier = matching_lines(pattern, front);
        if earlier.contains(text) {
            let j = choose|j: int| 0 <= j < earlier.len() && earlier[j] == text;
            assert(reports[j] == text);
            let k = choose|k: int| 0 <= k < front.len() && line_text(#[trigger] front[k]) == Some(text);
            assert(lines[k] == front[k]);
        }
        if reporter(last) == Some(text) {
            assert(reports[reports.len() - 1] == text);
            assert(lines[lines.len() - 1] == last);
        }
        if reports.contains(text) {
            let j = choose|j: int| 0 <= j < reports.len() && reports[j] == text;
            if j < earlier.len() {
                assert(earlier[j] == text);
            }
        }
        if pattern_matches(pattern, text) && exists|k: int|
            0 <= k < lines.len() && line_text(#[trigger] lines[k]) == Some(text) {
            let k = choose|k: int| 0 <= k < lines.len() && line_text(#[trigger] lines[k]) == Some(text);
            if k < front.len() {
                assert(front[k] == lines[k]);
            }
        }
    }
}

/// Where every line has a text that the pattern matches, every line is
/// reported: as many texts as lines, in the same order.
pub proof fn lemma_all_matching(pattern: Seq<char>, lines: Seq<Seq<u8>>)
    requires
        forall|k: int| 0 <= k < lines.len() ==> reported_text(pattern, #[trigger] lines[k]) is Some,
    ensures
        matching_lines(pattern, lines).len() == lines.len(),
        forall|k: int|
            0 <= k < lines.len() ==> line_text(lines[k]) == Some(
                #[trigger] matching_lines(pattern, lines)[k],
            ),
    decreases lines.len(),
{
    if lines.len() > 0 {
        let front = lines.drop_last();
        assert(reported_text(pattern, lines[lines.len() - 1]) is Some);
        assert forall|k: int| 0 <= k < front.len() implies reported_text(
            pattern,
            #[trigger] front[k],
        ) is Some by {
            assert(front[k] == lines[k]);
        }
        lemma_all_matching(pattern, front);
    }
}

/// A compiled pattern. Its view is the pattern text it was compiled from.
///
/// The only way to make one is [`PatternMatcher::new`], so the compiled
/// form always belongs to the pattern text beside it.
pub struct PatternMatcher {
    pattern: String,
    compiled: regex::Regex,
}

impl View for PatternMatcher {
    type V = Seq<char>;

    closed spec fn view(&self) -> Seq<char> {
        self.pattern@
    }
}

/// A pattern that could not be compiled, and why.
pub struct InvalidPatternError {
    /// The pattern as it was given.
    pub pattern: String,
    /// The compiler's message.
    pub reason: String,
}

/// `regex::Regex::new`. Taken on trust: it succeeds exactly on the patterns
/// that [`pattern_compiles`] names, and the matcher it gives is one for
/// the pattern it was given.
#[verifier::external_body]
fn compile_regex(pattern: &str) -> (r: Result<PatternMatcher, regex::Error>)
    ensures
        r is Ok <==> pattern_compiles(pattern@),
        r matches Ok(m) ==> m@ == pattern@,
{
    match regex::Regex::new(pattern) {
        Ok(compiled) => Ok(PatternMatcher { pattern: pattern.to_string(), compiled }),
        Err(error) => Err(error),
    }
}

/// `regex::Regex::is_match`. Taken on trust: its answer is the one that
/// [`pattern_matches`] names for the matcher's pattern and the text.
#[verifier::external_body]
fn regex_is_match(matcher: &PatternMatcher, text: &str) -> (found: bool)
    ensures
        found == pattern_matches(matcher@, text@),
{
    matcher.compiled.is_match(text)
}

/// The message of a `regex::Error`, as its `Display` writes it. Nothing is
/// claimed of the text.
#[verifier::external_body]
fn regex_error_message(error: &regex::Error) -> String {
    error.to_string()
}

impl PatternMatcher {
    /// Compiles `pattern`. A malformed pattern, or one whose compiled form
    /// would be too large, is refused with the compiler's message.
    pub fn new(pattern: &str) -> (r: Result<PatternMatcher, InvalidPatternError>)
        ensures
            r is Ok <==> pattern_compiles(pattern@),
            r matches Ok(m) ==> m@ == pattern@,
            r matches Err(e) ==> e.pattern@ == pattern@,
    {
        match compile_regex(pattern) {
            Ok(matcher) => Ok(matcher),
            Err(error) => Err(
                InvalidPatternError {
                    pattern: pattern.to_owned(),
                    reason: regex_error_message(&error),
                },
            ),
        }
    }

    /// Tests one line: whether the pattern finds a match in it. The line is
    /// the whole input of the test; nothing before or after it is looked at.
    pub fn matches(&self, line: &str) -> (found: bool)
        ensures
            found == pattern_matches(self@, line@),
    {
        regex_is_match(self, line)
    }

    /// The pattern text.
    pub fn pattern(&self) -> (text: &str)
        ensures
            text@ == self@,
    {
        self.pattern.as_str()
    }
}

} // verus!
