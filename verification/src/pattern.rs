//! Regular expressions, as far as this library needs them: the texts that a
//! named group captures, and the replacement of the first match.
//!
//! Matching is done by the `regex` crate. What a pattern matches is not
//! defined here; it is named, and the functions of this module say how their
//! results are made of it.

use vstd::prelude::*;

verus! {

/// Whether `Regex::new` compiles `pattern`.
pub uninterp spec fn pattern_accepted(pattern: Seq<char>) -> bool;

/// What the group called `group` captured in each of the successive
/// non-overlapping matches of `pattern` in `haystack`, in the order of the
/// matches. An entry is `None` where the group took no part in the match.
pub uninterp spec fn group_captures(
    pattern: Seq<char>,
    group: Seq<char>,
    haystack: Seq<char>,
) -> Seq<Option<Seq<char>>>;

/// Where the leftmost-first match of `pattern` in `haystack` begins and
/// ends, counted in characters; `None` where `pattern` matches nowhere.
pub uninterp spec fn leftmost_match(pattern: Seq<char>, haystack: Seq<char>) -> Option<(nat, nat)>;

/// `haystack` with the characters from `range.0` up to `range.1` replaced by
/// `replacement`; `haystack` itself where there is no range.
pub open spec fn splice(
    haystack: Seq<char>,
    range: Option<(nat, nat)>,
    replacement: Seq<char>,
) -> Seq<char> {
    match range {
        Some((start, end)) => haystack.subrange(0, start as int) + replacement + haystack.subrange(
            end as int,
            haystack.len() as int,
        ),
        None => haystack,
    }
}

/// Whether `range`, if there is one, lies inside a text of `len` characters.
pub open spec fn range_within(range: Option<(nat, nat)>, len: nat) -> bool {
    range matches Some((start, end)) ==> start <= end <= len
}

/// Whether `replaced` is `haystack` with `range`, which lies inside it,
/// replaced by `replacement`.
pub open spec fn is_spliced(
    replaced: Seq<char>,
    haystack: Seq<char>,
    range: Option<(nat, nat)>,
    replacement: Seq<char>,
) -> bool {
    range_within(range, haystack.len()) && replaced == splice(haystack, range, replacement)
}

/// `haystack` with the leftmost-first match of `pattern` replaced by
/// `replacement`, taken literally; `haystack` itself where nothing matches.
pub open spec fn first_replaced(
    pattern: Seq<char>,
    haystack: Seq<char>,
    replacement: Seq<char>,
) -> Seq<char> {
    splice(haystack, leftmost_match(pattern, haystack), replacement)
}

/// A replacement changes nothing outside the range that it replaces: what
/// stood before the range stands before the replacement, and what stood
/// behind the range stands behind it.
pub proof fn lemma_splice_keeps_the_rest(
    haystack: Seq<char>,
    start: nat,
    end: nat,
    replacement: Seq<char>,
)
    requires
        start <= end <= haystack.len(),
    ensures
        ({
            let replaced = splice(haystack, Some((start, end)), replacement);
            &&& replaced.len() == haystack.len() - (end - start) + replacement.len()
            &&& replaced.take(start as int) == haystack.take(start as int)
            &&& replaced.subrange(start as int, (start + replacement.len()) as int) == replacement
            &&& replaced.skip((start + replacement.len()) as int) == haystack.skip(end as int)
        }),
{
    let replaced = splice(haystack, Some((start, end)), replacement);
    assert(replaced.take(start as int) =~= haystack.take(start as int));
    assert(replaced.subrange(start as int, (start + replacement.len()) as int) =~= replacement);
    assert(replaced.skip((start + replacement.len()) as int) =~= haystack.skip(end as int));
}

/// A compiled regular expression of the `regex` crate.
#[verifier::external_type_specification]
#[verifier::external_body]
pub struct ExRegex(regex::Regex);

/// A pattern that the regex engine accepts, compiled once.
///
/// Only `Pattern::new` makes a pattern, so the compiled form is always that
/// of the pattern text.
pub struct Pattern {
    source: String,
    compiled: regex::Regex,
}

impl View for Pattern {
    type V = Seq<char>;

    closed spec fn view(&self) -> Seq<char> {
        self.source@
    }
}

/// Calls `Regex::new`. Trusted: whether it succeeds depends on the pattern
/// text alone.
#[verifier::external_body]
fn regex_compile(source: &str) -> (compiled: Option<regex::Regex>)
    ensures
        compiled is Some <==> pattern_accepted(source@),
{
    regex::Regex::new(source).ok()
}

/// Calls `Regex::captures_iter` on `haystack` and, for every match it
/// yields, `Captures::name` with `group`. Trusted: the texts handed back are
/// those captures, one entry per match, in order.
#[verifier::external_body]
fn regex_group_captures(pattern: &Pattern, group: &str, haystack: &str) -> (found: Vec<
    Option<String>,
>)
    ensures
        found.deep_view() == group_captures(pattern@, group@, haystack@),
{
    let captures = pattern.compiled.captures_iter(haystack);
    captures.map(|c| c.name(group).map(|m| m.as_str().to_owned())).collect()
}

/// Calls `Regex::replace` with a `NoExpand` replacement. Trusted: the
/// leftmost-first match, which lies inside the haystack, is replaced by
/// `replacement` as it stands, and a haystack without a match comes back
/// unchanged.
#[verifier::external_body]
fn regex_replace_first(pattern: &Pattern, haystack: &str, replacement: &str) -> (replaced: String)
    ensures
        is_spliced(replaced@, haystack@, leftmost_match(pattern@, haystack@), replacement@),
{
    pattern.compiled.replace(haystack, regex::NoExpand(replacement)).into_owned()
}

impl Pattern {
    /// Compiles `source`, if the regex engine accepts it.
    pub fn new(source: &str) -> (pattern: Option<Pattern>)
        ensures
            pattern is Some <==> pattern_accepted(source@),
            pattern matches Some(p) ==> p@ == source@,
    {
        match regex_compile(source) {
            Some(compiled) => Some(Pattern { source: source.to_owned(), compiled }),
            None => None,
        }
    }

    /// The pattern text.
    pub fn as_str(&self) -> (source: &str)
        ensures
            source@ == self@,
    {
        self.source.as_str()
    }

    /// What `group` captured in each successive match in `haystack`.
    pub fn captures(&self, group: &str, haystack: &str) -> (found: Vec<Option<String>>)
        ensures
            found.deep_view() == group_captures(self@, group@, haystack@),
    {
        regex_group_captures(self, group, haystack)
    }

    /// `haystack` with the first match replaced by `replacement`, taken
    /// literally; `haystack` as it is where nothing matches.
    pub fn replace_first(&self, haystack: &str, replacement: &str) -> (replaced: String)
        ensures
            replaced@ == first_replaced(self@, haystack@, replacement@),
            range_within(leftmost_match(self@, haystack@), haystack@.len()),
    {
        regex_replace_first(self, haystack, replacement)
    }
}

} // verus!
