//! Trusted declarations for the few outside calls the library makes.
//! Each item's contract states only what the callee's own source or
//! documentation promises; everything built on top of them is verified.

use vstd::prelude::*;

verus! {

/// Relies on `String::push`: appends one character to the string.
#[verifier::external_body]
pub fn push_char(s: &mut String, c: char)
    ensures
        final(s)@ == old(s)@.push(c),
{
    s.push(c)
}

/// Relies on `shellexpand::tilde`: only a leading `~` is ever rewritten,
/// into the user's home directory with the text after the `~` kept; any
/// other input, and an input whose `~` cannot be resolved, comes back
/// unchanged.
#[verifier::external_body]
pub fn expand_tilde_str(s: &str) -> (r: String)
    ensures
        (s@.len() == 0 || s@[0] != '~') ==> r@ == s@,
        (s@.len() > 0 && s@[0] == '~') ==> (r@ == s@ || (exists|home: Seq<char>|
            r@ == home + s@.skip(1))),
{
    shellexpand::tilde(s).into_owned()
}

/// Relies on `shellexpand::full`: tilde expansion applies only to a
/// leading `~` and variable expansion only to `$` sequences, so an input
/// with neither comes back unchanged; a lookup failure is an error,
/// returned here as `None`.
#[verifier::external_body]
pub fn expand_full_str(s: &str) -> (r: Option<String>)
    ensures
        ((s@.len() == 0 || s@[0] != '~') && (forall|i: int| 0 <= i < s@.len() ==> s@[i] != '$'))
            ==> r is Some,
        ((s@.len() == 0 || s@[0] != '~') && (forall|i: int| 0 <= i < s@.len() ==> s@[i] != '$'))
            ==> (r matches Some(t) ==> t@ == s@),
{
    match shellexpand::full(s) {
        Ok(expanded) => Some(expanded.into_owned()),
        Err(_) => None,
    }
}

/// The case-folded form of a string, as `str::to_lowercase` gives it:
/// Unicode lowercasing, a function of the characters alone.
pub uninterp spec fn lower_of(s: Seq<char>) -> Seq<char>;

/// Relies on `str::to_lowercase`: the folded form depends on the
/// characters alone.
#[verifier::external_body]
pub fn fold_case(s: &str) -> (r: String)
    ensures
        r@ == lower_of(s@),
{
    s.to_lowercase()
}

/// The score that skim's fuzzy matcher gives `pattern` against `choice`;
/// `None` where the pattern does not match. The matcher is a deterministic
/// dynamic program over the two strings, so the score is a function of
/// them alone.
pub uninterp spec fn fuzzy_score(choice: Seq<char>, pattern: Seq<char>) -> Option<int>;

/// Relies on `fuzzy_matcher::skim::SkimMatcherV2::fuzzy_match`, with the
/// default configuration (smart case): the result depends on the two
/// strings alone.
#[verifier::external_body]
pub fn fuzzy_match_score(choice: &str, pattern: &str) -> (r: Option<i64>)
    ensures
        r is Some <==> fuzzy_score(choice@, pattern@) is Some,
        r matches Some(v) ==> fuzzy_score(choice@, pattern@) == Some(v as int),
{
    let matcher = fuzzy_matcher::skim::SkimMatcherV2::default().smart_case();
    fuzzy_matcher::FuzzyMatcher::fuzzy_match(&matcher, choice, pattern)
}

} // verus!
