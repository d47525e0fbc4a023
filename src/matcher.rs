use vstd::prelude::*;
use route_recognizer::Router as PatternMatcher;
use crate::params::{Pairs, pairs_view, keys_unique};
use crate::path::{routable, no_nul};

verus! {

/// route_recognizer::Router, the pattern matcher, held as an opaque value.
#[verifier::external_type_specification]
#[verifier::external_body]
#[verifier::reject_recursive_types(T)]
pub struct ExRecognizer<T>(PatternMatcher<T>);

/// The values that a pattern matcher holds, one for each distinct pattern shape added.
pub uninterp spec fn matcher_values(m: PatternMatcher<usize>) -> Set<usize>;

/// What a pattern matcher yields for a path: the value of the most specific pattern that
/// matches, with the parameters bound by it, or `None` where no pattern matches.
pub uninterp spec fn matched(m: PatternMatcher<usize>, path: Seq<char>) -> Option<
    (usize, Pairs),
>;

/// A path with one leading `/` removed, as the matcher reads both patterns and paths.
pub open spec fn strip_slash(p: Seq<char>) -> Seq<char> {
    if p.len() > 0 && p[0] == '/' {
        p.drop_first()
    } else {
        p
    }
}

/// A pattern with neither parameter nor wildcard markers: it matches itself alone.
pub open spec fn static_pattern(p: Seq<char>) -> bool {
    forall|i: int| 0 <= i < p.len() ==> #[trigger] p[i] != ':' && p[i] != '*'
}

/// What a matcher finds at `path` after the static `pattern` was added with `value`, given
/// what it found there before: the pattern's own path now gives `value` with no parameters,
/// and every other path is found as before.
pub open spec fn after_static_add(
    before: Option<(usize, Pairs)>,
    path: Seq<char>,
    pattern: Seq<char>,
    value: usize,
) -> Option<(usize, Pairs)> {
    if strip_slash(path) == strip_slash(pattern) {
        Some((value, Seq::empty()))
    } else {
        before
    }
}

pub open spec fn found_view(r: Option<(usize, Vec<(String, String)>)>) -> Option<(usize, Pairs)> {
    match r {
        Some((v, p)) => Some((v, pairs_view(p@))),
        None => None,
    }
}

/// Relies on route_recognizer::Router::new: a matcher that holds no pattern, whose only
/// state is not accepting, so that it matches no path.
#[verifier::external_body]
pub(crate) fn new_matcher() -> (r: PatternMatcher<usize>)
    ensures
        matcher_values(r) == Set::<usize>::empty(),
        forall|path: Seq<char>| #[trigger] matched(r, path) is None,
{
    PatternMatcher::new()
}

/// Relies on route_recognizer::Router::add: the value is stored for the pattern's final
/// state, replacing any value stored there before. A NUL would underflow a character range.
/// A static pattern becomes a chain of literal states ending in an accepting one that no
/// other path reaches; its metadata (no parameters) outranks every dynamic pattern.
#[verifier::external_body]
pub(crate) fn matcher_add(m: &mut PatternMatcher<usize>, pattern: &str, value: usize)
    requires
        no_nul(pattern@),
    ensures
        matcher_values(*final(m)).contains(value),
        matcher_values(*final(m)).subset_of(matcher_values(*old(m)).insert(value)),
        static_pattern(pattern@) ==> forall|path: Seq<char>| #[trigger]
            matched(*final(m), path) == after_static_add(matched(*old(m), path), path, pattern@, value),
{
    m.add(pattern, value)
}

/// Relies on route_recognizer::Router::recognize: the value it returns is one that was
/// stored, and the parameters come from a map keyed by name. Captures are counted in
/// characters and cut out by bytes, so only ASCII paths without NUL are handed to it.
#[verifier::external_body]
pub(crate) fn matcher_recognize(m: &PatternMatcher<usize>, path: &str) -> (r: Option<
    (usize, Vec<(String, String)>),
>)
    requires
        routable(path@),
    ensures
        found_view(r) == matched(*m, path@),
        r matches Some((v, p)) ==> matcher_values(*m).contains(v) && keys_unique(pairs_view(p@)),
{
    match m.recognize(path) {
        Ok(found) => Some(
            (*found.handler, found.params.iter().map(|(k, v)| (k.to_string(), v.to_string())).collect()),
        ),
        Err(_) => None,
    }
}

} // verus!
