//! The parser abstraction: an exec `parse` method proved against a
//! spec-level `spec_parse` that pins down the exact outcome on every input.

use vstd::prelude::*;

verus! {

/// The spec-level image of an exec parse result: the value together with the
/// mathematical view of the remaining input.
pub open spec fn result_view<T>(r: Option<(T, &[char])>) -> Option<(T, Seq<char>)> {
    match r {
        Some(vr) => Some((vr.0, vr.1@)),
        None => None,
    }
}

/// `suffix` is a suffix of `s`.
pub open spec fn is_suffix_of(suffix: Seq<char>, s: Seq<char>) -> bool {
    &&& suffix.len() <= s.len()
    &&& suffix == s.subrange(s.len() - suffix.len(), s.len() as int)
}

/// A parser over a character cursor. `spec_parse` is the mathematical
/// meaning; `parse` is the executable parser, proved to agree with it
/// exactly. A failing parser reports nothing consumed: the caller keeps its
/// own (immutable) view of the input.
pub trait Parser<T>: Sized {
    /// What this parser returns on the input `s`: `None` for failure,
    /// or the parsed value and the remaining input.
    spec fn spec_parse(&self, s: Seq<char>) -> Option<(T, Seq<char>)>;

    /// On success the remaining input is always a suffix of the original:
    /// input is only ever re-sliced, never rewritten.
    proof fn lemma_remainder_is_suffix(&self, s: Seq<char>)
        ensures
            self.spec_parse(s) matches Some(vr) ==> is_suffix_of(vr.1, s),
    ;

    /// Run the parser on the unconsumed input.
    fn parse<'a>(&self, s: &'a [char]) -> (r: Option<(T, &'a [char])>)
        ensures
            result_view(r) == self.spec_parse(s@),
    ;
}

/// Every sequence is a suffix of itself.
pub proof fn lemma_suffix_reflexive(s: Seq<char>)
    ensures
        is_suffix_of(s, s),
{
    assert(s.subrange(0, s.len() as int) =~= s);
}

/// A suffix of a suffix is a suffix of the whole.
pub proof fn lemma_suffix_transitive(a: Seq<char>, b: Seq<char>, c: Seq<char>)
    requires
        is_suffix_of(a, b),
        is_suffix_of(b, c),
    ensures
        is_suffix_of(a, c),
{
    assert(c.subrange(c.len() - a.len(), c.len() as int) =~= b.subrange(
        b.len() - a.len(),
        b.len() as int,
    ));
}

/// Every success of `p` consumes at least one character. Repetition
/// (`many`, `many1`) requires this of its argument: a zero-consuming
/// parser repeated forever would never reach the stopping failure.
pub open spec fn productive<T, P: Parser<T>>(p: &P) -> bool {
    forall|s: Seq<char>| (#[trigger] p.spec_parse(s)) matches Some(vr) ==> vr.1.len() < s.len()
}

} // verus!
