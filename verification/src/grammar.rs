//! The demonstration grammar: one literal `'a'`, discarded, followed by a
//! decimal number. The chain short-circuits: a failing step fails the whole
//! parse, and the remaining input of each step feeds the next.

use vstd::prelude::*;
use crate::number::number;
use crate::number::spec_number;
use crate::parser::result_view;
use crate::primitives::character;
use crate::primitives::spec_character;

verus! {

/// The one way a parse can go wrong: the input was not recognised at the
/// current position. A failure reports nothing consumed.
#[derive(Clone, Copy, PartialEq, Eq, Structural, Debug)]
pub enum ParseError {
    NoMatch,
}

/// What `parse` returns: the number that follows a leading `'a'`, and the
/// input after its digits; failure when the input does not begin with
/// `'a'`, when no digit follows it, or when the digit run's value exceeds
/// `i64::MAX`.
pub open spec fn spec_parse_grammar(s: Seq<char>) -> Option<(i64, Seq<char>)> {
    match spec_character('a', s) {
        Some(vr) => spec_number(vr.1),
        None => None,
    }
}

/// Match the literal `'a'`, discard it, then parse a decimal number.
pub fn parse<'a>(input: &'a [char]) -> (r: Option<(i64, &'a [char])>)
    ensures
        result_view(r) == spec_parse_grammar(input@),
{
    match character(input, 'a') {
        Some(vr) => number(vr.1),
        None => None,
    }
}

/// The library's entry point for the demonstration grammar: like `parse`,
/// with failure reported as an error value.
pub fn parse_number<'a>(input: &'a [char]) -> (r: Result<(i64, &'a [char]), ParseError>)
    ensures
        spec_parse_grammar(input@) matches Some(vr) ==> (r matches Ok(er) && er.0 == vr.0
            && er.1@ == vr.1),
        spec_parse_grammar(input@) is None ==> r == Err::<(i64, &'a [char]), ParseError>(
            ParseError::NoMatch,
        ),
{
    match parse(input) {
        Some(vr) => Ok(vr),
        None => Err(ParseError::NoMatch),
    }
}

} // verus!
