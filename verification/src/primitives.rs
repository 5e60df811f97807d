//! The primitive parsers: `item` (one character), the character-class
//! parsers (`digit`, `lower`, `upper`, `letter`, `alphanum`) and the literal
//! parser `character`.

use vstd::prelude::*;
use vstd::slice::slice_index_get;
use vstd::slice::slice_subrange;
use crate::parser::Parser;
use crate::parser::is_suffix_of;
use crate::parser::result_view;

verus! {

/// What `item` returns: the first character and the rest, or failure on
/// empty input.
pub open spec fn spec_item(s: Seq<char>) -> Option<(char, Seq<char>)> {
    if s.len() == 0 {
        None
    } else {
        Some((s[0], s.drop_first()))
    }
}

/// Consume exactly one character. Fails only on empty input. This is the
/// one parser that inspects the raw input; everything else is composition.
pub fn item<'a>(input: &'a [char]) -> (r: Option<(char, &'a [char])>)
    ensures
        result_view(r) == spec_item(input@),
{
    if input.len() == 0 {
        None
    } else {
        let c: char = *slice_index_get(input, 0);
        let rest: &'a [char] = slice_subrange(input, 1, input.len());
        proof {
            assert(rest@ =~= input@.drop_first());
        }
        Some((c, rest))
    }
}

/// The `item` parser as a first-class value.
pub struct ItemParser;

impl Parser<char> for ItemParser {
    open spec fn spec_parse(&self, s: Seq<char>) -> Option<(char, Seq<char>)> {
        spec_item(s)
    }

    proof fn lemma_remainder_is_suffix(&self, s: Seq<char>) {
        if s.len() > 0 {
            assert(s.drop_first() =~= s.subrange(1, s.len() as int));
            assert(is_suffix_of(s.drop_first(), s));
        }
    }

    fn parse<'a>(&self, s: &'a [char]) -> (r: Option<(char, &'a [char])>) {
        item(s)
    }
}

/// A decimal digit: `'0'` through `'9'`. This is the whole behaviour of
/// `char::is_digit(10)`, so it is stated directly.
pub open spec fn is_decimal_digit(c: char) -> bool {
    48 <= c as u32 <= 57
}

/// Whether `c` is lowercase, per Unicode. Stands for what
/// `char::is_lowercase` returns, which depends on the character alone.
pub uninterp spec fn is_lowercase_char(c: char) -> bool;

/// Whether `c` is uppercase, per Unicode. Stands for what
/// `char::is_uppercase` returns, which depends on the character alone.
pub uninterp spec fn is_uppercase_char(c: char) -> bool;

/// Whether `c` is alphabetic, per Unicode. Stands for what
/// `char::is_alphabetic` returns, which depends on the character alone.
pub uninterp spec fn is_alphabetic_char(c: char) -> bool;

/// Whether `c` is alphanumeric, per Unicode. Stands for what
/// `char::is_alphanumeric` returns, which depends on the character alone.
pub uninterp spec fn is_alphanumeric_char(c: char) -> bool;

/// Relies on char::is_lowercase: Unicode lowercase classification, a pure
/// function of the character.
pub assume_specification[ char::is_lowercase ](c: char) -> (r: bool)
    ensures
        r == is_lowercase_char(c),
;

/// Relies on char::is_uppercase: Unicode uppercase classification, a pure
/// function of the character.
pub assume_specification[ char::is_uppercase ](c: char) -> (r: bool)
    ensures
        r == is_uppercase_char(c),
;

/// Relies on char::is_alphabetic: Unicode alphabetic classification, a pure
/// function of the character.
pub assume_specification[ char::is_alphabetic ](c: char) -> (r: bool)
    ensures
        r == is_alphabetic_char(c),
;

/// Relies on char::is_alphanumeric: Unicode alphanumeric classification, a
/// pure function of the character.
pub assume_specification[ char::is_alphanumeric ](c: char) -> (r: bool)
    ensures
        r == is_alphanumeric_char(c),
;

/// The character classes the predicate parsers recognise.
#[derive(Clone, Copy, PartialEq, Eq, Structural, Debug)]
pub enum CharClass {
    Digit,
    Lower,
    Upper,
    Letter,
    Alphanum,
}

/// Membership of a character in a class.
pub open spec fn char_in_class(k: CharClass, c: char) -> bool {
    match k {
        CharClass::Digit => is_decimal_digit(c),
        CharClass::Lower => is_lowercase_char(c),
        CharClass::Upper => is_uppercase_char(c),
        CharClass::Letter => is_alphabetic_char(c),
        CharClass::Alphanum => is_alphanumeric_char(c),
    }
}

/// What a class parser returns: the first character if it lies in the
/// class, else failure. A failed predicate discards the character along
/// with the failure: the caller's input stands untouched.
pub open spec fn spec_sat(k: CharClass, s: Seq<char>) -> Option<(char, Seq<char>)> {
    match spec_item(s) {
        Some(vr) => if char_in_class(k, vr.0) {
            Some(vr)
        } else {
            None
        },
        None => None,
    }
}

/// Test membership of `c` in the class `k`.
pub fn class_test(k: CharClass, c: char) -> (b: bool)
    ensures
        b == char_in_class(k, c),
{
    match k {
        CharClass::Digit => {
            let u: u32 = c as u32;
            48 <= u && u <= 57
        },
        CharClass::Lower => c.is_lowercase(),
        CharClass::Upper => c.is_uppercase(),
        CharClass::Letter => c.is_alphabetic(),
        CharClass::Alphanum => c.is_alphanumeric(),
    }
}

/// A parser that accepts one character of a fixed class.
pub struct ClassParser {
    pub class: CharClass,
}

impl Parser<char> for ClassParser {
    open spec fn spec_parse(&self, s: Seq<char>) -> Option<(char, Seq<char>)> {
        spec_sat(self.class, s)
    }

    proof fn lemma_remainder_is_suffix(&self, s: Seq<char>) {
        if s.len() > 0 {
            assert(s.drop_first() =~= s.subrange(1, s.len() as int));
        }
    }

    fn parse<'a>(&self, s: &'a [char]) -> (r: Option<(char, &'a [char])>) {
        match item(s) {
            Some(vr) => if class_test(self.class, vr.0) {
                Some(vr)
            } else {
                None
            },
            None => None,
        }
    }
}

/// Every class parser consumes exactly one character on success.
pub proof fn lemma_class_parser_productive(p: &ClassParser)
    ensures
        crate::parser::productive(p),
{
    assert forall|s: Seq<char>| (#[trigger] p.spec_parse(s)) is Some
        implies p.spec_parse(s)->Some_0.1.len() < s.len() by {
        assert(s.len() > 0);
    }
}

/// Parse one decimal digit.
pub fn digit<'a>(input: &'a [char]) -> (r: Option<(char, &'a [char])>)
    ensures
        result_view(r) == spec_sat(CharClass::Digit, input@),
{
    let p = ClassParser { class: CharClass::Digit };
    p.parse(input)
}

/// Parse one lowercase character.
pub fn lower<'a>(input: &'a [char]) -> (r: Option<(char, &'a [char])>)
    ensures
        result_view(r) == spec_sat(CharClass::Lower, input@),
{
    let p = ClassParser { class: CharClass::Lower };
    p.parse(input)
}

/// Parse one uppercase character.
pub fn upper<'a>(input: &'a [char]) -> (r: Option<(char, &'a [char])>)
    ensures
        result_view(r) == spec_sat(CharClass::Upper, input@),
{
    let p = ClassParser { class: CharClass::Upper };
    p.parse(input)
}

/// Parse one alphabetic character.
pub fn letter<'a>(input: &'a [char]) -> (r: Option<(char, &'a [char])>)
    ensures
        result_view(r) == spec_sat(CharClass::Letter, input@),
{
    let p = ClassParser { class: CharClass::Letter };
    p.parse(input)
}

/// Parse one alphanumeric character.
pub fn alphanum<'a>(input: &'a [char]) -> (r: Option<(char, &'a [char])>)
    ensures
        result_view(r) == spec_sat(CharClass::Alphanum, input@),
{
    let p = ClassParser { class: CharClass::Alphanum };
    p.parse(input)
}

/// What `character(x)` returns: the first character when it equals `x`,
/// else failure.
pub open spec fn spec_character(x: char, s: Seq<char>) -> Option<(char, Seq<char>)> {
    match spec_item(s) {
        Some(vr) => if vr.0 == x {
            Some(vr)
        } else {
            None
        },
        None => None,
    }
}

/// Parse exactly the character `x`.
pub fn character<'a>(input: &'a [char], x: char) -> (r: Option<(char, &'a [char])>)
    ensures
        result_view(r) == spec_character(x, input@),
{
    match item(input) {
        Some(vr) => if vr.0 == x {
            Some(vr)
        } else {
            None
        },
        None => None,
    }
}

/// A parser that accepts one fixed character.
pub struct LiteralParser {
    pub target: char,
}

impl Parser<char> for LiteralParser {
    open spec fn spec_parse(&self, s: Seq<char>) -> Option<(char, Seq<char>)> {
        spec_character(self.target, s)
    }

    proof fn lemma_remainder_is_suffix(&self, s: Seq<char>) {
        if s.len() > 0 {
            assert(s.drop_first() =~= s.subrange(1, s.len() as int));
        }
    }

    fn parse<'a>(&self, s: &'a [char]) -> (r: Option<(char, &'a [char])>) {
        character(s, self.target)
    }
}

/// `item` fails exactly on empty input; on non-empty input it returns the
/// first character and the input minus that character.
pub proof fn lemma_item_behaviour(s: Seq<char>)
    ensures
        s.len() == 0 ==> spec_item(s) is None,
        s.len() > 0 ==> spec_item(s) == Some((s[0], s.drop_first())),
{
}

/// `character(x)` succeeds iff the first character of the input equals `x`;
/// on success the value is `x` itself and the remainder is the input minus
/// that character.
pub proof fn lemma_character_matches_head(x: char, s: Seq<char>)
    ensures
        spec_character(x, s) is Some <==> (s.len() > 0 && s[0] == x),
        spec_character(x, s) matches Some(vr) ==> vr.0 == x && vr.1 == s.drop_first(),
{
}

} // verus!
