use parsec::combinators::many;
use parsec::combinators::many1;
use parsec::combinators::many_;
use parsec::combinators::or_;
use parsec::combinators::OrParser;
use parsec::grammar::parse;
use parsec::grammar::parse_number;
use parsec::grammar::ParseError;
use parsec::number::number;
use parsec::number::render_decimal;
use parsec::primitives::alphanum;
use parsec::primitives::character;
use parsec::primitives::digit;
use parsec::primitives::item;
use parsec::primitives::letter;
use parsec::primitives::lower;
use parsec::primitives::upper;
use parsec::primitives::CharClass;
use parsec::primitives::ClassParser;
use parsec::primitives::LiteralParser;

fn cs(s: &str) -> Vec<char> {
    s.chars().collect()
}

fn text(rest: &[char]) -> String {
    rest.iter().collect()
}

#[test]
fn item_fails_on_empty_input() {
    let input = cs("");
    assert_eq!(item(&input), None);
}

#[test]
fn item_takes_the_first_character() {
    let input = cs("xyz");
    let (value, rest) = item(&input).expect("item on non-empty input succeeds");
    assert_eq!(value, 'x');
    assert_eq!(text(rest), "yz");
}

#[test]
fn character_succeeds_on_equal_head() {
    let input = cs("abc");
    let (value, rest) = character(&input, 'a').expect("head equals the target");
    assert_eq!(value, 'a');
    assert_eq!(text(rest), "bc");
}

#[test]
fn character_fails_on_different_head() {
    let input = cs("abc");
    assert_eq!(character(&input, 'b'), None);
}

#[test]
fn character_fails_on_empty_input() {
    let input = cs("");
    assert_eq!(character(&input, 'a'), None);
}

#[test]
fn digit_accepts_a_digit_and_rejects_a_letter() {
    let digits = cs("7a");
    let (value, rest) = digit(&digits).expect("7 is a digit");
    assert_eq!(value, '7');
    assert_eq!(text(rest), "a");
    let letters = cs("a7");
    assert_eq!(digit(&letters), None);
}

#[test]
fn lower_accepts_lowercase_and_rejects_uppercase() {
    let low = cs("ab");
    let (value, rest) = lower(&low).expect("a is lowercase");
    assert_eq!(value, 'a');
    assert_eq!(text(rest), "b");
    let up = cs("Ab");
    assert_eq!(lower(&up), None);
}

#[test]
fn upper_accepts_uppercase_and_rejects_lowercase() {
    let up = cs("Ab");
    let (value, rest) = upper(&up).expect("A is uppercase");
    assert_eq!(value, 'A');
    assert_eq!(text(rest), "b");
    let low = cs("ab");
    assert_eq!(upper(&low), None);
}

#[test]
fn letter_accepts_alphabetic_and_rejects_digit() {
    let alpha = cs("q1");
    let (value, rest) = letter(&alpha).expect("q is alphabetic");
    assert_eq!(value, 'q');
    assert_eq!(text(rest), "1");
    let num = cs("1q");
    assert_eq!(letter(&num), None);
}

#[test]
fn alphanum_accepts_letters_and_digits_and_rejects_punctuation() {
    let alpha = cs("q1");
    let (value, _) = alphanum(&alpha).expect("q is alphanumeric");
    assert_eq!(value, 'q');
    let num = cs("1q");
    let (value, _) = alphanum(&num).expect("1 is alphanumeric");
    assert_eq!(value, '1');
    let punct = cs("!q");
    assert_eq!(alphanum(&punct), None);
}

#[test]
fn or_returns_the_first_result_when_the_first_succeeds() {
    let input = cs("7x");
    let p = ClassParser { class: CharClass::Digit };
    let q = ClassParser { class: CharClass::Letter };
    let direct = digit(&input);
    assert_eq!(or_(&input, &p, &q), direct);
}

#[test]
fn or_falls_back_to_the_second_on_the_original_input() {
    let input = cs("x7");
    let p = ClassParser { class: CharClass::Digit };
    let q = ClassParser { class: CharClass::Letter };
    let direct = letter(&input);
    assert!(direct.is_some());
    assert_eq!(or_(&input, &p, &q), direct);
}

#[test]
fn or_fails_when_both_fail() {
    let input = cs("!x");
    let p = ClassParser { class: CharClass::Digit };
    let q = ClassParser { class: CharClass::Letter };
    assert_eq!(or_(&input, &p, &q), None);
}

#[test]
fn or_parser_composes_with_repetition() {
    let input = cs("a1b2!rest");
    let p = OrParser {
        first: ClassParser { class: CharClass::Digit },
        second: ClassParser { class: CharClass::Letter },
    };
    let (values, rest) = many(&input, &p).expect("many never fails");
    assert_eq!(values, vec!['a', '1', 'b', '2']);
    assert_eq!(text(rest), "!rest");
}

#[test]
fn many_returns_empty_and_input_unchanged_when_nothing_matches() {
    let input = cs("abc");
    let p = ClassParser { class: CharClass::Digit };
    let (values, rest) = many(&input, &p).expect("many never fails");
    assert_eq!(values, Vec::<char>::new());
    assert_eq!(text(rest), "abc");
    let again = cs(&text(rest));
    let (values2, rest2) = many(&again, &p).expect("many never fails");
    assert_eq!(values2, Vec::<char>::new());
    assert_eq!(text(rest2), "abc");
}

#[test]
fn many_collects_the_leading_run() {
    let input = cs("123abc");
    let p = ClassParser { class: CharClass::Digit };
    let (values, rest) = many(&input, &p).expect("many never fails");
    assert_eq!(values, vec!['1', '2', '3']);
    assert_eq!(text(rest), "abc");
}

#[test]
fn many_appends_to_the_given_accumulator() {
    let input = cs("45x");
    let p = ClassParser { class: CharClass::Digit };
    let seed = vec!['9'];
    let (values, rest) = many_(&input, &p, seed).expect("never fails");
    assert_eq!(values, vec!['9', '4', '5']);
    assert_eq!(text(rest), "x");
}

#[test]
fn many1_fails_exactly_when_the_first_attempt_fails() {
    let input = cs("abc");
    let p = ClassParser { class: CharClass::Digit };
    assert_eq!(many1(&input, &p), None);
}

#[test]
fn many1_is_first_value_then_many_on_the_remainder() {
    let input = cs("123abc");
    let p = ClassParser { class: CharClass::Digit };
    let (first, after_first) = digit(&input).expect("1 is a digit");
    let (tail, tail_rest) = many(after_first, &p).expect("many never fails");
    let mut expected = vec![first];
    expected.extend(tail);
    let (values, rest) = many1(&input, &p).expect("input starts with a digit");
    assert_eq!(values, expected);
    assert_eq!(text(rest), text(tail_rest));
}

#[test]
fn many1_of_a_literal_parser() {
    let input = cs("aab");
    let p = LiteralParser { target: 'a' };
    let (values, rest) = many1(&input, &p).expect("two leading a's");
    assert_eq!(values, vec!['a', 'a']);
    assert_eq!(text(rest), "b");
}

#[test]
fn number_parses_a_full_digit_run() {
    let input = cs("123784");
    let (value, rest) = number(&input).expect("all digits");
    assert_eq!(value, 123784);
    assert_eq!(text(rest), "");
}

#[test]
fn number_fails_on_empty_input() {
    let input = cs("");
    assert_eq!(number(&input), None);
}

#[test]
fn number_fails_without_a_leading_digit() {
    let input = cs("x1");
    assert_eq!(number(&input), None);
}

#[test]
fn number_stops_at_the_first_non_digit() {
    let input = cs("42abc");
    let (value, rest) = number(&input).expect("leading digits");
    assert_eq!(value, 42);
    assert_eq!(text(rest), "abc");
}

#[test]
fn number_keeps_leading_zeros_in_the_fold() {
    let input = cs("007");
    let (value, rest) = number(&input).expect("all digits");
    assert_eq!(value, 7);
    assert_eq!(text(rest), "");
}

#[test]
fn number_accepts_the_largest_value() {
    let input = cs("9223372036854775807");
    let (value, rest) = number(&input).expect("fits exactly");
    assert_eq!(value, i64::MAX);
    assert_eq!(text(rest), "");
}

#[test]
fn number_fails_when_the_run_overflows() {
    let input = cs("9223372036854775808");
    assert_eq!(number(&input), None);
    let longer = cs("99999999999999999999");
    assert_eq!(number(&longer), None);
}

#[test]
fn parse_reads_a_literal_then_a_number() {
    let input = cs("a123784bcd");
    let (value, rest) = parse(&input).expect("matches the grammar");
    assert_eq!(value, 123784);
    assert_eq!(text(rest), "bcd");
}

#[test]
fn parse_number_succeeds_on_the_demo_input() {
    let input = cs("a123784bcd");
    let (value, rest) = parse_number(&input).expect("matches the grammar");
    assert_eq!(value, 123784);
    assert_eq!(text(rest), "bcd");
}

#[test]
fn parse_number_fails_on_a_literal_mismatch() {
    let input = cs("b123");
    assert_eq!(parse_number(&input), Err(ParseError::NoMatch));
}

#[test]
fn parse_number_fails_when_no_digits_follow() {
    let input = cs("a");
    assert_eq!(parse_number(&input), Err(ParseError::NoMatch));
}

#[test]
fn render_decimal_writes_canonical_digits() {
    assert_eq!(text(&render_decimal(0)), "0");
    assert_eq!(text(&render_decimal(7)), "7");
    assert_eq!(text(&render_decimal(123784)), "123784");
    assert_eq!(text(&render_decimal(i64::MAX)), "9223372036854775807");
}

#[test]
fn number_round_trips_a_rendered_integer() {
    for n in [0i64, 1, 9, 10, 123784, 1000000, i64::MAX] {
        let rendered = render_decimal(n);
        let (value, rest) = number(&rendered).expect("a rendering is all digits");
        assert_eq!(value, n);
        assert_eq!(text(rest), "");
    }
}
