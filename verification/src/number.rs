//! The composite `number` parser: one or more decimal digits, folded into an
//! `i64` by base-10 accumulation. The fold checks its arithmetic: a digit
//! run whose value does not fit in `i64` makes the parser fail.

use vstd::prelude::*;
use crate::combinators::many1;
use crate::combinators::spec_many;
use crate::combinators::spec_many1;
use crate::parser::Parser;
use crate::parser::result_view;
use crate::primitives::CharClass;
use crate::primitives::ClassParser;
use crate::primitives::is_decimal_digit;
use crate::primitives::lemma_class_parser_productive;

verus! {

/// The digit parser that `number` repeats.
pub open spec fn digit_parser() -> ClassParser {
    ClassParser { class: CharClass::Digit }
}

/// The numeric value of one decimal digit character.
pub open spec fn digit_value(c: char) -> int {
    c as u32 - 48
}

/// The value of a digit run under left-to-right base-10 accumulation:
/// each digit multiplies the accumulator by ten and is added on.
pub open spec fn digits_value(ds: Seq<char>) -> int
    decreases ds.len(),
{
    if ds.len() == 0 {
        0
    } else {
        digits_value(ds.drop_last()) * 10 + digit_value(ds.last())
    }
}

/// All characters of `ds` are decimal digits.
pub open spec fn all_digits(ds: Seq<char>) -> bool {
    forall|i: int| 0 <= i < ds.len() ==> is_decimal_digit(#[trigger] ds[i])
}

/// What `number` returns: the longest non-empty run of leading digits,
/// folded to its value, with the input after the run; failure when no digit
/// leads the input or when the run's value exceeds `i64::MAX`.
pub open spec fn spec_number(s: Seq<char>) -> Option<(i64, Seq<char>)> {
    match spec_many1(&digit_parser(), s) {
        Some(m) => if digits_value(m.0) <= i64::MAX {
            Some((digits_value(m.0) as i64, m.1))
        } else {
            None
        },
        None => None,
    }
}

/// The value of a digit run is never negative.
pub proof fn lemma_digits_value_nonneg(ds: Seq<char>)
    requires
        all_digits(ds),
    ensures
        digits_value(ds) >= 0,
    decreases ds.len(),
{
    if ds.len() > 0 {
        assert(all_digits(ds.drop_last()));
        lemma_digits_value_nonneg(ds.drop_last());
    }
}

/// Extending a digit run never lowers its value: the value of any prefix is
/// at most the value of the whole run.
pub proof fn lemma_digits_value_prefix_le(ds: Seq<char>, i: int)
    requires
        all_digits(ds),
        0 <= i <= ds.len(),
    ensures
        digits_value(ds.take(i)) <= digits_value(ds),
    decreases ds.len() - i,
{
    if i == ds.len() {
        assert(ds.take(i) =~= ds);
    } else {
        let next = ds.take(i + 1);
        assert(next.drop_last() =~= ds.take(i));
        assert(all_digits(ds.take(i)));
        lemma_digits_value_nonneg(ds.take(i));
        assert(digits_value(next) == digits_value(ds.take(i)) * 10 + digit_value(ds[i]));
        lemma_digits_value_prefix_le(ds, i + 1);
    }
}

/// Every value that `many(digit)` collects is a decimal digit.
pub proof fn lemma_many_digit_run_digits(s: Seq<char>)
    ensures
        all_digits(spec_many(&digit_parser(), s).0),
    decreases s.len(),
{
    let p = digit_parser();
    match p.spec_parse(s) {
        Some(vr) => {
            if vr.1.len() < s.len() {
                lemma_many_digit_run_digits(vr.1);
                assert(all_digits(seq![vr.0] + spec_many(&p, vr.1).0));
            } else {
                assert(all_digits(seq![vr.0]));
            }
        },
        None => {
        },
    }
}

/// Every value that `many1(digit)` collects is a decimal digit.
pub proof fn lemma_many1_digit_run_digits(s: Seq<char>)
    ensures
        spec_many1(&digit_parser(), s) matches Some(m) ==> all_digits(m.0),
{
    let p = digit_parser();
    match p.spec_parse(s) {
        Some(vr) => {
            lemma_many_digit_run_digits(vr.1);
            assert(all_digits(seq![vr.0] + spec_many(&p, vr.1).0));
        },
        None => {
        },
    }
}

/// Fold a run of digit characters into an `i64`, left to right, multiplying
/// by ten at each step; report a run whose value does not fit.
fn fold_digits(ds: &Vec<char>) -> (r: Option<i64>)
    requires
        all_digits(ds@),
    ensures
        digits_value(ds@) <= i64::MAX ==> r == Some(digits_value(ds@) as i64),
        digits_value(ds@) > i64::MAX ==> r is None,
{
    let mut acc: i64 = 0;
    let mut i: usize = 0;
    #[verifier::loop_isolation(false)]
    while i < ds.len()
        invariant
            0 <= i <= ds@.len(),
            acc == digits_value(ds@.take(i as int)),
            acc >= 0,
        decreases ds@.len() - i,
    {
        let c: char = ds[i];
        let d: u32 = c as u32 - 48;
        let d64: i64 = d as i64;
        proof {
            assert(ds@.take(i + 1).drop_last() =~= ds@.take(i as int));
            assert(digits_value(ds@.take(i + 1)) == acc * 10 + d64);
        }
        if acc > (i64::MAX - d64) / 10 {
            proof {
                assert(acc * 10 + d64 > i64::MAX);
                lemma_digits_value_prefix_le(ds@, i + 1);
            }
            return None;
        }
        proof {
            assert(acc * 10 + d64 <= i64::MAX);
        }
        acc = acc * 10 + d64;
        i = i + 1;
    }
    proof {
        assert(ds@.take(ds@.len() as int) =~= ds@);
    }
    Some(acc)
}

/// Parse one or more decimal digits and fold them into their base-10 value.
/// Fails when the input does not begin with a digit, and when the digit
/// run's value exceeds `i64::MAX`.
pub fn number<'a>(input: &'a [char]) -> (r: Option<(i64, &'a [char])>)
    ensures
        result_view(r) == spec_number(input@),
{
    let p = ClassParser { class: CharClass::Digit };
    proof {
        lemma_class_parser_productive(&p);
    }
    match many1(input, &p) {
        Some(vr) => {
            proof {
                lemma_many1_digit_run_digits(input@);
            }
            match fold_digits(&vr.0) {
                Some(n) => Some((n, vr.1)),
                None => None,
            }
        },
        None => None,
    }
}

/// The digit character for one decimal digit value.
pub open spec fn char_of_digit(d: int) -> char {
    if d == 0 {
        '0'
    } else if d == 1 {
        '1'
    } else if d == 2 {
        '2'
    } else if d == 3 {
        '3'
    } else if d == 4 {
        '4'
    } else if d == 5 {
        '5'
    } else if d == 6 {
        '6'
    } else if d == 7 {
        '7'
    } else if d == 8 {
        '8'
    } else {
        '9'
    }
}

/// The canonical decimal rendering of a non-negative integer: most
/// significant digit first, no leading zero (zero itself is `"0"`).
pub open spec fn spec_render_decimal(n: int) -> Seq<char>
    decreases n,
{
    if n < 10 {
        seq![char_of_digit(n)]
    } else {
        spec_render_decimal(n / 10) + seq![char_of_digit(n % 10)]
    }
}

/// The digit character of a digit value folds back to that value.
pub proof fn lemma_char_of_digit_value(d: int)
    requires
        0 <= d <= 9,
    ensures
        is_decimal_digit(char_of_digit(d)),
        digit_value(char_of_digit(d)) == d,
{
}

/// A decimal rendering is a non-empty run of digit characters.
pub proof fn lemma_render_decimal_digits(n: int)
    requires
        n >= 0,
    ensures
        spec_render_decimal(n).len() >= 1,
        all_digits(spec_render_decimal(n)),
    decreases n,
{
    if n < 10 {
        lemma_char_of_digit_value(n);
        assert(all_digits(seq![char_of_digit(n)]));
    } else {
        lemma_render_decimal_digits(n / 10);
        lemma_char_of_digit_value(n % 10);
        assert(all_digits(spec_render_decimal(n / 10) + seq![char_of_digit(n % 10)]));
    }
}

/// Folding the decimal rendering of `n` yields `n` back.
pub proof fn lemma_render_decimal_value(n: int)
    requires
        n >= 0,
    ensures
        digits_value(spec_render_decimal(n)) == n,
    decreases n,
{
    if n < 10 {
        lemma_char_of_digit_value(n);
        let s = seq![char_of_digit(n)];
        assert(spec_render_decimal(n) == s);
        assert(s.len() == 1);
        assert(s.drop_last() =~= Seq::<char>::empty());
        assert(digits_value(s.drop_last()) == 0);
        assert(s.last() == char_of_digit(n));
        assert(digits_value(s) == digits_value(s.drop_last()) * 10 + digit_value(s.last()));
    } else {
        lemma_render_decimal_value(n / 10);
        lemma_char_of_digit_value(n % 10);
        let s = spec_render_decimal(n / 10) + seq![char_of_digit(n % 10)];
        assert(spec_render_decimal(n) == s);
        assert(s.drop_last() =~= spec_render_decimal(n / 10));
        assert(s.last() == char_of_digit(n % 10));
        assert(s.len() > 0);
        assert(digits_value(s) == digits_value(s.drop_last()) * 10 + digit_value(s.last()));
        assert(n == (n / 10) * 10 + n % 10);
    }
}

/// On an input made of digits alone, `many(digit)` consumes everything.
pub proof fn lemma_many_digits_consume_all(s: Seq<char>)
    requires
        all_digits(s),
    ensures
        spec_many(&digit_parser(), s) == (s, Seq::<char>::empty()),
    decreases s.len(),
{
    let p = digit_parser();
    if s.len() == 0 {
        assert(spec_many(&p, s) == (Seq::<char>::empty(), s));
        assert(s =~= Seq::<char>::empty());
    } else {
        assert(is_decimal_digit(s[0]));
        assert(all_digits(s.drop_first()));
        lemma_many_digits_consume_all(s.drop_first());
        assert(seq![s[0]] + s.drop_first() =~= s);
    }
}

/// Round trip: rendering a non-negative integer in decimal and parsing the
/// rendering with `number` yields that integer back, with nothing left over.
pub proof fn lemma_number_render_roundtrip(n: int)
    requires
        0 <= n <= i64::MAX,
    ensures
        spec_number(spec_render_decimal(n)) == Some((n as i64, Seq::<char>::empty())),
{
    let s = spec_render_decimal(n);
    let p = digit_parser();
    lemma_render_decimal_digits(n);
    lemma_render_decimal_value(n);
    assert(is_decimal_digit(s[0]));
    lemma_many_digits_consume_all(s.drop_first());
    assert(seq![s[0]] + s.drop_first() =~= s);
}

/// The digit character for one decimal digit value.
fn char_of_digit_exec(d: u32) -> (c: char)
    requires
        d <= 9,
    ensures
        c == char_of_digit(d as int),
{
    match d {
        0 => '0',
        1 => '1',
        2 => '2',
        3 => '3',
        4 => '4',
        5 => '5',
        6 => '6',
        7 => '7',
        8 => '8',
        _ => '9',
    }
}

/// Render a non-negative integer in decimal: most significant digit first,
/// no leading zero.
pub fn render_decimal(n: i64) -> (v: Vec<char>)
    requires
        n >= 0,
    ensures
        v@ == spec_render_decimal(n as int),
    decreases n,
{
    if n < 10 {
        let c = char_of_digit_exec(n as u32);
        let v: Vec<char> = vec![c];
        proof {
            assert(v@ =~= seq![char_of_digit(n as int)]);
        }
        v
    } else {
        let mut v = render_decimal(n / 10);
        let c = char_of_digit_exec((n % 10) as u32);
        v.push(c);
        proof {
            assert(v@ =~= spec_render_decimal(n as int / 10) + seq![char_of_digit(n as int % 10)]);
        }
        v
    }
}

} // verus!
