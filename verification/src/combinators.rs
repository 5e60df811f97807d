//! The combinators: `or_` (alternative) and `many_`/`many`/`many1`
//! (repetition). They compose parsers through the `Parser` trait alone.

use vstd::prelude::*;
use crate::parser::Parser;
use crate::parser::is_suffix_of;
use crate::parser::lemma_suffix_reflexive;
use crate::parser::lemma_suffix_transitive;
use crate::parser::productive;
use crate::parser::result_view;

verus! {

/// What `or_(p, q)` returns: `p`'s outcome if `p` succeeds, else `q`'s
/// outcome on the same, untouched input.
pub open spec fn spec_or<T, P: Parser<T>, Q: Parser<T>>(
    p: &P,
    q: &Q,
    s: Seq<char>,
) -> Option<(T, Seq<char>)> {
    if p.spec_parse(s) is Some {
        p.spec_parse(s)
    } else {
        q.spec_parse(s)
    }
}

/// Try `p`; if it fails, try `q` on the original input. Failure never
/// consumes, so `q` sees exactly the input `p` saw.
pub fn or_<'a, T, P: Parser<T>, Q: Parser<T>>(
    input: &'a [char],
    p: &P,
    q: &Q,
) -> (r: Option<(T, &'a [char])>)
    ensures
        result_view(r) == spec_or(p, q, input@),
{
    match p.parse(input) {
        Some(vr) => Some(vr),
        None => q.parse(input),
    }
}

/// `or(p, q)` returns `p`'s result whenever `p` succeeds, and `q`'s result
/// on the original input whenever `p` fails.
pub proof fn lemma_or_first_wins<T, P: Parser<T>, Q: Parser<T>>(p: &P, q: &Q, s: Seq<char>)
    ensures
        p.spec_parse(s) is Some ==> spec_or(p, q, s) == p.spec_parse(s),
        p.spec_parse(s) is None ==> spec_or(p, q, s) == q.spec_parse(s),
{
}

/// The alternative of two parsers as a first-class value.
pub struct OrParser<P, Q> {
    pub first: P,
    pub second: Q,
}

impl<T, P: Parser<T>, Q: Parser<T>> Parser<T> for OrParser<P, Q> {
    open spec fn spec_parse(&self, s: Seq<char>) -> Option<(T, Seq<char>)> {
        spec_or(&self.first, &self.second, s)
    }

    proof fn lemma_remainder_is_suffix(&self, s: Seq<char>) {
        self.first.lemma_remainder_is_suffix(s);
        self.second.lemma_remainder_is_suffix(s);
    }

    fn parse<'a>(&self, s: &'a [char]) -> (r: Option<(T, &'a [char])>) {
        or_(s, &self.first, &self.second)
    }
}

/// The spec-level image of an exec result that carries a vector of parsed
/// values.
pub open spec fn vec_result_view<T>(r: Option<(Vec<T>, &[char])>) -> Option<(Seq<T>, Seq<char>)> {
    match r {
        Some(vr) => Some((vr.0@, vr.1@)),
        None => None,
    }
}

/// What repeated application of `p` collects: the values of the successes,
/// in order, and the input at the point of `p`'s first failure. It never
/// fails. A success of `p` that consumes nothing stops the recursion here
/// so that the definition is total; `many` demands a productive parser, on
/// which that case never arises.
pub open spec fn spec_many<T, P: Parser<T>>(p: &P, s: Seq<char>) -> (Seq<T>, Seq<char>)
    decreases s.len(),
{
    match p.spec_parse(s) {
        Some(vr) => if vr.1.len() < s.len() {
            let m = spec_many(p, vr.1);
            (seq![vr.0] + m.0, m.1)
        } else {
            (seq![vr.0], vr.1)
        },
        None => (Seq::<T>::empty(), s),
    }
}

/// What `many1(p)` returns: `p`'s own failure if the first attempt fails,
/// else the first value followed by everything `many(p)` collects on the
/// remainder.
pub open spec fn spec_many1<T, P: Parser<T>>(p: &P, s: Seq<char>) -> Option<(Seq<T>, Seq<char>)> {
    match p.spec_parse(s) {
        Some(vr) => {
            let m = spec_many(p, vr.1);
            Some((seq![vr.0] + m.0, m.1))
        },
        None => None,
    }
}

/// Apply `p` repeatedly, appending each parsed value to `result`, until `p`
/// first fails; return the accumulated values and the input at that point.
/// Never fails.
pub fn many_<'a, T, P: Parser<T>>(input: &'a [char], p: &P, result: Vec<T>) -> (r: Option<
    (Vec<T>, &'a [char]),
>)
    requires
        productive(p),
    ensures
        vec_result_view(r) == Some((result@ + spec_many(p, input@).0, spec_many(p, input@).1)),
{
    let ghost init: Seq<T> = result@;
    let mut acc: Vec<T> = result;
    let mut cur: &'a [char] = input;
    #[verifier::loop_isolation(false)]
    loop
        invariant
            productive(p),
            spec_many(p, input@).1 == spec_many(p, cur@).1,
            init + spec_many(p, input@).0 == acc@ + spec_many(p, cur@).0,
        decreases cur@.len(),
    {
        match p.parse(cur) {
            Some(vr) => {
                proof {
                    assert(spec_many(p, cur@).0 == seq![vr.0] + spec_many(p, vr.1@).0);
                    assert((acc@ + seq![vr.0]) + spec_many(p, vr.1@).0
                        == acc@ + (seq![vr.0] + spec_many(p, vr.1@).0));
                }
                acc.push(vr.0);
                cur = vr.1;
            },
            None => {
                proof {
                    assert(acc@ + spec_many(p, cur@).0 =~= acc@);
                }
                return Some((acc, cur));
            },
        }
    }
}

/// Apply `p` zero or more times: the values of every success, in order, and
/// the input where `p` first failed. Never fails; zero successes yield an
/// empty vector and the input unchanged.
pub fn many<'a, T, P: Parser<T>>(input: &'a [char], p: &P) -> (r: Option<(Vec<T>, &'a [char])>)
    requires
        productive(p),
    ensures
        vec_result_view(r) == Some(spec_many(p, input@)),
{
    let empty: Vec<T> = Vec::new();
    let r = many_(input, p, empty);
    proof {
        assert(Seq::<T>::empty() + spec_many(p, input@).0 =~= spec_many(p, input@).0);
    }
    r
}

/// Apply `p` one or more times: fails exactly when the first application of
/// `p` fails; otherwise the first value followed by what `many(p)` collects
/// on the remainder.
pub fn many1<'a, T, P: Parser<T>>(input: &'a [char], p: &P) -> (r: Option<(Vec<T>, &'a [char])>)
    requires
        productive(p),
    ensures
        vec_result_view(r) == spec_many1(p, input@),
{
    match p.parse(input) {
        Some(vr) => {
            let first: Vec<T> = vec![vr.0];
            proof {
                assert(first@ =~= seq![vr.0]);
            }
            many_(vr.1, p, first)
        },
        None => None,
    }
}

/// `many(p)` never fails: where `p` does not match at all, it collects the
/// empty sequence and leaves the input unchanged.
pub proof fn lemma_many_nothing_matched<T, P: Parser<T>>(p: &P, s: Seq<char>)
    requires
        p.spec_parse(s) is None,
    ensures
        spec_many(p, s) == (Seq::<T>::empty(), s),
{
}

/// `many(p)` stops exactly where `p` fails, so applying it again to the
/// remainder it returns collects nothing and leaves that remainder
/// unchanged.
pub proof fn lemma_many_idempotent_at_stop<T, P: Parser<T>>(p: &P, s: Seq<char>)
    requires
        productive(p),
    ensures
        p.spec_parse(spec_many(p, s).1) is None,
        spec_many(p, spec_many(p, s).1) == (Seq::<T>::empty(), spec_many(p, s).1),
    decreases s.len(),
{
    match p.spec_parse(s) {
        Some(vr) => {
            lemma_many_idempotent_at_stop(p, vr.1);
        },
        None => {
        },
    }
}

/// The input that `many(p)` leaves over is a suffix of the input it was
/// given: repetition only ever re-slices the cursor forward.
pub proof fn lemma_many_remainder_is_suffix<T, P: Parser<T>>(p: &P, s: Seq<char>)
    ensures
        is_suffix_of(spec_many(p, s).1, s),
    decreases s.len(),
{
    match p.spec_parse(s) {
        Some(vr) => {
            p.lemma_remainder_is_suffix(s);
            if vr.1.len() < s.len() {
                lemma_many_remainder_is_suffix(p, vr.1);
                lemma_suffix_transitive(spec_many(p, vr.1).1, vr.1, s);
            }
        },
        None => {
            lemma_suffix_reflexive(s);
        },
    }
}

/// The input that `many1(p)` leaves over on success is a suffix of the
/// input it was given.
pub proof fn lemma_many1_remainder_is_suffix<T, P: Parser<T>>(p: &P, s: Seq<char>)
    ensures
        spec_many1(p, s) matches Some(m) ==> is_suffix_of(m.1, s),
{
    match p.spec_parse(s) {
        Some(vr) => {
            p.lemma_remainder_is_suffix(s);
            lemma_many_remainder_is_suffix(p, vr.1);
            lemma_suffix_transitive(spec_many(p, vr.1).1, vr.1, s);
        },
        None => {
        },
    }
}

/// `many1(p)` fails iff `p` fails on the first attempt; otherwise its
/// result is the first parsed value prepended to `many(p)`'s sequence on
/// the remainder after that first success, with `many(p)`'s remainder.
pub proof fn lemma_many1_first_then_rest<T, P: Parser<T>>(p: &P, s: Seq<char>)
    ensures
        spec_many1(p, s) is None <==> p.spec_parse(s) is None,
        p.spec_parse(s) matches Some(vr) ==> spec_many1(p, s) == Some(
            (seq![vr.0] + spec_many(p, vr.1).0, spec_many(p, vr.1).1),
        ),
{
}

} // verus!
