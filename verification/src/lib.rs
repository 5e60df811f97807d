//! A minimal parser-combinator library over character slices.
//!
//! A parser consumes an immutable view of the remaining input and either
//! succeeds with a value plus the unconsumed suffix, or fails without
//! consuming anything. Combinators (`or_`, `many`, `many1`) compose parsers
//! without knowing their internals; composite parsers (`number`, `parse`)
//! show how small grammars are built from the primitives.

pub mod combinators;
pub mod grammar;
pub mod number;
pub mod parser;
pub mod primitives;
