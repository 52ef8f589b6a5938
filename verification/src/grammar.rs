//! What it means for a rule of the notation to match a text.
//!
//! Every rule is a specification function from a text and an index in it to an
//! [`Outcome`]. The executable parsers are proved against these functions with
//! the predicate [`parsed`].
use crate::input::{ErrorKind, Input, ParseError};
use vstd::prelude::*;

verus! {

/// What a rule yields when it is tried at an index of a text.
pub enum Outcome<T> {
    /// The rule matched the `len` characters from the index on and built
    /// `value` from them.
    Match { value: T, len: nat },
    /// The rule cannot match; `at` is the index at which this was found.
    Fail { kind: ErrorKind, at: int },
}

/// Relates one call of a parser to the outcome of its rule.
///
/// The text is left as it was. If the rule matches, the parser returns a
/// value whose view is the rule's value, and the cursor has moved behind the
/// match. If the rule fails, the parser returns the rule's error, and the
/// cursor stands where the failure was found.
pub open spec fn parsed<T: DeepView>(
    before: Input,
    after: Input,
    result: Result<T, ParseError>,
    outcome: Outcome<T::V>,
) -> bool {
    &&& after.text() == before.text()
    &&& match outcome {
        Outcome::Match { value, len } => {
            &&& result is Ok
            &&& result->Ok_0.deep_view() == value
            &&& after.pos() == before.pos() + len
        },
        Outcome::Fail { kind, at } => {
            &&& result == Err::<T, ParseError>(ParseError { kind, pos: at as usize })
            &&& after.pos() == at
        },
    }
}

} // verus!
