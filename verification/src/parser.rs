//! Why a command's text was rejected.

use vstd::prelude::*;

verus! {

/// The reason a recognized command could not be parsed.
#[derive(Debug, Clone, Copy, PartialEq, Eq, Structural)]
pub enum ParseFailure {
    /// A number, a die or a variable was expected.
    MissingTerm,
    /// A number does not fit in 32 bits.
    NumberTooLarge,
    /// Zero dice were asked for.
    ZeroDice,
    /// A die with zero sides was asked for.
    ZeroSides,
    /// No number of sides follows `d`.
    MissingSides,
    /// No name follows `$`.
    MissingName,
    /// Something other than `+` or `-` follows a term.
    UnexpectedText,
    /// A pool does not start with its number of dice.
    MissingPoolSize,
    /// A word after the pool's size is no modifier.
    UnknownModifier,
    /// The rote flag or the again rule is given twice.
    RepeatedModifier,
}

/// The sentence shown to the user for each reason.
pub open spec fn failure_text(failure: ParseFailure) -> Seq<char> {
    match failure {
        ParseFailure::MissingTerm => "expected a number, a die or a variable"@,
        ParseFailure::NumberTooLarge => "number too large"@,
        ParseFailure::ZeroDice => "at least one die must be rolled"@,
        ParseFailure::ZeroSides => "a die needs at least one side"@,
        ParseFailure::MissingSides => "expected the number of sides after 'd'"@,
        ParseFailure::MissingName => "expected a variable name after '$'"@,
        ParseFailure::UnexpectedText => "expected '+' or '-'"@,
        ParseFailure::MissingPoolSize => "expected the number of dice in the pool"@,
        ParseFailure::UnknownModifier => "unknown pool modifier"@,
        ParseFailure::RepeatedModifier => "pool modifier given twice"@,
    }
}

impl ParseFailure {
    /// The sentence shown to the user for this reason.
    pub fn describe(&self) -> (text: &'static str)
        ensures
            text@ == failure_text(*self),
    {
        match self {
            ParseFailure::MissingTerm => "expected a number, a die or a variable",
            ParseFailure::NumberTooLarge => "number too large",
            ParseFailure::ZeroDice => "at least one die must be rolled",
            ParseFailure::ZeroSides => "a die needs at least one side",
            ParseFailure::MissingSides => "expected the number of sides after 'd'",
            ParseFailure::MissingName => "expected a variable name after '$'",
            ParseFailure::UnexpectedText => "expected '+' or '-'",
            ParseFailure::MissingPoolSize => "expected the number of dice in the pool",
            ParseFailure::UnknownModifier => "unknown pool modifier",
            ParseFailure::RepeatedModifier => "pool modifier given twice",
        }
    }
}

} // verus!
