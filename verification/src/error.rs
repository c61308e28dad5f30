//! Everything that can keep a message from being answered with a result.

use crate::commands::{command_error_text, CommandError, CommandFailure};
use crate::db::{data_error_text, DataError, DataFailure};
use crate::roll::{RollError, RollFailure};
use crate::text::{decimal, push_decimal};
use vstd::prelude::*;

verus! {

/// A failure of the bot while it handles one message.
#[derive(Debug, Clone, PartialEq, Eq)]
pub enum BotError {
    /// The message is no command, or a command that cannot be read.
    CommandError(CommandError),
    /// The variable store failed or does not hold what was asked for.
    DataError(DataError),
    /// The dice could not be rolled.
    RollError(RollError),
    /// The message is too old to be answered.
    ShouldNotProcessError,
}

/// [`BotError`] with its texts as sequences of characters.
pub enum BotFailure {
    CommandError(CommandFailure),
    DataError(DataFailure),
    RollError(RollFailure),
    ShouldNotProcessError,
}

impl View for BotError {
    type V = BotFailure;

    open spec fn view(&self) -> BotFailure {
        match self {
            BotError::CommandError(e) => BotFailure::CommandError(e@),
            BotError::DataError(e) => BotFailure::DataError(e@),
            BotError::RollError(e) => BotFailure::RollError(e@),
            BotError::ShouldNotProcessError => BotFailure::ShouldNotProcessError,
        }
    }
}

/// The sentence for each failure of a roll.
pub open spec fn roll_error_text(e: RollFailure) -> Seq<char> {
    match e {
        RollFailure::UnsetVariable(name) => "variable is not set: "@ + name,
        RollFailure::DiceExhausted { sides } => "no dice left; next is a die with sides: "@
            + decimal(sides as nat),
        RollFailure::InvalidDraw { value, sides } => "a die with sides: "@ + decimal(sides as nat)
            + " cannot show "@ + decimal(value as nat),
        RollFailure::Overflow => "the result is too large"@,
    }
}

/// The sentence for each failure.
pub open spec fn bot_error_text(e: BotFailure) -> Seq<char> {
    match e {
        BotFailure::CommandError(inner) => command_error_text(inner),
        BotFailure::DataError(inner) => "database error: "@ + data_error_text(inner),
        BotFailure::RollError(inner) => "dice error: "@ + roll_error_text(inner),
        BotFailure::ShouldNotProcessError => "the message should not be processed"@,
    }
}

/// The failure that a failed roll is reported as: a variable that is not set
/// is missing from the variable store, everything else is a failure of the
/// dice.
pub open spec fn failure_of_roll(e: RollFailure) -> BotFailure {
    match e {
        RollFailure::UnsetVariable(name) => BotFailure::DataError(
            DataFailure::KeyDoesNotExist(name),
        ),
        other => BotFailure::RollError(other),
    }
}

/// The sentence for a failure of a roll.
pub fn roll_error_message(e: &RollError) -> (text: String)
    ensures
        text@ == roll_error_text(e@),
{
    match e {
        RollError::UnsetVariable(name) => {
            let mut text = "variable is not set: ".to_owned();
            text.append(name.as_str());
            text
        },
        RollError::DiceExhausted { sides } => {
            let mut text = "no dice left; next is a die with sides: ".to_owned();
            push_decimal(&mut text, *sides as u64);
            text
        },
        RollError::InvalidDraw { value, sides } => {
            let mut text = "a die with sides: ".to_owned();
            push_decimal(&mut text, *sides as u64);
            text.append(" cannot show ");
            push_decimal(&mut text, *value as u64);
            text
        },
        RollError::Overflow => "the result is too large".to_owned(),
    }
}

impl BotError {
    /// The sentence for this failure.
    pub fn message(&self) -> (text: String)
        ensures
            text@ == bot_error_text(self@),
    {
        match self {
            BotError::CommandError(inner) => inner.message(),
            BotError::DataError(inner) => {
                let mut text = "database error: ".to_owned();
                text.append(inner.message().as_str());
                text
            },
            BotError::RollError(inner) => {
                let mut text = "dice error: ".to_owned();
                text.append(roll_error_message(inner).as_str());
                text
            },
            BotError::ShouldNotProcessError => "the message should not be processed".to_owned(),
        }
    }

    /// The failure that a failed roll is reported as.
    pub fn from_roll(e: RollError) -> (r: BotError)
        ensures
            r@ == failure_of_roll(e@),
    {
        match e {
            RollError::UnsetVariable(name) => BotError::DataError(DataError::KeyDoesNotExist(name)),
            other => BotError::RollError(other),
        }
    }
}

} // verus!
