//! Recognizing commands in the text of a message.
//!
//! A command starts, after any blanks, with `!` and a keyword. Text that
//! does not start so is no command and is passed over in silence; once a
//! keyword is recognized, what follows it must fit that command.

use crate::cofd::{chance_pool, create_chance_die, parse_dice_pool_from, pool_from};
use crate::commands::{Command, CommandError, CommandFailure, CommandModel};
use crate::dice::{expression_from, parse_expression_from};
use crate::help::{parse_help_topic_from, topic_named};
use crate::parser::{failure_text, ParseFailure};
use crate::text::{chars_of, skip_blank, skip_blanks, string_of, trimmed};
use vstd::prelude::*;

verus! {

/// Whether `c` is alphabetic, as `char::is_alphabetic` says.
pub uninterp spec fn alphabetic(c: char) -> bool;

/// `char::is_alphabetic` decides by the character alone.
pub assume_specification[ char::is_alphabetic ](c: char) -> (b: bool)
    ensures
        b == alphabetic(c),
;

/// The commands that a keyword can ask for.
#[derive(Debug, Clone, Copy, PartialEq, Eq, Structural)]
pub enum Keyword {
    /// `r` or `roll`: a dice expression.
    Roll,
    /// `rp` or `pool`: a dice pool.
    Pool,
    /// `chance`: a chance die.
    Chance,
    /// `help`: a help text.
    Help,
}

/// What a message's text is taken for.
#[derive(Debug, Clone, PartialEq, Eq)]
pub enum Classified {
    /// The text is no command.
    NotACommand,
    /// The text starts with a keyword; the rest of it follows.
    Recognized(Keyword, String),
}

/// Whether `word` stands in `s` at `at`.
pub open spec fn stands_at(s: Seq<char>, at: int, word: Seq<char>) -> bool {
    0 <= at && at + word.len() <= s.len() && s.subrange(at, at + word.len()) == word
}

/// The end of the run of alphabetic characters that starts at `i`.
pub open spec fn letters_end(s: Seq<char>, i: int) -> int
    decreases s.len() - i,
{
    if 0 <= i < s.len() && alphabetic(s[i]) {
        letters_end(s, i + 1)
    } else {
        i
    }
}

/// The command that a word of letters asks for.
pub open spec fn keyword_named(word: Seq<char>) -> Option<Keyword> {
    if word == "r"@ || word == "roll"@ {
        Some(Keyword::Roll)
    } else if word == "rp"@ || word == "pool"@ {
        Some(Keyword::Pool)
    } else {
        None
    }
}

/// The keyword that `s` starts with and the position after it, if `s` is a
/// command: after any blanks comes `!`, and right after it `chance`, `help`,
/// or a run of letters that is one of `r`, `roll`, `rp` and `pool`.
pub open spec fn recognized(s: Seq<char>) -> Option<(Keyword, int)> {
    let bang = skip_blank(s, 0);
    if !(0 <= bang < s.len() && s[bang] == '!') {
        None
    } else if stands_at(s, bang + 1, "chance"@) {
        Some((Keyword::Chance, bang + 1 + "chance"@.len()))
    } else if stands_at(s, bang + 1, "help"@) {
        Some((Keyword::Help, bang + 1 + "help"@.len()))
    } else {
        let end = letters_end(s, bang + 1);
        match keyword_named(s.subrange(bang + 1, end)) {
            Some(keyword) => Some((keyword, end)),
            None => None,
        }
    }
}

/// The command that `s` spells: none if `s` is no command, and a failure if
/// what follows the keyword does not fit it. What follows `chance` is not
/// read.
pub open spec fn command_of(s: Seq<char>) -> Result<Option<CommandModel>, ParseFailure> {
    match recognized(s) {
        None => Ok(None),
        Some((Keyword::Roll, rest)) => match expression_from(s, rest) {
            Ok(expression) => Ok(Some(CommandModel::Roll(expression))),
            Err(failure) => Err(failure),
        },
        Some((Keyword::Pool, rest)) => match pool_from(s, rest) {
            Ok(pool) => Ok(Some(CommandModel::PoolRoll(pool))),
            Err(failure) => Err(failure),
        },
        Some((Keyword::Chance, _)) => Ok(Some(CommandModel::PoolRoll(chance_pool()))),
        Some((Keyword::Help, rest)) => Ok(Some(CommandModel::Help(topic_named(trimmed(s, rest))))),
    }
}

/// A text whose first character after any blanks is not `!` is no command.
pub proof fn lemma_plain_text_is_no_command(s: Seq<char>)
    requires
        !(0 <= skip_blank(s, 0) < s.len() && s[skip_blank(s, 0)] == '!'),
    ensures
        recognized(s) is None,
        command_of(s) == Ok::<Option<CommandModel>, ParseFailure>(None),
{
}

/// The same text is always taken for the same command, or rejected for the
/// same reason.
pub proof fn lemma_command_is_determined(first: Seq<char>, second: Seq<char>)
    requires
        first == second,
    ensures
        recognized(first) == recognized(second),
        command_of(first) == command_of(second),
{
}

/// Whether `word` stands in `s` at `at`.
fn word_at(s: &[char], at: usize, word: &str) -> (r: Option<usize>)
    requires
        at <= s.len(),
    ensures
        match r {
            Some(end) => stands_at(s@, at as int, word@) && end == at + word@.len(),
            None => !stands_at(s@, at as int, word@),
        },
{
    let w = chars_of(word);
    if w.len() > s.len() - at {
        return None;
    }
    let mut k: usize = 0;
    while k < w.len()
        invariant
            k <= w.len(),
            at + w.len() <= s.len(),
            w@ == word@,
            forall|j: int| 0 <= j < k ==> s@[at + j] == w@[j],
        decreases w.len() - k,
    {
        if s[at + k] != w[k] {
            assert(s@.subrange(at as int, at + w.len())[k as int] != w@[k as int]);
            return None;
        }
        k = k + 1;
    }
    assert(s@.subrange(at as int, at + w.len()) =~= w@);
    Some(at + w.len())
}

/// Moves past the letters at `i`.
fn skip_letters(s: &[char], i: usize) -> (j: usize)
    requires
        i <= s.len(),
    ensures
        j == letters_end(s@, i as int),
        i <= j <= s.len(),
{
    let mut j: usize = i;
    while j < s.len() && s[j].is_alphabetic()
        invariant
            i <= j <= s.len(),
            letters_end(s@, i as int) == letters_end(s@, j as int),
        decreases s.len() - j,
    {
        j = j + 1;
    }
    j
}

/// The command that a word of letters asks for.
pub fn keyword_of(word: &[char]) -> (r: Option<Keyword>)
    ensures
        r == keyword_named(word@),
{
    assert(word@.subrange(0, word@.len() as int) == word@);
    let roll = word_at(word, 0, "r") == Some(word.len()) || word_at(word, 0, "roll") == Some(
        word.len(),
    );
    let pool = word_at(word, 0, "rp") == Some(word.len()) || word_at(word, 0, "pool") == Some(
        word.len(),
    );
    if roll {
        Some(Keyword::Roll)
    } else if pool {
        Some(Keyword::Pool)
    } else {
        None
    }
}

/// Finds the keyword that `s` starts with, and where the rest begins.
fn recognize(s: &[char]) -> (r: Option<(Keyword, usize)>)
    ensures
        match r {
            Some((keyword, rest)) => recognized(s@) == Some((keyword, rest as int)) && rest
                <= s.len(),
            None => recognized(s@) is None,
        },
{
    let bang = skip_blanks(s, 0);
    if bang >= s.len() || s[bang] != '!' {
        return None;
    }
    if let Some(rest) = word_at(s, bang + 1, "chance") {
        return Some((Keyword::Chance, rest));
    }
    if let Some(rest) = word_at(s, bang + 1, "help") {
        return Some((Keyword::Help, rest));
    }
    let end = skip_letters(s, bang + 1);
    match keyword_of(vstd::slice::slice_subrange(s, bang + 1, end)) {
        Some(keyword) => Some((keyword, end)),
        None => None,
    }
}

/// Tells a command from other text: gives the keyword that the text starts
/// with and what follows it.
pub fn classify(text: &str) -> (r: Classified)
    ensures
        match r {
            Classified::NotACommand => recognized(text@) is None,
            Classified::Recognized(keyword, rest) => recognized(text@) matches Some((k, at))
                && k == keyword && rest@ == text@.subrange(at, text@.len() as int),
        },
{
    let chars = chars_of(text);
    match recognize(chars.as_slice()) {
        None => Classified::NotACommand,
        Some((keyword, rest)) => Classified::Recognized(
            keyword,
            string_of(chars.as_slice(), rest, chars.len()),
        ),
    }
}

/// Reads the command in a message's text: `Ok(None)` for text that is no
/// command, and a failure for a command that cannot be read.
pub fn parse_command(input: &str) -> (r: Result<Option<Command>, CommandError>)
    ensures
        match r {
            Ok(Some(command)) => command_of(input@) == Ok::<Option<CommandModel>, ParseFailure>(
                Some(command@),
            ),
            Ok(None) => command_of(input@) == Ok::<Option<CommandModel>, ParseFailure>(None),
            Err(e) => command_of(input@) matches Err(failure) && e@
                == CommandFailure::InvalidCommand(failure_text(failure)),
        },
{
    let chars = chars_of(input);
    let s = chars.as_slice();
    match recognize(s) {
        None => Ok(None),
        Some((Keyword::Roll, rest)) => match parse_expression_from(s, rest) {
            Ok(expression) => Ok(Some(Command::Roll(expression))),
            Err(failure) => Err(CommandError::invalid(failure)),
        },
        Some((Keyword::Pool, rest)) => match parse_dice_pool_from(s, rest) {
            Ok(pool) => Ok(Some(Command::PoolRoll(pool))),
            Err(failure) => Err(CommandError::invalid(failure)),
        },
        Some((Keyword::Chance, _)) => Ok(Some(Command::PoolRoll(create_chance_die()))),
        Some((Keyword::Help, rest)) => Ok(Some(Command::Help(parse_help_topic_from(s, rest)))),
    }
}

} // verus!
