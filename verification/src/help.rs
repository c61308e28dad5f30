//! Help texts and the topics they are filed under.

use crate::text::{chars_of, lowered, to_lower, trim_bounds, trimmed};
use vstd::prelude::*;

verus! {

/// What the user asks help for.
#[derive(Debug, Clone, Copy, PartialEq, Eq, Structural)]
pub enum HelpTopic {
    /// Rolling dice expressions.
    RollingDice,
    /// Rolling dice pools and chance dice.
    DicePool,
    /// Everything else: the list of commands.
    General,
}

/// The topic filed under `name`. Case does not matter, and a name that is
/// not known stands for the general help.
pub open spec fn topic_named(name: Seq<char>) -> HelpTopic {
    let word = lowered(name);
    if word == "dice"@ || word == "roll"@ {
        HelpTopic::RollingDice
    } else if word == "pool"@ || word == "dicepool"@ || word == "chance"@ {
        HelpTopic::DicePool
    } else {
        HelpTopic::General
    }
}

/// The help text for each topic.
pub open spec fn help_text(topic: HelpTopic) -> Seq<char> {
    match topic {
        HelpTopic::RollingDice =>
            "!roll <expression> or !r <expression>\nAn expression adds and subtracts dice, numbers and variables: 2d6+3, d20-$penalty."@,
        HelpTopic::DicePool =>
            "!pool <dice> [rote] [8-again|9-again|10-again|no-again] or !rp ...\nRolls ten-sided dice and counts those showing 8 or more.\n!chance rolls a chance die."@,
        HelpTopic::General =>
            "Commands: !roll, !pool, !chance, !help.\nAsk for more with !help dice or !help pool."@,
    }
}

impl HelpTopic {
    /// The help text for this topic.
    pub fn message(&self) -> (text: &'static str)
        ensures
            text@ == help_text(*self),
    {
        match self {
            HelpTopic::RollingDice =>
                "!roll <expression> or !r <expression>\nAn expression adds and subtracts dice, numbers and variables: 2d6+3, d20-$penalty.",
            HelpTopic::DicePool =>
                "!pool <dice> [rote] [8-again|9-again|10-again|no-again] or !rp ...\nRolls ten-sided dice and counts those showing 8 or more.\n!chance rolls a chance die.",
            HelpTopic::General =>
                "Commands: !roll, !pool, !chance, !help.\nAsk for more with !help dice or !help pool.",
        }
    }
}

/// Whether `s[from..to]`, in lower case, is `word`.
fn lowered_is(s: &[char], from: usize, to: usize, word: &str) -> (b: bool)
    requires
        from <= to <= s.len(),
    ensures
        b == (lowered(s@.subrange(from as int, to as int)) == word@),
{
    let w = chars_of(word);
    if w.len() != to - from {
        return false;
    }
    let mut k: usize = 0;
    while k < w.len()
        invariant
            k <= w.len(),
            w.len() == to - from,
            from <= to <= s.len(),
            w@ == word@,
            forall|j: int| 0 <= j < k ==> crate::text::lower(s@[from + j]) == w@[j],
        decreases w.len() - k,
    {
        if to_lower(s[from + k]) != w[k] {
            assert(lowered(s@.subrange(from as int, to as int))[k as int] != w@[k as int]);
            return false;
        }
        k = k + 1;
    }
    assert(lowered(s@.subrange(from as int, to as int)) =~= w@);
    true
}

/// The topic that `s[from..]` names, blanks around it aside.
pub(crate) fn parse_help_topic_from(s: &[char], from: usize) -> (topic: HelpTopic)
    requires
        from <= s.len(),
    ensures
        topic == topic_named(trimmed(s@, from as int)),
{
    let (start, end) = trim_bounds(s, from);
    if lowered_is(s, start, end, "dice") || lowered_is(s, start, end, "roll") {
        HelpTopic::RollingDice
    } else if lowered_is(s, start, end, "pool") || lowered_is(s, start, end, "dicepool")
        || lowered_is(s, start, end, "chance") {
        HelpTopic::DicePool
    } else {
        HelpTopic::General
    }
}

/// The topic that `text` names, blanks around it aside.
pub fn parse_help_topic(text: &str) -> (topic: HelpTopic)
    ensures
        topic == topic_named(trimmed(text@, 0)),
{
    let chars = chars_of(text);
    parse_help_topic_from(chars.as_slice(), 0)
}

} // verus!
