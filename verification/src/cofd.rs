//! Dice pools: a number of ten-sided dice, each of which succeeds on 8 or
//! more.
//!
//! A pool is written as its size followed by modifiers in any order:
//! `rote`, and one of `8-again`, `9-again`, `10-again`, `no-again`.
//!
//! A pool is rolled in three steps, and the draws are read in this order:
//! 1. one draw for each die of the pool;
//! 2. with the rote quality, one draw for each of those dice that failed;
//!    it takes the failed die's place;
//! 3. one bonus draw for each die on the table that meets the again rule,
//!    bonus dice included, until no die is owed.

use crate::parser::ParseFailure;
use crate::roll::{
    count_at_least, count_dice_at_least, dice_at, is_invalid_draw, lemma_dice_at_push,
    lemma_dice_in_range, shows, take_dice, Outcome, RollError, RollFailure, RollResult, Rolled,
};
use crate::text::{
    chars_of, digits_end, is_blank, lemma_skip_blank_bounds, numeral_value, read_numeral,
    skip_blank, skip_blanks, skip_digits,
};
use vstd::prelude::*;

verus! {

/// The number of sides of a pool die.
pub const POOL_SIDES: u32 = 10;

/// The least value with which a pool die succeeds.
pub const TARGET: u32 = 8;

/// Which dice earn a bonus die.
#[derive(Debug, Clone, Copy, PartialEq, Eq, Structural)]
pub enum Again {
    /// Dice that show 8 or more.
    Eight,
    /// Dice that show 9 or more.
    Nine,
    /// Dice that show 10.
    Ten,
    /// No die.
    Never,
}

impl Again {
    /// The least value that earns a bonus die, if any does.
    pub open spec fn threshold(self) -> Option<u32> {
        match self {
            Again::Eight => Some(8u32),
            Again::Nine => Some(9u32),
            Again::Ten => Some(10u32),
            Again::Never => None,
        }
    }

    /// The least value that earns a bonus die, if any does.
    pub fn floor(&self) -> (r: Option<u32>)
        ensures
            r == self.threshold(),
    {
        match self {
            Again::Eight => Some(8),
            Again::Nine => Some(9),
            Again::Ten => Some(10),
            Again::Never => None,
        }
    }
}

/// What is rolled for a pool.
#[derive(Debug, Clone, Copy, PartialEq, Eq, Structural)]
pub struct PoolSpec {
    /// The number of dice; 1 for a chance die.
    pub count: u32,
    /// Which dice earn a bonus die.
    pub again: Again,
    /// Whether failed dice are rolled once more.
    pub rote: bool,
    /// Whether this is the single die rolled when no dice are left.
    pub is_chance_die: bool,
}

impl PoolSpec {
    /// A pool has at least one die, and a chance die is a single die.
    pub open spec fn well_formed(self) -> bool {
        self.count >= 1 && (self.is_chance_die ==> self.count == 1)
    }

    /// Executable form of [`PoolSpec::well_formed`].
    pub fn is_well_formed(&self) -> (b: bool)
        ensures
            b == self.well_formed(),
    {
        self.count >= 1 && (!self.is_chance_die || self.count == 1)
    }

    /// The value a die must reach to succeed.
    pub fn target(&self) -> (t: u32)
        ensures
            t == TARGET,
    {
        TARGET
    }
}

/// The pool of `count` dice without modifiers: 10-again, no rote.
pub open spec fn plain_pool(count: u32) -> PoolSpec {
    PoolSpec { count, again: Again::Ten, rote: false, is_chance_die: false }
}

/// The chance die.
pub open spec fn chance_pool() -> PoolSpec {
    PoolSpec { count: 1, again: Again::Never, rote: false, is_chance_die: true }
}

/// The chance die: a single die that earns no bonus die and is not rolled
/// again.
pub fn create_chance_die() -> (pool: PoolSpec)
    ensures
        pool == chance_pool(),
        pool.well_formed(),
{
    PoolSpec { count: 1, again: Again::Never, rote: false, is_chance_die: true }
}

/// A modifier of a pool.
pub enum Modifier {
    Rote,
    Rule(Again),
}

/// The end of the word that starts at `i`: the next blank, or the end of the
/// text.
pub open spec fn word_end(s: Seq<char>, i: int) -> int
    decreases s.len() - i,
{
    if 0 <= i < s.len() && !is_blank(s[i]) {
        word_end(s, i + 1)
    } else {
        i
    }
}

/// The modifier that a word names.
pub open spec fn modifier_of(word: Seq<char>) -> Option<Modifier> {
    if word == "rote"@ {
        Some(Modifier::Rote)
    } else if word == "8-again"@ {
        Some(Modifier::Rule(Again::Eight))
    } else if word == "9-again"@ {
        Some(Modifier::Rule(Again::Nine))
    } else if word == "10-again"@ {
        Some(Modifier::Rule(Again::Ten))
    } else if word == "no-again"@ {
        Some(Modifier::Rule(Again::Never))
    } else {
        None
    }
}

/// The pool after the modifiers at `i` are applied to `pool`. `ruled` says
/// whether an again rule was given before `i`. A word that is no modifier
/// is rejected, and so is a second rote flag or a second again rule.
pub open spec fn modifiers_at(s: Seq<char>, i: int, pool: PoolSpec, ruled: bool) -> Result<
    PoolSpec,
    ParseFailure,
>
    decreases s.len() - i,
    via modifiers_at_decreases
{
    let from = skip_blank(s, i);
    if !(0 <= i <= from < s.len()) {
        Ok(pool)
    } else {
        let to = word_end(s, from);
        match modifier_of(s.subrange(from, to)) {
            None => Err(ParseFailure::UnknownModifier),
            Some(Modifier::Rote) => if pool.rote {
                Err(ParseFailure::RepeatedModifier)
            } else {
                modifiers_at(s, to, PoolSpec { rote: true, ..pool }, ruled)
            },
            Some(Modifier::Rule(again)) => if ruled {
                Err(ParseFailure::RepeatedModifier)
            } else {
                modifiers_at(s, to, PoolSpec { again, ..pool }, true)
            },
        }
    }
}

#[via_fn]
proof fn modifiers_at_decreases(s: Seq<char>, i: int, pool: PoolSpec, ruled: bool) {
    let from = skip_blank(s, i);
    if 0 <= i <= from < s.len() {
        lemma_skip_blank_bounds(s, i);
        lemma_word_end_bounds(s, from);
    }
}

/// A word ends at or after its start, inside the text, and after its start
/// when it starts on a character that is no blank.
pub proof fn lemma_word_end_bounds(s: Seq<char>, i: int)
    requires
        0 <= i <= s.len(),
    ensures
        i <= word_end(s, i) <= s.len(),
        i < s.len() && !is_blank(s[i]) ==> i < word_end(s, i),
    decreases s.len() - i,
{
    if i < s.len() && !is_blank(s[i]) {
        lemma_word_end_bounds(s, i + 1);
    }
}

/// The pool that `s[from..]` spells: its size, which is a word of digits,
/// and its modifiers.
pub open spec fn pool_from(s: Seq<char>, from: int) -> Result<PoolSpec, ParseFailure> {
    let start = skip_blank(s, from);
    let to = digits_end(s, start);
    let size = numeral_value(s, start, to);
    if to == start || to != word_end(s, start) {
        Err(ParseFailure::MissingPoolSize)
    } else if size > u32::MAX {
        Err(ParseFailure::NumberTooLarge)
    } else if size == 0 {
        Err(ParseFailure::ZeroDice)
    } else {
        modifiers_at(s, to, plain_pool(size as u32), false)
    }
}

/// The pool that the whole of `s` spells.
pub open spec fn pool_of(s: Seq<char>) -> Result<PoolSpec, ParseFailure> {
    pool_from(s, 0)
}

/// Finds the end of the word at `i`.
fn skip_word(s: &[char], i: usize) -> (j: usize)
    requires
        i <= s.len(),
    ensures
        j == word_end(s@, i as int),
        i <= j <= s.len(),
{
    let mut j: usize = i;
    while j < s.len() && !crate::text::blank(s[j])
        invariant
            i <= j <= s.len(),
            word_end(s@, i as int) == word_end(s@, j as int),
        decreases s.len() - j,
    {
        j = j + 1;
    }
    j
}

/// Whether `s[from..to]` is `word`.
fn word_is(s: &[char], from: usize, to: usize, word: &str) -> (b: bool)
    requires
        from <= to <= s.len(),
    ensures
        b == (s@.subrange(from as int, to as int) == word@),
{
    let w = chars_of(word);
    if w.len() != to - from {
        return false;
    }
    let mut k: usize = 0;
    while k < w.len()
        invariant
            k <= w.len(),
            w.len() == to - from,
            from <= to <= s.len(),
            w@ == word@,
            forall|j: int| 0 <= j < k ==> s@[from + j] == w@[j],
        decreases w.len() - k,
    {
        if s[from + k] != w[k] {
            assert(s@.subrange(from as int, to as int)[k as int] != w@[k as int]);
            return false;
        }
        k = k + 1;
    }
    assert(s@.subrange(from as int, to as int) =~= w@);
    true
}

/// Reads the modifier that `s[from..to]` names.
fn read_modifier(s: &[char], from: usize, to: usize) -> (r: Option<Modifier>)
    requires
        from <= to <= s.len(),
    ensures
        r == modifier_of(s@.subrange(from as int, to as int)),
{
    if word_is(s, from, to, "rote") {
        Some(Modifier::Rote)
    } else if word_is(s, from, to, "8-again") {
        Some(Modifier::Rule(Again::Eight))
    } else if word_is(s, from, to, "9-again") {
        Some(Modifier::Rule(Again::Nine))
    } else if word_is(s, from, to, "10-again") {
        Some(Modifier::Rule(Again::Ten))
    } else if word_is(s, from, to, "no-again") {
        Some(Modifier::Rule(Again::Never))
    } else {
        None
    }
}

/// Reads the pool that `s[from..]` spells.
pub(crate) fn parse_dice_pool_from(s: &[char], from: usize) -> (r: Result<PoolSpec, ParseFailure>)
    requires
        from <= s.len(),
    ensures
        r == pool_from(s@, from as int),
        r matches Ok(pool) ==> pool.well_formed() && !pool.is_chance_die,
{
    let start = skip_blanks(s, from);
    let to = skip_digits(s, start);
    if to == start || to != skip_word(s, start) {
        return Err(ParseFailure::MissingPoolSize);
    }
    let size = match read_numeral(s, start, to) {
        None => {
            return Err(ParseFailure::NumberTooLarge);
        },
        Some(size) => size,
    };
    if size == 0 {
        return Err(ParseFailure::ZeroDice);
    }
    let mut pool = PoolSpec { count: size, again: Again::Ten, rote: false, is_chance_die: false };
    let mut ruled = false;
    let mut pos: usize = to;
    loop
        invariant
            pos <= s.len(),
            pool.count == size,
            size >= 1,
            !pool.is_chance_die,
            pool_from(s@, from as int) == modifiers_at(s@, pos as int, pool, ruled),
        decreases s.len() - pos,
    {
        let word = skip_blanks(s, pos);
        if word >= s.len() {
            return Ok(pool);
        }
        let end = skip_word(s, word);
        proof {
            lemma_word_end_bounds(s@, word as int);
        }
        match read_modifier(s, word, end) {
            None => {
                return Err(ParseFailure::UnknownModifier);
            },
            Some(Modifier::Rote) => {
                if pool.rote {
                    return Err(ParseFailure::RepeatedModifier);
                }
                pool = PoolSpec { rote: true, ..pool };
            },
            Some(Modifier::Rule(again)) => {
                if ruled {
                    return Err(ParseFailure::RepeatedModifier);
                }
                pool = PoolSpec { again, ..pool };
                ruled = true;
            },
        }
        pos = end;
    }
}

/// Reads a dice pool. The whole text must be one pool.
pub fn parse_dice_pool(text: &str) -> (r: Result<PoolSpec, ParseFailure>)
    ensures
        r == pool_of(text@),
        r matches Ok(pool) ==> pool.well_formed() && !pool.is_chance_die,
{
    let chars = chars_of(text);
    parse_dice_pool_from(chars.as_slice(), 0)
}

/// How many of the dice fail.
pub open spec fn failures(dice: Seq<u32>) -> int {
    dice.len() - count_at_least(dice, TARGET)
}

/// The dice of a rote pool: each failed die of `base` gives way to a reroll,
/// the first failed die to the first reroll, and so on.
pub open spec fn rerolled(base: Seq<u32>, rerolls: Seq<u32>) -> Seq<u32> {
    Seq::new(
        base.len(),
        |k: int|
            if base[k] >= TARGET {
                base[k]
            } else {
                rerolls[failures(base.take(k))]
            },
    )
}

/// Where the bonus dice end. `owed` bonus dice are still to be read and the
/// next one is read at `at`; a bonus die that shows `floor` or more adds one
/// to what is owed.
pub open spec fn bonus_end(owed: int, floor: u32, draws: Seq<u32>, at: int) -> Result<
    int,
    RollFailure,
>
    decreases draws.len() - at,
{
    if owed <= 0 {
        Ok(at)
    } else if !(0 <= at < draws.len()) {
        Err(RollFailure::DiceExhausted { sides: POOL_SIDES })
    } else if !shows(POOL_SIDES, draws[at]) {
        Err(RollFailure::InvalidDraw { value: draws[at], sides: POOL_SIDES })
    } else if draws[at] >= floor {
        bonus_end(owed, floor, draws, at + 1)
    } else {
        bonus_end(owed - 1, floor, draws, at + 1)
    }
}

/// The dice on the table with their successes counted.
pub open spec fn scored(dice: Seq<u32>) -> Rolled {
    Rolled {
        dice,
        outcome: Outcome::Successes {
            count: count_at_least(dice, TARGET) as u64,
            dramatic_failure: false,
        },
    }
}

/// The dice on the table once the bonus dice for `kept` are added: they are
/// read from `draws` starting at `at`.
pub open spec fn with_bonus(again: Again, kept: Seq<u32>, draws: Seq<u32>, at: int) -> Result<
    Seq<u32>,
    RollFailure,
> {
    match again.threshold() {
        None => Ok(kept),
        Some(floor) => match bonus_end(count_at_least(kept, floor), floor, draws, at) {
            Err(failure) => Err(failure),
            Ok(end) => Ok(kept + draws.subrange(at, end)),
        },
    }
}

/// The roll of a chance die: one die, which succeeds on a 10 only and is a
/// dramatic failure on a 1.
pub open spec fn chance_roll_of(draws: Seq<u32>) -> Result<Rolled, RollFailure> {
    match dice_at(1, POOL_SIDES, draws, 0) {
        Err(failure) => Err(failure),
        Ok(dice) => Ok(
            Rolled {
                dice,
                outcome: Outcome::Successes {
                    count: if dice[0] == 10 {
                        1u64
                    } else {
                        0u64
                    },
                    dramatic_failure: dice[0] == 1,
                },
            },
        ),
    }
}

/// The roll of `pool` on `draws`.
pub open spec fn pool_roll_of(pool: PoolSpec, draws: Seq<u32>) -> Result<Rolled, RollFailure> {
    if pool.is_chance_die {
        chance_roll_of(draws)
    } else {
        match dice_at(pool.count as int, POOL_SIDES, draws, 0) {
            Err(failure) => Err(failure),
            Ok(base) => {
                let again = if pool.rote {
                    failures(base)
                } else {
                    0
                };
                match dice_at(again, POOL_SIDES, draws, pool.count as int) {
                    Err(failure) => Err(failure),
                    Ok(rerolls) => {
                        let kept = if pool.rote {
                            rerolled(base, rerolls)
                        } else {
                            base
                        };
                        match with_bonus(pool.again, kept, draws, pool.count + again) {
                            Err(failure) => Err(failure),
                            Ok(dice) => Ok(scored(dice)),
                        }
                    },
                }
            },
        }
    }
}

/// A chance die that shows 10 is exactly one success and no dramatic
/// failure; one that shows 1 is no success and a dramatic failure; any other
/// is no success and no dramatic failure.
pub proof fn lemma_chance_die(pool: PoolSpec, draws: Seq<u32>)
    requires
        pool.is_chance_die,
        draws.len() >= 1,
        1 <= draws[0] <= 10,
    ensures
        pool_roll_of(pool, draws) == Ok::<Rolled, RollFailure>(
            Rolled {
                dice: seq![draws[0]],
                outcome: Outcome::Successes {
                    count: if draws[0] == 10 {
                        1u64
                    } else {
                        0u64
                    },
                    dramatic_failure: draws[0] == 1,
                },
            },
        ),
{
    reveal_with_fuel(crate::roll::first_invalid, 2);
    assert(draws.subrange(0, 1) =~= seq![draws[0]]);
}

/// The bonus dice end within the draws, and each of them is a face of the
/// die: a pool never reads more dice than were supplied, however many of
/// them earn a bonus die.
pub proof fn lemma_bonus_ends(owed: int, floor: u32, draws: Seq<u32>, at: int)
    requires
        0 <= at <= draws.len(),
    ensures
        bonus_end(owed, floor, draws, at) matches Ok(end) ==> at <= end <= draws.len() && forall|
            k: int,
        |
            at <= k < end ==> shows(POOL_SIDES, #[trigger] draws[k]),
    decreases draws.len() - at,
{
    if owed > 0 && at < draws.len() && shows(POOL_SIDES, draws[at]) {
        if draws[at] >= floor {
            lemma_bonus_ends(owed, floor, draws, at + 1);
        } else {
            lemma_bonus_ends(owed - 1, floor, draws, at + 1);
        }
    }
}

/// A pool that can be rolled shows at least as many dice as it has, no more
/// dice than there are draws, and only faces of a ten-sided die.
pub proof fn lemma_pool_within_draws(pool: PoolSpec, draws: Seq<u32>)
    requires
        !pool.is_chance_die,
    ensures
        pool_roll_of(pool, draws) matches Ok(rolled) ==> pool.count <= rolled.dice.len()
            <= draws.len() && forall|k: int|
            0 <= k < rolled.dice.len() ==> shows(POOL_SIDES, #[trigger] rolled.dice[k]),
{
    let count = pool.count as int;
    if let Ok(base) = dice_at(count, POOL_SIDES, draws, 0) {
        lemma_dice_in_range(count, POOL_SIDES, draws, 0);
        lemma_count_bounds(base, TARGET);
        let again = if pool.rote {
            failures(base)
        } else {
            0
        };
        if let Ok(rerolls) = dice_at(again, POOL_SIDES, draws, count) {
            lemma_dice_in_range(again, POOL_SIDES, draws, count);
            let kept = if pool.rote {
                rerolled(base, rerolls)
            } else {
                base
            };
            assert forall|k: int| 0 <= k < kept.len() implies shows(
                POOL_SIDES,
                #[trigger] kept[k],
            ) by {
                assert(base[k] == draws[k]);
                assert(shows(POOL_SIDES, draws[k]));
                if pool.rote && base[k] < TARGET {
                    lemma_count_prefix(base, TARGET, k);
                    lemma_count_prefix(base, TARGET, k + 1);
                    assert(base.take(k + 1).drop_last() == base.take(k));
                    assert(base.take(k + 1).last() == base[k]);
                    let j = failures(base.take(k));
                    assert(failures(base.take(k + 1)) == j + 1);
                    assert(0 <= j < again);
                    assert(rerolls[j] == draws[count + j]);
                    assert(shows(POOL_SIDES, draws[count + j]));
                    assert(kept[k] == rerolls[j]);
                }
            }
            if let Some(floor) = pool.again.threshold() {
                lemma_bonus_ends(count_at_least(kept, floor), floor, draws, count + again);
            }
        }
    }
}

/// What one more draw changes for the bonus dice. Bonus dice that were all
/// read stay as they are, and so does a draw that cannot be shown. Bonus
/// dice that ran out of draws go on with the new draw: if it is a face of
/// the die, it is read, and is never the draw that cannot be shown.
pub proof fn lemma_bonus_end_push(owed: int, floor: u32, draws: Seq<u32>, at: int, v: u32)
    requires
        0 <= at <= draws.len(),
    ensures
        match bonus_end(owed, floor, draws, at) {
            Ok(end) => bonus_end(owed, floor, draws.push(v), at) == Ok::<int, RollFailure>(end),
            Err(RollFailure::DiceExhausted { sides }) => shows(POOL_SIDES, v) ==> match bonus_end(
                owed,
                floor,
                draws.push(v),
                at,
            ) {
                Ok(end) => end == draws.len() + 1,
                Err(failure) => !is_invalid_draw(failure),
            },
            Err(other) => bonus_end(owed, floor, draws.push(v), at) == Err::<int, RollFailure>(
                other,
            ),
        },
    decreases draws.len() - at,
{
    let more = draws.push(v);
    if owed > 0 {
        if at < draws.len() {
            assert(more[at] == draws[at]);
            if shows(POOL_SIDES, draws[at]) {
                if draws[at] >= floor {
                    lemma_bonus_end_push(owed, floor, draws, at + 1, v);
                } else {
                    lemma_bonus_end_push(owed - 1, floor, draws, at + 1, v);
                }
            }
        } else {
            assert(more[at] == v);
            if shows(POOL_SIDES, v) {
                let left = if v >= floor {
                    owed
                } else {
                    owed - 1
                };
                assert(bonus_end(owed, floor, more, at) == bonus_end(left, floor, more, at + 1));
                assert(bonus_end(left, floor, more, at + 1) == if left <= 0 {
                    Ok::<int, RollFailure>(at + 1)
                } else {
                    Err::<int, RollFailure>(RollFailure::DiceExhausted { sides: POOL_SIDES })
                });
            }
        }
    }
}

/// What one more draw changes for a pool. A pool that was rolled stays as
/// it is, and so does a draw that cannot be shown. A pool that ran out of
/// draws asks for a ten-sided die; given a face of it, the pool reads it
/// and never takes it for a draw that cannot be shown.
pub proof fn lemma_pool_one_more_draw(pool: PoolSpec, draws: Seq<u32>, v: u32)
    ensures
        match pool_roll_of(pool, draws) {
            Ok(rolled) => pool_roll_of(pool, draws.push(v)) == Ok::<Rolled, RollFailure>(rolled),
            Err(RollFailure::DiceExhausted { sides }) => sides == POOL_SIDES && (shows(
                POOL_SIDES,
                v,
            ) ==> (pool_roll_of(pool, draws.push(v)) matches Err(failure) ==> !is_invalid_draw(
                failure,
            ))),
            Err(other) => pool_roll_of(pool, draws.push(v)) == Err::<Rolled, RollFailure>(other),
        },
{
    let more = draws.push(v);
    let count = pool.count as int;
    if pool.is_chance_die {
        lemma_dice_at_push(1, POOL_SIDES, draws, 0, v);
    } else {
        lemma_dice_at_push(count, POOL_SIDES, draws, 0, v);
        match dice_at(count, POOL_SIDES, draws, 0) {
            Ok(base) => {
                lemma_dice_in_range(count, POOL_SIDES, draws, 0);
                lemma_count_bounds(base, TARGET);
                let again = if pool.rote {
                    failures(base)
                } else {
                    0
                };
                lemma_dice_at_push(again, POOL_SIDES, draws, count, v);
                match dice_at(again, POOL_SIDES, draws, count) {
                    Ok(rerolls) => {
                        lemma_dice_in_range(again, POOL_SIDES, draws, count);
                        let kept = if pool.rote {
                            rerolled(base, rerolls)
                        } else {
                            base
                        };
                        lemma_with_bonus_push(pool.again, kept, draws, count + again, v);
                    },
                    Err(RollFailure::DiceExhausted { sides }) => {
                        if shows(POOL_SIDES, v) {
                            match dice_at(again, POOL_SIDES, more, count) {
                                Ok(rerolls) => {
                                    lemma_no_bonus_draw_left(
                                        pool.again,
                                        rerolled(base, rerolls),
                                        more,
                                    );
                                },
                                Err(_) => {},
                            }
                        }
                    },
                    Err(_) => {},
                }
            },
            Err(RollFailure::DiceExhausted { sides }) => {
                if shows(POOL_SIDES, v) {
                    match dice_at(count, POOL_SIDES, more, 0) {
                        Ok(base) => {
                            lemma_count_bounds(base, TARGET);
                            let again = if pool.rote {
                                failures(base)
                            } else {
                                0
                            };
                            match dice_at(again, POOL_SIDES, more, count) {
                                Ok(rerolls) => {
                                    let kept = if pool.rote {
                                        rerolled(base, rerolls)
                                    } else {
                                        base
                                    };
                                    lemma_no_bonus_draw_left(pool.again, kept, more);
                                },
                                Err(_) => {},
                            }
                        },
                        Err(_) => {},
                    }
                }
            },
            Err(_) => {},
        }
    }
}

/// What one more draw changes for the dice on the table with their bonus
/// dice.
proof fn lemma_with_bonus_push(again: Again, kept: Seq<u32>, draws: Seq<u32>, at: int, v: u32)
    requires
        0 <= at <= draws.len(),
    ensures
        match with_bonus(again, kept, draws, at) {
            Ok(dice) => with_bonus(again, kept, draws.push(v), at) == Ok::<Seq<u32>, RollFailure>(
                dice,
            ),
            Err(RollFailure::DiceExhausted { sides }) => sides == POOL_SIDES && (shows(
                POOL_SIDES,
                v,
            ) ==> (with_bonus(again, kept, draws.push(v), at) matches Err(failure)
                ==> !is_invalid_draw(failure))),
            Err(other) => with_bonus(again, kept, draws.push(v), at) == Err::<
                Seq<u32>,
                RollFailure,
            >(other),
        },
{
    if let Some(floor) = again.threshold() {
        let owed = count_at_least(kept, floor);
        lemma_bonus_end_push(owed, floor, draws, at, v);
        lemma_bonus_ends(owed, floor, draws, at);
        lemma_bonus_failures(owed, floor, draws, at);
        if let Ok(end) = bonus_end(owed, floor, draws, at) {
            assert(draws.push(v).subrange(at, end) =~= draws.subrange(at, end));
        }
    }
}

/// Bonus dice that run out of draws ask for a ten-sided die.
proof fn lemma_bonus_failures(owed: int, floor: u32, draws: Seq<u32>, at: int)
    requires
        0 <= at <= draws.len(),
    ensures
        bonus_end(owed, floor, draws, at) matches Err(RollFailure::DiceExhausted { sides })
            ==> sides == POOL_SIDES,
    decreases draws.len() - at,
{
    if owed > 0 && at < draws.len() && shows(POOL_SIDES, draws[at]) {
        if draws[at] >= floor {
            lemma_bonus_failures(owed, floor, draws, at + 1);
        } else {
            lemma_bonus_failures(owed - 1, floor, draws, at + 1);
        }
    }
}

/// With no draw left, no bonus die is read.
proof fn lemma_no_bonus_draw_left(again: Again, kept: Seq<u32>, draws: Seq<u32>)
    ensures
        with_bonus(again, kept, draws, draws.len() as int) matches Err(failure)
            ==> !is_invalid_draw(failure),
{
}

/// Drawing the dice of a pool one by one, as they are asked for, never
/// meets a draw that cannot be shown: with no draws there is none, and when
/// a pool that ran out of draws is given a face of the die, the roll that
/// follows reads it.
pub proof fn lemma_pool_draw_by_draw(pool: PoolSpec, draws: Seq<u32>, v: u32)
    ensures
        pool_roll_of(pool, Seq::empty()) matches Err(failure) ==> !is_invalid_draw(failure),
        pool_roll_of(pool, draws) is Err && pool_roll_of(pool, draws)->Err_0 is DiceExhausted
            && shows(POOL_SIDES, v) ==> (pool_roll_of(pool, draws.push(v)) matches Err(failure)
            ==> !is_invalid_draw(failure)),
{
    lemma_pool_one_more_draw(pool, draws, v);
    let none = Seq::<u32>::empty();
    let count = pool.count as int;
    if !pool.is_chance_die {
        match dice_at(count, POOL_SIDES, none, 0) {
            Ok(base) => {
                lemma_count_bounds(base, TARGET);
                let again = if pool.rote {
                    failures(base)
                } else {
                    0
                };
                match dice_at(again, POOL_SIDES, none, count) {
                    Ok(rerolls) => {
                        let kept = if pool.rote {
                            rerolled(base, rerolls)
                        } else {
                            base
                        };
                        lemma_no_bonus_draw_left(pool.again, kept, none);
                    },
                    Err(_) => {},
                }
            },
            Err(_) => {},
        }
    }
}

/// The same text is always read as the same pool.
pub proof fn lemma_pool_is_determined(first: Seq<char>, second: Seq<char>)
    requires
        first == second,
    ensures
        pool_of(first) == pool_of(second),
{
}

/// A prefix of the dice holds no more dice of a kind than all of them, and
/// no more of the other kind either.
pub proof fn lemma_count_prefix(dice: Seq<u32>, floor: u32, n: int)
    requires
        0 <= n <= dice.len(),
    ensures
        0 <= count_at_least(dice.take(n), floor) <= count_at_least(dice, floor),
        0 <= n - count_at_least(dice.take(n), floor) <= dice.len() - count_at_least(dice, floor),
    decreases dice.len() - n,
{
    if n < dice.len() {
        lemma_count_prefix(dice, floor, n + 1);
        assert(dice.take(n + 1).drop_last() == dice.take(n));
    } else {
        assert(dice.take(n) == dice);
    }
    lemma_count_bounds(dice.take(n), floor);
}

/// Between none and all of the dice show `floor` or more.
pub proof fn lemma_count_bounds(dice: Seq<u32>, floor: u32)
    ensures
        0 <= count_at_least(dice, floor) <= dice.len(),
    decreases dice.len(),
{
    if dice.len() > 0 {
        lemma_count_bounds(dice.drop_last(), floor);
    }
}

/// Rolls the failed dice of `base` once more: the rerolls are read from
/// `draws` starting at `at`.
fn reroll_failures(base: Vec<u32>, draws: &[u32], at: usize) -> (r: Result<
    (Vec<u32>, usize),
    RollError,
>)
    requires
        at <= draws.len(),
        base@.len() <= u32::MAX,
    ensures
        match r {
            Ok((kept, end)) => dice_at(failures(base@), POOL_SIDES, draws@, at as int) matches Ok(
                rerolls,
            ) && kept@ == rerolled(base@, rerolls) && end == at + failures(base@) && end
                <= draws.len(),
            Err(e) => dice_at(failures(base@), POOL_SIDES, draws@, at as int) == Err::<
                Seq<u32>,
                RollFailure,
            >(e@),
        },
{
    let successes = count_dice_at_least(&base, TARGET);
    let failed: u32 = (base.len() as u64 - successes) as u32;
    let rerolls = match take_dice(failed, POOL_SIDES, draws, at) {
        Ok(rerolls) => rerolls,
        Err(e) => {
            return Err(e);
        },
    };
    let mut kept: Vec<u32> = Vec::new();
    let mut next: usize = 0;
    let mut k: usize = 0;
    while k < base.len()
        invariant
            k <= base.len(),
            rerolls@.len() == failures(base@),
            next == failures(base@.take(k as int)),
            next <= rerolls@.len(),
            kept@ == rerolled(base@, rerolls@).take(k as int),
        decreases base.len() - k,
    {
        proof {
            lemma_count_prefix(base@, TARGET, k + 1);
            assert(base@.take(k + 1).drop_last() == base@.take(k as int));
        }
        if base[k] >= TARGET {
            kept.push(base[k]);
        } else {
            kept.push(rerolls[next]);
            next = next + 1;
        }
        k = k + 1;
        assert(rerolled(base@, rerolls@).take(k as int) == rerolled(base@, rerolls@).take(
            k - 1,
        ).push(rerolled(base@, rerolls@)[k - 1]));
    }
    assert(rerolled(base@, rerolls@).take(base.len() as int) == rerolled(base@, rerolls@));
    Ok((kept, at + failed as usize))
}

/// Adds the bonus dice that `dice` earn under `again`: they are read from
/// `draws` starting at `at`. The loop ends when no die is owed or the draws
/// run out.
fn add_bonus_dice(again: Again, dice: Vec<u32>, draws: &[u32], at: usize) -> (r: Result<
    Vec<u32>,
    RollError,
>)
    requires
        at <= draws.len(),
    ensures
        match r {
            Ok(all) => with_bonus(again, dice@, draws@, at as int) == Ok::<Seq<u32>, RollFailure>(
                all@,
            ),
            Err(e) => with_bonus(again, dice@, draws@, at as int) == Err::<Seq<u32>, RollFailure>(
                e@,
            ),
        },
{
    let floor = match again.floor() {
        None => {
            return Ok(dice);
        },
        Some(floor) => floor,
    };
    let ghost kept = dice@;
    let mut all = dice;
    let mut owed: u64 = count_dice_at_least(&all, floor);
    let mut pos: usize = at;
    assert(draws@.subrange(at as int, at as int) == Seq::<u32>::empty());
    while owed > 0
        invariant
            at <= pos <= draws.len(),
            bonus_end(count_at_least(kept, floor), floor, draws@, at as int) == bonus_end(
                owed as int,
                floor,
                draws@,
                pos as int,
            ),
            all@ == kept + draws@.subrange(at as int, pos as int),
            again.threshold() == Some(floor),
            kept == dice@,
        decreases draws.len() - pos,
    {
        if pos >= draws.len() {
            return Err(RollError::DiceExhausted { sides: POOL_SIDES });
        }
        let value = draws[pos];
        if value < 1 || value > POOL_SIDES {
            return Err(RollError::InvalidDraw { value, sides: POOL_SIDES });
        }
        all.push(value);
        if value < floor {
            owed = owed - 1;
        }
        pos = pos + 1;
        assert(draws@.subrange(at as int, pos as int) == draws@.subrange(at as int, pos - 1).push(
            value,
        ));
    }
    Ok(all)
}

/// Rolls a chance die on the first of `draws`.
fn roll_chance_die(draws: &[u32]) -> (r: Result<RollResult, RollError>)
    ensures
        match r {
            Ok(result) => chance_roll_of(draws@) == Ok::<Rolled, RollFailure>(result@),
            Err(e) => chance_roll_of(draws@) == Err::<Rolled, RollFailure>(e@),
        },
{
    let dice = match take_dice(1, POOL_SIDES, draws, 0) {
        Ok(dice) => dice,
        Err(e) => {
            return Err(e);
        },
    };
    let value = dice[0];
    let count: u64 = if value == 10 {
        1
    } else {
        0
    };
    Ok(RollResult { dice, outcome: Outcome::Successes { count, dramatic_failure: value == 1 } })
}

/// Rolls `pool`, reading its dice from the front of `draws`.
pub fn roll_pool(pool: &PoolSpec, draws: &[u32]) -> (r: Result<RollResult, RollError>)
    ensures
        match r {
            Ok(result) => pool_roll_of(*pool, draws@) == Ok::<Rolled, RollFailure>(result@),
            Err(e) => pool_roll_of(*pool, draws@) == Err::<Rolled, RollFailure>(e@),
        },
{
    if pool.is_chance_die {
        return roll_chance_die(draws);
    }
    let base = match take_dice(pool.count, POOL_SIDES, draws, 0) {
        Ok(base) => base,
        Err(e) => {
            return Err(e);
        },
    };
    let (kept, at) = if pool.rote {
        match reroll_failures(base, draws, pool.count as usize) {
            Ok(found) => found,
            Err(e) => {
                return Err(e);
            },
        }
    } else {
        assert(draws@.subrange(pool.count as int, pool.count as int) == Seq::<u32>::empty());
        (base, pool.count as usize)
    };
    let dice = match add_bonus_dice(pool.again, kept, draws, at) {
        Ok(dice) => dice,
        Err(e) => {
            return Err(e);
        },
    };
    let count = count_dice_at_least(&dice, TARGET);
    Ok(RollResult { dice, outcome: Outcome::Successes { count, dramatic_failure: false } })
}

} // verus!
