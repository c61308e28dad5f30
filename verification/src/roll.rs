//! Dice as they come from the random source, and what a roll reports.
//!
//! The random source is a finite sequence of draws that the caller supplies.
//! A roll reads the draws it needs from the front, in order, and fails when
//! the sequence ends too early or holds a value that the die asked for
//! cannot show.

use vstd::prelude::*;

verus! {

/// Why a roll could not be completed.
#[derive(Debug, Clone, PartialEq, Eq)]
pub enum RollError {
    /// The expression names a variable that is not set for this user and room.
    UnsetVariable(String),
    /// The draws ran out; the next die needed has this many sides.
    DiceExhausted { sides: u32 },
    /// A draw lies outside `1..=sides` of the die it was drawn for.
    InvalidDraw { value: u32, sides: u32 },
    /// A value of the expression does not fit in 64 bits.
    Overflow,
}

/// [`RollError`] with the variable's name as a sequence of characters.
pub enum RollFailure {
    UnsetVariable(Seq<char>),
    DiceExhausted { sides: u32 },
    InvalidDraw { value: u32, sides: u32 },
    Overflow,
}

impl View for RollError {
    type V = RollFailure;

    open spec fn view(&self) -> RollFailure {
        match self {
            RollError::UnsetVariable(name) => RollFailure::UnsetVariable(name@),
            RollError::DiceExhausted { sides } => RollFailure::DiceExhausted { sides: *sides },
            RollError::InvalidDraw { value, sides } => RollFailure::InvalidDraw {
                value: *value,
                sides: *sides,
            },
            RollError::Overflow => RollFailure::Overflow,
        }
    }
}

/// The scalar that a roll is reduced to.
#[derive(Debug, Clone, Copy, PartialEq, Eq, Structural)]
pub enum Outcome {
    /// The total of an arithmetic roll.
    Total(i64),
    /// The successes of a pool roll, and whether it is a dramatic failure.
    Successes { count: u64, dramatic_failure: bool },
}

/// The dice of a roll in the order they are shown, and its outcome.
#[derive(Debug, Clone, PartialEq, Eq)]
pub struct RollResult {
    pub dice: Vec<u32>,
    pub outcome: Outcome,
}

/// [`RollResult`] with its dice as a sequence.
pub struct Rolled {
    pub dice: Seq<u32>,
    pub outcome: Outcome,
}

impl View for RollResult {
    type V = Rolled;

    open spec fn view(&self) -> Rolled {
        Rolled { dice: self.dice@, outcome: self.outcome }
    }
}

/// Whether a die with `sides` sides can show `value`.
pub open spec fn shows(sides: u32, value: u32) -> bool {
    1 <= value <= sides
}

/// The first position in `from..to` whose draw a die with `sides` sides
/// cannot show; `to` if there is none.
pub open spec fn first_invalid(draws: Seq<u32>, sides: u32, from: int, to: int) -> int
    decreases to - from,
{
    if from >= to {
        to
    } else if !shows(sides, draws[from]) {
        from
    } else {
        first_invalid(draws, sides, from + 1, to)
    }
}

/// Reading `count` dice with `sides` sides from `draws`, starting at `at`:
/// the dice are `draws[at..at + count]`. The read fails at the first draw
/// that such a die cannot show, or else where the draws end.
pub open spec fn dice_at(count: int, sides: u32, draws: Seq<u32>, at: int) -> Result<
    Seq<u32>,
    RollFailure,
> {
    let stop = if at + count <= draws.len() {
        at + count
    } else {
        draws.len() as int
    };
    let bad = first_invalid(draws, sides, at, stop);
    if bad < stop {
        Err(RollFailure::InvalidDraw { value: draws[bad], sides })
    } else if stop < at + count {
        Err(RollFailure::DiceExhausted { sides })
    } else {
        Ok(draws.subrange(at, at + count))
    }
}

/// The sum of the dice.
pub open spec fn total_of(dice: Seq<u32>) -> int
    decreases dice.len(),
{
    if dice.len() == 0 {
        0
    } else {
        total_of(dice.drop_last()) + dice.last()
    }
}

/// How many of the dice show `floor` or more.
pub open spec fn count_at_least(dice: Seq<u32>, floor: u32) -> int
    decreases dice.len(),
{
    if dice.len() == 0 {
        0
    } else {
        count_at_least(dice.drop_last(), floor) + if dice.last() >= floor {
            1int
        } else {
            0int
        }
    }
}

/// No position before `to` is invalid exactly when `first_invalid` is `to`,
/// and what it names otherwise is the first invalid position.
pub proof fn lemma_first_invalid(draws: Seq<u32>, sides: u32, from: int, to: int)
    requires
        0 <= from <= to <= draws.len(),
    ensures
        from <= first_invalid(draws, sides, from, to) <= to,
        forall|k: int|
            from <= k < first_invalid(draws, sides, from, to) ==> shows(sides, #[trigger] draws[k]),
        first_invalid(draws, sides, from, to) < to ==> !shows(
            sides,
            draws[first_invalid(draws, sides, from, to)],
        ),
    decreases to - from,
{
    if from < to && shows(sides, draws[from]) {
        lemma_first_invalid(draws, sides, from + 1, to);
    }
}

/// Every die of a completed read lies on its die's faces, and their sum
/// lies between `count` and `count * sides`.
pub proof fn lemma_dice_in_range(count: int, sides: u32, draws: Seq<u32>, at: int)
    requires
        0 <= count,
        0 <= at,
        dice_at(count, sides, draws, at) is Ok,
    ensures
        at + count <= draws.len(),
        dice_at(count, sides, draws, at) == Ok::<Seq<u32>, RollFailure>(
            draws.subrange(at, at + count),
        ),
        forall|k: int| at <= k < at + count ==> shows(sides, #[trigger] draws[k]),
        count <= total_of(draws.subrange(at, at + count)) <= count * sides,
    decreases count,
{
    lemma_first_invalid(draws, sides, at, at + count);
    let dice = draws.subrange(at, at + count);
    if count > 0 {
        lemma_first_invalid(draws, sides, at, at + count - 1);
        assert(first_invalid(draws, sides, at, at + count - 1) == at + count - 1) by {
            let f = first_invalid(draws, sides, at, at + count - 1);
            if f < at + count - 1 {
                assert(shows(sides, draws[f]));
            }
        }
        lemma_dice_in_range(count - 1, sides, draws, at);
        assert(dice.drop_last() == draws.subrange(at, at + count - 1));
        assert(dice.last() == draws[at + count - 1]);
        assert((count - 1) * sides + sides == count * sides) by (nonlinear_arith);
    } else {
        assert(count * sides == 0) by (nonlinear_arith)
            requires
                count == 0,
        ;
    }
}

/// Whether a failure is a draw that its die cannot show.
pub open spec fn is_invalid_draw(failure: RollFailure) -> bool {
    failure is InvalidDraw
}

/// A draw that is added at the end changes nothing before it.
pub proof fn lemma_first_invalid_push(draws: Seq<u32>, sides: u32, from: int, to: int, v: u32)
    requires
        0 <= from,
        to <= draws.len(),
    ensures
        first_invalid(draws.push(v), sides, from, to) == first_invalid(draws, sides, from, to),
    decreases to - from,
{
    if from < to {
        assert(draws.push(v)[from] == draws[from]);
        lemma_first_invalid_push(draws, sides, from + 1, to, v);
    }
}

/// What one more draw changes for a read of dice. A read that succeeded or
/// met a draw that its die cannot show stays as it is. A read that ran out
/// of draws goes on with the new draw: if its die can show it, the read
/// succeeds with the new draw as its last, or runs out again.
pub proof fn lemma_dice_at_push(count: int, sides: u32, draws: Seq<u32>, at: int, v: u32)
    requires
        0 <= count,
        0 <= at <= draws.len(),
    ensures
        match dice_at(count, sides, draws, at) {
            Ok(dice) => dice_at(count, sides, draws.push(v), at) == Ok::<Seq<u32>, RollFailure>(
                dice,
            ),
            Err(RollFailure::DiceExhausted { sides: asked }) => asked == sides && (shows(sides, v)
                ==> if at + count == draws.len() + 1 {
                dice_at(count, sides, draws.push(v), at) == Ok::<Seq<u32>, RollFailure>(
                    draws.push(v).subrange(at, at + count),
                )
            } else {
                dice_at(count, sides, draws.push(v), at) == Err::<Seq<u32>, RollFailure>(
                    RollFailure::DiceExhausted { sides },
                )
            }),
            Err(other) => dice_at(count, sides, draws.push(v), at) == Err::<Seq<u32>, RollFailure>(
                other,
            ),
        },
{
    let more = draws.push(v);
    let len = draws.len() as int;
    let stop = if at + count <= len {
        at + count
    } else {
        len
    };
    lemma_first_invalid_push(draws, sides, at, stop, v);
    lemma_first_invalid(draws, sides, at, stop);
    let bad = first_invalid(draws, sides, at, stop);
    if bad < stop {
        assert(more[bad] == draws[bad]);
        if at + count > len {
            lemma_first_invalid_reaches(more, sides, at, bad, len + 1);
        }
    } else if at + count <= len {
        assert(more.subrange(at, at + count) =~= draws.subrange(at, at + count));
    } else {
        assert forall|k: int| at <= k < len implies shows(sides, #[trigger] more[k]) by {
            assert(more[k] == draws[k]);
        }
        if shows(sides, v) {
            assert(more[len] == v);
            lemma_first_invalid_none(more, sides, at, len + 1);
        }
    }
}

/// Where every draw of a range can be shown, none is invalid.
pub proof fn lemma_first_invalid_none(draws: Seq<u32>, sides: u32, from: int, to: int)
    requires
        0 <= from <= to <= draws.len(),
        forall|k: int| from <= k < to ==> shows(sides, #[trigger] draws[k]),
    ensures
        first_invalid(draws, sides, from, to) == to,
    decreases to - from,
{
    if from < to {
        lemma_first_invalid_none(draws, sides, from + 1, to);
    }
}

/// The first invalid draw of a range is the first invalid draw of any
/// longer range.
pub proof fn lemma_first_invalid_reaches(
    draws: Seq<u32>,
    sides: u32,
    from: int,
    bad: int,
    to: int,
)
    requires
        0 <= from <= bad < to <= draws.len(),
        forall|k: int| from <= k < bad ==> shows(sides, #[trigger] draws[k]),
        !shows(sides, draws[bad]),
    ensures
        first_invalid(draws, sides, from, to) == bad,
    decreases bad - from,
{
    if from < bad {
        lemma_first_invalid_reaches(draws, sides, from + 1, bad, to);
    }
}

/// Reads `count` dice with `sides` sides from `draws`, starting at `at`.
pub fn take_dice(count: u32, sides: u32, draws: &[u32], at: usize) -> (r: Result<
    Vec<u32>,
    RollError,
>)
    ensures
        match r {
            Ok(dice) => dice_at(count as int, sides, draws@, at as int) == Ok::<
                Seq<u32>,
                RollFailure,
            >(dice@) && dice@.len() == count && at + count <= draws.len(),
            Err(e) => dice_at(count as int, sides, draws@, at as int) == Err::<
                Seq<u32>,
                RollFailure,
            >(e@),
        },
{
    if at > draws.len() {
        assert(first_invalid(draws@, sides, at as int, draws@.len() as int) == draws@.len());
        return Err(RollError::DiceExhausted { sides });
    }
    let mut dice: Vec<u32> = Vec::new();
    let mut i: u32 = 0;
    let ghost stop = if at + count <= draws.len() {
        at + count
    } else {
        draws.len() as int
    };
    while i < count
        invariant
            i <= count,
            at <= draws.len(),
            at + i <= draws.len(),
            stop == if at + count <= draws.len() {
                at + count
            } else {
                draws.len() as int
            },
            first_invalid(draws@, sides, at as int, stop) == first_invalid(
                draws@,
                sides,
                at + i,
                stop,
            ),
            dice@ == draws@.subrange(at as int, at + i),
        decreases count - i,
    {
        if at + i as usize >= draws.len() {
            return Err(RollError::DiceExhausted { sides });
        }
        let value = draws[at + i as usize];
        if value < 1 || value > sides {
            return Err(RollError::InvalidDraw { value, sides });
        }
        dice.push(value);
        i = i + 1;
        assert(draws@.subrange(at as int, at + i) == draws@.subrange(at as int, at + i - 1).push(
            value,
        ));
    }
    Ok(dice)
}

/// The sum of `dice`, or `None` when it does not fit in 64 bits.
pub fn sum_dice(dice: &Vec<u32>) -> (r: Option<i64>)
    ensures
        match r {
            Some(t) => t == total_of(dice@),
            None => total_of(dice@) > i64::MAX,
        },
{
    let mut acc: i64 = 0;
    let mut i: usize = 0;
    while i < dice.len()
        invariant
            i <= dice.len(),
            acc == total_of(dice@.take(i as int)),
            0 <= acc,
        decreases dice.len() - i,
    {
        let d = dice[i] as i64;
        proof {
            assert(dice@.take(i + 1).drop_last() == dice@.take(i as int));
        }
        if acc > i64::MAX - d {
            proof {
                lemma_total_grows(dice@, i + 1);
            }
            return None;
        }
        acc = acc + d;
        i = i + 1;
    }
    assert(dice@.take(dice.len() as int) == dice@);
    Some(acc)
}

/// The sum of a prefix of the dice is at most the sum of all of them.
pub proof fn lemma_total_grows(dice: Seq<u32>, n: int)
    requires
        0 <= n <= dice.len(),
    ensures
        total_of(dice.take(n)) <= total_of(dice),
    decreases dice.len() - n,
{
    if n < dice.len() {
        lemma_total_grows(dice, n + 1);
        assert(dice.take(n + 1).drop_last() == dice.take(n));
    } else {
        assert(dice.take(n) == dice);
    }
}

/// Counts the dice that show `floor` or more.
pub fn count_dice_at_least(dice: &Vec<u32>, floor: u32) -> (n: u64)
    ensures
        n == count_at_least(dice@, floor),
        n <= dice@.len(),
{
    let mut n: u64 = 0;
    let mut i: usize = 0;
    while i < dice.len()
        invariant
            i <= dice.len(),
            n == count_at_least(dice@.take(i as int), floor),
            n <= i,
        decreases dice.len() - i,
    {
        proof {
            assert(dice@.take(i + 1).drop_last() == dice@.take(i as int));
        }
        if dice[i] >= floor {
            n = n + 1;
        }
        i = i + 1;
    }
    assert(dice@.take(dice.len() as int) == dice@);
    n
}

} // verus!
