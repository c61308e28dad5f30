//! Dice expressions: sums and differences of numbers, dice and variables.
//!
//! ```text
//! expr     := term (('+' | '-') term)*
//! term     := integer | dice | variable
//! dice     := integer? 'd' integer
//! variable := '$' identifier
//! ```
//!
//! Blanks between tokens are ignored. An expression is read from left to
//! right: `a - b + c` is `(a - b) + c`.

use crate::parser::ParseFailure;
use crate::roll::{
    dice_at, is_invalid_draw, lemma_dice_at_push, lemma_dice_in_range, shows, sum_dice, take_dice,
    total_of, Outcome, RollError, RollFailure, RollResult, Rolled,
};
use crate::text::{
    chars_of, digits_end, is_digit, is_name_start, lemma_digits_end_bounds, lemma_name_end_bounds,
    lemma_skip_blank_bounds, name_end, name_start, numeral_value, read_numeral, same_text,
    skip_blank,
    skip_blanks, skip_digits, skip_name, string_of,
};
use crate::variables::Variables;
use vstd::prelude::*;

verus! {

/// How two operands are combined.
#[derive(Debug, Clone, Copy, PartialEq, Eq, Structural)]
pub enum Operator {
    Plus,
    Minus,
}

/// A dice expression.
#[derive(Debug, PartialEq, Eq)]
pub enum Expression {
    /// A number.
    IntegerLiteral(u32),
    /// A number of dice, each with the same number of sides.
    DiceTerm(u32, u32),
    /// A variable, looked up when the expression is evaluated.
    VariableRef(String),
    /// Two expressions joined by an operator.
    BinaryOp(Operator, Box<Expression>, Box<Expression>),
}

/// [`Expression`] with names as sequences of characters.
pub enum ExpressionModel {
    IntegerLiteral(u32),
    DiceTerm(u32, u32),
    VariableRef(Seq<char>),
    BinaryOp(Operator, Box<ExpressionModel>, Box<ExpressionModel>),
}

impl View for Expression {
    type V = ExpressionModel;

    open spec fn view(&self) -> ExpressionModel
        decreases self,
    {
        match self {
            Expression::IntegerLiteral(value) => ExpressionModel::IntegerLiteral(*value),
            Expression::DiceTerm(count, sides) => ExpressionModel::DiceTerm(*count, *sides),
            Expression::VariableRef(name) => ExpressionModel::VariableRef(name@),
            Expression::BinaryOp(op, left, right) => ExpressionModel::BinaryOp(
                *op,
                Box::new((**left).view()),
                Box::new((**right).view()),
            ),
        }
    }
}

impl ExpressionModel {
    /// Every dice term has at least one die, and every die at least one side.
    pub open spec fn well_formed(self) -> bool
        decreases self,
    {
        match self {
            ExpressionModel::IntegerLiteral(_) => true,
            ExpressionModel::DiceTerm(count, sides) => count >= 1 && sides >= 1,
            ExpressionModel::VariableRef(_) => true,
            ExpressionModel::BinaryOp(_, left, right) => left.well_formed() && right.well_formed(),
        }
    }

    /// The variables that the expression refers to, in the order written,
    /// each as often as it is written.
    pub open spec fn mentions(self) -> Seq<Seq<char>>
        decreases self,
    {
        match self {
            ExpressionModel::IntegerLiteral(_) => Seq::empty(),
            ExpressionModel::DiceTerm(_, _) => Seq::empty(),
            ExpressionModel::VariableRef(name) => seq![name],
            ExpressionModel::BinaryOp(_, left, right) => left.mentions() + right.mentions(),
        }
    }

    /// The number of dice that the expression rolls.
    pub open spec fn dice_count(self) -> int
        decreases self,
    {
        match self {
            ExpressionModel::IntegerLiteral(_) => 0,
            ExpressionModel::DiceTerm(count, _) => count as int,
            ExpressionModel::VariableRef(_) => 0,
            ExpressionModel::BinaryOp(_, left, right) => left.dice_count() + right.dice_count(),
        }
    }
}

/// The operator that a character stands for.
pub open spec fn operator_of(c: char) -> Option<Operator> {
    if c == '+' {
        Some(Operator::Plus)
    } else if c == '-' {
        Some(Operator::Minus)
    } else {
        None
    }
}

/// The number of sides that follows a `d`: `i` is the position after the `d`.
/// Gives the number and the position after it.
pub open spec fn sides_at(s: Seq<char>, i: int) -> Result<(u32, int), ParseFailure> {
    let from = skip_blank(s, i);
    let to = digits_end(s, from);
    let value = numeral_value(s, from, to);
    if to == from {
        Err(ParseFailure::MissingSides)
    } else if value > u32::MAX {
        Err(ParseFailure::NumberTooLarge)
    } else if value == 0 {
        Err(ParseFailure::ZeroSides)
    } else {
        Ok((value as u32, to))
    }
}

/// A term that starts with a number at `from`: the number alone, or the
/// count of a dice term when a `d` follows it.
pub open spec fn numbered_term_at(s: Seq<char>, from: int) -> Result<
    (ExpressionModel, int),
    ParseFailure,
> {
    let to = digits_end(s, from);
    let value = numeral_value(s, from, to);
    let next = skip_blank(s, to);
    if value > u32::MAX {
        Err(ParseFailure::NumberTooLarge)
    } else if 0 <= next < s.len() && s[next] == 'd' {
        if value == 0 {
            Err(ParseFailure::ZeroDice)
        } else {
            match sides_at(s, next + 1) {
                Ok((sides, end)) => Ok((ExpressionModel::DiceTerm(value as u32, sides), end)),
                Err(failure) => Err(failure),
            }
        }
    } else {
        Ok((ExpressionModel::IntegerLiteral(value as u32), to))
    }
}

/// The term at `i`, after any blanks, and the position after it.
pub open spec fn term_at(s: Seq<char>, i: int) -> Result<(ExpressionModel, int), ParseFailure> {
    let from = skip_blank(s, i);
    if !(0 <= from < s.len()) {
        Err(ParseFailure::MissingTerm)
    } else if s[from] == '$' {
        let to = name_end(s, from + 1);
        if from + 1 < s.len() && is_name_start(s[from + 1]) {
            Ok((ExpressionModel::VariableRef(s.subrange(from + 1, to)), to))
        } else {
            Err(ParseFailure::MissingName)
        }
    } else if s[from] == 'd' {
        match sides_at(s, from + 1) {
            Ok((sides, end)) => Ok((ExpressionModel::DiceTerm(1, sides), end)),
            Err(failure) => Err(failure),
        }
    } else if is_digit(s[from]) {
        numbered_term_at(s, from)
    } else {
        Err(ParseFailure::MissingTerm)
    }
}

/// What follows a term: the end of the text, or an operator and another
/// term. `left` is the expression read so far and `i` the position after it.
pub open spec fn tail_at(s: Seq<char>, i: int, left: ExpressionModel) -> Result<
    ExpressionModel,
    ParseFailure,
>
    decreases s.len() - i,
    via tail_at_decreases
{
    let at = skip_blank(s, i);
    if !(0 <= i <= at < s.len()) {
        Ok(left)
    } else {
        match operator_of(s[at]) {
            None => Err(ParseFailure::UnexpectedText),
            Some(op) => match term_at(s, at + 1) {
                Err(failure) => Err(failure),
                Ok((right, end)) => tail_at(
                    s,
                    end,
                    ExpressionModel::BinaryOp(op, Box::new(left), Box::new(right)),
                ),
            },
        }
    }
}

#[via_fn]
proof fn tail_at_decreases(s: Seq<char>, i: int, left: ExpressionModel) {
    let at = skip_blank(s, i);
    if 0 <= i <= at < s.len() {
        lemma_term_advances(s, at + 1);
    }
}

/// The expression that `s[from..]` spells: a term and what follows it.
pub open spec fn expression_from(s: Seq<char>, from: int) -> Result<ExpressionModel, ParseFailure> {
    match term_at(s, from) {
        Err(failure) => Err(failure),
        Ok((first, end)) => tail_at(s, end, first),
    }
}

/// The expression that the whole of `s` spells.
pub open spec fn expression_of(s: Seq<char>) -> Result<ExpressionModel, ParseFailure> {
    expression_from(s, 0)
}

/// The same text is always read as the same expression, or rejected for the
/// same reason.
pub proof fn lemma_expression_is_determined(first: Seq<char>, second: Seq<char>)
    requires
        first == second,
    ensures
        expression_of(first) == expression_of(second),
{
}

/// A number of sides that was read lies after its start, inside the text,
/// and is not zero.
pub proof fn lemma_sides_advance(s: Seq<char>, i: int)
    requires
        0 <= i <= s.len(),
    ensures
        sides_at(s, i) matches Ok((sides, end)) ==> i < end <= s.len() && sides >= 1,
{
    lemma_skip_blank_bounds(s, i);
    lemma_digits_end_bounds(s, skip_blank(s, i));
}

/// A term that was read ends after its start, inside the text, and is well
/// formed.
pub proof fn lemma_term_advances(s: Seq<char>, i: int)
    requires
        0 <= i <= s.len(),
    ensures
        term_at(s, i) matches Ok((term, end)) ==> i < end <= s.len() && term.well_formed(),
{
    lemma_skip_blank_bounds(s, i);
    let from = skip_blank(s, i);
    if from < s.len() {
        lemma_name_end_bounds(s, from + 1);
        lemma_sides_advance(s, from + 1);
        lemma_digits_end_bounds(s, from);
        let to = digits_end(s, from);
        lemma_skip_blank_bounds(s, to);
        let next = skip_blank(s, to);
        if next < s.len() {
            lemma_sides_advance(s, next + 1);
        }
        if from + 1 < s.len() && is_name_start(s[from + 1]) {
            assert(name_end(s, from + 1) == name_end(s, from + 2));
            lemma_name_end_bounds(s, from + 2);
        }
        if is_digit(s[from]) {
            assert(digits_end(s, from) == digits_end(s, from + 1));
            lemma_digits_end_bounds(s, from + 1);
        }
    }
}

/// Reads the number of sides after a `d`.
fn parse_sides(s: &[char], i: usize) -> (r: Result<(u32, usize), ParseFailure>)
    requires
        i <= s.len(),
    ensures
        match r {
            Ok((sides, end)) => sides_at(s@, i as int) == Ok::<(u32, int), ParseFailure>(
                (sides, end as int),
            ) && i < end <= s.len() && sides >= 1,
            Err(failure) => sides_at(s@, i as int) == Err::<(u32, int), ParseFailure>(failure),
        },
{
    let from = skip_blanks(s, i);
    let to = skip_digits(s, from);
    if to == from {
        return Err(ParseFailure::MissingSides);
    }
    match read_numeral(s, from, to) {
        None => Err(ParseFailure::NumberTooLarge),
        Some(value) => {
            if value == 0 {
                Err(ParseFailure::ZeroSides)
            } else {
                Ok((value, to))
            }
        },
    }
}

/// Reads the term at `i`.
fn parse_term(s: &[char], i: usize) -> (r: Result<(Expression, usize), ParseFailure>)
    requires
        i <= s.len(),
    ensures
        match r {
            Ok((term, end)) => term_at(s@, i as int) == Ok::<(ExpressionModel, int), ParseFailure>(
                (term@, end as int),
            ) && i < end <= s.len() && term@.well_formed(),
            Err(failure) => term_at(s@, i as int) == Err::<(ExpressionModel, int), ParseFailure>(
                failure,
            ),
        },
{
    let from = skip_blanks(s, i);
    if from >= s.len() {
        return Err(ParseFailure::MissingTerm);
    }
    let c = s[from];
    if c == '$' {
        if from + 1 < s.len() && name_start(s[from + 1]) {
            let to = skip_name(s, from + 1);
            proof {
                assert(name_end(s@, from + 1) == name_end(s@, from + 2));
                lemma_name_end_bounds(s@, from + 2);
            }
            Ok((Expression::VariableRef(string_of(s, from + 1, to)), to))
        } else {
            Err(ParseFailure::MissingName)
        }
    } else if c == 'd' {
        match parse_sides(s, from + 1) {
            Ok((sides, end)) => Ok((Expression::DiceTerm(1, sides), end)),
            Err(failure) => Err(failure),
        }
    } else if '0' <= c && c <= '9' {
        let to = skip_digits(s, from);
        proof {
            assert(digits_end(s@, from as int) == digits_end(s@, from + 1));
            lemma_digits_end_bounds(s@, from + 1);
        }
        match read_numeral(s, from, to) {
            None => Err(ParseFailure::NumberTooLarge),
            Some(value) => {
                let next = skip_blanks(s, to);
                if next < s.len() && s[next] == 'd' {
                    if value == 0 {
                        Err(ParseFailure::ZeroDice)
                    } else {
                        match parse_sides(s, next + 1) {
                            Ok((sides, end)) => Ok((Expression::DiceTerm(value, sides), end)),
                            Err(failure) => Err(failure),
                        }
                    }
                } else {
                    Ok((Expression::IntegerLiteral(value), to))
                }
            },
        }
    } else {
        Err(ParseFailure::MissingTerm)
    }
}

/// Reads the expression that `s[from..]` spells.
pub(crate) fn parse_expression_from(s: &[char], from: usize) -> (r: Result<Expression, ParseFailure>)
    requires
        from <= s.len(),
    ensures
        match r {
            Ok(e) => expression_from(s@, from as int) == Ok::<ExpressionModel, ParseFailure>(e@)
                && e@.well_formed(),
            Err(failure) => expression_from(s@, from as int) == Err::<
                ExpressionModel,
                ParseFailure,
            >(failure),
        },
{
    let (first, start) = match parse_term(s, from) {
        Ok(found) => found,
        Err(failure) => {
            return Err(failure);
        },
    };
    let mut left = first;
    let mut pos: usize = start;
    loop
        invariant
            pos <= s.len(),
            left@.well_formed(),
            expression_from(s@, from as int) == tail_at(s@, pos as int, left@),
        decreases s.len() - pos,
    {
        let at = skip_blanks(s, pos);
        if at >= s.len() {
            return Ok(left);
        }
        let c = s[at];
        let op = if c == '+' {
            Operator::Plus
        } else if c == '-' {
            Operator::Minus
        } else {
            return Err(ParseFailure::UnexpectedText);
        };
        match parse_term(s, at + 1) {
            Err(failure) => {
                return Err(failure);
            },
            Ok((right, end)) => {
                left = Expression::BinaryOp(op, Box::new(left), Box::new(right));
                pos = end;
            },
        }
    }
}

/// Reads a dice expression. The whole text must be one expression.
pub fn parse_expression(text: &str) -> (r: Result<Expression, ParseFailure>)
    ensures
        match r {
            Ok(e) => expression_of(text@) == Ok::<ExpressionModel, ParseFailure>(e@)
                && e@.well_formed(),
            Err(failure) => expression_of(text@) == Err::<ExpressionModel, ParseFailure>(failure),
        },
{
    let chars = chars_of(text);
    parse_expression_from(chars.as_slice(), 0)
}

/// The result of joining two values with an operator.
pub open spec fn combined(op: Operator, left: int, right: int) -> int {
    match op {
        Operator::Plus => left + right,
        Operator::Minus => left - right,
    }
}

/// Whether a value fits in 64 bits.
pub open spec fn fits(value: int) -> bool {
    i64::MIN <= value <= i64::MAX
}

/// The value of `e` when its dice are read from `draws` starting at `at`,
/// and the position after the last draw read. The left operand of an
/// operator is evaluated before the right one, so dice are read in the order
/// in which they are written. Evaluation stops at the first failure: a
/// variable that is not set, a dice term that cannot be read, or a value
/// that does not fit in 64 bits.
pub open spec fn value_at(
    e: ExpressionModel,
    variables: Map<Seq<char>, i32>,
    draws: Seq<u32>,
    at: int,
) -> Result<(int, int), RollFailure>
    decreases e,
{
    match e {
        ExpressionModel::IntegerLiteral(value) => Ok((value as int, at)),
        ExpressionModel::VariableRef(name) => if variables.contains_key(name) {
            Ok((variables[name] as int, at))
        } else {
            Err(RollFailure::UnsetVariable(name))
        },
        ExpressionModel::DiceTerm(count, sides) => match dice_at(count as int, sides, draws, at) {
            Err(failure) => Err(failure),
            Ok(dice) => if fits(total_of(dice)) {
                Ok((total_of(dice), at + count))
            } else {
                Err(RollFailure::Overflow)
            },
        },
        ExpressionModel::BinaryOp(op, left, right) => match value_at(*left, variables, draws, at) {
            Err(failure) => Err(failure),
            Ok((l, mid)) => match value_at(*right, variables, draws, mid) {
                Err(failure) => Err(failure),
                Ok((r, end)) => if fits(combined(op, l, r)) {
                    Ok((combined(op, l, r), end))
                } else {
                    Err(RollFailure::Overflow)
                },
            },
        },
    }
}

/// The roll of `e` on `draws`: the dice it read, in order, and its total.
pub open spec fn roll_of(e: ExpressionModel, variables: Map<Seq<char>, i32>, draws: Seq<u32>) -> Result<
    Rolled,
    RollFailure,
> {
    match value_at(e, variables, draws, 0) {
        Err(failure) => Err(failure),
        Ok((total, used)) => Ok(
            Rolled { dice: draws.take(used), outcome: Outcome::Total(total as i64) },
        ),
    }
}

/// A dice term that can be evaluated reads exactly its `count` dice, each of
/// them between 1 and `sides`, and its value is their sum.
pub proof fn lemma_dice_term_value(
    count: u32,
    sides: u32,
    variables: Map<Seq<char>, i32>,
    draws: Seq<u32>,
    at: int,
)
    requires
        count >= 1,
        sides >= 1,
        0 <= at,
        value_at(ExpressionModel::DiceTerm(count, sides), variables, draws, at) is Ok,
    ensures
        at + count <= draws.len(),
        forall|k: int| at <= k < at + count ==> 1 <= #[trigger] draws[k] <= sides,
        value_at(ExpressionModel::DiceTerm(count, sides), variables, draws, at) == Ok::<
            (int, int),
            RollFailure,
        >((total_of(draws.subrange(at, at + count)), at + count)),
        count <= total_of(draws.subrange(at, at + count)) <= count * sides,
{
    lemma_dice_in_range(count as int, sides, draws, at);
}

/// An expression that can be evaluated reads as many draws as it has dice,
/// and none beyond the end of the draws.
pub proof fn lemma_draws_used(
    e: ExpressionModel,
    variables: Map<Seq<char>, i32>,
    draws: Seq<u32>,
    at: int,
)
    requires
        0 <= at <= draws.len(),
    ensures
        value_at(e, variables, draws, at) matches Ok((value, end)) ==> end == at + e.dice_count()
            && at <= end <= draws.len() && fits(value),
    decreases e,
{
    match e {
        ExpressionModel::BinaryOp(op, left, right) => {
            lemma_draws_used(*left, variables, draws, at);
            match value_at(*left, variables, draws, at) {
                Ok((_, mid)) => {
                    lemma_draws_used(*right, variables, draws, mid);
                },
                Err(_) => {},
            }
        },
        ExpressionModel::DiceTerm(count, sides) => {
            if dice_at(count as int, sides, draws, at) is Ok {
                lemma_dice_in_range(count as int, sides, draws, at);
            }
        },
        _ => {},
    }
}

/// With no draw left, an expression reads none: it has a value without
/// reading, or fails for another reason than a draw that cannot be shown.
pub proof fn lemma_no_draw_left(
    e: ExpressionModel,
    variables: Map<Seq<char>, i32>,
    draws: Seq<u32>,
)
    ensures
        match value_at(e, variables, draws, draws.len() as int) {
            Ok((_, end)) => end == draws.len(),
            Err(failure) => !is_invalid_draw(failure),
        },
    decreases e,
{
    match e {
        ExpressionModel::BinaryOp(_, left, right) => {
            lemma_no_draw_left(*left, variables, draws);
            lemma_no_draw_left(*right, variables, draws);
        },
        _ => {},
    }
}

/// What one more draw changes for an expression. An expression that had a
/// value keeps it, and one that failed for a variable, a draw that cannot be
/// shown or a value that does not fit fails in the same way. An expression
/// that ran out of draws goes on with the new draw: if the die that was
/// asked for can show it, the new draw is read, and is never the draw that
/// cannot be shown.
pub proof fn lemma_one_more_draw(
    e: ExpressionModel,
    variables: Map<Seq<char>, i32>,
    draws: Seq<u32>,
    at: int,
    v: u32,
)
    requires
        0 <= at <= draws.len(),
    ensures
        match value_at(e, variables, draws, at) {
            Ok(found) => value_at(e, variables, draws.push(v), at) == Ok::<
                (int, int),
                RollFailure,
            >(found),
            Err(RollFailure::DiceExhausted { sides }) => shows(sides, v) ==> match value_at(
                e,
                variables,
                draws.push(v),
                at,
            ) {
                Ok((_, end)) => end == draws.len() + 1,
                Err(failure) => !is_invalid_draw(failure),
            },
            Err(other) => value_at(e, variables, draws.push(v), at) == Err::<
                (int, int),
                RollFailure,
            >(other),
        },
    decreases e,
{
    let more = draws.push(v);
    match e {
        ExpressionModel::DiceTerm(count, sides) => {
            lemma_dice_at_push(count as int, sides, draws, at, v);
        },
        ExpressionModel::BinaryOp(op, left, right) => {
            lemma_one_more_draw(*left, variables, draws, at, v);
            lemma_draws_used(*left, variables, draws, at);
            match value_at(*left, variables, draws, at) {
                Ok((_, mid)) => {
                    lemma_one_more_draw(*right, variables, draws, mid, v);
                },
                Err(RollFailure::DiceExhausted { sides }) => {
                    if shows(sides, v) {
                        match value_at(*left, variables, more, at) {
                            Ok((_, mid)) => {
                                lemma_no_draw_left(*right, variables, more);
                            },
                            Err(_) => {},
                        }
                    }
                },
                Err(_) => {},
            }
        },
        _ => {},
    }
}

/// Drawing the dice one by one, as they are asked for, never meets a draw
/// that cannot be shown: with no draws there is none, and when a roll that
/// ran out of draws is given one that the die asked for can show, the roll
/// that follows reads it as that die.
pub proof fn lemma_roll_draw_by_draw(
    e: ExpressionModel,
    variables: Map<Seq<char>, i32>,
    draws: Seq<u32>,
    v: u32,
)
    ensures
        roll_of(e, variables, Seq::empty()) matches Err(failure) ==> !is_invalid_draw(failure),
        roll_of(e, variables, draws) matches Err(RollFailure::DiceExhausted { sides }) ==> shows(
            sides,
            v,
        ) ==> (roll_of(e, variables, draws.push(v)) matches Err(failure) ==> !is_invalid_draw(
            failure,
        )),
{
    lemma_no_draw_left(e, variables, Seq::empty());
    lemma_one_more_draw(e, variables, draws, 0, v);
}

/// `seen` followed by the names of `more` that are new, each once, in the
/// order in which they first occur.
pub open spec fn with_new_names(seen: Seq<Seq<char>>, more: Seq<Seq<char>>) -> Seq<Seq<char>>
    decreases more.len(),
{
    if more.len() == 0 {
        seen
    } else {
        let before = with_new_names(seen, more.drop_last());
        if before.contains(more.last()) {
            before
        } else {
            before.push(more.last())
        }
    }
}

/// The names of `names`, each once, in the order in which they first occur.
pub open spec fn distinct(names: Seq<Seq<char>>) -> Seq<Seq<char>> {
    with_new_names(Seq::empty(), names)
}

/// The strings of `names` as sequences of characters.
pub open spec fn texts(names: Seq<String>) -> Seq<Seq<char>> {
    Seq::new(names.len(), |k: int| names[k]@)
}

/// Adding the new names of two lists one after the other is adding the new
/// names of the two lists joined.
pub proof fn lemma_new_names_of_both(
    seen: Seq<Seq<char>>,
    first: Seq<Seq<char>>,
    second: Seq<Seq<char>>,
)
    ensures
        with_new_names(with_new_names(seen, first), second) == with_new_names(
            seen,
            first + second,
        ),
    decreases second.len(),
{
    if second.len() == 0 {
        assert(first + second == first);
    } else {
        lemma_new_names_of_both(seen, first, second.drop_last());
        assert((first + second).drop_last() == first + second.drop_last());
    }
}

/// A name is among the distinct names exactly when it is among the names.
pub proof fn lemma_new_names_contain(seen: Seq<Seq<char>>, more: Seq<Seq<char>>, name: Seq<char>)
    ensures
        with_new_names(seen, more).contains(name) <==> seen.contains(name) || more.contains(name),
    decreases more.len(),
{
    if more.len() > 0 {
        let before = with_new_names(seen, more.drop_last());
        lemma_new_names_contain(seen, more.drop_last(), name);
        if more.contains(name) {
            let k = choose|k: int| 0 <= k < more.len() && more[k] == name;
            if k < more.len() - 1 {
                assert(more.drop_last()[k] == name);
            }
        }
        if more.drop_last().contains(name) {
            let k = choose|k: int| 0 <= k < more.drop_last().len() && more.drop_last()[k] == name;
            assert(more[k] == name);
        }
        if !before.contains(more.last()) {
            let after = before.push(more.last());
            assert(after[before.len() as int] == more.last());
            if before.contains(name) {
                let k = choose|k: int| 0 <= k < before.len() && before[k] == name;
                assert(after[k] == name);
            }
            if after.contains(name) {
                let k = choose|k: int| 0 <= k < after.len() && after[k] == name;
                if k < before.len() {
                    assert(before[k] == name);
                }
            }
        }
        assert(more[more.len() - 1] == more.last());
    }
}

/// An expression that refers to a variable that is not set has no value,
/// whatever the draws: a missing variable never counts as zero.
pub proof fn lemma_unset_variable_fails(
    e: ExpressionModel,
    variables: Map<Seq<char>, i32>,
    draws: Seq<u32>,
    at: int,
    name: Seq<char>,
)
    requires
        e.mentions().contains(name),
        !variables.contains_key(name),
    ensures
        value_at(e, variables, draws, at) is Err,
        roll_of(e, variables, draws) is Err,
    decreases e,
{
    match e {
        ExpressionModel::BinaryOp(op, left, right) => {
            let both = left.mentions() + right.mentions();
            let k = choose|k: int| 0 <= k < both.len() && both[k] == name;
            if k < left.mentions().len() {
                assert(left.mentions()[k] == name);
                lemma_unset_variable_fails(*left, variables, draws, at, name);
                lemma_unset_variable_fails(*left, variables, draws, 0, name);
            } else {
                assert(right.mentions()[k - left.mentions().len()] == name);
                match value_at(*left, variables, draws, at) {
                    Ok((_, mid)) => {
                        lemma_unset_variable_fails(*right, variables, draws, mid, name);
                    },
                    Err(_) => {},
                }
                match value_at(*left, variables, draws, 0) {
                    Ok((_, mid)) => {
                        lemma_unset_variable_fails(*right, variables, draws, mid, name);
                    },
                    Err(_) => {},
                }
            }
        },
        ExpressionModel::VariableRef(own) => {
            assert(e.mentions()[0] == own);
        },
        _ => {
            assert(e.mentions().len() == 0);
        },
    }
}

/// Whether `name` is among `names`.
fn holds_name(names: &Vec<String>, name: &str) -> (b: bool)
    ensures
        b == texts(names@).contains(name@),
{
    let mut k: usize = 0;
    while k < names.len()
        invariant
            k <= names.len(),
            forall|j: int| 0 <= j < k ==> texts(names@)[j] != name@,
        decreases names.len() - k,
    {
        if same_text(names[k].as_str(), name) {
            assert(texts(names@)[k as int] == name@);
            return true;
        }
        k = k + 1;
    }
    false
}

impl Expression {
    /// Adds to `names` the variables of the expression that it does not
    /// hold yet.
    fn add_variable_names(&self, names: &mut Vec<String>)
        ensures
            texts(final(names)@) == with_new_names(texts(old(names)@), self@.mentions()),
        decreases self,
    {
        match self {
            Expression::IntegerLiteral(_) => {},
            Expression::DiceTerm(_, _) => {},
            Expression::VariableRef(name) => {
                let ghost before = texts(names@);
                assert(seq![name@].drop_last() == Seq::<Seq<char>>::empty());
                assert(with_new_names(before, seq![name@].drop_last()) == before);
                if !holds_name(names, name.as_str()) {
                    names.push(name.clone());
                    assert(texts(names@) == before.push(name@));
                }
            },
            Expression::BinaryOp(_, left, right) => {
                left.add_variable_names(names);
                right.add_variable_names(names);
                proof {
                    lemma_new_names_of_both(
                        texts(old(names)@),
                        left@.mentions(),
                        right@.mentions(),
                    );
                }
            },
        }
    }

    /// The variables that the expression refers to, each once, in the order
    /// in which they first occur.
    pub fn variable_names(&self) -> (names: Vec<String>)
        ensures
            texts(names@) == distinct(self@.mentions()),
    {
        let mut names: Vec<String> = Vec::new();
        assert(texts(names@) == Seq::<Seq<char>>::empty());
        self.add_variable_names(&mut names);
        names
    }

    /// Whether every dice term has at least one die and every die at least
    /// one side.
    pub fn is_well_formed(&self) -> (b: bool)
        ensures
            b == self@.well_formed(),
        decreases self,
    {
        match self {
            Expression::IntegerLiteral(_) => true,
            Expression::DiceTerm(count, sides) => *count >= 1 && *sides >= 1,
            Expression::VariableRef(_) => true,
            Expression::BinaryOp(_, left, right) => left.is_well_formed() && right.is_well_formed(),
        }
    }

    /// Evaluates the expression with dice read from `draws[at..]`, and
    /// appends the dice read to `shown`.
    fn evaluate_at(
        &self,
        variables: &Variables,
        draws: &[u32],
        at: usize,
        shown: &mut Vec<u32>,
    ) -> (r: Result<(i64, usize), RollError>)
        requires
            at <= draws.len(),
        ensures
            match r {
                Ok((value, end)) => value_at(self@, variables@, draws@, at as int) == Ok::<
                    (int, int),
                    RollFailure,
                >((value as int, end as int)) && at <= end <= draws.len() && final(shown)@ == old(
                    shown,
                )@ + draws@.subrange(at as int, end as int),
                Err(e) => value_at(self@, variables@, draws@, at as int) == Err::<
                    (int, int),
                    RollFailure,
                >(e@),
            },
        decreases self,
    {
        match self {
            Expression::IntegerLiteral(value) => {
                assert(draws@.subrange(at as int, at as int) == Seq::<u32>::empty());
                Ok((*value as i64, at))
            },
            Expression::VariableRef(name) => {
                assert(draws@.subrange(at as int, at as int) == Seq::<u32>::empty());
                match variables.get(name.as_str()) {
                    Some(value) => Ok((value as i64, at)),
                    None => Err(RollError::UnsetVariable(name.clone())),
                }
            },
            Expression::DiceTerm(count, sides) => {
                let mut dice = match take_dice(*count, *sides, draws, at) {
                    Ok(dice) => dice,
                    Err(e) => {
                        return Err(e);
                    },
                };
                match sum_dice(&dice) {
                    None => Err(RollError::Overflow),
                    Some(total) => {
                        proof {
                            lemma_dice_in_range(*count as int, *sides, draws@, at as int);
                        }
                        shown.append(&mut dice);
                        Ok((total, at + *count as usize))
                    },
                }
            },
            Expression::BinaryOp(op, left, right) => {
                let (l, mid) = match left.evaluate_at(variables, draws, at, shown) {
                    Ok(found) => found,
                    Err(e) => {
                        return Err(e);
                    },
                };
                let (r, end) = match right.evaluate_at(variables, draws, mid, shown) {
                    Ok(found) => found,
                    Err(e) => {
                        return Err(e);
                    },
                };
                assert(draws@.subrange(at as int, mid as int) + draws@.subrange(
                    mid as int,
                    end as int,
                ) == draws@.subrange(at as int, end as int));
                let value = match op {
                    Operator::Plus => l.checked_add(r),
                    Operator::Minus => l.checked_sub(r),
                };
                match value {
                    Some(value) => Ok((value, end)),
                    None => Err(RollError::Overflow),
                }
            },
        }
    }

    /// Rolls the expression: reads its dice from the front of `draws` and
    /// looks its variables up in `variables`.
    pub fn evaluate(&self, variables: &Variables, draws: &[u32]) -> (r: Result<
        RollResult,
        RollError,
    >)
        ensures
            match r {
                Ok(result) => roll_of(self@, variables@, draws@) == Ok::<Rolled, RollFailure>(
                    result@,
                ),
                Err(e) => roll_of(self@, variables@, draws@) == Err::<Rolled, RollFailure>(e@),
            },
    {
        let mut shown: Vec<u32> = Vec::new();
        match self.evaluate_at(variables, draws, 0, &mut shown) {
            Err(e) => Err(e),
            Ok((total, used)) => {
                assert(shown@ == draws@.take(used as int));
                Ok(RollResult { dice: shown, outcome: Outcome::Total(total) })
            },
        }
    }
}

} // verus!
