use dicebot::dice::{parse_expression, Expression, Operator};
use dicebot::parser::ParseFailure;
use dicebot::roll::{sum_dice, take_dice, Outcome, RollError, RollResult};
use dicebot::variables::Variables;

fn dice(count: u32, sides: u32) -> Expression {
    Expression::DiceTerm(count, sides)
}

fn number(value: u32) -> Expression {
    Expression::IntegerLiteral(value)
}

fn variable(name: &str) -> Expression {
    Expression::VariableRef(name.to_string())
}

fn plus(left: Expression, right: Expression) -> Expression {
    Expression::BinaryOp(Operator::Plus, Box::new(left), Box::new(right))
}

fn minus(left: Expression, right: Expression) -> Expression {
    Expression::BinaryOp(Operator::Minus, Box::new(left), Box::new(right))
}

fn total(dice: Vec<u32>, total: i64) -> Result<RollResult, RollError> {
    Ok(RollResult { dice, outcome: Outcome::Total(total) })
}

#[test]
fn parses_single_terms() {
    assert_eq!(parse_expression("7"), Ok(number(7)));
    assert_eq!(parse_expression("0"), Ok(number(0)));
    assert_eq!(parse_expression("007"), Ok(number(7)));
    assert_eq!(parse_expression("4294967295"), Ok(number(4294967295)));
    assert_eq!(parse_expression("2d6"), Ok(dice(2, 6)));
    assert_eq!(parse_expression("d20"), Ok(dice(1, 20)));
    assert_eq!(parse_expression("1d1"), Ok(dice(1, 1)));
    assert_eq!(parse_expression("$penalty"), Ok(variable("penalty")));
    assert_eq!(parse_expression("$_x9"), Ok(variable("_x9")));
    assert_eq!(parse_expression("$d6"), Ok(variable("d6")));
}

#[test]
fn parses_left_to_right() {
    assert_eq!(parse_expression("2d6+3"), Ok(plus(dice(2, 6), number(3))));
    assert_eq!(
        parse_expression("2d6+3-1"),
        Ok(minus(plus(dice(2, 6), number(3)), number(1)))
    );
    assert_eq!(
        parse_expression("1d20-$penalty"),
        Ok(minus(dice(1, 20), variable("penalty")))
    );
    assert_eq!(
        parse_expression("1-2-3-4"),
        Ok(minus(minus(minus(number(1), number(2)), number(3)), number(4)))
    );
    assert_eq!(
        parse_expression("$a+d4+$b"),
        Ok(plus(plus(variable("a"), dice(1, 4)), variable("b")))
    );
}

#[test]
fn blanks_between_tokens_are_ignored() {
    let expected = Ok(minus(plus(dice(2, 6), number(3)), variable("x")));
    assert_eq!(parse_expression("2d6+3-$x"), expected);
    assert_eq!(parse_expression("  2 d 6 + 3 - $x  "), expected);
    assert_eq!(parse_expression("\t2d6\n+\r3 -$x"), expected);
    assert_eq!(parse_expression("d 8"), Ok(dice(1, 8)));
}

#[test]
fn blanks_inside_tokens_are_not() {
    assert_eq!(parse_expression("1 2"), Err(ParseFailure::UnexpectedText));
    assert_eq!(parse_expression("$ x"), Err(ParseFailure::MissingName));
    assert_eq!(parse_expression("$x y"), Err(ParseFailure::UnexpectedText));
    assert_eq!(parse_expression("2d6 6"), Err(ParseFailure::UnexpectedText));
}

#[test]
fn rejects_each_malformed_expression() {
    assert_eq!(parse_expression(""), Err(ParseFailure::MissingTerm));
    assert_eq!(parse_expression("   "), Err(ParseFailure::MissingTerm));
    assert_eq!(parse_expression("+3"), Err(ParseFailure::MissingTerm));
    assert_eq!(parse_expression("-2d6"), Err(ParseFailure::MissingTerm));
    assert_eq!(parse_expression("2d6+"), Err(ParseFailure::MissingTerm));
    assert_eq!(parse_expression("2d6++3"), Err(ParseFailure::MissingTerm));
    assert_eq!(parse_expression("x"), Err(ParseFailure::MissingTerm));
    assert_eq!(parse_expression("2D6"), Err(ParseFailure::UnexpectedText));
    assert_eq!(parse_expression("2d6*3"), Err(ParseFailure::UnexpectedText));
    assert_eq!(parse_expression("(2d6)"), Err(ParseFailure::MissingTerm));
    assert_eq!(parse_expression("2d6 for fun"), Err(ParseFailure::UnexpectedText));
    assert_eq!(parse_expression("0d6"), Err(ParseFailure::ZeroDice));
    assert_eq!(parse_expression("00d6"), Err(ParseFailure::ZeroDice));
    assert_eq!(parse_expression("2d0"), Err(ParseFailure::ZeroSides));
    assert_eq!(parse_expression("d0"), Err(ParseFailure::ZeroSides));
    assert_eq!(parse_expression("2d"), Err(ParseFailure::MissingSides));
    assert_eq!(parse_expression("d"), Err(ParseFailure::MissingSides));
    assert_eq!(parse_expression("2d+3"), Err(ParseFailure::MissingSides));
    assert_eq!(parse_expression("2d$x"), Err(ParseFailure::MissingSides));
    assert_eq!(parse_expression("$"), Err(ParseFailure::MissingName));
    assert_eq!(parse_expression("$9"), Err(ParseFailure::MissingName));
    assert_eq!(parse_expression("3+$"), Err(ParseFailure::MissingName));
    assert_eq!(parse_expression("4294967296"), Err(ParseFailure::NumberTooLarge));
    assert_eq!(parse_expression("4294967296d6"), Err(ParseFailure::NumberTooLarge));
    assert_eq!(parse_expression("2d4294967296"), Err(ParseFailure::NumberTooLarge));
    assert_eq!(
        parse_expression("99999999999999999999999999999"),
        Err(ParseFailure::NumberTooLarge)
    );
}

#[test]
fn failure_sentences() {
    assert_eq!(
        ParseFailure::MissingTerm.describe(),
        "expected a number, a die or a variable"
    );
    assert_eq!(ParseFailure::NumberTooLarge.describe(), "number too large");
    assert_eq!(ParseFailure::ZeroDice.describe(), "at least one die must be rolled");
    assert_eq!(ParseFailure::ZeroSides.describe(), "a die needs at least one side");
    assert_eq!(
        ParseFailure::MissingSides.describe(),
        "expected the number of sides after 'd'"
    );
    assert_eq!(
        ParseFailure::MissingName.describe(),
        "expected a variable name after '$'"
    );
    assert_eq!(ParseFailure::UnexpectedText.describe(), "expected '+' or '-'");
    assert_eq!(
        ParseFailure::MissingPoolSize.describe(),
        "expected the number of dice in the pool"
    );
    assert_eq!(ParseFailure::UnknownModifier.describe(), "unknown pool modifier");
    assert_eq!(ParseFailure::RepeatedModifier.describe(), "pool modifier given twice");
}

#[test]
fn parsing_the_same_text_twice_gives_the_same_expression() {
    for text in ["2d6+3", " d20 - $x + 4", "2d6+", "0d6", ""] {
        assert_eq!(parse_expression(text), parse_expression(text));
        let copy = text.to_string();
        assert_eq!(parse_expression(text), parse_expression(&copy));
    }
}

#[test]
fn parsed_expressions_are_well_formed() {
    for text in ["2d6+3", "d20", "1d1-1d1", "$x+4294967295d4294967295"] {
        assert!(parse_expression(text).unwrap().is_well_formed());
    }
    assert!(!dice(0, 6).is_well_formed());
    assert!(!dice(2, 0).is_well_formed());
    assert!(!plus(number(1), minus(dice(1, 6), dice(0, 1))).is_well_formed());
    assert!(plus(number(1), minus(dice(1, 6), variable("x"))).is_well_formed());
}

#[test]
fn dice_term_is_the_sum_of_its_draws() {
    let none = Variables::new();
    assert_eq!(dice(2, 6).evaluate(&none, &[4, 5]), total(vec![4, 5], 9));
    assert_eq!(dice(3, 6).evaluate(&none, &[1, 1, 1]), total(vec![1, 1, 1], 3));
    assert_eq!(dice(3, 6).evaluate(&none, &[6, 6, 6]), total(vec![6, 6, 6], 18));
    assert_eq!(dice(1, 1).evaluate(&none, &[1]), total(vec![1], 1));
    assert_eq!(
        dice(1, 4294967295).evaluate(&none, &[4294967295]),
        total(vec![4294967295], 4294967295)
    );
}

#[test]
fn draws_beyond_those_needed_are_left_alone() {
    let none = Variables::new();
    assert_eq!(dice(2, 6).evaluate(&none, &[4, 5, 6, 99]), total(vec![4, 5], 9));
    assert_eq!(number(3).evaluate(&none, &[0, 0]), total(vec![], 3));
}

#[test]
fn draws_off_the_die_are_rejected() {
    let none = Variables::new();
    assert_eq!(
        dice(2, 6).evaluate(&none, &[4, 7]),
        Err(RollError::InvalidDraw { value: 7, sides: 6 })
    );
    assert_eq!(
        dice(2, 6).evaluate(&none, &[0, 3]),
        Err(RollError::InvalidDraw { value: 0, sides: 6 })
    );
    assert_eq!(
        dice(3, 6).evaluate(&none, &[9]),
        Err(RollError::InvalidDraw { value: 9, sides: 6 })
    );
    assert_eq!(
        dice(1, 0).evaluate(&none, &[1]),
        Err(RollError::InvalidDraw { value: 1, sides: 0 })
    );
}

#[test]
fn draws_that_run_out_are_reported_with_the_die_needed() {
    let none = Variables::new();
    assert_eq!(dice(2, 6).evaluate(&none, &[]), Err(RollError::DiceExhausted { sides: 6 }));
    assert_eq!(dice(2, 6).evaluate(&none, &[4]), Err(RollError::DiceExhausted { sides: 6 }));
    assert_eq!(
        plus(dice(1, 6), dice(1, 20)).evaluate(&none, &[4]),
        Err(RollError::DiceExhausted { sides: 20 })
    );
}

#[test]
fn dice_are_read_in_the_order_written() {
    let none = Variables::new();
    let expression = minus(plus(dice(1, 4), dice(2, 20)), dice(1, 6));
    assert_eq!(
        expression.evaluate(&none, &[3, 20, 15, 6]),
        total(vec![3, 20, 15, 6], 3 + 20 + 15 - 6)
    );
    assert_eq!(
        expression.evaluate(&none, &[20, 3, 15, 6]),
        Err(RollError::InvalidDraw { value: 20, sides: 4 })
    );
}

#[test]
fn trees_of_any_shape_are_evaluated() {
    let none = Variables::new();
    let right_nested = minus(number(10), minus(number(4), number(3)));
    assert_eq!(right_nested.evaluate(&none, &[]), total(vec![], 9));
    let left_nested = minus(minus(number(10), number(4)), number(3));
    assert_eq!(left_nested.evaluate(&none, &[]), total(vec![], 3));
}

#[test]
fn variables_are_looked_up() {
    let mut variables = Variables::new();
    variables.set("bonus", 5);
    variables.set("penalty", -2);
    assert_eq!(
        plus(dice(1, 20), variable("bonus")).evaluate(&variables, &[11]),
        total(vec![11], 16)
    );
    assert_eq!(
        minus(number(1), variable("penalty")).evaluate(&variables, &[]),
        total(vec![], 3)
    );
    assert_eq!(
        minus(dice(1, 20), variable("missingvar")).evaluate(&variables, &[11]),
        Err(RollError::UnsetVariable("missingvar".to_string()))
    );
    assert_eq!(
        variable("Bonus").evaluate(&variables, &[]),
        Err(RollError::UnsetVariable("Bonus".to_string()))
    );
}

#[test]
fn the_first_failure_wins() {
    let none = Variables::new();
    assert_eq!(
        plus(variable("x"), dice(1, 6)).evaluate(&none, &[]),
        Err(RollError::UnsetVariable("x".to_string()))
    );
    assert_eq!(
        plus(dice(1, 6), variable("x")).evaluate(&none, &[]),
        Err(RollError::DiceExhausted { sides: 6 })
    );
    assert_eq!(
        plus(dice(1, 6), variable("x")).evaluate(&none, &[7]),
        Err(RollError::InvalidDraw { value: 7, sides: 6 })
    );
}

#[test]
fn large_totals_are_exact() {
    let mut variables = Variables::new();
    variables.set("least", i32::MIN);
    variables.set("most", i32::MAX);
    let mut big = number(4294967295);
    for _ in 0..31 {
        big = plus(big, number(4294967295));
    }
    assert_eq!(big.evaluate(&variables, &[]), total(vec![], 32 * 4294967295));
    assert_eq!(
        minus(variable("least"), number(4294967295)).evaluate(&variables, &[]),
        total(vec![], i32::MIN as i64 - 4294967295)
    );
    assert_eq!(
        plus(variable("most"), variable("most")).evaluate(&variables, &[]),
        total(vec![], 2 * (i32::MAX as i64))
    );
}

#[test]
fn sums_of_dice() {
    let most = vec![u32::MAX; 3];
    assert_eq!(sum_dice(&most), Some(3 * (u32::MAX as i64)));
    assert_eq!(sum_dice(&vec![]), Some(0));
}

#[test]
fn variable_names_are_listed_once_in_order() {
    let none: Vec<String> = Vec::new();
    assert_eq!(number(3).variable_names(), none);
    assert_eq!(dice(2, 6).variable_names(), none);
    assert_eq!(variable("x").variable_names(), vec!["x".to_string()]);
    let expression = parse_expression("$b + 2d6 - $a + $b - $c + $a").unwrap();
    assert_eq!(
        expression.variable_names(),
        vec!["b".to_string(), "a".to_string(), "c".to_string()]
    );
    let nested = minus(variable("x"), minus(variable("y"), variable("x")));
    assert_eq!(nested.variable_names(), vec!["x".to_string(), "y".to_string()]);
}

#[test]
fn take_dice_reads_a_run_of_draws() {
    assert_eq!(take_dice(2, 6, &[1, 2, 3, 4], 1), Ok(vec![2, 3]));
    assert_eq!(take_dice(0, 6, &[1, 2, 3, 4], 4), Ok(vec![]));
    assert_eq!(take_dice(0, 6, &[9], 0), Ok(vec![]));
    assert_eq!(take_dice(1, 6, &[1, 2], 2), Err(RollError::DiceExhausted { sides: 6 }));
    assert_eq!(take_dice(1, 6, &[1, 2], 5), Err(RollError::DiceExhausted { sides: 6 }));
    assert_eq!(take_dice(0, 6, &[1, 2], 5), Err(RollError::DiceExhausted { sides: 6 }));
    assert_eq!(
        take_dice(3, 6, &[1, 8], 0),
        Err(RollError::InvalidDraw { value: 8, sides: 6 })
    );
}
