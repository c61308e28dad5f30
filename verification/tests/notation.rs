use dicebot::cofd::{create_chance_die, parse_dice_pool, Again, PoolSpec};
use dicebot::dice::{parse_expression, Expression, Operator};

#[test]
fn expressions_are_written_without_blanks() {
    for (text, written) in [
        ("7", "7"),
        ("007", "7"),
        ("d20", "1d20"),
        (" 2 d 6 + 3 ", "2d6+3"),
        ("1d20 - $penalty", "1d20-$penalty"),
        ("$a+$b-4294967295d4294967295", "$a+$b-4294967295d4294967295"),
        ("1-2-3-4", "1-2-3-4"),
    ] {
        assert_eq!(parse_expression(text).unwrap().notation(), written);
    }
}

#[test]
fn written_expressions_are_read_back() {
    for text in ["0", "d1", "2d6+3-1", "$x", "$_a1-d4+10", " 3 + 4 - $long_name + 2d8 "] {
        let first = parse_expression(text).unwrap();
        let second = parse_expression(&first.notation()).unwrap();
        assert_eq!(first, second);
        assert_eq!(first.notation(), second.notation());
    }
}

#[test]
fn operator_symbols() {
    assert_eq!(Operator::Plus.symbol(), '+');
    assert_eq!(Operator::Minus.symbol(), '-');
}

#[test]
fn right_nested_trees_are_written_flat() {
    let tree = Expression::BinaryOp(
        Operator::Minus,
        Box::new(Expression::IntegerLiteral(10)),
        Box::new(Expression::BinaryOp(
            Operator::Minus,
            Box::new(Expression::IntegerLiteral(4)),
            Box::new(Expression::IntegerLiteral(3)),
        )),
    );
    assert_eq!(tree.notation(), "10-4-3");
    assert_ne!(parse_expression("10-4-3").unwrap(), tree);
}

#[test]
fn pools_are_written_with_their_rule() {
    for (text, written) in [
        ("5", "5 10-again"),
        ("5 rote", "5 rote 10-again"),
        ("  12  no-again   rote ", "12 rote no-again"),
        ("3 8-again", "3 8-again"),
        ("3 rote 9-again", "3 rote 9-again"),
    ] {
        assert_eq!(parse_dice_pool(text).unwrap().notation(), written);
    }
}

#[test]
fn written_pools_are_read_back() {
    for count in [1u32, 9, 10, 4294967295] {
        for again in [Again::Eight, Again::Nine, Again::Ten, Again::Never] {
            for rote in [false, true] {
                let pool = PoolSpec { count, again, rote, is_chance_die: false };
                assert_eq!(parse_dice_pool(&pool.notation()), Ok(pool));
            }
        }
    }
}

#[test]
fn again_words() {
    assert_eq!(Again::Eight.word(), "8-again");
    assert_eq!(Again::Nine.word(), "9-again");
    assert_eq!(Again::Ten.word(), "10-again");
    assert_eq!(Again::Never.word(), "no-again");
}

#[test]
fn chance_die_is_written_as_a_pool_of_one() {
    let chance = create_chance_die();
    assert_eq!(chance.notation(), "1 no-again");
    assert_ne!(parse_dice_pool(&chance.notation()), Ok(chance));
}
