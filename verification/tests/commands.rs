use dicebot::cofd::{Again, PoolSpec};
use dicebot::commands::parser::{classify, keyword_of, parse_command, Classified, Keyword};
use dicebot::commands::{
    execute_command, is_ignored, next_die, report, respond, Command, CommandError,
    CommandResult, Execution, ExecutionError, ResponseExtractor,
};
use dicebot::context::{Context, RoomContext};
use dicebot::db::{DataError, MigrationError};
use dicebot::dice::{Expression, Operator};
use dicebot::error::BotError;
use dicebot::help::HelpTopic;
use dicebot::roll::{Outcome, RollError, RollResult};
use dicebot::variables::Variables;

fn context(message: &str, dice: Vec<u32>) -> Context {
    Context {
        room: RoomContext {
            id: "!fakeroomid:example.com".to_string(),
            display_name: "displayname".to_string(),
        },
        username: "myusername".to_string(),
        message_body: message.to_string(),
        variables: Variables::new(),
        dice,
    }
}

fn html_of(result: &CommandResult) -> String {
    match result {
        Ok(execution) => execution.html(),
        Err(error) => panic!("the command failed: {:?}", error),
    }
}

fn error_of(result: CommandResult) -> BotError {
    match result {
        Ok(execution) => panic!("the command ran: {:?}", execution),
        Err(ExecutionError(error)) => error,
    }
}

#[test]
fn unrecognized_command() {
    let ctx = context("!notacommand", vec![]);
    let result = execute_command(&ctx);
    assert!(result.is_err());
}

#[test]
fn unrecognized_command_is_ignored_not_invalid() {
    let ctx = context("!notacommand", vec![]);
    assert_eq!(
        error_of(execute_command(&ctx)),
        BotError::CommandError(CommandError::IgnoredCommand)
    );
    assert_eq!(respond(&ctx), None);
}

#[test]
fn roll_two_d6_plus_three() {
    let ctx = context("!roll 2d6+3", vec![4, 5]);
    let result = execute_command(&ctx);
    assert_eq!(html_of(&result), "Dice: [4, 5]\nTotal: 12");
    assert_eq!(
        result.message_html("myusername"),
        "<p>myusername</p><p>Dice: [4, 5]<br/>Total: 12</p>"
    );
    assert_eq!(
        respond(&ctx),
        Some("<p>myusername</p><p>Dice: [4, 5]<br/>Total: 12</p>".to_string())
    );
}

#[test]
fn roll_alias_and_spacing() {
    let ctx = context("  !r  2 d 6 + 3 ", vec![4, 5, 6]);
    assert_eq!(html_of(&execute_command(&ctx)), "Dice: [4, 5]\nTotal: 12");
    let ctx = context("!roll2d6", vec![1, 1]);
    assert_eq!(html_of(&execute_command(&ctx)), "Dice: [1, 1]\nTotal: 2");
}

#[test]
fn roll_without_dice_lists_nothing() {
    let ctx = context("!roll 3-10", vec![]);
    assert_eq!(html_of(&execute_command(&ctx)), "Dice: []\nTotal: -7");
}

#[test]
fn pool_of_five_with_one_bonus_die() {
    let ctx = context("!pool 5", vec![8, 3, 10, 2, 7, 6]);
    let result = execute_command(&ctx);
    assert_eq!(html_of(&result), "Dice: [8, 3, 10, 2, 7, 6]\nSuccesses: 2");
    assert_eq!(
        result.message_html("myusername"),
        "<p>myusername</p><p>Dice: [8, 3, 10, 2, 7, 6]<br/>Successes: 2</p>"
    );
}

#[test]
fn pool_of_five_base_successes() {
    let ctx = context("!rp 5 no-again", vec![8, 3, 10, 2, 7]);
    assert_eq!(html_of(&execute_command(&ctx)), "Dice: [8, 3, 10, 2, 7]\nSuccesses: 2");
}

#[test]
fn chance_die_results() {
    let ctx = context("!chance", vec![1]);
    assert_eq!(
        html_of(&execute_command(&ctx)),
        "Dice: [1]\nSuccesses: 0\nDramatic failure"
    );
    let ctx = context("!chance", vec![10]);
    assert_eq!(html_of(&execute_command(&ctx)), "Dice: [10]\nSuccesses: 1");
    let ctx = context("!chance", vec![9]);
    assert_eq!(html_of(&execute_command(&ctx)), "Dice: [9]\nSuccesses: 0");
}

#[test]
fn chance_ignores_what_follows() {
    let ctx = context("!chance of rain 5d6", vec![10, 10]);
    assert_eq!(html_of(&execute_command(&ctx)), "Dice: [10]\nSuccesses: 1");
}

#[test]
fn plain_text_gets_no_reply() {
    let ctx = context("hello there", vec![1, 2, 3]);
    assert_eq!(respond(&ctx), None);
    assert_eq!(classify("hello there"), Classified::NotACommand);
    assert_eq!(parse_command("hello there"), Ok(None));
    assert_eq!(
        error_of(execute_command(&ctx)),
        BotError::CommandError(CommandError::IgnoredCommand)
    );
}

#[test]
fn other_text_that_is_no_command() {
    for text in [
        "",
        "   ",
        "!",
        "! roll 2d6",
        "!1d6",
        "roll 2d6",
        "!rollx 2d6",
        "!Roll 2d6",
        "!rolls",
        "!poolside",
        "!rpg",
        "say !roll 2d6",
    ] {
        assert_eq!(classify(text), Classified::NotACommand);
        assert_eq!(parse_command(text), Ok(None));
        assert_eq!(respond(&context(text, vec![3, 3])), None);
    }
}

#[test]
fn keyword_ends_with_its_letters() {
    assert_eq!(classify("!roll\u{e9} 2d6"), Classified::NotACommand);
    assert_eq!(classify("!r\u{3b1}"), Classified::NotACommand);
    assert_eq!(
        classify("!roll2d6"),
        Classified::Recognized(Keyword::Roll, "2d6".to_string())
    );
    assert_eq!(
        classify("!roll_"),
        Classified::Recognized(Keyword::Roll, "_".to_string())
    );
}

#[test]
fn classify_gives_keyword_and_remainder() {
    assert_eq!(
        classify("!roll 2d6+3"),
        Classified::Recognized(Keyword::Roll, " 2d6+3".to_string())
    );
    assert_eq!(classify("!r 1"), Classified::Recognized(Keyword::Roll, " 1".to_string()));
    assert_eq!(
        classify(" \t\n!pool 5 rote"),
        Classified::Recognized(Keyword::Pool, " 5 rote".to_string())
    );
    assert_eq!(classify("!rp"), Classified::Recognized(Keyword::Pool, "".to_string()));
    assert_eq!(
        classify("!chancexyz"),
        Classified::Recognized(Keyword::Chance, "xyz".to_string())
    );
    assert_eq!(
        classify("!helpme"),
        Classified::Recognized(Keyword::Help, "me".to_string())
    );
    assert_eq!(
        classify("!help  DICE "),
        Classified::Recognized(Keyword::Help, "  DICE ".to_string())
    );
}

#[test]
fn keyword_of_known_and_unknown_words() {
    let word = |text: &str| text.chars().collect::<Vec<char>>();
    assert_eq!(keyword_of(&word("r")), Some(Keyword::Roll));
    assert_eq!(keyword_of(&word("roll")), Some(Keyword::Roll));
    assert_eq!(keyword_of(&word("rp")), Some(Keyword::Pool));
    assert_eq!(keyword_of(&word("pool")), Some(Keyword::Pool));
    assert_eq!(keyword_of(&word("")), None);
    assert_eq!(keyword_of(&word("ro")), None);
    assert_eq!(keyword_of(&word("rolls")), None);
    assert_eq!(keyword_of(&word("chance")), None);
    assert_eq!(keyword_of(&word("help")), None);
    assert_eq!(keyword_of(&word("ROLL")), None);
}

#[test]
fn parse_command_builds_each_command() {
    assert_eq!(
        parse_command("!roll 2d6+3"),
        Ok(Some(Command::Roll(Expression::BinaryOp(
            Operator::Plus,
            Box::new(Expression::DiceTerm(2, 6)),
            Box::new(Expression::IntegerLiteral(3)),
        ))))
    );
    assert_eq!(
        parse_command("!pool 4 9-again rote"),
        Ok(Some(Command::PoolRoll(PoolSpec {
            count: 4,
            again: Again::Nine,
            rote: true,
            is_chance_die: false,
        })))
    );
    assert_eq!(
        parse_command("!chance"),
        Ok(Some(Command::PoolRoll(PoolSpec {
            count: 1,
            again: Again::Never,
            rote: false,
            is_chance_die: true,
        })))
    );
    assert_eq!(parse_command("!help"), Ok(Some(Command::Help(HelpTopic::General))));
    assert_eq!(
        parse_command("!help  Pool  "),
        Ok(Some(Command::Help(HelpTopic::DicePool)))
    );
    assert_eq!(
        parse_command("!help dice"),
        Ok(Some(Command::Help(HelpTopic::RollingDice)))
    );
    assert_eq!(
        parse_command("!help something else"),
        Ok(Some(Command::Help(HelpTopic::General)))
    );
}

#[test]
fn recognized_keyword_with_bad_arguments_is_invalid() {
    assert_eq!(
        parse_command("!roll"),
        Err(CommandError::InvalidCommand(
            "expected a number, a die or a variable".to_string()
        ))
    );
    assert_eq!(
        parse_command("!roll 0d6"),
        Err(CommandError::InvalidCommand("at least one die must be rolled".to_string()))
    );
    assert_eq!(
        parse_command("!roll 2d0"),
        Err(CommandError::InvalidCommand("a die needs at least one side".to_string()))
    );
    assert_eq!(
        parse_command("!pool"),
        Err(CommandError::InvalidCommand(
            "expected the number of dice in the pool".to_string()
        ))
    );
    assert_eq!(
        parse_command("!rp 5 twice"),
        Err(CommandError::InvalidCommand("unknown pool modifier".to_string()))
    );
    let ctx = context("!roll 2d6 +", vec![1, 2]);
    assert_eq!(
        error_of(execute_command(&ctx)),
        BotError::CommandError(CommandError::InvalidCommand(
            "expected a number, a die or a variable".to_string()
        ))
    );
    assert_eq!(
        respond(&ctx),
        Some(
            "<p>myusername</p><p><p><strong>invalid command: expected a number, a die or a variable</strong></p></p>"
                .to_string()
        )
    );
}

#[test]
fn missing_variable_is_an_error() {
    let mut ctx = context("!roll 1d20-$missingvar", vec![7]);
    assert_eq!(
        error_of(execute_command(&ctx)),
        BotError::DataError(DataError::KeyDoesNotExist("missingvar".to_string()))
    );
    assert_eq!(
        respond(&ctx),
        Some(
            "<p>myusername</p><p><p><strong>database error: value does not exist for key: missingvar</strong></p></p>"
                .to_string()
        )
    );
    ctx.variables.set("missingvar", 0);
    assert_eq!(html_of(&execute_command(&ctx)), "Dice: [7]\nTotal: 7");
    ctx.variables.set("missingvar", 9);
    assert_eq!(html_of(&execute_command(&ctx)), "Dice: [7]\nTotal: -2");
}

#[test]
fn variables_of_other_names_do_not_help() {
    let mut ctx = context("!roll $strength + $dexterity", vec![]);
    ctx.variables.set("strength", 3);
    assert_eq!(
        error_of(execute_command(&ctx)),
        BotError::DataError(DataError::KeyDoesNotExist("dexterity".to_string()))
    );
    ctx.variables.set("dexterity", -1);
    assert_eq!(html_of(&execute_command(&ctx)), "Dice: []\nTotal: 2");
}

#[test]
fn dice_running_out_is_reported() {
    let ctx = context("!roll 3d6", vec![2, 2]);
    assert_eq!(
        error_of(execute_command(&ctx)),
        BotError::RollError(RollError::DiceExhausted { sides: 6 })
    );
    let ctx = context("!pool 2", vec![10, 10, 10, 10]);
    assert_eq!(
        error_of(execute_command(&ctx)),
        BotError::RollError(RollError::DiceExhausted { sides: 10 })
    );
}

#[test]
fn commands_name_the_variables_they_read() {
    let none: Vec<String> = Vec::new();
    let roll = parse_command("!roll $a + $b - $a").unwrap().unwrap();
    assert_eq!(roll.variable_names(), vec!["a".to_string(), "b".to_string()]);
    assert_eq!(parse_command("!pool 5").unwrap().unwrap().variable_names(), none);
    assert_eq!(parse_command("!chance").unwrap().unwrap().variable_names(), none);
    assert_eq!(parse_command("!help $a").unwrap().unwrap().variable_names(), none);
}

#[test]
fn only_text_without_a_command_is_ignored() {
    assert!(is_ignored(&execute_command(&context("hello there", vec![]))));
    assert!(is_ignored(&execute_command(&context("!notacommand", vec![]))));
    assert!(!is_ignored(&execute_command(&context("!roll", vec![]))));
    assert!(!is_ignored(&execute_command(&context("!roll 1d6", vec![]))));
    assert!(!is_ignored(&execute_command(&context("!roll 1d6", vec![3]))));
    assert!(!is_ignored(&execute_command(&context("!roll $x", vec![]))));
    assert!(!is_ignored(&execute_command(&context("!help", vec![]))));
    assert!(!is_ignored(&Execution::new("ignored command".to_string())));
    let invalid: CommandResult = Err(ExecutionError(BotError::CommandError(
        CommandError::InvalidCommand("ignored command".to_string()),
    )));
    assert!(!is_ignored(&invalid));
}

#[test]
fn next_die_is_the_one_that_ran_out() {
    assert_eq!(next_die(&execute_command(&context("!roll 2d6+d20", vec![]))), Some(6));
    assert_eq!(next_die(&execute_command(&context("!roll 2d6+d20", vec![3]))), Some(6));
    assert_eq!(next_die(&execute_command(&context("!roll 2d6+d20", vec![3, 4]))), Some(20));
    assert_eq!(next_die(&execute_command(&context("!roll 2d6+d20", vec![3, 4, 5]))), None);
    assert_eq!(next_die(&execute_command(&context("!pool 2", vec![10]))), Some(10));
    assert_eq!(next_die(&execute_command(&context("!chance", vec![]))), Some(10));
    assert_eq!(next_die(&execute_command(&context("!roll 2d6", vec![7]))), None);
    assert_eq!(next_die(&execute_command(&context("!roll $x+d6", vec![]))), None);
    assert_eq!(next_die(&execute_command(&context("!help", vec![]))), None);
    assert_eq!(next_die(&execute_command(&context("hello", vec![]))), None);
}

#[test]
fn a_command_can_be_run_draw_by_draw() {
    for (text, faces, expected) in [
        ("!roll 2d6+3", vec![4, 5], "Dice: [4, 5]\nTotal: 12"),
        ("!roll d4 - d20 + 2d8", vec![4, 20, 8, 1], "Dice: [4, 20, 8, 1]\nTotal: -7"),
        ("!pool 5", vec![8, 3, 10, 2, 7, 6], "Dice: [8, 3, 10, 2, 7, 6]\nSuccesses: 2"),
        ("!pool 2 rote 9-again", vec![1, 9, 10, 9, 2, 3], "Dice: [10, 9, 9, 2, 3]\nSuccesses: 3"),
        ("!chance", vec![10], "Dice: [10]\nSuccesses: 1"),
        ("!roll 7", vec![], "Dice: []\nTotal: 7"),
    ] {
        let mut ctx = context(text, vec![]);
        let mut supply = faces.into_iter();
        let result = loop {
            let result = execute_command(&ctx);
            match next_die(&result) {
                Some(sides) => {
                    let face = supply.next().unwrap();
                    assert!(1 <= face && face <= sides);
                    ctx.dice.push(face);
                }
                None => break result,
            }
        };
        assert_eq!(supply.next(), None);
        assert_eq!(html_of(&result), expected);
    }
}

#[test]
fn command_names() {
    assert_eq!(Command::Roll(Expression::IntegerLiteral(1)).name(), "roll regular dice");
    assert_eq!(
        Command::PoolRoll(PoolSpec {
            count: 1,
            again: Again::Ten,
            rote: false,
            is_chance_die: false
        })
        .name(),
        "roll dice pool"
    );
    assert_eq!(Command::Help(HelpTopic::General).name(), "help information");
}

#[test]
fn help_is_answered_with_its_text() {
    let ctx = context("!help dice", vec![]);
    let reply = respond(&ctx).unwrap();
    assert!(reply.starts_with("<p>myusername</p><p>!roll &lt;"
        .replace("&lt;", "<")
        .as_str()));
    assert!(reply.contains("<br/>"));
    assert!(!reply.contains('\n'));
    assert_eq!(html_of(&execute_command(&ctx)), HelpTopic::RollingDice.message());
}

#[test]
fn execution_holds_its_html() {
    let result = Execution::new("<b>done</b>\nnext".to_string());
    assert_eq!(html_of(&result), "<b>done</b>\nnext");
    assert_eq!(
        result.message_html("@user:example.com"),
        "<p>@user:example.com</p><p><b>done</b><br/>next</p>"
    );
}

#[test]
fn execution_error_html_is_bold() {
    let error = ExecutionError(BotError::CommandError(CommandError::InvalidCommand(
        "number too large".to_string(),
    )));
    assert_eq!(
        error.html(),
        "<p><strong>invalid command: number too large</strong></p>"
    );
    let ignored = ExecutionError(BotError::CommandError(CommandError::IgnoredCommand));
    assert_eq!(ignored.html(), "<p><strong>ignored command</strong></p>");
    let result: CommandResult = Err(error);
    assert_eq!(
        result.message_html("me"),
        "<p>me</p><p><p><strong>invalid command: number too large</strong></p></p>"
    );
}

#[test]
fn newline_in_username_becomes_a_break() {
    let result = Execution::new("a\nb".to_string());
    assert_eq!(result.message_html("x\ny"), "<p>x<br/>y</p><p>a<br/>b</p>");
}

#[test]
fn errors_convert_into_execution_errors() {
    let from_bot: ExecutionError = BotError::ShouldNotProcessError.into();
    assert_eq!(from_bot.0, BotError::ShouldNotProcessError);
    assert_eq!(
        from_bot.html(),
        "<p><strong>the message should not be processed</strong></p>"
    );
    let from_data: ExecutionError = DataError::InternalError("disk full".to_string()).into();
    assert_eq!(
        from_data.0,
        BotError::DataError(DataError::InternalError("disk full".to_string()))
    );
    assert_eq!(
        from_data.html(),
        "<p><strong>database error: internal database error: disk full</strong></p>"
    );
    let from_migration = ExecutionError::from(DataError::MigrationError(
        MigrationError::CannotDowngrade,
    ));
    assert_eq!(
        from_migration.html(),
        "<p><strong>database error: data migration error: cannot downgrade to an older database version</strong></p>"
    );
}

#[test]
fn roll_errors_are_filed_under_their_kind() {
    assert_eq!(
        BotError::from_roll(RollError::UnsetVariable("x".to_string())),
        BotError::DataError(DataError::KeyDoesNotExist("x".to_string()))
    );
    assert_eq!(
        BotError::from_roll(RollError::Overflow),
        BotError::RollError(RollError::Overflow)
    );
    assert_eq!(
        BotError::RollError(RollError::Overflow).message(),
        "dice error: the result is too large"
    );
    assert_eq!(
        BotError::RollError(RollError::DiceExhausted { sides: 20 }).message(),
        "dice error: no dice left; next is a die with sides: 20"
    );
    assert_eq!(
        BotError::RollError(RollError::InvalidDraw { value: 7, sides: 6 }).message(),
        "dice error: a die with sides: 6 cannot show 7"
    );
    assert_eq!(
        BotError::RollError(RollError::UnsetVariable("x".to_string())).message(),
        "dice error: variable is not set: x"
    );
}

#[test]
fn report_formats() {
    let total = RollResult { dice: vec![20, 1, 13], outcome: Outcome::Total(-5) };
    assert_eq!(report(&total), "Dice: [20, 1, 13]\nTotal: -5");
    let least = RollResult { dice: vec![], outcome: Outcome::Total(i64::MIN) };
    assert_eq!(report(&least), "Dice: []\nTotal: -9223372036854775808");
    let most = RollResult { dice: vec![4294967295], outcome: Outcome::Total(i64::MAX) };
    assert_eq!(report(&most), "Dice: [4294967295]\nTotal: 9223372036854775807");
    let pool = RollResult {
        dice: vec![10],
        outcome: Outcome::Successes { count: 100, dramatic_failure: true },
    };
    assert_eq!(report(&pool), "Dice: [10]\nSuccesses: 100\nDramatic failure");
}
