use dicebot::bot::{
    check_message_age, event_affects_us, format_user, message_overage, on_room_member,
    on_stripped_state_member, should_process, DiceBotState, Membership, RoomUpdate,
};
use dicebot::db::{migration_plan, DataError, MigrationError};
use dicebot::error::BotError;
use dicebot::help::{parse_help_topic, HelpTopic};
use dicebot::text::{
    blank, chars_of, digit, name_char, name_start, push_decimal, push_signed, push_with_breaks,
    same_text, to_lower,
};
use dicebot::variables::Variables;

#[test]
fn variables_set_and_get() {
    let mut variables = Variables::new();
    assert_eq!(variables.get("myvariable"), None);
    variables.set("myvariable", 1);
    assert_eq!(variables.get("myvariable"), Some(1));
    assert_eq!(variables.get("myvariabl"), None);
    assert_eq!(variables.get("myvariable2"), None);
    assert_eq!(variables.get(""), None);
}

#[test]
fn variables_later_value_replaces_earlier() {
    let mut variables = Variables::new();
    variables.set("a", 1);
    variables.set("b", 2);
    variables.set("a", -3);
    assert_eq!(variables.get("a"), Some(-3));
    assert_eq!(variables.get("b"), Some(2));
    variables.set("", i32::MIN);
    assert_eq!(variables.get(""), Some(i32::MIN));
}

#[test]
fn characters_of_a_string() {
    assert_eq!(chars_of(""), Vec::<char>::new());
    assert_eq!(chars_of("a\u{e9}\u{1f3b2}!"), vec!['a', '\u{e9}', '\u{1f3b2}', '!']);
}

#[test]
fn character_classes() {
    for c in [' ', '\t', '\n', '\r'] {
        assert!(blank(c));
    }
    for c in ['a', '0', '\u{a0}', '\u{b}', '\u{c}'] {
        assert!(!blank(c));
    }
    for c in '0'..='9' {
        assert!(digit(c));
        assert!(name_char(c));
        assert!(!name_start(c));
    }
    for c in ['/', ':', 'a', '\u{663}'] {
        assert!(!digit(c));
    }
    for c in ['a', 'z', 'A', 'Z', '_'] {
        assert!(name_start(c));
        assert!(name_char(c));
    }
    for c in ['`', '{', '@', '[', '-', '$', '\u{e9}'] {
        assert!(!name_start(c));
        assert!(!name_char(c));
    }
}

#[test]
fn lower_case_of_ascii_letters_only() {
    assert_eq!(to_lower('A'), 'a');
    assert_eq!(to_lower('Z'), 'z');
    assert_eq!(to_lower('m'), 'm');
    assert_eq!(to_lower('@'), '@');
    assert_eq!(to_lower('['), '[');
    assert_eq!(to_lower('\u{c9}'), '\u{c9}');
}

#[test]
fn same_text_compares_characters() {
    assert!(same_text("", ""));
    assert!(same_text("abc", "abc"));
    assert!(!same_text("abc", "abd"));
    assert!(!same_text("abc", "ab"));
    assert!(!same_text("", "a"));
    assert!(!same_text("ABC", "abc"));
}

#[test]
fn decimal_numerals() {
    for (value, text) in [
        (0u64, "0"),
        (9, "9"),
        (10, "10"),
        (12, "12"),
        (100, "100"),
        (4294967295, "4294967295"),
        (u64::MAX, "18446744073709551615"),
    ] {
        let mut out = String::from("n=");
        push_decimal(&mut out, value);
        assert_eq!(out, format!("n={}", text));
    }
}

#[test]
fn signed_numerals() {
    for value in [0i64, 1, -1, 12, -12, 1000, i64::MAX, i64::MIN, i64::MIN + 1] {
        let mut out = String::from("<");
        push_signed(&mut out, value);
        assert_eq!(out, format!("<{}", value));
    }
}

#[test]
fn newlines_become_breaks() {
    for (plain, html) in [
        ("", ""),
        ("abc", "abc"),
        ("\n", "<br/>"),
        ("a\nb", "a<br/>b"),
        ("\n\na\n", "<br/><br/>a<br/>"),
        ("a\r\nb", "a\r<br/>b"),
    ] {
        let mut out = String::from("x");
        push_with_breaks(&mut out, plain);
        assert_eq!(out, format!("x{}", html));
        assert_eq!(out, format!("x{}", plain.replace("\n", "<br/>")));
    }
}

#[test]
fn help_topics_by_name() {
    assert_eq!(parse_help_topic("dice"), HelpTopic::RollingDice);
    assert_eq!(parse_help_topic("roll"), HelpTopic::RollingDice);
    assert_eq!(parse_help_topic("pool"), HelpTopic::DicePool);
    assert_eq!(parse_help_topic("dicepool"), HelpTopic::DicePool);
    assert_eq!(parse_help_topic("chance"), HelpTopic::DicePool);
    assert_eq!(parse_help_topic(""), HelpTopic::General);
    assert_eq!(parse_help_topic("cthulhu"), HelpTopic::General);
    assert_eq!(parse_help_topic("dice pool"), HelpTopic::General);
}

#[test]
fn help_topics_ignore_case_and_blanks_around() {
    assert_eq!(parse_help_topic("  DICE\t"), HelpTopic::RollingDice);
    assert_eq!(parse_help_topic("\nDicePool\r\n"), HelpTopic::DicePool);
    assert_eq!(parse_help_topic(" Chance"), HelpTopic::DicePool);
    assert_eq!(parse_help_topic("   "), HelpTopic::General);
}

#[test]
fn help_texts_differ_and_name_their_commands() {
    assert!(HelpTopic::RollingDice.message().contains("!roll"));
    assert!(HelpTopic::DicePool.message().contains("!pool"));
    assert!(HelpTopic::DicePool.message().contains("!chance"));
    assert!(HelpTopic::General.message().contains("!help"));
    assert_ne!(HelpTopic::RollingDice.message(), HelpTopic::DicePool.message());
    assert_ne!(HelpTopic::RollingDice.message(), HelpTopic::General.message());
}

#[test]
fn migration_plan_lists_the_versions_to_run() {
    assert_eq!(migration_plan(0, 3), Ok(vec![1, 2, 3]));
    assert_eq!(migration_plan(2, 3), Ok(vec![3]));
    assert_eq!(migration_plan(3, 3), Ok(vec![]));
    assert_eq!(migration_plan(0, 0), Ok(vec![]));
    assert_eq!(
        migration_plan(u32::MAX - 2, u32::MAX),
        Ok(vec![u32::MAX - 1, u32::MAX])
    );
}

#[test]
fn migration_plan_refuses_to_go_back() {
    assert_eq!(migration_plan(4, 3), Err(MigrationError::CannotDowngrade));
    assert_eq!(migration_plan(u32::MAX, 0), Err(MigrationError::CannotDowngrade));
    assert_eq!(
        MigrationError::CannotDowngrade.message(),
        "cannot downgrade to an older database version"
    );
}

#[test]
fn data_error_sentences() {
    assert_eq!(
        DataError::KeyDoesNotExist("myvariable".to_string()).message(),
        "value does not exist for key: myvariable"
    );
    assert_eq!(
        DataError::InternalError("io".to_string()).message(),
        "internal database error: io"
    );
    assert_eq!(
        DataError::MigrationError(MigrationError::CannotDowngrade).message(),
        "data migration error: cannot downgrade to an older database version"
    );
}

#[test]
fn message_age_is_measured_in_seconds() {
    let now = 1_600_000_000_000u64;
    assert!(check_message_age(now, now, 900));
    assert!(check_message_age(now - 899_999, now, 900));
    assert!(!check_message_age(now - 900_000, now, 900));
    assert!(!check_message_age(now - 900_001, now, 900));
    assert!(check_message_age(now + 5_000, now, 900));
    assert!(!check_message_age(now, now, 0));
    assert!(check_message_age(now + 1, now, 0));
    assert!(check_message_age(0, 5, u64::MAX));
    assert!(check_message_age(0, now, now));
}

#[test]
fn message_overage_in_whole_seconds() {
    let now = 1_600_000_000_000u64;
    assert_eq!(message_overage(now, now, 900), None);
    assert_eq!(message_overage(now - 900_000, now, 900), Some(0));
    assert_eq!(message_overage(now - 900_999, now, 900), Some(0));
    assert_eq!(message_overage(now - 901_000, now, 900), Some(1));
    assert_eq!(message_overage(0, now, 0), Some(1_600_000_000));
    assert_eq!(message_overage(0, u64::MAX, 0), Some(u64::MAX / 1000));
}

#[test]
fn old_messages_are_not_processed() {
    let now = 1_600_000_000_000u64;
    let mut state = DiceBotState::new();
    assert!(!state.logged_skipped_old_messages());
    let result = should_process(
        &mut state,
        now - 1_000_000,
        now,
        900,
        Some("!roll 2d6"),
        "user",
        "example.com",
    );
    assert_eq!(result, Err(BotError::ShouldNotProcessError));
    assert!(state.logged_skipped_old_messages());
    let again = should_process(&mut state, 0, now, 900, None, "user", "example.com");
    assert_eq!(again, Err(BotError::ShouldNotProcessError));
    assert!(state.logged_skipped_old_messages());
}

#[test]
fn recent_messages_are_processed() {
    let now = 1_600_000_000_000u64;
    let mut state = DiceBotState::new();
    let text = should_process(
        &mut state,
        now - 1_000,
        now,
        900,
        Some("!roll 2d6"),
        "user",
        "example.com",
    );
    assert_eq!(text, Ok(("!roll 2d6".to_string(), "@user:example.com".to_string())));
    assert!(!state.logged_skipped_old_messages());
    let other = should_process(&mut state, now, now, 900, None, "user", "example.com");
    assert_eq!(other, Ok((String::new(), String::new())));
    assert!(!state.logged_skipped_old_messages());
    state.skipped_old_messages();
    let later = should_process(&mut state, now, now, 900, Some(""), "", "");
    assert_eq!(later, Ok((String::new(), "@:".to_string())));
    assert!(state.logged_skipped_old_messages());
}

#[test]
fn user_addresses() {
    assert_eq!(format_user("alice", "example.com"), "@alice:example.com");
    assert_eq!(format_user("", ""), "@:");
}

#[test]
fn events_about_the_bot_itself() {
    assert!(event_affects_us("@bot:example.com", Some("@bot:example.com")));
    assert!(!event_affects_us("@bot:example.com", Some("@bob:example.com")));
    assert!(!event_affects_us("@bot:example.com", None));
}

#[test]
fn membership_changes() {
    assert_eq!(on_room_member(true, Membership::Leave), Some(RoomUpdate::ClearInfo));
    assert_eq!(on_room_member(true, Membership::Ban), Some(RoomUpdate::ClearInfo));
    assert_eq!(on_room_member(false, Membership::Join), Some(RoomUpdate::AddUser));
    assert_eq!(on_room_member(false, Membership::Leave), Some(RoomUpdate::RemoveUser));
    assert_eq!(on_room_member(false, Membership::Ban), Some(RoomUpdate::RemoveUser));
    assert_eq!(on_room_member(true, Membership::Join), Some(RoomUpdate::Nothing));
    assert_eq!(on_room_member(true, Membership::Other), None);
    assert_eq!(on_room_member(false, Membership::Other), None);
}

#[test]
fn invitations() {
    assert!(on_stripped_state_member("@bot:example.com", Some("@bot:example.com")));
    assert!(!on_stripped_state_member("@bob:example.com", Some("@bot:example.com")));
    assert!(on_stripped_state_member("@bob:example.com", None));
}
