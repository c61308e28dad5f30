//! Commands: what they are, how they are run, and how their results are
//! written for the room.

use crate::cofd::{
    lemma_pool_draw_by_draw, lemma_pool_one_more_draw, pool_roll_of, roll_pool, PoolSpec,
};
use crate::context::Context;
use crate::db::DataError;
use crate::dice::{
    distinct, lemma_roll_draw_by_draw, roll_of, texts, Expression, ExpressionModel,
};
use crate::error::{bot_error_text, failure_of_roll, BotError, BotFailure};
use crate::help::{help_text, HelpTopic};
use crate::parser::{failure_text, ParseFailure};
use crate::roll::{is_invalid_draw, shows, Outcome, RollError, RollFailure, RollResult, Rolled};
use crate::text::{decimal, push_decimal, push_signed, push_with_breaks, signed_decimal, with_breaks};
use vstd::prelude::*;

pub mod parser;

verus! {

/// Why a message's text did not yield a command.
#[derive(Debug, Clone, PartialEq, Eq)]
pub enum CommandError {
    /// The command was recognized and its arguments rejected, for the reason
    /// given.
    InvalidCommand(String),
    /// The message is no command; nothing is to be sent back.
    IgnoredCommand,
}

/// [`CommandError`] with its text as a sequence of characters.
pub enum CommandFailure {
    InvalidCommand(Seq<char>),
    IgnoredCommand,
}

impl View for CommandError {
    type V = CommandFailure;

    open spec fn view(&self) -> CommandFailure {
        match self {
            CommandError::InvalidCommand(reason) => CommandFailure::InvalidCommand(reason@),
            CommandError::IgnoredCommand => CommandFailure::IgnoredCommand,
        }
    }
}

/// The sentence for each failure.
pub open spec fn command_error_text(e: CommandFailure) -> Seq<char> {
    match e {
        CommandFailure::InvalidCommand(reason) => "invalid command: "@ + reason,
        CommandFailure::IgnoredCommand => "ignored command"@,
    }
}

impl CommandError {
    /// The sentence for this failure.
    pub fn message(&self) -> (text: String)
        ensures
            text@ == command_error_text(self@),
    {
        match self {
            CommandError::InvalidCommand(reason) => {
                let mut text = "invalid command: ".to_owned();
                text.append(reason.as_str());
                text
            },
            CommandError::IgnoredCommand => "ignored command".to_owned(),
        }
    }

    /// The failure for a command that was rejected for `failure`.
    pub fn invalid(failure: ParseFailure) -> (e: CommandError)
        ensures
            e@ == CommandFailure::InvalidCommand(failure_text(failure)),
    {
        CommandError::InvalidCommand(failure.describe().to_owned())
    }
}

/// The message that a command that ran sends back to the room.
#[derive(Debug)]
pub struct Execution {
    html: String,
}

impl View for Execution {
    type V = Seq<char>;

    closed spec fn view(&self) -> Seq<char> {
        self.html@
    }
}

impl Execution {
    /// The result of a command that ran and answers with `html`.
    pub fn new(html: String) -> (r: CommandResult)
        ensures
            outcome(r) == Ok::<Seq<char>, BotFailure>(html@),
    {
        Ok(Execution { html })
    }

    /// The message, as HTML.
    pub fn html(&self) -> (text: String)
        ensures
            text@ == self@,
    {
        self.html.clone()
    }
}

/// A command that failed, and why.
#[derive(Debug)]
pub struct ExecutionError(pub BotError);

impl View for ExecutionError {
    type V = BotFailure;

    open spec fn view(&self) -> BotFailure {
        self.0@
    }
}

/// A failure shown to the user: its sentence in bold.
pub open spec fn error_html(e: BotFailure) -> Seq<char> {
    "<p><strong>"@ + bot_error_text(e) + "</strong></p>"@
}

impl ExecutionError {
    /// The failure's sentence in bold, as HTML.
    pub fn html(&self) -> (text: String)
        ensures
            text@ == error_html(self@),
    {
        let mut text = "<p><strong>".to_owned();
        text.append(self.0.message().as_str());
        text.append("</strong></p>");
        text
    }
}

impl From<BotError> for ExecutionError {
    fn from(error: BotError) -> (r: ExecutionError) {
        ExecutionError(error)
    }
}

impl vstd::std_specs::convert::FromSpecImpl<BotError> for ExecutionError {
    open spec fn obeys_from_spec() -> bool {
        true
    }

    open spec fn from_spec(error: BotError) -> ExecutionError {
        ExecutionError(error)
    }
}

impl From<DataError> for ExecutionError {
    fn from(error: DataError) -> (r: ExecutionError) {
        ExecutionError(BotError::DataError(error))
    }
}

impl vstd::std_specs::convert::FromSpecImpl<DataError> for ExecutionError {
    open spec fn obeys_from_spec() -> bool {
        true
    }

    open spec fn from_spec(error: DataError) -> ExecutionError {
        ExecutionError(BotError::DataError(error))
    }
}

/// What running a command gives: the message to send back, or the failure.
pub type CommandResult = Result<Execution, ExecutionError>;

/// A command's result with its texts as sequences of characters.
pub open spec fn outcome(r: CommandResult) -> Result<Seq<char>, BotFailure> {
    match r {
        Ok(execution) => Ok(execution@),
        Err(error) => Err(error@),
    }
}

/// Whether a result says that the message was no command, so that nothing
/// is sent back.
pub open spec fn ignored(r: Result<Seq<char>, BotFailure>) -> bool {
    r == Err::<Seq<char>, BotFailure>(BotFailure::CommandError(CommandFailure::IgnoredCommand))
}

/// Whether a result says that the message was no command, so that nothing
/// is sent back.
pub fn is_ignored(result: &CommandResult) -> (b: bool)
    ensures
        b == ignored(outcome(*result)),
{
    match result {
        Err(ExecutionError(BotError::CommandError(CommandError::IgnoredCommand))) => true,
        _ => false,
    }
}

/// The body of the message for a result: what the command answered, or the
/// failure in bold.
pub open spec fn body_html(r: Result<Seq<char>, BotFailure>) -> Seq<char> {
    match r {
        Ok(html) => html,
        Err(e) => error_html(e),
    }
}

/// The message for a result: a paragraph that names the user, a paragraph
/// with the body, and every newline written as a line break.
pub open spec fn message_html_of(r: Result<Seq<char>, BotFailure>, username: Seq<char>) -> Seq<char> {
    with_breaks("<p>"@ + username + "</p><p>"@ + body_html(r) + "</p>"@)
}

/// Writes a result as the message that is sent to the room.
pub trait ResponseExtractor {
    /// The result as a sequence of characters.
    spec fn response(&self) -> Result<Seq<char>, BotFailure>;

    /// The message as HTML, naming the user that it answers.
    fn message_html(&self, username: &str) -> (text: String)
        ensures
            text@ == message_html_of(self.response(), username@),
    ;
}

impl ResponseExtractor for CommandResult {
    open spec fn response(&self) -> Result<Seq<char>, BotFailure> {
        outcome(*self)
    }

    fn message_html(&self, username: &str) -> (text: String) {
        let mut plain = "<p>".to_owned();
        plain.append(username);
        plain.append("</p><p>");
        match self {
            Ok(execution) => {
                plain.append(execution.html().as_str());
            },
            Err(error) => {
                plain.append(error.html().as_str());
            },
        }
        plain.append("</p>");
        let mut text = String::new();
        push_with_breaks(&mut text, plain.as_str());
        text
    }
}

/// The dice of a roll, separated by commas.
pub open spec fn listed(dice: Seq<u32>) -> Seq<char>
    decreases dice.len(),
{
    if dice.len() == 0 {
        Seq::empty()
    } else if dice.len() == 1 {
        decimal(dice[0] as nat)
    } else {
        listed(dice.drop_last()) + ", "@ + decimal(dice.last() as nat)
    }
}

/// The line that reports a roll's outcome.
pub open spec fn outcome_line(outcome: Outcome) -> Seq<char> {
    match outcome {
        Outcome::Total(total) => "Total: "@ + signed_decimal(total as int),
        Outcome::Successes { count, dramatic_failure } => if dramatic_failure {
            "Successes: "@ + decimal(count as nat) + "\nDramatic failure"@
        } else {
            "Successes: "@ + decimal(count as nat)
        },
    }
}

/// The report of a roll: its dice in the order shown, then its outcome.
pub open spec fn roll_report(rolled: Rolled) -> Seq<char> {
    "Dice: ["@ + listed(rolled.dice) + "]\n"@ + outcome_line(rolled.outcome)
}

/// Appends the dice to `out`, separated by commas.
fn push_listed(out: &mut String, dice: &Vec<u32>)
    ensures
        final(out)@ == old(out)@ + listed(dice@),
{
    let mut k: usize = 0;
    while k < dice.len()
        invariant
            k <= dice.len(),
            out@ == old(out)@ + listed(dice@.take(k as int)),
        decreases dice.len() - k,
    {
        proof {
            assert(dice@.take(k + 1).drop_last() == dice@.take(k as int));
        }
        if k > 0 {
            out.append(", ");
        }
        push_decimal(out, dice[k] as u64);
        k = k + 1;
    }
    assert(dice@.take(dice.len() as int) == dice@);
}

/// Writes the report of a roll.
pub fn report(result: &RollResult) -> (text: String)
    ensures
        text@ == roll_report(result@),
{
    let mut text = "Dice: [".to_owned();
    push_listed(&mut text, &result.dice);
    text.append("]\n");
    let ghost head = text@;
    match result.outcome {
        Outcome::Total(total) => {
            text.append("Total: ");
            push_signed(&mut text, total);
            assert(text@ == head + ("Total: "@ + signed_decimal(total as int)));
        },
        Outcome::Successes { count, dramatic_failure } => {
            text.append("Successes: ");
            push_decimal(&mut text, count);
            if dramatic_failure {
                text.append("\nDramatic failure");
                assert(text@ == head + ("Successes: "@ + decimal(count as nat)
                    + "\nDramatic failure"@));
            } else {
                assert(text@ == head + ("Successes: "@ + decimal(count as nat)));
            }
        },
    }
    text
}

/// What a message asks for.
#[derive(Debug, PartialEq, Eq)]
pub enum Command {
    /// Roll a dice expression.
    Roll(Expression),
    /// Roll a dice pool or a chance die.
    PoolRoll(PoolSpec),
    /// Show the help for a topic.
    Help(HelpTopic),
}

/// [`Command`] with its expression as a model.
pub enum CommandModel {
    Roll(ExpressionModel),
    PoolRoll(PoolSpec),
    Help(HelpTopic),
}

impl View for Command {
    type V = CommandModel;

    open spec fn view(&self) -> CommandModel {
        match self {
            Command::Roll(expression) => CommandModel::Roll(expression@),
            Command::PoolRoll(pool) => CommandModel::PoolRoll(*pool),
            Command::Help(topic) => CommandModel::Help(*topic),
        }
    }
}

/// What a roll is answered with: its report, or the failure it is reported
/// as.
pub open spec fn answered(roll: Result<Rolled, RollFailure>) -> Result<Seq<char>, BotFailure> {
    match roll {
        Ok(rolled) => Ok(roll_report(rolled)),
        Err(failure) => Err(failure_of_roll(failure)),
    }
}

/// What running `command` gives when the sender's variables are `variables`
/// and the random source supplies `draws`.
pub open spec fn executed(
    command: CommandModel,
    variables: Map<Seq<char>, i32>,
    draws: Seq<u32>,
) -> Result<Seq<char>, BotFailure> {
    match command {
        CommandModel::Roll(expression) => answered(roll_of(expression, variables, draws)),
        CommandModel::PoolRoll(pool) => answered(pool_roll_of(pool, draws)),
        CommandModel::Help(topic) => Ok(help_text(topic)),
    }
}

/// The variables that a command reads, in the order written.
pub open spec fn variables_read(command: CommandModel) -> Seq<Seq<char>> {
    match command {
        CommandModel::Roll(expression) => expression.mentions(),
        _ => Seq::empty(),
    }
}

/// The name of each kind of command.
pub open spec fn command_name(command: CommandModel) -> Seq<char> {
    match command {
        CommandModel::Roll(_) => "roll regular dice"@,
        CommandModel::PoolRoll(_) => "roll dice pool"@,
        CommandModel::Help(_) => "help information"@,
    }
}

/// Writes the result of a roll as the result of its command.
pub fn answer(roll: Result<RollResult, RollError>) -> (r: CommandResult)
    ensures
        match roll {
            Ok(result) => outcome(r) == answered(Ok::<Rolled, RollFailure>(result@)),
            Err(e) => outcome(r) == answered(Err::<Rolled, RollFailure>(e@)),
        },
{
    match roll {
        Ok(result) => Execution::new(report(&result)),
        Err(e) => Err(ExecutionError(BotError::from_roll(e))),
    }
}

impl Command {
    /// What this kind of command is called.
    pub fn name(&self) -> (name: &'static str)
        ensures
            name@ == command_name(self@),
    {
        match self {
            Command::Roll(_) => "roll regular dice",
            Command::PoolRoll(_) => "roll dice pool",
            Command::Help(_) => "help information",
        }
    }

    /// The variables that the command reads, each once, in the order in
    /// which they first occur.
    pub fn variable_names(&self) -> (names: Vec<String>)
        ensures
            texts(names@) == distinct(variables_read(self@)),
    {
        match self {
            Command::Roll(expression) => expression.variable_names(),
            _ => {
                let names: Vec<String> = Vec::new();
                assert(texts(names@) == Seq::<Seq<char>>::empty());
                names
            },
        }
    }

    /// Runs the command for the message that `ctx` describes.
    pub fn execute(&self, ctx: &Context) -> (r: CommandResult)
        ensures
            outcome(r) == executed(self@, ctx.variables@, ctx.dice@),
    {
        match self {
            Command::Roll(expression) => answer(
                expression.evaluate(&ctx.variables, ctx.dice.as_slice()),
            ),
            Command::PoolRoll(pool) => answer(roll_pool(pool, ctx.dice.as_slice())),
            Command::Help(topic) => Execution::new(topic.message().to_owned()),
        }
    }
}

/// What a message is answered with: nothing is run for a message that is
/// no command, a command that cannot be read is rejected with the reason,
/// and any other command is run.
pub open spec fn answer_to(
    text: Seq<char>,
    variables: Map<Seq<char>, i32>,
    draws: Seq<u32>,
) -> Result<Seq<char>, BotFailure> {
    match parser::command_of(text) {
        Ok(None) => Err(BotFailure::CommandError(CommandFailure::IgnoredCommand)),
        Ok(Some(command)) => executed(command, variables, draws),
        Err(failure) => Err(
            BotFailure::CommandError(CommandFailure::InvalidCommand(failure_text(failure))),
        ),
    }
}

/// The die that a result asks for: a command whose draws ran out says how
/// many sides the next die has.
pub open spec fn die_asked(r: Result<Seq<char>, BotFailure>) -> Option<u32> {
    match r {
        Err(BotFailure::RollError(RollFailure::DiceExhausted { sides })) => Some(sides),
        _ => None,
    }
}

/// Whether a result is the failure of a draw that its die cannot show.
pub open spec fn is_bad_draw(r: Result<Seq<char>, BotFailure>) -> bool {
    r matches Err(BotFailure::RollError(failure)) && is_invalid_draw(failure)
}

/// The die to draw before the command is run again, if its draws ran out.
pub fn next_die(result: &CommandResult) -> (sides: Option<u32>)
    ensures
        sides == die_asked(outcome(*result)),
{
    match result {
        Err(ExecutionError(BotError::RollError(RollError::DiceExhausted { sides }))) => Some(
            *sides,
        ),
        _ => None,
    }
}

/// A command can be run draw by draw: run without draws, it never fails
/// for a draw that cannot be shown; and when it asks for a die and is run
/// again with a face of that die added to the draws, it does not either.
pub proof fn lemma_draw_by_draw(
    command: CommandModel,
    variables: Map<Seq<char>, i32>,
    draws: Seq<u32>,
    v: u32,
)
    ensures
        !is_bad_draw(executed(command, variables, Seq::empty())),
        die_asked(executed(command, variables, draws)) matches Some(sides) ==> shows(sides, v)
            ==> !is_bad_draw(executed(command, variables, draws.push(v))),
{
    match command {
        CommandModel::Roll(expression) => {
            lemma_roll_draw_by_draw(expression, variables, draws, v);
        },
        CommandModel::PoolRoll(pool) => {
            lemma_pool_one_more_draw(pool, draws, v);
            lemma_pool_draw_by_draw(pool, draws, v);
        },
        CommandModel::Help(_) => {},
    }
}

/// Only a message that is no command is answered with the ignored result:
/// no command that runs or fails, and no command that cannot be read, is
/// passed over in silence.
pub proof fn lemma_only_no_command_is_ignored(
    text: Seq<char>,
    variables: Map<Seq<char>, i32>,
    draws: Seq<u32>,
)
    ensures
        ignored(answer_to(text, variables, draws)) <==> parser::command_of(text) == Ok::<
            Option<CommandModel>,
            ParseFailure,
        >(None),
{
}

/// Reads the command in the message and runs it. The result is the ignored
/// one exactly for a message that is no command.
pub fn execute_command(ctx: &Context) -> (r: CommandResult)
    ensures
        outcome(r) == answer_to(ctx.message_body@, ctx.variables@, ctx.dice@),
        ignored(outcome(r)) <==> parser::command_of(ctx.message_body@) == Ok::<
            Option<CommandModel>,
            ParseFailure,
        >(None),
{
    proof {
        lemma_only_no_command_is_ignored(ctx.message_body@, ctx.variables@, ctx.dice@);
    }
    match parser::parse_command(ctx.message_body.as_str()) {
        Ok(Some(command)) => command.execute(ctx),
        Ok(None) => Err(ExecutionError(BotError::CommandError(CommandError::IgnoredCommand))),
        Err(e) => Err(ExecutionError(BotError::CommandError(e))),
    }
}

/// The message to send back for `ctx`, if any: none for a message that is
/// no command, and otherwise the result of its command, written for the
/// sender.
pub fn respond(ctx: &Context) -> (reply: Option<String>)
    ensures
        match reply {
            None => parser::command_of(ctx.message_body@) == Ok::<
                Option<CommandModel>,
                ParseFailure,
            >(None),
            Some(text) => parser::command_of(ctx.message_body@) != Ok::<
                Option<CommandModel>,
                ParseFailure,
            >(None) && text@ == message_html_of(
                answer_to(ctx.message_body@, ctx.variables@, ctx.dice@),
                ctx.username@,
            ),
        },
{
    match parser::parse_command(ctx.message_body.as_str()) {
        Ok(None) => None,
        Ok(Some(command)) => Some(command.execute(ctx).message_html(ctx.username.as_str())),
        Err(e) => {
            let failed: CommandResult = Err(ExecutionError(BotError::CommandError(e)));
            Some(failed.message_html(ctx.username.as_str()))
        },
    }
}

} // verus!
