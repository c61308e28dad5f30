//! What the bot decides about the events of a room: which messages are
//! answered, and what a change of membership means for what it knows of the
//! room.
//!
//! Times are milliseconds since the start of 1970.

use crate::error::{BotError, BotFailure};
use vstd::prelude::*;

verus! {

/// What the bot remembers between messages.
#[derive(Debug, Clone, Copy, PartialEq, Eq, Structural)]
pub struct DiceBotState {
    logged_skipped_old_messages: bool,
}

impl DiceBotState {
    /// The state of a bot that has passed over no message yet.
    pub fn new() -> (state: DiceBotState)
        ensures
            !state.has_logged(),
    {
        DiceBotState { logged_skipped_old_messages: false }
    }

    /// Whether the bot has said that it passes over old messages.
    pub closed spec fn has_logged(&self) -> bool {
        self.logged_skipped_old_messages
    }

    /// Whether the bot has said that it passes over old messages.
    pub fn logged_skipped_old_messages(&self) -> (b: bool)
        ensures
            b == self.has_logged(),
    {
        self.logged_skipped_old_messages
    }

    /// Notes that the bot has said that it passes over old messages.
    pub fn skipped_old_messages(&mut self)
        ensures
            final(self).has_logged(),
    {
        self.logged_skipped_old_messages = true;
    }
}

/// Whether a message sent at `sent` is young enough at `now`: it was sent
/// less than `oldest_message_age` seconds ago.
pub open spec fn is_recent(sent: u64, now: u64, oldest_message_age: u64) -> bool {
    sent + oldest_message_age * 1000 > now
}

/// By how many whole seconds a message that is not recent is too old.
pub open spec fn seconds_too_old(sent: u64, now: u64, oldest_message_age: u64) -> int {
    (now - oldest_message_age * 1000 - sent) / 1000
}

/// Whether a message sent at `sent` is answered at `now`.
pub fn check_message_age(sent: u64, now: u64, oldest_message_age: u64) -> (recent: bool)
    ensures
        recent == is_recent(sent, now, oldest_message_age),
{
    sent as u128 + oldest_message_age as u128 * 1000 > now as u128
}

/// By how many whole seconds a message is too old to be answered; `None`
/// for a message that is recent.
pub fn message_overage(sent: u64, now: u64, oldest_message_age: u64) -> (r: Option<u64>)
    ensures
        match r {
            None => is_recent(sent, now, oldest_message_age),
            Some(seconds) => !is_recent(sent, now, oldest_message_age) && seconds
                == seconds_too_old(sent, now, oldest_message_age),
        },
{
    if check_message_age(sent, now, oldest_message_age) {
        None
    } else {
        let oldest: u128 = now as u128 - oldest_message_age as u128 * 1000;
        Some(((oldest - sent as u128) / 1000) as u64)
    }
}

/// The address of a user: `@`, the local part, `:`, the server's name.
pub open spec fn user_address(localpart: Seq<char>, server_name: Seq<char>) -> Seq<char> {
    "@"@ + localpart + ":"@ + server_name
}

/// Writes the address of a user.
pub fn format_user(localpart: &str, server_name: &str) -> (address: String)
    ensures
        address@ == user_address(localpart@, server_name@),
{
    let mut address = "@".to_owned();
    address.append(localpart);
    address.append(":");
    address.append(server_name);
    address
}

/// Decides whether a message is answered, and with what text and sender.
///
/// A message that is too old is not processed, and the state notes that
/// such a message was passed over. A recent message is processed: a text
/// message with its body and the sender's address, any other with two
/// empty strings.
pub fn should_process(
    state: &mut DiceBotState,
    sent: u64,
    now: u64,
    oldest_message_age: u64,
    text_body: Option<&str>,
    sender_localpart: &str,
    sender_server_name: &str,
) -> (r: Result<(String, String), BotError>)
    ensures
        match r {
            Ok((body, sender)) => is_recent(sent, now, oldest_message_age) && *final(state) == *old(
                state,
            ) && match text_body {
                Some(text) => body@ == text@ && sender@ == user_address(
                    sender_localpart@,
                    sender_server_name@,
                ),
                None => body@ == Seq::<char>::empty() && sender@ == Seq::<char>::empty(),
            },
            Err(e) => !is_recent(sent, now, oldest_message_age) && e@
                == BotFailure::ShouldNotProcessError && final(state).has_logged(),
        },
{
    if !check_message_age(sent, now, oldest_message_age) {
        if !state.logged_skipped_old_messages() {
            state.skipped_old_messages();
        }
        return Err(BotError::ShouldNotProcessError);
    }
    match text_body {
        Some(text) => Ok((text.to_owned(), format_user(sender_localpart, sender_server_name))),
        None => Ok((String::new(), String::new())),
    }
}

/// How a user's membership of a room changed.
#[derive(Debug, Clone, Copy, PartialEq, Eq, Structural)]
pub enum Membership {
    Join,
    Leave,
    Ban,
    /// Any other change, such as an invitation.
    Other,
}

/// What the bot does to what it knows of a room.
#[derive(Debug, Clone, Copy, PartialEq, Eq, Structural)]
pub enum RoomUpdate {
    /// Forget everything about the room: the bot itself has left it.
    ClearInfo,
    /// Note that the user is in the room.
    AddUser,
    /// Note that the user is no longer in the room.
    RemoveUser,
    /// Change nothing: the bot itself has joined.
    Nothing,
}

/// Whether an event about the user `state_key` is about the bot itself. A
/// bot that does not know its own address takes no event for its own.
pub open spec fn affects_us(state_key: Seq<char>, our_user_id: Option<Seq<char>>) -> bool {
    our_user_id == Some(state_key)
}

/// What a change of membership means for the room, if anything: changes
/// other than joining, leaving and being banned are passed over.
pub open spec fn update_for(event_affects_us: bool, membership: Membership) -> Option<RoomUpdate> {
    match membership {
        Membership::Other => None,
        Membership::Join => Some(
            if event_affects_us {
                RoomUpdate::Nothing
            } else {
                RoomUpdate::AddUser
            },
        ),
        _ => Some(
            if event_affects_us {
                RoomUpdate::ClearInfo
            } else {
                RoomUpdate::RemoveUser
            },
        ),
    }
}

/// Whether an event about the user `state_key` is about the bot itself.
pub fn event_affects_us(state_key: &str, our_user_id: Option<&str>) -> (b: bool)
    ensures
        b == affects_us(
            state_key@,
            match our_user_id {
                Some(id) => Some(id@),
                None => None,
            },
        ),
{
    match our_user_id {
        Some(id) => crate::text::same_text(state_key, id),
        None => false,
    }
}

/// What a change of membership in a joined room means for the room.
pub fn on_room_member(event_affects_us: bool, membership: Membership) -> (r: Option<RoomUpdate>)
    ensures
        r == update_for(event_affects_us, membership),
{
    let adding_user = match membership {
        Membership::Join => true,
        Membership::Leave | Membership::Ban => false,
        Membership::Other => {
            return None;
        },
    };
    if event_affects_us && !adding_user {
        Some(RoomUpdate::ClearInfo)
    } else if !event_affects_us && adding_user {
        Some(RoomUpdate::AddUser)
    } else if !event_affects_us && !adding_user {
        Some(RoomUpdate::RemoveUser)
    } else {
        Some(RoomUpdate::Nothing)
    }
}

/// Whether the bot joins a room on an invitation addressed to `state_key`:
/// it passes over invitations that it knows to be for someone else.
pub fn on_stripped_state_member(state_key: &str, our_user_id: Option<&str>) -> (join: bool)
    ensures
        join == match our_user_id {
            Some(id) => state_key@ == id@,
            None => true,
        },
{
    match our_user_id {
        Some(id) => crate::text::same_text(state_key, id),
        None => true,
    }
}

} // verus!
