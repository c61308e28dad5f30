//! What a command knows of the message that it answers.

use crate::variables::Variables;
use vstd::prelude::*;

verus! {

/// The room in which a message was sent.
#[derive(Debug, Clone)]
pub struct RoomContext {
    /// The room's identifier.
    pub id: String,
    /// The name under which the room is shown.
    pub display_name: String,
}

/// A snapshot of everything that one message's command may read. It is made
/// for the message and dropped once the command has run.
#[derive(Debug, Clone)]
pub struct Context {
    /// The room in which the message was sent.
    pub room: RoomContext,
    /// The user who sent the message.
    pub username: String,
    /// The text of the message.
    pub message_body: String,
    /// The sender's variables in this room.
    pub variables: Variables,
    /// The draws of the random source that the command may use, in order.
    pub dice: Vec<u32>,
}

} // verus!
