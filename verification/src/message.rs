//! The wire message: a command, a key, a value, and an opaque timestamp.
//! The timestamp is carried and round-tripped but never interpreted.

use vstd::prelude::*;

verus! {

/// The closed set of request commands.
#[derive(Clone, Copy, PartialEq, Eq, Structural, Debug)]
pub enum Command {
    NewConnection,
    Put,
    Get,
    Register,
    Replicate,
}

/// A request message as it travels on the wire.
#[derive(Debug, PartialEq, Eq)]
pub struct Message {
    pub command: Command,
    pub key: String,
    pub value: String,
    pub timestamp: u64,
}

/// The mathematical model of a [`Message`].
#[verifier::ext_equal]
pub struct MessageView {
    pub command: Command,
    pub key: Seq<char>,
    pub value: Seq<char>,
    pub timestamp: u64,
}

impl View for Message {
    type V = MessageView;

    open spec fn view(&self) -> MessageView {
        MessageView {
            command: self.command,
            key: self.key@,
            value: self.value@,
            timestamp: self.timestamp,
        }
    }
}

impl Message {
    /// Builds a message from its parts.
    pub fn new(command: Command, key: String, value: String, timestamp: u64) -> (m: Message)
        ensures
            m@ == (MessageView { command, key: key@, value: value@, timestamp }),
    {
        Message { command, key, value, timestamp }
    }
}

} // verus!
