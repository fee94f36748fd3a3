//! Messages passed between kernel services.
use vstd::prelude::*;

verus! {

/// A message from one service to another.
pub struct Message {
    pub from: &'static str,
    pub to: &'static str,
    pub body: &'static str,
}

impl Message {
    /// A message from `from` to `to` carrying `body`.
    pub fn new(from: &'static str, to: &'static str, body: &'static str) -> (r: Message)
        ensures r.from@ == from@ && r.to@ == to@ && r.body@ == body@,
    {
        Message { from, to, body }
    }
}

/// The bus that carries messages; it keeps the last one published.
pub struct MessageBus {
    pub last: Option<Message>,
}

impl MessageBus {
    /// A bus that has carried nothing.
    pub fn new() -> (r: MessageBus)
        ensures r.last is None,
    {
        MessageBus { last: None }
    }

    /// Publishes `message`; it becomes the last message carried.
    pub fn publish(&mut self, message: Message)
        ensures final(self).last == Some(message),
    {
        self.last = Some(message);
    }
}

} // verus!
