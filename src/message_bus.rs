use vstd::prelude::*;

verus! {

/// A message handed from one screen to another.
#[derive(Clone, Debug)]
pub enum Message {
    /// A submitted identity and passphrase.
    LoginCredentials(String, String),
}

/// A queue of messages, delivered in the order in which they were submitted.
pub struct MessageBus {
    messages: Vec<Message>,
}

impl View for MessageBus {
    type V = Seq<Message>;

    closed spec fn view(&self) -> Seq<Message> {
        self.messages@
    }
}

impl MessageBus {
    pub fn new() -> (r: Self)
        ensures
            r@ == Seq::<Message>::empty(),
    {
        MessageBus { messages: Vec::new() }
    }

    pub fn submit_message(&mut self, message: Message)
        ensures
            final(self)@ == old(self)@.push(message),
    {
        self.messages.push(message);
    }

    /// Hands out every pending message, oldest first, and leaves the queue empty.
    pub fn poll_messages(&mut self) -> (r: Vec<Message>)
        ensures
            r@ == old(self)@,
            final(self)@ == Seq::<Message>::empty(),
    {
        let mut out: Vec<Message> = Vec::new();
        std::mem::swap(&mut out, &mut self.messages);
        out
    }
}

} // verus!
