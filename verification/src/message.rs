//! IPC messages exchanged between compartments: a bounded sequence of
//! machine words held in message registers.

use vstd::prelude::*;

verus! {

/// Number of message registers a single IPC message can carry.
pub const MESSAGE_MAX_WORDS: usize = 120;

/// The message registers are all in use.
#[derive(Debug, Clone, Copy, PartialEq, Eq, Structural)]
pub enum MessageError {
    Full,
}

/// An IPC message: the words pushed so far, in order.
pub struct Message {
    words: Vec<u64>,
}

impl View for Message {
    type V = Seq<u64>;

    closed spec fn view(&self) -> Seq<u64> {
        self.words@
    }
}

impl Message {
    /// An empty message.
    pub fn new() -> (m: Message)
        ensures
            m@ == Seq::<u64>::empty(),
    {
        Message { words: Vec::new() }
    }

    /// A message carrying exactly `words`, or `Full` when they do not fit.
    pub fn from_words(words: Vec<u64>) -> (r: Result<Message, MessageError>)
        ensures
            match r {
                Ok(m) => words.len() <= MESSAGE_MAX_WORDS && m@ == words@,
                Err(_) => words.len() > MESSAGE_MAX_WORDS,
            },
    {
        if words.len() <= MESSAGE_MAX_WORDS {
            Ok(Message { words })
        } else {
            Err(MessageError::Full)
        }
    }

    /// Appends one word; fails, leaving the message as it was, when all
    /// registers are in use.
    pub fn push_int(&mut self, value: u64) -> (r: Result<(), MessageError>)
        ensures
            r is Ok <==> old(self)@.len() < MESSAGE_MAX_WORDS,
            r is Ok ==> final(self)@ == old(self)@.push(value),
            r is Err ==> final(self)@ == old(self)@,
    {
        if self.words.len() < MESSAGE_MAX_WORDS {
            self.words.push(value);
            Ok(())
        } else {
            Err(MessageError::Full)
        }
    }

    /// The word at `index`, if the message has that many words.
    pub fn get_int(&self, index: usize) -> (r: Option<u64>)
        ensures
            r == (if index < self@.len() { Some(self@[index as int]) } else { None::<u64> }),
    {
        if index < self.words.len() {
            Some(self.words[index])
        } else {
            None
        }
    }

    /// Number of words in the message.
    pub fn len(&self) -> (n: usize)
        ensures
            n == self@.len(),
    {
        self.words.len()
    }

    /// A copy of the words, for handing to the transport.
    pub fn to_words(&self) -> (v: Vec<u64>)
        ensures
            v@ == self@,
    {
        self.words.clone()
    }
}

/// The word at `index` of `m`, or 0 when absent.
pub open spec fn word_or_zero(m: Seq<u64>, index: int) -> u64 {
    if 0 <= index < m.len() { m[index] } else { 0 }
}

/// Builds a message from a request type followed by its parameters.
pub fn request_message(request_type: u32, params: &[usize]) -> (r: Result<Message, MessageError>)
    ensures
        r is Ok <==> params@.len() + 1 <= MESSAGE_MAX_WORDS,
        r matches Ok(m) ==> m@ == seq![request_type as u64] + params@.map_values(|p: usize| p as u64),
{
    let mut message = Message::new();
    let pushed = message.push_int(request_type as u64);
    assert(pushed is Ok);
    let mut i: usize = 0;
    while i < params.len()
        invariant
            0 <= i <= params@.len(),
            i + 1 <= MESSAGE_MAX_WORDS,
            message@ == seq![request_type as u64] + params@.subrange(0, i as int).map_values(|p: usize| p as u64),
        decreases params@.len() - i,
    {
        match message.push_int(params[i] as u64) {
            Ok(()) => {},
            Err(e) => {
                return Err(e);
            },
        }
        assert(params@.subrange(0, i + 1).map_values(|p: usize| p as u64) =~= params@.subrange(0, i as int).map_values(|p: usize| p as u64).push(params@[i as int] as u64));
        i = i + 1;
    }
    assert(params@.subrange(0, params@.len() as int) =~= params@);
    Ok(message)
}

} // verus!

verus! {

/// How one request/response round trip with the broker went.
pub enum BrokerExchange {
    /// The request could not be sent.
    SendFailed,
    /// The request was sent but no response could be received.
    ReceiveFailed,
    /// The broker answered with this message.
    Reply(Message),
}

impl BrokerExchange {
    /// The request was sent.
    pub open spec fn was_sent(&self) -> bool {
        !(self is SendFailed)
    }

    /// The reply's words, if there was a reply.
    pub open spec fn reply(&self) -> Option<Seq<u64>> {
        match self {
            BrokerExchange::Reply(m) => Some(m@),
            _ => None,
        }
    }
}

} // verus!
