//! The in-memory debug log each compartment keeps: a fixed-size byte buffer
//! of newline-terminated messages.

use vstd::prelude::*;
use vstd::string::StringSliceAdditionalSpecFns;
use crate::text::{decimal, decimal_bytes};

verus! {

/// Capacity of a debug log, in bytes.
pub const DEBUG_BUFFER_SIZE: usize = 4096;

/// The message did not fit in what is left of the log.
#[derive(Debug, Clone, Copy, PartialEq, Eq, Structural)]
pub enum DebugLogError {
    DebugBufferFull,
}

/// What logging `msg` onto `contents` gives: the message and a newline
/// appended, or nothing when the log would reach its capacity.
pub open spec fn log_entry(contents: Seq<u8>, msg: Seq<u8>) -> Option<Seq<u8>> {
    if contents.len() + msg.len() >= DEBUG_BUFFER_SIZE {
        None
    } else {
        Some(contents + msg + seq![10u8])
    }
}

/// Logging each of `msgs` in turn, stopping at the first that does not
/// fit: the resulting contents and whether all of them were logged.
pub open spec fn log_entries(contents: Seq<u8>, msgs: Seq<Seq<u8>>) -> (Seq<u8>, bool)
    decreases msgs.len(),
{
    if msgs.len() == 0 {
        (contents, true)
    } else {
        match log_entry(contents, msgs[0]) {
            Some(next) => log_entries(next, msgs.drop_first()),
            None => (contents, false),
        }
    }
}

/// How `log_number` renders `n`: all of its decimal digits.
pub open spec fn number_text(n: nat) -> Seq<u8> {
    decimal(n)
}

/// A byte buffer of log lines.
pub struct DebugLog {
    buffer: Vec<u8>,
}

impl View for DebugLog {
    type V = Seq<u8>;

    /// The bytes logged so far.
    closed spec fn view(&self) -> Seq<u8> {
        self.buffer@
    }
}

impl DebugLog {
    /// The log never holds more than its capacity.
    pub closed spec fn wf(&self) -> bool {
        self.buffer@.len() <= DEBUG_BUFFER_SIZE
    }

    /// An empty log.
    pub fn new() -> (log: DebugLog)
        ensures
            log.wf(),
            log@ == Seq::<u8>::empty(),
    {
        DebugLog { buffer: Vec::new() }
    }

    /// Appends `message` and a newline, unless the log would then reach its
    /// capacity; a refused message leaves the log unchanged.
    pub fn log(&mut self, message: &str) -> (r: Result<(), DebugLogError>)
        requires
            old(self).wf(),
        ensures
            final(self).wf(),
            match log_entry(old(self)@, message.spec_bytes()) {
                Some(c) => r is Ok && final(self)@ == c,
                None => r == Err::<(), DebugLogError>(DebugLogError::DebugBufferFull) && final(self)@ == old(self)@,
            },
    {
        self.log_bytes(message.as_bytes())
    }

    /// As `log`, for a message given by its bytes.
    pub fn log_bytes(&mut self, bytes: &[u8]) -> (r: Result<(), DebugLogError>)
        requires
            old(self).wf(),
        ensures
            final(self).wf(),
            match log_entry(old(self)@, bytes@) {
                Some(c) => r is Ok && final(self)@ == c,
                None => r == Err::<(), DebugLogError>(DebugLogError::DebugBufferFull) && final(self)@ == old(self)@,
            },
    {
        let position = self.buffer.len();
        if bytes.len() >= DEBUG_BUFFER_SIZE - position {
            return Err(DebugLogError::DebugBufferFull);
        }
        let mut i: usize = 0;
        while i < bytes.len()
            invariant
                0 <= i <= bytes@.len(),
                position + bytes@.len() < DEBUG_BUFFER_SIZE,
                position == old(self)@.len(),
                self.buffer@ == old(self)@ + bytes@.subrange(0, i as int),
            decreases bytes@.len() - i,
        {
            self.buffer.push(bytes[i]);
            assert(bytes@.subrange(0, i + 1) =~= bytes@.subrange(0, i as int).push(bytes@[i as int]));
            i = i + 1;
        }
        assert(bytes@.subrange(0, bytes@.len() as int) =~= bytes@);
        if self.buffer.len() < DEBUG_BUFFER_SIZE {
            self.buffer.push(10u8);
        }
        Ok(())
    }

    /// Logs `num` in decimal.
    pub fn log_number(&mut self, num: u64) -> (r: Result<(), DebugLogError>)
        requires
            old(self).wf(),
        ensures
            final(self).wf(),
            match log_entry(old(self)@, number_text(num as nat)) {
                Some(c) => r is Ok && final(self)@ == c,
                None => r == Err::<(), DebugLogError>(DebugLogError::DebugBufferFull) && final(self)@ == old(self)@,
            },
    {
        let digits = decimal_bytes(num);
        self.log_bytes(digits.as_slice())
    }

    /// Logs each of `messages` in turn, stopping at the first that does not
    /// fit; answers whether all were logged.
    pub fn log_all(&mut self, messages: &[&str]) -> (ok: bool)
        requires
            old(self).wf(),
        ensures
            final(self).wf(),
            (final(self)@, ok) == log_entries(old(self)@, messages@.map_values(|m: &str| m.spec_bytes())),
    {
        let ghost msgs = messages@.map_values(|m: &str| m.spec_bytes());
        let mut i: usize = 0;
        assert(msgs.skip(0) =~= msgs);
        while i < messages.len()
            invariant
                self.wf(),
                0 <= i <= messages@.len(),
                msgs == messages@.map_values(|m: &str| m.spec_bytes()),
                log_entries(old(self)@, msgs) == log_entries(self@, msgs.skip(i as int)),
            decreases messages@.len() - i,
        {
            let ghost before = self@;
            proof {
                lemma_log_entries_step(before, msgs[i as int], msgs.skip(i + 1));
                assert(msgs.skip(i as int) =~= seq![msgs[i as int]] + msgs.skip(i + 1));
            }
            match self.log(messages[i]) {
                Ok(()) => {},
                Err(_) => {
                    return false;
                },
            }
            i = i + 1;
        }
        proof {
            lemma_log_entries_step(self@, Seq::empty(), Seq::empty());
            assert(msgs.skip(i as int) =~= Seq::<Seq<u8>>::empty());
        }
        true
    }

    /// The bytes logged so far.
    pub fn contents(&self) -> (v: Vec<u8>)
        ensures
            v@ == self@,
    {
        self.buffer.clone()
    }

    /// Number of bytes logged so far.
    pub fn position(&self) -> (n: usize)
        ensures
            n == self@.len(),
    {
        self.buffer.len()
    }
}

/// Logging one message and then the rest.
pub proof fn lemma_log_entries_step(contents: Seq<u8>, m: Seq<u8>, rest: Seq<Seq<u8>>)
    ensures
        log_entries(contents, seq![m] + rest) == (match log_entry(contents, m) {
            Some(c) => log_entries(c, rest),
            None => (contents, false),
        }),
        log_entries(contents, Seq::empty()) == (contents, true),
{
    assert((seq![m] + rest).drop_first() =~= rest);
    assert((seq![m] + rest)[0] == m);
}

// ---------------------------------------------------------------------------
// Laws
// ---------------------------------------------------------------------------

/// Logging keeps what was logged before as a prefix and only ever grows the
/// log, by exactly the message and a newline.
pub proof fn lemma_log_entry_extends(contents: Seq<u8>, msg: Seq<u8>)
    requires
        contents.len() <= DEBUG_BUFFER_SIZE,
    ensures
        log_entry(contents, msg) matches Some(c) ==> {
            &&& c.len() == contents.len() + msg.len() + 1
            &&& c.len() <= DEBUG_BUFFER_SIZE
            &&& c.subrange(0, contents.len() as int) == contents
            &&& c.subrange(contents.len() as int, (contents.len() + msg.len()) as int) == msg
            &&& c.last() == 10u8
        },
{
    if let Some(c) = log_entry(contents, msg) {
        assert(c.subrange(0, contents.len() as int) =~= contents);
        assert(c.subrange(contents.len() as int, (contents.len() + msg.len()) as int) =~= msg);
    }
}

/// Logging a sequence of messages keeps what was logged before as a prefix,
/// and never exceeds the capacity.
pub proof fn lemma_log_entries_extends(contents: Seq<u8>, msgs: Seq<Seq<u8>>)
    requires
        contents.len() <= DEBUG_BUFFER_SIZE,
    ensures
        log_entries(contents, msgs).0.len() <= DEBUG_BUFFER_SIZE,
        log_entries(contents, msgs).0.len() >= contents.len(),
        log_entries(contents, msgs).0.subrange(0, contents.len() as int) == contents,
    decreases msgs.len(),
{
    let r = log_entries(contents, msgs).0;
    if msgs.len() == 0 {
        assert(r.subrange(0, contents.len() as int) =~= contents);
    } else {
        match log_entry(contents, msgs[0]) {
            Some(next) => {
                lemma_log_entry_extends(contents, msgs[0]);
                lemma_log_entries_extends(next, msgs.drop_first());
                assert(r.subrange(0, contents.len() as int) =~= r.subrange(0, next.len() as int).subrange(0, contents.len() as int));
            },
            None => {
                assert(r.subrange(0, contents.len() as int) =~= contents);
            },
        }
    }
}

} // verus!
