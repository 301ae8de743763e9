//! Serial debug output. A `SerialPort` records the accesses made to the I/O
//! ports of the first serial line: the writes, and the reads with the
//! values the line answered them with, taken in order from the values it
//! was given. Replaying them onto the hardware (or a terminal) is the
//! caller's.

use vstd::prelude::*;
use vstd::std_specs::iter::IteratorSpec;

pub mod serial;

verus! {

/// I/O port of the first serial line's data register.
pub const COM1: u16 = 0x3F8;

/// One write of a byte to an I/O port.
#[derive(Debug, Clone, Copy, PartialEq, Eq, Structural)]
pub struct PortWrite {
    pub port: u16,
    pub value: u8,
}

/// One access to an I/O port: a write, or a read and the value it gave.
#[derive(Debug, Clone, Copy, PartialEq, Eq, Structural)]
pub enum PortAccess {
    Out(PortWrite),
    In { port: u16, value: u8 },
}

/// The accesses made to the serial line's ports, in order, and the values
/// its next reads give.
pub struct SerialPort {
    writes: Vec<PortWrite>,
    accesses: Vec<PortAccess>,
    inputs: Vec<u8>,
}

impl View for SerialPort {
    type V = Seq<PortWrite>;

    /// The writes made so far.
    closed spec fn view(&self) -> Seq<PortWrite> {
        self.writes@
    }
}

/// Writes as port accesses.
pub open spec fn outs(w: Seq<PortWrite>) -> Seq<PortAccess> {
    w.map_values(|x: PortWrite| PortAccess::Out(x))
}

/// Sending `bytes` over the line: each is written to the data register.
pub open spec fn data_writes(bytes: Seq<u8>) -> Seq<PortWrite> {
    bytes.map_values(|b: u8| PortWrite { port: COM1, value: b })
}

/// The byte a character is sent as: its code point's low eight bits.
pub open spec fn low_byte(c: char) -> u8 {
    (c as u32 % 256) as u8
}

/// The bytes a sequence of characters is sent as, one per character.
pub open spec fn low_bytes(s: Seq<char>) -> Seq<u8> {
    s.map_values(|c: char| low_byte(c))
}

/// A character's low eight bits.
pub fn char_low_byte(c: char) -> (b: u8)
    ensures
        b == low_byte(c),
{
    let u: u32 = c as u32;
    (u % 256) as u8
}

impl SerialPort {
    /// Every access made so far, reads included.
    pub closed spec fn accesses(&self) -> Seq<PortAccess> {
        self.accesses@
    }

    /// The values the next reads give, in order.
    pub closed spec fn pending(&self) -> Seq<u8> {
        self.inputs@
    }

    /// No accesses yet, and nothing to read.
    pub fn new() -> (p: SerialPort)
        ensures
            p@ == Seq::<PortWrite>::empty(),
            p.accesses() == Seq::<PortAccess>::empty(),
            p.pending() == Seq::<u8>::empty(),
    {
        SerialPort { writes: Vec::new(), accesses: Vec::new(), inputs: Vec::new() }
    }

    /// No accesses yet; reads give `inputs` in order.
    pub fn with_inputs(inputs: Vec<u8>) -> (p: SerialPort)
        ensures
            p@ == Seq::<PortWrite>::empty(),
            p.accesses() == Seq::<PortAccess>::empty(),
            p.pending() == inputs@,
    {
        SerialPort { writes: Vec::new(), accesses: Vec::new(), inputs }
    }

    /// Writes `value` to `port`.
    pub fn out(&mut self, port: u16, value: u8)
        ensures
            final(self)@ == old(self)@.push(PortWrite { port, value }),
            final(self).accesses() == old(self).accesses().push(PortAccess::Out(PortWrite { port, value })),
            final(self).pending() == old(self).pending(),
    {
        self.writes.push(PortWrite { port, value });
        self.accesses.push(PortAccess::Out(PortWrite { port, value }));
    }

    /// Reads `port`: the next of the pending values.
    pub fn inb(&mut self, port: u16) -> (value: u8)
        requires
            old(self).pending().len() > 0,
        ensures
            value == old(self).pending()[0],
            final(self)@ == old(self)@,
            final(self).accesses() == old(self).accesses().push(PortAccess::In { port, value }),
            final(self).pending() == old(self).pending().drop_first(),
    {
        let value = self.inputs.remove(0);
        self.accesses.push(PortAccess::In { port, value });
        assert(old(self).pending().remove(0) =~= old(self).pending().drop_first());
        value
    }

    /// The writes made so far.
    pub fn writes(&self) -> (v: Vec<PortWrite>)
        ensures
            v@ == self@,
    {
        self.writes.clone()
    }

    /// Every access made so far.
    pub fn access_log(&self) -> (v: Vec<PortAccess>)
        ensures
            v@ == self.accesses(),
    {
        self.accesses.clone()
    }
}

/// Sends one character (its low eight bits).
pub fn serial_write(port: &mut SerialPort, c: char)
    ensures
        final(port)@ == old(port)@ + data_writes(seq![low_byte(c)]),
        final(port).accesses() == old(port).accesses() + outs(data_writes(seq![low_byte(c)])),
        final(port).pending() == old(port).pending(),
{
    let b = char_low_byte(c);
    port.out(COM1, b);
    assert(data_writes(seq![low_byte(c)]) =~= seq![PortWrite { port: COM1, value: b }]);
    assert(outs(data_writes(seq![low_byte(c)])) =~= seq![PortAccess::Out(PortWrite { port: COM1, value: b })]);
}

/// Sends a string character by character, each as its low eight bits.
pub fn serial_write_str(port: &mut SerialPort, s: &str)
    ensures
        final(port)@ == old(port)@ + data_writes(low_bytes(s@)),
        final(port).accesses() == old(port).accesses() + outs(data_writes(low_bytes(s@))),
        final(port).pending() == old(port).pending(),
{
    broadcast use vstd::string::axiom_spec_iter, vstd::string::next_postcondition;

    let mut it = s.chars();
    let ghost start = port@;
    let ghost start_accesses = port.accesses();
    loop
        invariant
            it.obeys_prophetic_iter_laws(),
            it.decrease() is Some,
            start == old(port)@,
            start_accesses == old(port).accesses(),
            port.pending() == old(port).pending(),
            start + data_writes(low_bytes(s@)) == port@ + data_writes(low_bytes(it.remaining())),
            start_accesses + outs(data_writes(low_bytes(s@))) == port.accesses() + outs(data_writes(low_bytes(it.remaining()))),
        decreases it.decrease()->0,
    {
        let ghost before = it.remaining();
        match it.next() {
            Some(c) => {
                serial_write(port, c);
                assert(before =~= seq![c] + it.remaining());
                assert(data_writes(low_bytes(before)) =~= data_writes(seq![low_byte(c)]) + data_writes(low_bytes(it.remaining())));
                assert(outs(data_writes(low_bytes(before))) =~= outs(data_writes(seq![low_byte(c)])) + outs(data_writes(low_bytes(it.remaining()))));
            },
            None => {
                assert(data_writes(low_bytes(it.remaining())) =~= Seq::<PortWrite>::empty());
                assert(outs(data_writes(low_bytes(it.remaining()))) =~= Seq::<PortAccess>::empty());
                assert(port@ =~= port@ + Seq::<PortWrite>::empty());
                assert(port.accesses() =~= port.accesses() + Seq::<PortAccess>::empty());
                return;
            },
        }
    }
}

} // verus!
