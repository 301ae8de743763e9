//! Serial line setup and formatted output.

use vstd::prelude::*;
use vstd::std_specs::iter::IteratorSpec;
use vstd::string::StringSliceAdditionalSpecFns;
use crate::debug::{COM1, PortAccess, PortWrite, SerialPort, char_low_byte, data_writes, low_byte, outs};

verus! {

/// Port of the line status register.
pub const LINE_STATUS: u16 = 0x3FD;

/// A line status saying the transmitter can take a byte: its
/// holding-register-empty bit (0x20) is set.
pub open spec fn ready(status: u8) -> bool {
    status & 0x20 != 0
}

/// Whether a line status says the transmitter can take a byte.
pub fn transmit_ready(status: u8) -> (r: bool)
    ensures
        r == ready(status),
{
    status & 0x20 != 0
}

/// How many of the statuses say the transmitter is ready.
pub open spec fn ready_count(statuses: Seq<u8>) -> nat
    decreases statuses.len(),
{
    if statuses.len() == 0 {
        0
    } else {
        (if ready(statuses[0]) { 1nat } else { 0nat }) + ready_count(statuses.drop_first())
    }
}

/// How many statuses waiting for the transmitter reads: up to and
/// including the first ready one.
pub open spec fn wait_len(statuses: Seq<u8>) -> nat
    decreases statuses.len(),
{
    if statuses.len() == 0 {
        0
    } else if ready(statuses[0]) {
        1
    } else {
        1 + wait_len(statuses.drop_first())
    }
}

/// Reads of the line status register that gave `statuses`.
pub open spec fn status_reads(statuses: Seq<u8>) -> Seq<PortAccess> {
    statuses.map_values(|v: u8| PortAccess::In { port: LINE_STATUS, value: v })
}

/// Sending `bytes` while the line answers status reads with `statuses`:
/// before each byte the status is read until it says ready, then the byte
/// is written to the data register. The accesses, and the statuses left.
pub open spec fn polled_send(statuses: Seq<u8>, bytes: Seq<u8>) -> (Seq<PortAccess>, Seq<u8>)
    decreases bytes.len(),
{
    if bytes.len() == 0 {
        (Seq::empty(), statuses)
    } else {
        let w = wait_len(statuses) as int;
        let (rest, left) = polled_send(statuses.skip(w), bytes.drop_first());
        (status_reads(statuses.take(w)) + seq![PortAccess::Out(PortWrite { port: COM1, value: bytes[0] })] + rest, left)
    }
}

/// Waiting on statuses with a ready one among them stops at the first
/// ready one, and uses up exactly one ready status.
pub proof fn lemma_wait(statuses: Seq<u8>)
    requires
        ready_count(statuses) > 0,
    ensures
        1 <= wait_len(statuses) <= statuses.len(),
        ready(statuses[wait_len(statuses) - 1]),
        forall|i: int| 0 <= i < wait_len(statuses) - 1 ==> !ready(#[trigger] statuses[i]),
        ready_count(statuses.skip(wait_len(statuses) as int)) == ready_count(statuses) - 1,
    decreases statuses.len(),
{
    if ready(statuses[0]) {
        assert(statuses.skip(1) =~= statuses.drop_first());
    } else {
        let t = statuses.drop_first();
        lemma_wait(t);
        assert(statuses.skip(wait_len(statuses) as int) =~= t.skip(wait_len(t) as int));
        assert forall|i: int| 0 <= i < wait_len(statuses) - 1 implies !ready(#[trigger] statuses[i]) by {
            if i > 0 {
                assert(statuses[i] == t[i - 1]);
            }
        }
    }
}

/// Sending two byte strings one after the other is sending their
/// concatenation.
pub proof fn lemma_polled_send_append(statuses: Seq<u8>, a: Seq<u8>, b: Seq<u8>)
    ensures
        polled_send(statuses, a + b) == ({
            let (x, s1) = polled_send(statuses, a);
            let (y, s2) = polled_send(s1, b);
            (x + y, s2)
        }),
    decreases a.len(),
{
    if a.len() == 0 {
        assert(a + b =~= b);
        let (y, s2) = polled_send(statuses, b);
        assert(Seq::<PortAccess>::empty() + y =~= y);
    } else {
        let w = wait_len(statuses) as int;
        assert((a + b).drop_first() =~= a.drop_first() + b);
        assert((a + b)[0] == a[0]);
        lemma_polled_send_append(statuses.skip(w), a.drop_first(), b);
        let head = status_reads(statuses.take(w)) + seq![PortAccess::Out(PortWrite { port: COM1, value: a[0] })];
        let (r1, s1) = polled_send(statuses.skip(w), a.drop_first());
        let (y, s2) = polled_send(s1, b);
        assert(head + (r1 + y) =~= (head + r1) + y);
    }
}

/// Sending `bytes` uses up one ready status per byte.
pub proof fn lemma_polled_send_count(statuses: Seq<u8>, bytes: Seq<u8>)
    requires
        ready_count(statuses) >= bytes.len(),
    ensures
        ready_count(polled_send(statuses, bytes).1) == ready_count(statuses) - bytes.len(),
    decreases bytes.len(),
{
    if bytes.len() > 0 {
        lemma_wait(statuses);
        lemma_polled_send_count(statuses.skip(wait_len(statuses) as int), bytes.drop_first());
    }
}

/// Every byte sent goes out right after a status read that said the
/// transmitter was ready, and nothing but status reads and data writes is
/// made.
pub proof fn lemma_writes_follow_ready(statuses: Seq<u8>, bytes: Seq<u8>)
    requires
        ready_count(statuses) >= bytes.len(),
    ensures
        ({
            let acc = polled_send(statuses, bytes).0;
            &&& forall|i: int| 0 <= i < acc.len() && #[trigger] acc[i] is Out ==> i > 0 && (acc[i - 1] matches PortAccess::In { port, value } && port == LINE_STATUS && ready(value))
            &&& forall|i: int| 0 <= i < acc.len() && #[trigger] acc[i] is In ==> acc[i]->In_port == LINE_STATUS
            &&& bytes.len() > 0 ==> acc.len() > 0 && acc[0] is In
        }),
    decreases bytes.len(),
{
    if bytes.len() > 0 {
        lemma_wait(statuses);
        let w = wait_len(statuses) as int;
        let t = statuses.skip(w);
        lemma_writes_follow_ready(t, bytes.drop_first());
        let reads = status_reads(statuses.take(w));
        let out = PortAccess::Out(PortWrite { port: COM1, value: bytes[0] });
        let rest = polled_send(t, bytes.drop_first()).0;
        let acc = polled_send(statuses, bytes).0;
        assert(acc == reads + seq![out] + rest);
        assert forall|i: int| 0 <= i < acc.len() && #[trigger] acc[i] is Out implies i > 0 && (acc[i - 1] matches PortAccess::In { port, value } && port == LINE_STATUS && ready(value)) by {
            if i < w {
                assert(acc[i] == reads[i]);
            } else if i == w {
                assert(acc[i - 1] == reads[w - 1]);
                assert(reads[w - 1] == PortAccess::In { port: LINE_STATUS, value: statuses[w - 1] });
            } else {
                assert(acc[i] == rest[i - w - 1]);
                if i - w - 1 > 0 {
                    assert(acc[i - 1] == rest[i - w - 2]);
                }
            }
        }
        assert forall|i: int| 0 <= i < acc.len() && #[trigger] acc[i] is In implies acc[i]->In_port == LINE_STATUS by {
            if i < w {
                assert(acc[i] == reads[i]);
            } else if i > w {
                assert(acc[i] == rest[i - w - 1]);
            }
        }
        assert(acc[0] == reads[0]);
    }
}

/// Reads the line status once: whether the transmitter can take a byte.
pub fn is_transmit_ready(port: &mut SerialPort) -> (r: bool)
    requires
        old(port).pending().len() > 0,
    ensures
        r == ready(old(port).pending()[0]),
        final(port)@ == old(port)@,
        final(port).accesses() == old(port).accesses() + status_reads(old(port).pending().take(1)),
        final(port).pending() == old(port).pending().drop_first(),
{
    let status = port.inb(LINE_STATUS);
    assert(status_reads(old(port).pending().take(1)) =~= seq![PortAccess::In { port: LINE_STATUS, value: status }]);
    transmit_ready(status)
}

/// Reads the line status until it says the transmitter can take a byte.
pub fn wait_transmit_ready(port: &mut SerialPort)
    requires
        ready_count(old(port).pending()) > 0,
    ensures
        final(port)@ == old(port)@,
        final(port).accesses() == old(port).accesses() + status_reads(
            old(port).pending().take(wait_len(old(port).pending()) as int),
        ),
        final(port).pending() == old(port).pending().skip(wait_len(old(port).pending()) as int),
{
    let ghost p0 = old(port).pending();
    let ghost a0 = old(port).accesses();
    let ghost mut k: int = 0;
    proof {
        assert(p0.skip(0) =~= p0);
        assert(status_reads(p0.take(0)) =~= Seq::<PortAccess>::empty());
        assert(port.accesses() =~= a0 + Seq::<PortAccess>::empty());
    }
    loop
        invariant
            p0 == old(port).pending(),
            a0 == old(port).accesses(),
            port@ == old(port)@,
            0 <= k <= p0.len(),
            port.pending() == p0.skip(k),
            port.accesses() == a0 + status_reads(p0.take(k)),
            wait_len(p0) == k + wait_len(p0.skip(k)),
            ready_count(p0.skip(k)) > 0,
        decreases p0.len() - k,
    {
        let ghost rest = port.pending();
        let r = is_transmit_ready(port);
        proof {
            assert(rest.drop_first() =~= p0.skip(k + 1));
            assert(p0.take(k + 1) =~= p0.take(k).push(rest[0]));
            assert(status_reads(p0.take(k + 1)) =~= status_reads(p0.take(k)) + status_reads(rest.take(1)));
            k = k + 1;
        }
        if r {
            return;
        }
    }
}

/// Waits for the transmitter, then writes one byte to the data register.
fn send_byte(port: &mut SerialPort, b: u8)
    requires
        ready_count(old(port).pending()) > 0,
    ensures
        final(port)@ == old(port)@ + data_writes(seq![b]),
        final(port).accesses() == old(port).accesses() + polled_send(old(port).pending(), seq![b]).0,
        final(port).pending() == polled_send(old(port).pending(), seq![b]).1,
        ready_count(final(port).pending()) == ready_count(old(port).pending()) - 1,
{
    proof {
        lemma_wait(old(port).pending());
    }
    wait_transmit_ready(port);
    port.out(COM1, b);
    proof {
        let p0 = old(port).pending();
        let w = wait_len(p0) as int;
        assert(seq![b].drop_first() =~= Seq::<u8>::empty());
        assert(polled_send(p0.skip(w), Seq::<u8>::empty()) == (Seq::<PortAccess>::empty(), p0.skip(w)));
        assert(data_writes(seq![b]) =~= seq![PortWrite { port: COM1, value: b }]);
        let head = status_reads(p0.take(w)) + seq![PortAccess::Out(PortWrite { port: COM1, value: b })];
        assert(polled_send(p0, seq![b]).0 == head + Seq::<PortAccess>::empty());
        assert(head + Seq::<PortAccess>::empty() =~= head);
        assert(port.accesses() =~= old(port).accesses() + head);
    }
}

/// Sends the UTF-8 bytes of a string, waiting for the transmitter before
/// each; each byte needs a ready status among the pending ones.
pub fn serial_write_str(port: &mut SerialPort, s: &str)
    requires
        ready_count(old(port).pending()) >= s.spec_bytes().len(),
    ensures
        final(port)@ == old(port)@ + data_writes(s.spec_bytes()),
        final(port).accesses() == old(port).accesses() + polled_send(old(port).pending(), s.spec_bytes()).0,
        final(port).pending() == polled_send(old(port).pending(), s.spec_bytes()).1,
        ready_count(final(port).pending()) == ready_count(old(port).pending()) - s.spec_bytes().len(),
{
    let bytes = s.as_bytes();
    let ghost p0 = old(port).pending();
    let ghost a0 = old(port).accesses();
    let mut i: usize = 0;
    proof {
        assert(bytes@.take(0) =~= Seq::<u8>::empty());
        assert(port.accesses() =~= a0 + Seq::<PortAccess>::empty());
        assert(data_writes(Seq::<u8>::empty()) =~= Seq::<PortWrite>::empty());
        assert(port@ =~= old(port)@ + Seq::<PortWrite>::empty());
    }
    while i < bytes.len()
        invariant
            0 <= i <= bytes@.len(),
            bytes@ == s.spec_bytes(),
            p0 == old(port).pending(),
            a0 == old(port).accesses(),
            ready_count(p0) >= bytes@.len(),
            port@ == old(port)@ + data_writes(bytes@.take(i as int)),
            port.accesses() == a0 + polled_send(p0, bytes@.take(i as int)).0,
            port.pending() == polled_send(p0, bytes@.take(i as int)).1,
            ready_count(port.pending()) == ready_count(p0) - i,
        decreases bytes@.len() - i,
    {
        let ghost before = port.accesses();
        send_byte(port, bytes[i]);
        proof {
            let b = bytes@[i as int];
            assert(bytes@.take(i + 1) =~= bytes@.take(i as int) + seq![b]);
            lemma_polled_send_append(p0, bytes@.take(i as int), seq![b]);
            assert(data_writes(bytes@.take(i + 1)) =~= data_writes(bytes@.take(i as int)) + data_writes(seq![b]));
            assert(port.accesses() =~= a0 + polled_send(p0, bytes@.take(i + 1)).0);
        }
        i = i + 1;
    }
    assert(bytes@.take(bytes@.len() as int) =~= bytes@);
}

/// Sends one character (its low eight bits), waiting for the transmitter
/// first.
pub fn serial_write_char(port: &mut SerialPort, c: char)
    requires
        ready_count(old(port).pending()) > 0,
    ensures
        final(port)@ == old(port)@ + data_writes(seq![low_byte(c)]),
        final(port).accesses() == old(port).accesses() + polled_send(old(port).pending(), seq![low_byte(c)]).0,
        final(port).pending() == polled_send(old(port).pending(), seq![low_byte(c)]).1,
        ready_count(final(port).pending()) == ready_count(old(port).pending()) - 1,
{
    let b = char_low_byte(c);
    send_byte(port, b);
}

/// The register writes that set the line up: interrupts off, 38400 baud,
/// 8 data bits, no parity, one stop bit, FIFO on, RTS/DSR set.
pub open spec fn init_serial_writes() -> Seq<PortWrite> {
    seq![
        PortWrite { port: (COM1 + 1) as u16, value: 0x00 },
        PortWrite { port: (COM1 + 3) as u16, value: 0x80 },
        PortWrite { port: COM1, value: 0x03 },
        PortWrite { port: (COM1 + 1) as u16, value: 0x00 },
        PortWrite { port: (COM1 + 3) as u16, value: 0x03 },
        PortWrite { port: (COM1 + 2) as u16, value: 0xC7 },
        PortWrite { port: (COM1 + 4) as u16, value: 0x0B },
    ]
}

/// Sets the line up.
pub fn init_serial(port: &mut SerialPort)
    ensures
        final(port)@ == old(port)@ + init_serial_writes(),
        final(port).accesses() == old(port).accesses() + outs(init_serial_writes()),
        final(port).pending() == old(port).pending(),
{
    port.out(COM1 + 1, 0x00);
    port.out(COM1 + 3, 0x80);
    port.out(COM1, 0x03);
    port.out(COM1 + 1, 0x00);
    port.out(COM1 + 3, 0x03);
    port.out(COM1 + 2, 0xC7);
    port.out(COM1 + 4, 0x0B);
    assert(port@ =~= old(port)@ + init_serial_writes());
    assert(port.accesses() =~= old(port).accesses() + outs(init_serial_writes()));
}

/// What `serial_printf` sends for `format`: ordinary characters as their
/// low eight bits; `%s`, `%d` and `%x` as the first argument's bytes (or
/// nothing when there is none); `%%` as `%`; `%` and any other character
/// as both; a final lone `%` as nothing.
pub open spec fn printf_bytes(format: Seq<char>, first_arg: Option<Seq<u8>>) -> Seq<u8>
    decreases format.len(),
{
    if format.len() == 0 {
        Seq::empty()
    } else if format[0] != '%' {
        seq![low_byte(format[0])] + printf_bytes(format.drop_first(), first_arg)
    } else if format.len() == 1 {
        Seq::empty()
    } else {
        let next = format[1];
        let out = if next == 's' || next == 'd' || next == 'x' {
            match first_arg {
                Some(a) => a,
                None => Seq::empty(),
            }
        } else if next == '%' {
            seq![37u8]
        } else {
            seq![37u8, low_byte(next)]
        };
        out + printf_bytes(format.subrange(2, format.len() as int), first_arg)
    }
}

/// The bytes of the first argument, if there is one.
pub open spec fn first_arg_bytes(args: Seq<&str>) -> Option<Seq<u8>> {
    if args.len() > 0 {
        Some(args[0].spec_bytes())
    } else {
        None
    }
}

/// Sends `format` with its conversions filled in from the first argument,
/// waiting for the transmitter before each byte; each byte sent needs a
/// ready status among the pending ones.
pub fn serial_printf(port: &mut SerialPort, format: &str, args: &[&str])
    requires
        ready_count(old(port).pending()) >= printf_bytes(format@, first_arg_bytes(args@)).len(),
    ensures
        final(port)@ == old(port)@ + data_writes(printf_bytes(format@, first_arg_bytes(args@))),
        final(port).accesses() == old(port).accesses() + polled_send(
            old(port).pending(),
            printf_bytes(format@, first_arg_bytes(args@)),
        ).0,
        final(port).pending() == polled_send(old(port).pending(), printf_bytes(format@, first_arg_bytes(args@))).1,
{
    broadcast use vstd::string::axiom_spec_iter, vstd::string::next_postcondition;

    let ghost arg = first_arg_bytes(args@);
    let ghost start = port@;
    let ghost p0 = port.pending();
    let ghost a0 = port.accesses();
    let ghost mut done: Seq<u8> = Seq::empty();
    let mut chars = format.chars();
    proof {
        assert(Seq::<u8>::empty() + printf_bytes(format@, arg) =~= printf_bytes(format@, arg));
        assert(data_writes(Seq::<u8>::empty()) =~= Seq::<PortWrite>::empty());
        assert(port@ =~= start + Seq::<PortWrite>::empty());
        assert(port.accesses() =~= a0 + Seq::<PortAccess>::empty());
    }
    loop
        invariant
            chars.obeys_prophetic_iter_laws(),
            chars.decrease() is Some,
            start == old(port)@,
            p0 == old(port).pending(),
            a0 == old(port).accesses(),
            arg == first_arg_bytes(args@),
            ready_count(p0) >= printf_bytes(format@, arg).len(),
            printf_bytes(format@, arg) == done + printf_bytes(chars.remaining(), arg),
            port@ == start + data_writes(done),
            port.accesses() == a0 + polled_send(p0, done).0,
            port.pending() == polled_send(p0, done).1,
            ready_count(port.pending()) == ready_count(p0) - done.len(),
        decreases chars.decrease()->0,
    {
        let ghost before = chars.remaining();
        let ghost written = port@;
        let ghost accessed = port.accesses();
        let ghost pending = port.pending();
        let ghost d0 = chars.decrease()->0;
        match chars.next() {
            None => {
                assert(printf_bytes(before, arg) =~= Seq::<u8>::empty());
                assert(done + Seq::<u8>::empty() =~= done);
                return;
            },
            Some(ch) => {
                assert(before[0] == ch);
                assert(before.drop_first() =~= chars.remaining());
                if ch == '%' {
                    let ghost d1 = chars.decrease()->0;
                    assert(decreases_to!(d0 => d1));
                    match chars.next() {
                        None => {
                            assert(before.len() == 1);
                            assert(printf_bytes(before, arg) =~= Seq::<u8>::empty());
                            assert(done + Seq::<u8>::empty() =~= done);
                            return;
                        },
                        Some(next_ch) => {
                            assert(decreases_to!(d1 => chars.decrease()->0));
                            assert(decreases_to!(d0 => chars.decrease()->0));
                            assert(before[1] == next_ch);
                            assert(before.subrange(2, before.len() as int) =~= chars.remaining());
                            let ghost out = if next_ch == 's' || next_ch == 'd' || next_ch == 'x' {
                                match arg {
                                    Some(a) => a,
                                    None => Seq::empty(),
                                }
                            } else if next_ch == '%' {
                                seq![37u8]
                            } else {
                                seq![37u8, low_byte(next_ch)]
                            };
                            assert(printf_bytes(before, arg) == out + printf_bytes(chars.remaining(), arg));
                            assert(done + printf_bytes(before, arg) =~= (done + out) + printf_bytes(chars.remaining(), arg));
                            assert(low_byte('%') == 37u8);
                            if next_ch == 's' || next_ch == 'd' || next_ch == 'x' {
                                if args.len() > 0 {
                                    serial_write_str(port, args[0]);
                                } else {
                                    assert(out =~= Seq::<u8>::empty());
                                    assert(polled_send(pending, out) == (Seq::<PortAccess>::empty(), pending));
                                    assert(port@ =~= written + data_writes(out));
                                    assert(port.accesses() =~= accessed + Seq::<PortAccess>::empty());
                                }
                            } else if next_ch == '%' {
                                serial_write_char(port, '%');
                            } else {
                                serial_write_char(port, '%');
                                let ghost mid = port.pending();
                                serial_write_char(port, next_ch);
                                proof {
                                    assert(out =~= seq![37u8] + seq![low_byte(next_ch)]);
                                    lemma_polled_send_append(pending, seq![37u8], seq![low_byte(next_ch)]);
                                }
                            }
                            proof {
                                lemma_polled_send_append(p0, done, out);
                                assert(port@ =~= written + data_writes(out));
                                assert(data_writes(done + out) =~= data_writes(done) + data_writes(out));
                                assert(port.accesses() =~= accessed + polled_send(pending, out).0);
                                done = done + out;
                            }
                        },
                    }
                } else {
                    serial_write_char(port, ch);
                    proof {
                        let out = seq![low_byte(ch)];
                        assert(printf_bytes(before, arg) == out + printf_bytes(chars.remaining(), arg));
                        assert(done + printf_bytes(before, arg) =~= (done + out) + printf_bytes(chars.remaining(), arg));
                        lemma_polled_send_append(p0, done, out);
                        assert(data_writes(done + out) =~= data_writes(done) + data_writes(out));
                        done = done + out;
                    }
                }
            },
        }
    }
}

} // verus!

verus! {

/// A format without conversions is sent as plain text, exactly as
/// `serial_write_str` of the line-level debug channel sends it.
pub proof fn lemma_printf_plain(format: Seq<char>, first_arg: Option<Seq<u8>>)
    requires
        forall|i: int| 0 <= i < format.len() ==> format[i] != '%',
    ensures
        printf_bytes(format, first_arg) == crate::debug::low_bytes(format),
    decreases format.len(),
{
    if format.len() > 0 {
        lemma_printf_plain(format.drop_first(), first_arg);
        assert(crate::debug::low_bytes(format) =~= seq![low_byte(format[0])] + crate::debug::low_bytes(format.drop_first()));
    } else {
        assert(crate::debug::low_bytes(format) =~= Seq::<u8>::empty());
    }
}

/// A conversion with no argument sends nothing, whatever it is.
pub proof fn lemma_printf_missing_argument(format: Seq<char>)
    requires
        forall|i: int| 0 <= i < format.len() ==> format[i] != '%',
    ensures
        printf_bytes(seq!['%', 's'] + format, None) == crate::debug::low_bytes(format),
{
    let f = seq!['%', 's'] + format;
    assert(f.subrange(2, f.len() as int) =~= format);
    lemma_printf_plain(format, None);
}

} // verus!
