//! The boot smoke test: the lines the compartments print while booting.

use vstd::prelude::*;
use crate::debug::{COM1, PortAccess, PortWrite, SerialPort, data_writes, low_bytes, outs, serial_write_str};
use crate::debug::serial::{init_serial, init_serial_writes};

verus! {

/// What a successful boot prints, line by line.
pub open spec fn boot_transcript() -> Seq<char> {
    "[ROOT_TASK] Boot sequence complete\n"@
        + "[BROKER] Capability Broker initialized successfully\n"@
        + "[SHELL] Desktop Shell initialized successfully\n"@
        + "[AURA] Aura Orchestrator initialized successfully\n"@
        + "[AURA] Voice command processed successfully\n"@
        + "[SHELL] Requesting app launch capability\n"@
        + "[TEST] Integration smoke test completed\n"@
}

/// The loopback self-test the smoke test runs after setting the line up:
/// loopback mode, a test byte, then normal operation.
pub open spec fn loopback_writes() -> Seq<PortWrite> {
    seq![
        PortWrite { port: (COM1 + 4) as u16, value: 0x1E },
        PortWrite { port: COM1, value: 0xAE },
        PortWrite { port: (COM1 + 4) as u16, value: 0x0F },
    ]
}

/// The self-test's port accesses: loopback mode, the test byte, a read of
/// the data register (which gives `echo`; the test goes on whatever it
/// is), then normal operation.
pub open spec fn loopback_accesses(echo: u8) -> Seq<PortAccess> {
    seq![
        PortAccess::Out(PortWrite { port: (COM1 + 4) as u16, value: 0x1E }),
        PortAccess::Out(PortWrite { port: COM1, value: 0xAE }),
        PortAccess::In { port: COM1, value: echo },
        PortAccess::Out(PortWrite { port: (COM1 + 4) as u16, value: 0x0F }),
    ]
}

/// Sets the serial line up for the smoke test and runs the loopback
/// self-test; the read in it takes the first pending value.
pub fn init_serial_port(port: &mut SerialPort)
    requires
        old(port).pending().len() > 0,
    ensures
        final(port)@ == old(port)@ + init_serial_writes() + loopback_writes(),
        final(port).accesses() == old(port).accesses() + outs(init_serial_writes()) + loopback_accesses(
            old(port).pending()[0],
        ),
        final(port).pending() == old(port).pending().drop_first(),
{
    init_serial(port);
    port.out(COM1 + 4, 0x1E);
    port.out(COM1, 0xAE);
    let _echo = port.inb(COM1);
    port.out(COM1 + 4, 0x0F);
    assert(port@ =~= old(port)@ + init_serial_writes() + loopback_writes());
    assert(port.accesses() =~= old(port).accesses() + outs(init_serial_writes()) + loopback_accesses(old(port).pending()[0]));
}

/// Prints the boot transcript.
pub fn simulate_boot_sequence(port: &mut SerialPort)
    ensures
        final(port)@ == old(port)@ + data_writes(low_bytes(boot_transcript())),
{
    serial_write_str(port, "[ROOT_TASK] Boot sequence complete\n");
    serial_write_str(port, "[BROKER] Capability Broker initialized successfully\n");
    serial_write_str(port, "[SHELL] Desktop Shell initialized successfully\n");
    serial_write_str(port, "[AURA] Aura Orchestrator initialized successfully\n");
    serial_write_str(port, "[AURA] Voice command processed successfully\n");
    serial_write_str(port, "[SHELL] Requesting app launch capability\n");
    serial_write_str(port, "[TEST] Integration smoke test completed\n");
    assert(port@ =~= old(port)@ + data_writes(low_bytes(boot_transcript())));
}

} // verus!
