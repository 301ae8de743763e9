# loop_os

Verified logic of the Loop OS compartments, written in Verus.

- `src/broker.rs` — the capability broker: token database and request handling.
- `src/aura.rs`, `src/intent.rs` — the Aura orchestrator and LIL intents.
- `src/shell.rs` — the desktop shell's app-launch requests.
- `src/root_task.rs` — the boot sequence: which untyped region backs which object, the kernel calls in order, and what a failed call leads to.
- `src/debug_log.rs`, `src/debug.rs`, `src/debug/serial.rs`, `src/integration.rs` — debug logs and the serial line.
- `src/message.rs`, `src/tokens.rs`, `src/string.rs`, `src/text.rs` — shared types and text helpers.

The library never performs IPC, kernel calls or port I/O itself: each step
takes what was received and returns what to send or do next, and the serial
line is modelled as the accesses made to its ports, reads answered from a
given queue of values. `app/main.rs` runs the compartments on a host,
exchanging messages within one process, performing the boot's kernel calls
against a stand-in kernel, and printing the serial line.
