# control_server

The hosting side of a shared-control session: clients join under names of their own, send each other
updates through the server, hand the controls around, and can be reached through NAT by hole
punching.

- `src/` is the library, verified with Verus. It decides what is to be sent and what the application
  is told. It opens no socket and reads no clock; it reaches the application through
  `crossbeam_channel` channels, whose operations are the only thing it takes on trust (`channel.rs`).
  `model.rs` says what each step does to a session and `laws.rs` what holds of it; `steps.rs` says
  what a server goes through and how the hosting loop goes, and `runs.rs` what holds of that.
- `tests/` runs it.
- `app/` joins it to a `laminar` socket, a UPnP gateway and the clock.
