# tfscale

A small overlay network: a control server that registers devices and hands
out network maps, a relay that forwards frames between devices, an agent that
runs on each device, and a custom backend that seals overlay packets into
encrypted frames and sends them to peers over UDP or through the relay.

## Layout

- `src/` is the library, verified with Verus. Its functions carry
  `requires`/`ensures` contracts (the trusted wrappers around outside crates
  state what their crates' sources show), and the laws of the library stand
  there as public proof functions:
  - `frame`, `nonce`, `crypto`: the frame format, nonces and the replay
    window, and the per-peer sealing sessions;
  - `runtime`, `probe`, `backend`, `status`, `transport`: the backend's
    tables, sending and receiving, direct-path probing and its status line;
  - `relay`, `control`, `agent`, `dns`, `resolver`, `service`, `ctl`: the
    decisions of the relay, the control server, the agent and the CLI;
  - `text`, `bytes`, `ip`, `ipv6`, `ids`, `net`, `protocol`, `error`,
    `platform`, `tun`, `packet`: shared values and helpers.
- `tests/` holds the tests of the library.
- `app/` is the program around the library: the command line, files,
  sockets, HTTP, the database, the TUN device and the forwarding threads.

Calls into the cryptography, encoding and identifier crates go through small
trusted wrappers in `src/`, each documented with what its contract claims of
the crate it calls.
