# MixTor

A pluggable transport for Tor that hides when, and how much, a client really
sends. All traffic between client and server leaves in sealed frames of one
size, on a clock that does not follow the real traffic; slots that have nothing
to carry are filled with cover.

The library under `src/` is written in Verus: what its functions do is stated in
`requires` and `ensures` clauses and proved. What it takes from other crates
(ChaCha20, BLAKE3, X25519, Elligator2, ChaCha20-Poly1305, the operating system's
randomness) it takes through small wrappers, whose contracts are trusted; each
says in its doc comment which function it calls and what is claimed of it.

## Layout

- `src/seeds.rs`, `src/rng.rs`, `src/primitives.rs`: secrets and generators.
- `src/clumping.rs`, `src/timing.rs`: bursts of packets, and when they leave.
- `src/composition.rs`, `src/composer.rs`, `src/frames.rs`: bursts mixed with
  cover.
- `src/timing_correlator.rs`, `src/shaped_session.rs`: the departure clock.
- `src/session_bounder.rs`, `src/optimal_padding.rs`, `src/self_test.rs`: session
  classes, size buckets, and a check of what was sent.
- `src/crypto.rs`, `src/handshake.rs`: the handshake and the frame cipher.
- `src/cells.rs`, `src/flow.rs`, `src/mux.rs`, `src/transport.rs`: cells, flows,
  streams on a shared wire, and how sessions end.
- `src/socks.rs`, `src/managed.rs`, `src/identity.rs`, `src/protocol.rs`: the
  dialogue with Tor, the server's identity, and a plain frame format.
- `src/lab_log.rs`, `src/correlation_attack.rs`, `src/simulation.rs`: logs, the
  analysis of logs, and simulated traffic.
- `app/`: the program around the library: sockets, files, timers, and whatever is
  computed with floating point.
- `tests/`: tests of the library.

Time is handed to the library as an argument, and samples of real-valued
distributions as whole numbers, so that what it does is a function of its
arguments and of its seeds. Laws that relate several functions are public proof
functions whose names begin with `law_`.
