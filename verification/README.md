# makit

Building blocks for mahjong rule engines, written in Verus: every function of the library has
a contract that Verus proves.

- `src/tile`, `src/seat`, `src/seed.rs`, `src/wildcard.rs`: tile codes, tile sets and counts,
  the ring of four seats, seat sets and seat maps, winds and the east anchor.
- `src/hand.rs`, `src/meld.rs`, `src/melds.rs`, `src/wall.rs`, `src/river.rs`,
  `src/discard.rs`: the containers of one hand, each keeping its own structural rules.
- `src/context.rs` and `src/context/`: the context of one hand and its combined, atomic
  operations (draws, deals, discards, exchanges and melds). Each of them keeps the multiset of
  tiles in the wall, the seats and the river unchanged, and leaves everything as it was when it
  fails.
- `src/machine.rs` and `src/machine/`: a general state machine driven by an owned context; an
  input that an initialized machine refuses leaves its context and state as they were.
- `src/engine.rs` and `src/engine/`: actions, phases and the engine state machine, with the
  shuffle and dealer-pick setup actions; their random numbers come from `rand_chacha` through
  the trusted wrappers in `src/engine/action/setup/random.rs`.
- `app/`: plain Rust around the library: error types with their messages, and demonstrations
  that print to the terminal.
- `tests/`: tests on concrete values.
