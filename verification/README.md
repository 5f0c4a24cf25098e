# lait

The logic of a local-first, peer-to-peer issue tracker, verified with Verus:
the signed membership graph and its replay, authority handover between
signing arrangements, the store marker, issue documents over Loro, the sync
protocol's decisions, the spaces picker's identity scoping, the terminal
client's state machine, and the small parsers and formatters around them.

Layout:

- `src/` — the verified library. Calls into outside crates (BLAKE3, Ed25519,
  operating-system randomness, Loro) stand behind trusted items in
  `crypto.rs` and `crdt.rs`, and a few calls into `std` (Unicode case and
  whitespace, path components) in `text.rs`, `doctor.rs` and `spaces.rs`;
  each has a doc comment saying what is claimed of it.
- `tests/` — tests of the library on concrete values.
- `app/` — a small command-line front end: environment, files and terminal
  output, handing plain values to the library.
