# zenith

Core logic of a ground-station software stack, written in Verus and proved
against its contracts.

- `src/frame.rs` — CCSDS 133.0-B-2 Space Packet primary header and packets:
  exact wire encoding, range validation, and round-trip laws in both
  directions.
- `src/fec.rs` — the `Encoder`/`Decoder` interfaces and the Hamming(7,4)
  code, with the laws that decoding undoes encoding and corrects any single
  bit error per codeword.
- `src/modem.rs` — bits per symbol of BPSK/QPSK and QPSK bit pairing.
- `src/bits.rs` — block padding and bit-error counting.
- `src/rng.rs` — the xorshift64* generator used for reproducible noise.
- `src/tle.rs` — two-line element sets: splitting a text into its lines,
  line checks (lengths, checksums), column scanning with Unicode-aware trimming, integer fields, exponent-field rewriting, calendar arithmetic.
- `src/constellation.rs` — slot layout and catalog numbers of a Walker-delta
  constellation.

`app/` holds the floating-point code that uses the library: complex baseband
samples, the AWGN channel and link simulation, the SGP4/SDP4 propagator,
visibility windows, handoff planning, and the antenna control loop.
`tests/` exercises the library.
