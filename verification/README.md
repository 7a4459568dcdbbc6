# ndn_security

A verified core for NDN security, written in Verus. Each function's
behaviour is stated in its `requires`/`ensures` contract and proved.

- `src/` is the library, and every item in it is checked by Verus:
  - the NDN-TLV codec and names;
  - trust schemas and chain validation;
  - the NDNCERT CA's decisions and challenges;
  - trust envelopes, capabilities and the ABE containers;
  - SafeBag;
  - key transitions, delegation, renewal and custodians.

  Calls into outside crates (ring, ed25519-dalek, p256, pkcs8, base64,
  dashmap, x509-parser, ...) go through small trusted wrappers. Each wrapper's
  doc comment says what its contract claims.
- `tests/` runs the library on concrete values.
- `app/` is the ordinary Rust around the library:
  - reading and writing files (the library itself only reads the clock, in
    `src/clock.rs`, and probes whether a PIB directory exists, in
    `src/pib.rs`, each behind a trusted wrapper);
  - the CA request driver;
  - provisioning;
  - JSON forms;
  - the loops that alternate outside work with the library's decisions.
