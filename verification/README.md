# miasma_core

The core of the Miasma anonymous content network as a verified library:
peer admission (proof of work, hybrid scoring, credentials), routing-table
diversity and difficulty scheduling, relay descriptors and path selection,
onion packet construction, relaying and circuit bookkeeping, the choice
of relayed retrieval paths and of each circuit's relays, Ed25519 and BBS+
credentials and their exchange,
reputation proofs, and network-environment classification.

- `src/` — the library, verified with Verus. Outside cryptography (BLAKE3,
  Ed25519, X25519, XChaCha20-Poly1305, HKDF, BLS12-381) is reached through
  small trusted wrappers whose contracts name their results; everything
  around them is proved.
- `tests/` — behaviour tests run against the compiled library.
- `app/` — the floating-point diagnostics (connection quality, peer ranking,
  outcome metrics) built on the library.
