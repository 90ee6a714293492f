# penumbra_logic

Verified logic of a shielded chain's node, wallet and custody service, written
in Verus.

- `src/dao.rs`: the DAO treasury. `DaoState` holds the balance of each asset
  (in increasing order of asset id, kept by a type invariant), the DAO
  parameters and the flag that records a parameter change in the current
  block; deposits, withdrawals, parameter writes and the end of a block are
  proved against a map model, with the laws that relate them (`lemma_*`).
- `src/threshold.rs`: the messages of threshold signing and how they are
  decoded from and encoded into their wire form, with round-trip laws. The
  Ed25519 key and signature checks call `ed25519-consensus`.
- `src/keys.rs`: which proving key a client names.
- `src/pcli.rs`: the command-line client's DAO query command.
- `app/`: the unverified surroundings (command-line parsing, network queries,
  WebAssembly bindings, and the calls into the chain's own crates).
- `tests/`: tests of the library.
