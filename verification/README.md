# sync_engine

The offline transaction queue and double-spend conflict layer of a mesh
payment network, written in Verus: the library's functions carry
`requires`/`ensures` contracts that Verus proves.

- `src/queue/sequence.rs`: per-account sequence-number reservation
  (`SequenceReservationManager`) and the cached multisig signer sets
  (`MultisigAccountRegistry`), viewed as maps keyed by account.
- `src/queue/priority.rs`: the outgoing payment queue, taken out by tier and
  then by queueing time.
- `src/conflict/`: detection of envelopes that claim the same
  (account, sequence) slot, and the (always unresolved) off-chain resolution.
- `src/storage/`: stored records and the decoding of stored columns.
- `src/keyed.rs`, `src/ids.rs`: association lists read as maps, and the byte
  order of 32-byte ids.
- `app/`: the SQLite storage (`tokio-rusqlite`), envelope signing, and the
  error and envelope types with their `thiserror`/`serde` derives.
