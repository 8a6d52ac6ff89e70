# remitwise

Verified core of two Soroban contracts of the RemitWise platform:

- `bill_payments`: bills (one-off and recurring), payment and cancellation,
  external references, bill schedules and their execution, archiving,
  paging queries, pause controls and upgrade snapshots.
- `remittance_split`: the split of a remittance into spending, savings,
  bills and insurance, signed distributions with nonces, deadlines and
  request hashes, remittance schedules, snapshot export/import, the audit
  log, and admin roles.

Layout:

- `src/` — the library, written and proved with Verus. Each contract is a
  plain state value (`BillPayments`, `RemittanceSplit`) whose operations take
  the ledger time and other host answers as arguments and state in their
  contracts exactly what they return and how the state changes. The laws
  (idempotent execution, conservation of the split, nonce replay refusal,
  snapshot round trips, stable paging, binding request hashes) are public
  proof functions in each contract's `laws.rs` and in `split.rs`.
- `app/` — the Soroban host side: authorization, the ledger clock, token
  transfers, events, and conversions between host values and the library's.
- `tests/` — scenario tests of the library.

Only two calls reach into `soroban-sdk` from the library, each behind a
small wrapper in `src/remittance_split/distribution.rs`: the payload of a
short symbol, whose contract states the 6-bit character packing, and
SHA-256 of at most 64 KiB, whose contract names the digest.
