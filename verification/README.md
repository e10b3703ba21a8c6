# revora_contracts

A multi-period revenue deposit contract as a verified state machine.

An admin initialises the contract with a token, creates non-overlapping
ledger periods holding a positive deposit each, and registers beneficiaries
per period. Once a period has ended, each registered beneficiary may claim
`floor(revenue / beneficiary_count)` exactly once; the remainder of the
division stays in the contract.

Layout:

- `src/address.rs` – addresses identified by the bytes of their textual form.
- `src/types.rs` – `Period` and `ContractError`.
- `src/model.rs` – the abstract contract state and, for each operation, the
  result and the next state it yields.
- `src/contract.rs` – `RevenueDepositContract`, the executable state and its
  operations, each proved to do what `model.rs` says.
- `src/laws.rs` – properties spanning operations, for single calls and for
  any sequence of calls: the state invariant, one claim per beneficiary and
  period, floor-division payouts that never exceed a deposit, history that is
  never lost, ids that count the periods created, idempotent registration,
  and more.
- `app/` – the Soroban contract: storage, authorisation, the ledger sequence
  and token transfers around the state machine.
- `tests/` – scenarios and laws checked on concrete values.
