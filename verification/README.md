# rujira_vault

A lending vault and a forwarding account for a CosmWasm chain, with their logic verified in Verus.

Depositors pay an asset into the vault and get receipt tokens, which are shares of the deposit
pool. Contracts that the chain gave a limit borrow the asset and owe shares of the debt pool, for
themselves or on behalf of delegates. Interest is charged on all debt with every request; a part of
it goes to a fee address.

- `src/` is the verified library. `contract.rs` and `account.rs` hold the entry points as functions
  on plain values, `state.rs` the ledger, `borrowers.rs` the books of the borrowers, `pool.rs`,
  `interest.rs`, `payment.rs`, `token.rs` and `callback.rs` what is called of other crates, and
  `laws.rs` what holds over all requests.
- `tests/` runs the library, single functions and whole scenarios.
- `app/` ties the library to the chain: storage, address validation, JSON.
