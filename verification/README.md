# will

The rules of an inheritance contract, written and proved in Verus. An owner
names beneficiaries and checks in from time to time. Once the check-ins stop,
anybody may trigger the will, and after a delay have its funds released.

- `src/contract.rs`: the entry points of the contract, as steps on its instance
  storage. `src/contract_laws.rs` states what holds of them together.
- `src/storage.rs`, `src/types.rs`: the ledger layout for many wills, with
  indexes by owner and beneficiary, guardian votes and paged lookups.
  `src/storage_laws.rs` states what holds of them together.
- `src/wills.rs`: steps on the wills of that layout.
- `src/events.rs`: the events, with their topics and data.
- `src/ids.rs`: lists of will ids in the host's vectors. What is taken on trust
  about the host is stated here and nowhere else.
- `src/address.rs`, `src/errors.rs`: addresses and errors as plain values.
- `app/`: the contract as the host runs it. It reads and writes the ledger,
  asks for signatures, calls the token contract and publishes events.
- `tests/`: concrete cases.
