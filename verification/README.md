# ixo-swap

An automated market maker for CosmWasm that pools a set of 1155-style tokens against a
second token (a cw20 token or a native coin), with its rules proved in Verus.

## Layout

- `src/` is the verified library. Its functions take the pool's state and the chain's
  answers as plain values and return the new state, the messages to send and the event
  to report; their contracts state these exactly.
  - `contract.rs`: validation, ownership, fees, the message dispatcher, instantiation,
    the reply to the liquidity token's instantiation, and the queries.
  - `liquidity.rs`, `swap.rs`: adding and removing liquidity, swaps and pass-through
    swaps, with the laws they keep: the supplies per id match the 1155 reserve (except
    after a pass-through swap that takes the second token in, which lowers the 1155
    reserve without touching the supplies), the reserves move by exactly the swap's values, and a
    refused message changes nothing.
  - `pricing.rs`, `supplies.rs`, `token_amount.rs`, `utils.rs`: the price formula, the
    supplies per id and how amounts are drawn from them, amounts and their percentages.
  - `msg.rs`, `state.rs`, `response.rs`, `error.rs`, `decimal.rs`, `ids.rs`: the types.
  - `wide.rs`, `seed.rs`: 512-bit arithmetic over `cosmwasm_std::Uint512`, and the seed
    digest over `sha2` and `base64ct`.
- `app/` is the contract's shell: entry points, storage, chain queries and the wire
  types with their serde derives.
- `tests/` holds the tests, among them whole pool flows on an in-memory chain.
