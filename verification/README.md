# sc_swap_esdt

A verified model of an NFT swap contract for the Elrond chain. The contract takes
payments in one token (the input token) and, for each unit paid, hands the caller one
unit of another token (the output token) at a nonce drawn at random from a list that the
owner filled for the paid nonce. The owner fills the lists, and can take back the listed
output nonces or all the contract holds of a token.

Layout:

- `src/lib.rs`: the `SwapEsdt` trait (the endpoints, each with its contract) and
  `ContractObj`, the contract's storage, which implements it.
- `src/model.rs`: what each endpoint does, stated over plain values.
- `src/laws.rs`: properties that hold for every input (conservation of the listed
  nonces and of the holdings in a swap, owner-only calls, claims, multi-swaps).
- `src/balances.rs`, `src/pools.rs`: the contract account's holdings and the lists of
  output nonces, with their views.
- `src/types.rs`, `src/bytes.rs`: errors, payments, transfers, byte strings.
- `app/lib.rs`: the contract on the chain: it reads storage, holdings, caller and random
  draws from the chain, calls the library, and performs the storage writes and transfers
  that the library returns.
