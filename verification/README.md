# kitties

The logic of a blockchain runtime module in which accounts own kitties:
kitties are created with random DNA, bred into children whose DNA mixes the
parents', given away, offered for sale and bought, and buried when their
lifespan ends. Every account's kitties are kept in a doubly linked list stored
as cells in a key-value store.

The library is written in Verus. Every function in `src/` is verified against
its contract, except the two calls into the outside crates in
`src/hashing.rs` (the SCALE encoding and the Blake2-128 digest), whose
contracts are trusted.

- `src/kitties.rs`: the module's storage (`Module`, viewed as `KittiesView`),
  its invariant, and its calls.
- `src/linked_item.rs`: the per-account linked lists.
- `src/dna.rs`: how a child's DNA is mixed from its parents'.
- `src/hashing.rs`: the random value a kitty is drawn from (Blake2-128 of a
  SCALE-encoded payload, through `sp-io` and `parity-scale-codec`).
- `src/laws.rs`: properties that relate several calls.
- `app/lib.rs`: the SCALE storage encodings of the records.
- `tests/`: scenario tests.
