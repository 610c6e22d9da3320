# solana_amm

A constant-product automated market maker for a pair of tokens, with a swap
fee paid to a treasury, written in Verus.

- `src/` is the verified library. Each instruction of the pool
  (`initialize_pool`, `open_position`, `add_liquidity`, `swap`,
  `remove_liquidity`, `update_fee`) is a function from the state it reads to
  the new state and the token amounts to move, or to the reason it refuses.
  Its contract gives the outcome for every input; the arithmetic in
  `src/math.rs` (multiply-then-divide with both roundings, Newton's integer
  square root, the swap formula) is proved exact and free of overflow.
  `src/laws.rs` holds the properties that span instructions.
- `app/` is the Anchor program around it: account validation, the token
  transfers the library asks for, events and errors as the runtime expects
  them.
- `tests/` replays the program's scenarios against the library.
