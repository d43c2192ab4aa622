# function_selector_miner

Searches for Solidity function names whose 4-byte selector (the first four
bytes of the Keccak-256 digest of the signature) equals a given target. A
decimal nonce is inserted between the function name and its parameter list,
and nonces are tried until one matches.

The library is written in Verus and proved against its specifications:

- `keccak_spec`: Keccak-f[1600] as the standard step mappings (theta, rho,
  pi, chi, iota) over 25 lanes of 64 bits.
- `lanes`, `keccak`: the rounds, generic over words of one lane (`u64`) or
  four lanes (`SpongeComputeSlice`), proved lane by lane against the
  specification.
- `bytes`: the little-endian byte view of the state.
- `decimal`, `small_string`, `sponge`: the message layout and padding in the
  rate block, and the single-state sponge.
- `sponges_avx`: four states permuted side by side.
- `selector`: byte order, selector text and parsing of a selector argument.
- `miner`: the decision for one nonce, or four nonces at once.

`app/` holds the command-line program, which spreads the nonces over threads.
