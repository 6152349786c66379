# Backward references for a Brotli encoder, verified

This crate finds the backward references of a Brotli encoder: it hashes the
positions of a ring buffer, looks for the longest earlier occurrence of the
bytes at each position (or a word of the static dictionary), and turns a
block of input into insert-and-copy commands. Every function carries a
contract that Verus proves.

## Layout

- `util`, `static_dict`: small helpers (floor of log2, little-endian loads,
  the length of a common prefix) and the dictionary type.
- `params`: the parameters, the search result, and the scores of a match.
- `command`: commands and the short codes of distances.
- `model`: the mathematical model that the contracts speak of: a hasher's
  configuration and tables, what storing a position does to them, and what
  counts as a genuine match.
- `hasher`: the `AnyHasher` trait and the functions generic over it.
- `search`: which candidates a search for a match tries, which it takes,
  and when it succeeds.
- `parse`: the parse of a block, step by step, as a function of the state.
- `basic_hasher`, `adv_hasher`, `union_hasher`: the hashers.
- `dictionary`: matches against the static dictionary.
- `backward`: the parse of a block into commands.
- `forgetful_chain`: the layout of hashers that the parse does not use.

## What is proved

- Storing a position, a range of positions, or the positions before a new
  block changes the tables exactly as the model says, and keeps them well
  formed.
- A search leaves exactly the result, dictionary counters and tables that
  the model gives; it succeeds exactly when some candidate qualifies. A
  reported match is genuine: the bytes at its distance agree with those at
  the searched position over its whole length (and no further, up to the
  limit), or it is a prefix of a dictionary word, coded as the format codes
  such references.
- The parse of a block leaves exactly the commands, distance cache, hasher
  state and counts that the step-by-step model gives. Its commands cover the
  pending literals and the block's bytes exactly, each copies at least one
  byte, each copies a genuine match, and its distance code decodes back to
  the match's distance against the last distances as a decoder keeps them.
- A basic hasher's bucket depends on the first five bytes only (seven for
  H54). The union of hashers dispatches: the hasher it holds keeps its kind
  and ends as its own call leaves it.
- No function panics or overflows on the inputs that its contract admits.
  A search, and the parse of a block, ask of the ring buffer and of the
  dictionary only the bytes and items they read; a block too short to
  search asks nothing, and a ring buffer with room for the mask, the block
  and eight bytes more serves every read.

The tests under `tests/` run the hashers and the parse on concrete data.
