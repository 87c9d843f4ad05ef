# llama_mtp

Multi-token-prediction (MTP) drafting on top of llama.cpp.

A draft context proposes a few tokens, the target context verifies them in one
pass, and the longest prefix that the target would have chosen itself is kept,
together with the target's own next token. The library proves that the tokens
generated this way are those that the target generates on its own, whatever is
drafted.

- `src/` is the library. It holds every decision but those that floating point
  makes, and is verified with Verus:
  the embedding-carrying batch, what a context keeps between decodes, session
  files and sequence snapshots, and the draft, verify, accept loop. It calls no
  backend: a function that depends on a backend reply takes the reply as an
  argument.
- `tests/` runs the library on concrete values.
- `app/` makes the llama.cpp calls that the library asks for, hands the replies
  back, and holds what floating point decides: the greedy choice, and whether a
  draft's best candidate is probable enough.
