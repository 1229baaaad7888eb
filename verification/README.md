# mdream

A streaming HTML-to-Markdown converter whose logic is verified with Verus.

- `src/` is the library. Every function in it is checked by Verus against its
  `requires`/`ensures` contract: the tokenizer and its carry scanner, the
  attribute and entity decoders, option validation, the bounded-buffer
  accounting, the renderer's output buffer (with the invariant that what a
  stream hands out is exactly the settled prefix of what was written) and the
  streaming processors.
- `tests/` exercises the library from outside: one-shot and streamed
  conversion, the agreement of the two at every chunk width, the bounded
  stream's limits and its sticky errors, and option validation.
- `app/` holds the JavaScript bindings (`wasm-bindgen`), which only translate
  option objects and results.
