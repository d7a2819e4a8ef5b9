# kbc-core

The core of a Discord bot for a mobile game's event data: command parsing,
schedule and stage data parsing, formatting, notification bookkeeping, reaction
sessions and store version checks, written in Verus with their contracts.

- `src/` is the verified library. Each module states its behaviour over spec
  functions and views; calls into outside crates (chrono, serde_json, url,
  sha2, md-5, hmac, aes/ecb, getrandom, base64, unicode-normalization) stand behind
  small trusted wrappers whose contracts say what those crates document.
- `tests/` runs the library against concrete inputs.
- `app/` holds what the library leaves to its caller: JSON documents read
  with serde into the library's types, downloading the stage documents
  through a text source, running reaction sessions and cached resources on a
  clock, the requests to the settings repository, and the floating-point
  rate text.
