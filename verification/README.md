# codex_lcm

A verified library for lossless context management (LCM) of a coding
agent's conversation history, written in Verus.

- `src/` is the verified library:
  - `text` — character-level string operations and their specifications;
  - `items` — the conversation items (messages, tool calls and outputs);
  - `markdown` — rewriting pipe tables into lists outside code fences;
  - `integrity` — finding and repairing broken call/output pairs;
  - `open_brain` — the store's data model, graph lookups and sync records;
  - `lcm` — splitting a history, rendering it, and building what replaces it;
  - `durable` — normalising, keying and selecting durable memories;
  - `external_context` — the decisions around an external context provider.
- `app/` holds the I/O: the HTTP client of the store, serde forms of the
  types, the floating-point configuration and the extraction round trip.
- `tests/` exercises the library on concrete values.

Secret redaction of promoted memories is not performed: the redactor lives
in a crate that is not available here. `durable::durable_record` builds a
record from a title and content the caller has already redacted, and
`durable::promoteable_record` promotes them unredacted.
