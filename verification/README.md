# agency

The verified core of an LLM chat agent that talks to OpenAI-compatible
`/chat/completions` endpoints.

- `src/` — the library, verified with Verus:
  - `message` — roles, content blocks, messages, conversations;
  - `stream` — streamed events and stop reasons;
  - `config` — provider sections by name (`ProviderTable`) and defaults;
  - `providers/openai_compat` — how messages go on the wire, how streamed chunks
    become events, and the provider's endpoint;
  - `providers/sse` — line framing of the server-sent-event byte stream;
  - `repl` — input lines, slash commands, and how each turn changes a session;
  - `attachment` — base64 encoding and type inference for attached files;
  - `text` — character-level helpers (trimming, lowercase, search).
- `app/` — the program around it: HTTP, terminal line editing, files, the
  configuration file, serde copies of the library's types.
- `tests/` — tests of the library on concrete values.
