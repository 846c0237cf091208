# greentic-i18n

Localization tooling for Greentic: locale-tag canonicalization, profile
resolution with stable profile identifiers, a bounded profile cache, and the
workflow rules of the translation command line (validation of translated
strings, staleness bookkeeping, translation runs through a provider).

The library in `src/` is written in Verus. Its functions carry contracts
that Verus proves, except the small trusted wrappers around `std`, `blake3`,
`data-encoding` and `serde_json`, whose contracts are believed as documented
beside each of them.

- `tag`, `tag_facts` — canonical locale tags, their subtags and parents.
- `profile`, `resolver`, `cbor`, `id` — resolved profiles, their canonical
  CBOR encoding and `i18n:v1:` identifiers.
- `cache` — the bounded profile cache (oldest insert evicted first).
- `json_map`, `json_text` — ordered string maps and their JSON text
  (compact and pretty).
- `validate` — placeholder, newline and backtick-span rules.
- `state`, `store`, `workflow`, `session` — translator state, cache keys,
  status and batch checks, and a translation run as a state machine.
- `codex` — the Codex CLI provider's prompt, reply reading and login order.
- `cards` — Adaptive Card key rules, bundles, the bundle locale list and the
  translator's command line.
- `help`, `commands` — the command line's help pages and parsed commands.
- `laws` — properties of the library as a whole.

`app/` holds the command-line program and the file, process and environment
work; `tests/` exercises the library.
