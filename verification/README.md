# localbill

A command-line tool for Serbian fiscal invoices: it parses an invoice URL,
saves every line item as a Markdown file with YAML front-matter in a
git-backed directory, and offers an offline queue, schema validation,
monthly reports, search and git sync.

## Layout

- `src/` — the library, verified with Verus. Every decision the tool makes
  lives here, with its contract:
  - `text`, `paths`, `order`, `sanitize` — text, path and ordering helpers,
    Cyrillic-to-Latin transliteration.
  - `invoice` — the invoice page parser (a machine driven by the caller's
    HTTP requests) and the Markdown files written per item.
  - `commands` — one module per subcommand. Work that waits on the outside
    world (network, git, files, the terminal) is a machine: `AddRun`,
    `RunOne`, `RunBatch`, `SyncMachine`, `QueueProcess`; the caller performs
    each request and answers with an event.
  - `schema_form` — the interactive form that walks a JSON Schema, with its
    scalar and datetime prompts.
  - `config`, `cli`, `ports`, `adapters`, `error` — configuration merging,
    the command line as plain values, and what the adapters compute.
- `app/` — the executable: command-line parsing, files, git, HTTP, the
  terminal, floating-point sums, and the loops that drive the machines.
- `tests/` — tests of the library.
