# br1ef

Your morning digest of email, in the terminal: `br1ef fetch` reads the last
week of mail over IMAP, `br1ef digest` collapses threads, drops the noise and
asks a local Ollama model for a brief, and `br1ef daily` shows it.

## Layout

- `src/` — the library, verified with Verus. Each public function states what
  it returns in its contract; the laws of the library are public proof
  functions next to the code they speak of.
  - `text.rs` — characters, whitespace, trimming, searching, decimal numbers.
  - `email.rs` — HTML to text, MIME parts (parsed by mailparse) and headers.
  - `dedup.rs`, `noise.rs` — thread subjects, collapsing threads, noise.
  - `storage.rs` — the `Storage` interface, an in-memory store, tallies.
  - `fetcher.rs`, `fetch.rs` — the `Fetcher` interface, IMAP search plans,
    messages to items, and the fetch across mailboxes.
  - `agent.rs`, `digest.rs` — prompts for the model and the digest.
  - `config.rs`, `cli.rs`, `commands.rs`, `service.rs` — settings, the
    answers to prompts, and the text each command prints.
  - `configure.rs` — the `config` dialogue as a state machine that the
    program runs.
  - `clock.rs` — the clock and chrono's date formats (including RFC 3339,
    in which stored digests keep their time).
- `app/` — the program: command line, SQLite store, IMAP and HTTP clients,
  the spinner, and the loop that runs the `config` dialogue.
- `tests/` — tests of the library.
