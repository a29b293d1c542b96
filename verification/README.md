# vorto

The editor-independent core of the vorto modal text editor, written in
Verus: every function in `src/` carries a contract that Verus proves.

- `src/` — the verified library: the key tokenizer and command parser,
  motion and edit helpers, the pane layout tree, jump history, toasts,
  bookmarks, sleeping (compressed) buffers, the language-server
  bookkeeping (clients, open documents, diagnostics, fanned-out
  requests) and the `:lsp` listing, completion acceptance, the
  decisions of `:q`, `:w` and `:reloadall`, plans for what each motion,
  operator, Visual-mode operator and direct command does, key routing
  in every mode, `]d` / `]c` navigation, agent prompts and
  terminal-multiplexer argument lists, Copilot decision logic, and the
  key encoder for the agent terminal.
  Laws that span several operations are public `law_*` proof functions.
- `tests/` — tests run against the compiled library.
- `app/` — the unverified shell around it: key-event conversion from
  crossterm, bookmark persistence (JSON on disk), multiplexer process
  calls (their output is parsed in `src/`), and error classification.
