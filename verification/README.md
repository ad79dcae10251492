# kitty_desktop

A desktop layer around the kitty terminal: it plans kitty launches, keeps a
small desktop configuration and a list of named launch sessions in
JSON-style text files, checks the installation, and offers an interactive
shell and a command line.

## Layout

- `src/` — the verified library (Verus).
  - `text.rs`: character-level search, trimming, splitting, joining and
    quoting, with the lemmas that read a key back out of a quoted text.
  - `config_service.rs`: the desktop configuration, its stored text, and the
    proof that reading back what was saved gives the same configuration.
  - `session_service.rs`: saved sessions, their stored text, insertion by
    name, lookup, and the proofs that a saved list reads back unchanged and
    that a saved session is found under its name.
  - `lib.rs`: launch configurations, the executable search, the launch
    command line, the version reply, and errors.
  - `diagnostics.rs`: the health checks and their report.
  - `desktop_shell.rs`: launching from the defaults or a session, changing
    settings, and the interactive command loop as a function of its input.
  - `cli.rs`: what a command line asks for.
- `app/` — the program around it: reading arguments, searching `PATH`,
  running kitty, reading and writing the store files, and the terminal loop.
  The library receives what these observed as plain values.
- `tests/` — tests of the library.

## What reads back

The stores are JSON-style text read with a small scanner, not a JSON
parser, so the read-back proofs hold for the strings that scanner keeps
apart:

- a saved configuration reads back unchanged when none of its strings holds
  a `"`;
- a saved list of sessions reads back unchanged, and a saved session is found
  under its name, when no name, directory, shell, title or argument holds a
  `"` or a `}`, and no argument holds a `,` or a `]`;
- an argument list reads back unchanged, empty and blank arguments included,
  when no argument holds a `"`, a `,` or a `]`.

Other strings are still saved; reading them back may give something else.
