# nowayprompt

A small Wayland prompt tool with a terminal fallback: it asks for a
password or a confirmation, speaks the Assuan pinentry protocol for GPG,
and serves as an `ssh-askpass` provider.

## Layout

- `src/` is the verified library. Every function there carries a Verus
  contract:
  - `protocol/assuan.rs`: percent-decoding and the pinentry state machine
    (what each line does to the protocol state and the configuration,
    what each user answer writes back), with its laws.
  - `config.rs`: the INI configuration dialect, colour parsing and the
    lookup order of configuration files.
  - `command.rs`: command-line parsing and validation, output formats
    (plain and JSON), exit statuses, and the decisions of the poll loops.
  - `frontend/tty.rs`: terminal input decoding, key effects and the
    screen layout of the terminal prompt.
  - `frontend/wayland/`: scale arithmetic, buffer-slot selection and
    culling, hotspots, key and touch decisions, and display resolution.
  - `secret.rs`: the arithmetic of the protected secret buffer (append
    plans, UTF-8 aware deletion, retry policy).
- `app/` is the executable: terminal and Wayland I/O, the protected
  memory of the secret buffer, signals, and the poll loops that carry out
  the library's decisions.
- `tests/` exercises the library on concrete values.
