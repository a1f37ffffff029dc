# casterm

The core of a terminal emulator, multiplexer and connection manager, written
in Verus. The functions under `src/` carry contracts that Verus proves, except
for a handful of small trusted wrappers around `std`, `dirs` and `dark-light`
calls (marked `#[verifier::external_body]`), whose contracts state what those
calls document. Where the answer depends on the machine (which serial ports
exist, which files are on disk), `app/` makes the call and hands the library
the result.

- `src/` — the verified library: the terminal grid and escape-sequence
  actions (`terminal`, `vte_processor`, `render_model`), key encoding and
  key bindings (`keys`, `keybindings`, `controller`), the pane layout tree
  and windows (`multiplexer`, `screen`, `session`), the file browser and
  editor (`file_browser`, `editor`, `panels`), configuration, themes and
  platform rules (`config`, `theme`, `theme_catalog`, `platform`, `assets`),
  saved sessions and history (`state`), serial connections, SSH settings
  and the SSH session's start-up steps (`serial`, `ssh`, `known_hosts`), and the status bar (`status`).
- `app/` — the program around it: command-line arguments, configuration
  files, the terminal screen, shells on pseudo-terminals, serial devices, SSH
  sessions over `russh` and files on disk. It hands the library plain values and acts on what comes
  back.
- `tests/` — tests of the library's public functions.
