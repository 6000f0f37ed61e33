# hat

A terminal peer-to-peer chat client, with its logic written and proved in Verus.

- `src/` is the verified library: keystroke and key-context parsing, key
  bindings and the keymap file, the message input box, the chat pane's lines,
  the address book of personas, the client's reactions to the network, panes
  and windows, the effect queue of updates, event subscriptions and action
  listeners, and file-name-safe persona names. Every public function there
  carries a contract that Verus proves; the few calls into std and `base64`
  that Verus cannot see are wrapped in small trusted functions whose contracts
  are documented beside them.
- `app/` is the program around it: command line (clap), logging (tracing),
  terminal drawing (ratatui, crossterm), the gossipsub network (libp2p) and the
  TOML files (serde, toml).
- `tests/` runs the library on concrete values.
