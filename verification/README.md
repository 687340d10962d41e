# wiimote_receiver

Verified core of a desktop receiver for Wii remotes.

- `src/` — the library, verified with Verus:
  - `buttons`: the core buttons held in a report and the labels they are reported under;
  - `key_binding`: reading a configured key name (trimmed, ASCII case ignored) into a key;
  - `bindings`: the button-to-key-name table and its default;
  - `keyboard_sync`: the key presses and releases that follow a change of held buttons;
  - `reader`: the reporting mode to request and what to do with each report read.
- `app/` — the desktop application around it: configuration files, the Wiimote
  connection, the floating-point orientation and mouse-look filters, keyboard and
  mouse injection, and the Tauri window.
- `tests/` — tests of the library on concrete values.
