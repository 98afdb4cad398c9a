# kakvide

A graphical front end for the Kakoune editor. It starts the editor with its JSON
user interface, shows each client in a window of its own, and sends keys, mouse
and window sizes back.

The logic is a Verus library under `src/`. Every function there is verified
against its contract, but for a few small ones that call an outside crate or the
standard library: those are marked `Trusted:`, with what is believed of the call.

- `messages`, `app`: what the editor says, and the state that follows from it.
- `text`, `layout`, `draw`, `render`, `popup`, `menu`, `info`, `canvas`: from that
  state to a list of drawing steps in pixels.
- `face_resolution`: faces as colours.
- `input`, `user_keys`: keys and mouse as requests and commands.
- `config`, `config_value`: settings, and a user's settings laid over them.
- `startup`, `launch`, `paths`, `kakoune_process`: the command line, the editor's
  process and its sessions.
- `runtime`: windows and sessions, event by event.
- `menu_bar`: the menus of macOS.
- `strings`, `title`: texts and window titles.

Most modules also state the laws that hold of them as a whole (`law_...`).

`app/` is the program around the library: the event loop, processes and sockets,
JSON and TOML, fonts and pixels. `tests/` runs the library on given values.
