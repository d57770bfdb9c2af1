# hank

A chat bot for Discord whose behaviour comes from WebAssembly plugins.

- `src/` is the verified library: the messages and events that the host and
  its plugins exchange (`transport`), the host's decisions (`host`, `cli`,
  `conf`), the bundled plugins' logic (`plugin_ping`, `plugin_wordle`,
  `events_ping`, `events_pong`), and the reader of shared Wordle results
  (`wordle`, with its laws in `wordle_laws`), built on helpers for text
  (`text`, `lines`, `numbers`, `debug_text`).
- `app/` is the host program: command line, configuration files, the Discord
  gateway and HTTP client, and the extism runtime that runs the plugins.
- `tests/` exercises the library.
