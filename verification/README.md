# herdr_docs

A document reader for Herdr: a terminal pane that shows Markdown, text,
code, HTML, PDF and office documents in one normalized view, plus a
first-run hook that binds a key to it in Herdr's `config.toml`.

`src/` is the library, verified with Verus:

- `text` — characters and UTF-8 boundaries, trimming, ASCII case, substring
  search, `str::lines`, decimal numbers.
- `paths` — typed-path resolution (`~`, relative, absolute) and how paths
  are shown; the component-level path operations are `std::path`'s.
- `config` — reading `name = "value"` assignments from the configuration,
  deciding whether setup may add the key binding, and adding it.
- `command` — the command line.
- `context` — the candidate starting directories from the plugin context.
- `listing` — which directory items the browser shows, and in what order.
- `layout` — where the panes go on the screen, and how many rows a
  document takes when wrapped.
- `document` — which files the browser offers, how each is loaded and
  what format it is named by, HTML to text, heading lines, and the context
  envelope handed to an agent.
- `reader` — the reader's state and its response to every key press, mouse
  action and finished file operation.

`app/` is the program around it: terminal setup, drawing with ratatui,
events from crossterm, file and clipboard access, the external document
converters, and writing the configuration file.
