# etwviewer

A keyboard-driven terminal viewer for Windows ETW trace files (`.etl`),
with search, filtering, a detail view, visual selection and copying.

The viewer's logic is a library verified with Verus; the program around it
reads the trace, draws the screen and talks to the clipboard.

## Layout

- `src/` — the verified library
  - `store.rs` — the append-only event store and its timestamp index
  - `app.rs` — the viewer state: visible rows, scrolling, search, filter
  - `keys.rs` — what each key does in each input mode
  - `filter.rs` — the `provider:X level:X pid:X msg:X` filter language
  - `pattern.rs` — regular expressions (the `regex` crate) behind a contract
  - `template.rs` — filling `%1`, `%2!x!` ... placeholders of message templates
  - `etw.rs` — walking event properties, UTF-16 strings, event messages
  - `segments.rs` — colouring fields, highlighting matches, scrolling, wrapping
  - `view.rs` — table window, position indicator, status and input bars, detail text
  - `timefmt.rs` — FILETIME timestamps (the `chrono` crate) and copied lines
  - `text.rs` — characters, UTF-8 lengths, white space, numbers
  - `laws.rs` — properties that relate several operations of the viewer
- `app/` — the program: command line, terminal loop, drawing, trace reading
  through the Windows trace APIs, clipboard
- `tests/` — tests of the library

## Usage

```
etwviewer [--local] <FILE>
```

`--local` shows timestamps in local time instead of UTC. Press `?` in the
viewer for the key bindings.
