# mmterm

The logic of a terminal emulator, written in Verus and verified.

`src/` is the library:

- `color`, `config`, `config_text`: colours and the `[colors]`/`[window]`/
  `[shell]` configuration sections, with the `"#rrggbb"` parser and the
  text of the configuration file.
- `grid`: the character grid (screen, scrollback, cursor, alternate
  screen, resizing, selection), specified over `GridModel`.
- `pane`: scrolling a pane through its scrollback.
- `drain`: collecting a batch of pty output, the effects a parsed batch
  produces, what draining every pane's effects does (per-tab bells rung
  once), the plan for the work deferred until every pane was drained
  (clipboard and disconnects), the visual bell, the OSC 52 clipboard
  reply.
- `render_ops`, `blit`, `theme`, `statusbar`, `glyph`, `session`: overlay
  order, glyph blending, themes, the status bar text and plain value types.

`app/` holds the program around it: configuration and session files,
the shell's pty, font rasterisation and the parser and drain loops.
