# herdr-floax

A floating scratch shell for a herdr workspace: one pane draws a centered,
sized box that hosts a live shell PTY, over a backdrop that is either a quiet
fill or the captured workspace with its text dimmed.

The decisions are a Verus-verified library (`src/`):

- `config`: defaults, `KEY=VALUE` configuration text, environment overrides
  and the automatic title, each stated over a mathematical model of the
  configuration, with the laws that tie the layers together (later values win,
  rejected values change nothing, environment overrides the file, percentages
  stay within 20..=100).
- `geometry`: the centered box and its interior, with laws that the box lies
  inside the area, is centered, fills it at 100% and keeps a non-empty interior.
- `snapshot`: the line format of a captured workspace, parsed byte by byte
  against its specification; each pane's screen is stated as what a vt100
  terminal of the pane's size shows after the pane's lines, joined by `\r\n`.
  A pane is emulated only where vt100 is known not to fail: on one row high,
  nothing may wrap; on one column wide, no double-width character may be
  printed; on a terminal 65528 columns wide or more, no tab may occur.
- `color` and `render`: the xterm palette, dimming, the box chrome, the cursor,
  and exact plans of which frame cells the embedded screen and the backdrop
  paint.
- `events`: what the main loop does after a batch of events.
- `text`: the string scanning the parsers share.

`app/` is the program around it: environment and files, the PTY, the terminal,
signals, and writing the library's paint plans into ratatui's frame buffer.
