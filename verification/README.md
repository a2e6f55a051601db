# gridterm

A terminal grid: several shells side by side in one terminal (or window),
laid out by a preset (`2`, `2x2`, `3x4`, `4x4`).

- `src/` is the library, verified with Verus: layout presets and how they
  divide an area, each pane's screen and the escape sequences that change it,
  what keys and the mouse do, and the arithmetic of drawing panes in pixels.
- `app/` is the program around it: pseudo-terminals, reader threads, the
  terminal view (ratatui and crossterm), the window view (winit, softbuffer,
  fontdue, arboard) and the JSON configuration.
- `tests/` exercises the library.

Run `gridterm run 2x2`, or `gridterm run --config config.json` with

```json
{ "layout": "4x4", "shell": "bash", "panes": ["htop", {"title": "Logs", "command": "tail -f app.log"}] }
```

Panes past the configured ones open the shell.
