# minesweeper

A minesweeper game whose rules are proved with Verus.

- `src/` is the verified library: the board state (`data`, `pos_set`), placing
  the mines (`placement`), uncovering cells and the flood fill (`uncover`),
  the board as the window sees it and its sprite atlases (`board`), single
  tiles (`tile`), the text form of a saved game (`save`, with its round trip
  in `save_law`) and of the time already played (`duration`), the game clock
  (`session`), frame-time rings (`egui_fps`, `time_sampler`), times written
  for people (`nice_time`), and the laws that hold across operations (`laws`).
- `app/` is the eframe window around it. It reads the sprite atlases
  `WinmineXP.png`, `RTXOn.png` and `NightMode.png` from the working directory.
- `tests/` runs the library on concrete games.
