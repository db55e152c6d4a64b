# Manto

Manto is a terminal-driven desktop environment: floating windows on four desktops, a
dock shell, terminal windows with a terminal emulator, window snapping, splitting and
resizing, keyboard and mouse, a saved layout and configurable shortcuts.

`src/` is the library: everything that the desktop decides, computes, parses and
draws, verified with Verus. It does no input or output. What has to be done outside
(writing to a session, saving the layout, ...) is put into the outbox of the desktop
as an `Effect`; where input needs something from outside to go on (the entries of the
menu, a started shell, the clipboard, ...) it is answered with an `Ask`, and a method
of its own takes the answer.

`app/` is the program around it on a Unix host: raw mode, reading bytes, files,
processes and pseudo terminals.

| Module | What it holds |
| --- | --- |
| `app::desktop` | the state of the desktop, what keys and the mouse do to it, its frames and its layout |
| `app::terminal` | the state of a terminal window, key and mouse bytes for programs |
| `wm` | windows: order, focus, tabs, snapping, splitting, resizing |
| `ui` | drawing: windows, panels, the frame, and the changes written out from one frame to the next |
| `terminal_emulator` | the VT emulator that interactive programs run in |
| `os` | keys out of terminal bytes and console records |
| `cmd`, `shell`, `input`, `history`, `launch` | commands and their output, the edited line, completion, what is started |
| `config`, `menu`, `session`, `json`, `number`, `round_trip` | the files, their grammar, and that a saved session is read back |

The public proof functions state what holds across functions, such as:

- what is written out for a frame, shown on a screen that shows the frame before, gives
  the new frame (`ui::damage`);
- clearing blanks every cell, and the status bar, a tab and a scrollbar take exactly
  their cells (`ui::stamped`);
- the sequences for positions, styles, the cursor and the alternate screen do in the
  emulator what they are written for (`ui::emulated`);
- a terminal keeps its cursor on the grid whatever it is fed, and its lines when it is
  resized, whichever screen is shown (`terminal_emulator`);
- a saved session is read back as it was (`round_trip`), and the desktop that begins
  with it has the same layout (`app::desktop::laws`);
- output may arrive in pieces cut anywhere (`terminal_emulator`, `ui::transitions`,
  `cmd`);
- a recalled line gives way to the line being typed (`app::desktop::edit`).
