# rwm

A tiny scrolling window manager for river, with its core written in Verus
and proved against its contracts.

## Layout

- `src/` — the verified library: the window manager's state and its
  structural invariant (`wm`), workspaces and window moves, outputs and
  their removal and return (`output`, `layout`), the overview grid
  (`overview`), key and pointer bindings and the action state machine
  (`keybinding`, `seat`), the manage sequence (`manage`) and configuration
  selection (`config`). Effects on the compositor are returned as
  `Request` values; floating-point geometry is supplied by the caller as
  functions.
- `tests/` — scenario and unit tests of the library.
- `app/` — the program around the library: process setup, configuration
  files (TOML), key names (xkbcommon), spawning programs, single-precision
  geometry and the compositor connection.

Public proof functions in `src/` state the library's laws, among them that
canceling the overview restores every window and the focus, that confirming
it focuses the chosen window, that a focus pass leaves nothing to resend,
and that workspaces and windows come back with their output.
