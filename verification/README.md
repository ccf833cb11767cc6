# nat20_gui

The rules behind the nat20 developer GUI, verified with Verus: what each
window decides when it is clicked, how its text is written, and how the
windows are laid out.

- `src/` is the verified library. Each module states its behaviour in
  `requires`/`ensures` contracts over mathematical models (`Seq`, `Map`,
  spec functions) and proves it:
  - `log_text`, `text`, `event_log`: the sentences of the combat log, the
    text of numbers, modifiers and life states, and which events a log level
    shows.
  - `level_up`, `creation`, `combat`, `reactions`, `spawn`, `debug`, `menu`:
    the decision state machines of the windows.
  - `settings`, `anchor`: the settings store and its folder tree, and the
    placement bookkeeping of anchored windows.
  - `geometry`, `inventory`, `spellbook`, `effects`, `tables`, `sheet`,
    `time`: integer bookkeeping of the 3D debug drawing, and the layouts and
    labels of the remaining windows.
- `tests/` runs the library on concrete values.
- `app/` sets up logging with the library's timestamps and builds a few
  headless Dear ImGui frames of the settings window and the event log,
  placed by the library's window manager, with the floating point work
  (colours, sizes, positions) that the library leaves out. The other
  windows need the game engine's state, which `app/` does not hold.
