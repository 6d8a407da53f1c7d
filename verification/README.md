# iced_color_map

A color map editor for byte values: a 16x16 grid with one cell per byte,
a range selection made by dragging across the grid, an RGB picker whose
color paints the selection, presets, and Accept / Cancel.

- `src/` is the library, verified with Verus:
  - `color`: byte colors, the 256-entry `ColorMap`, hexadecimal labels;
  - `picker`: the three-channel picker state;
  - `grid`: hit testing of grid cells and the press / drag / release state machine;
  - `edges`: the outline of a selection (exclusive-or of cell sides) and the
    tracing of its closed loops;
  - `editor`: the editor state machine (draft, baseline, selection, picker, preset).
- `app/` is the desktop program built with iced: widgets, canvas drawing,
  floating-point color conversions and the preset tables.
- `tests/` runs the library on concrete values.
