# APortal

APortal captures regions of the screen and shows them, moved, scaled, turned and
blended, in transparent windows that lie over the screen. Regions and decorations
are kept in config files, a menu in the taskbar switches them, and a full screen
editor arranges them.

- `src/` is the library, verified with Verus: configs and their files, rendering,
  the rules of the session and the menu, and the editor. Its contracts speak of
  mathematical models of these: sequences of pixels, of elements, of lines.
- `app/` is the program: screen capture, windows, drawing, files, and everything in
  floating point. It runs on Windows.
- `tests/` runs the library on concrete values.

Opacities are floating point numbers in the files. The library carries them as
their bit patterns, compares and clamps them, and leaves the arithmetic to `app/`.
The same holds of pixels that lie between pixels: `app/` computes the samples of
scaled and tilted pictures, and the library places and blends them.
