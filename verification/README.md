# ffgl_sources

The verified core of two FFGL source plugins for VJ hosts such as Resolume:
a text source (system fonts, stroke and shadow layers, beat-reactive line
cycling) and a dot grid.

- `src/` — the library, verified with Verus: splitting text into lines,
  the text source's frame-to-frame state (text parameter, current line,
  redraw cache), the dot grid's state and layout, alignment, the order of the
  text's paint layers, the empty-text bitmap, and the font menu order.
- `tests/` — tests of the library.
- `app/` — the host adapter: OpenGL, CoreGraphics/CoreText drawing,
  floating-point parameters and the FFGL entry point (macOS only).
