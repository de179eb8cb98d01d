# ratex-canvas

LaTeX math → canvas 2D drawing commands. Formulas are parsed and laid out by
the RaTeX engine (`ratex-parser`, `ratex-layout`, KaTeX-compatible), and every
glyph is baked into a vector path from the KaTeX font outlines, so the host's
text shaping never touches the math layout.

Layout of the crate:

- `src/` — the library, verified with Verus. It is generic over the scalar
  type of coordinates and proves the structure of what is emitted:
  - `encoding`: the segment-prefix path encoding (`0` move, `1` line,
    `2` cubic, `3` quad, `5` close), splitting paths into sub-paths; laws:
    every encoding is well formed and decodes back to its commands, and
    sub-paths start with their move and cover the path.
  - `outline`: glyph outlines as filled paths, contours closed and reopened;
    fallback to the Main-Regular glyph.
  - `draw`, `bake`: commands, layers, frames; which commands each display
    item becomes; laws: every command paints with the theme foreground, is a
    4-coordinate rectangle or a well-encoded path.
  - `session`, `resource`: sessions, whose display list is always the
    layout of their source (a type invariant; a failed source update keeps
    the old content), and the host's `math` resource (a failed resource keeps
    its error until an update succeeds, and retries with the last injected
    theme).
  - `fonts`: whether the loaded fonts can bake glyphs.
  - `panic_text`: the message of a caught panic.
- `app/` — the host side: the floating-point placement (em → px, fit-to-width,
  glyph outline transforms), font loading, and panic containment.
- `tests/` — tests of the library.
