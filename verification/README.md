# toy_browser

A small browser pipeline: HTML is read into a DOM tree, CSS rules are matched against its
elements to give a styled tree, the styled tree becomes a box tree, and the boxes are laid
out and drawn in a window.

`src/` is the library, verified with Verus:

- `html` — the HTML reader. Its grammar is written as spec functions over the characters of
  the input (`spec_parse` and the functions under it); `parse` and `try_parse` return exactly
  the tree that the grammar gives, and every tree they return has `parsed_shape`.
- `dom` — DOM nodes and their mathematical values.
- `strmap` — the string-keyed map used for attributes and CSS properties.
- `css` — CSS selectors, rules, declarations and values.
- `style` — selector matching, the cascade (`apply_rules`) and the styled tree.
- `layout` — the box tree built from the styled tree.
- `serialize` — writing a tree as HTML, and the proof that `parse` reads it back.
- `pixel` — the integer pixel arithmetic of drawing: packing `0x00RRGGBB` pixels and blending
  a text color over the background by glyph coverage.
- `chars` — character classes and the std calls they rest on.

`app/` holds what is not verified: reading files, the floating-point box geometry, the
display list, and the window (winit, softbuffer, tiny-skia, fontdue), which calls `pixel`
for each pixel it writes.
