# hayate

The document model and editing logic of a slide-presentation editor, verified with Verus.

`src/` is the verified library:

- the data model: EMU geometry, colours and themes, fonts, text, fills and strokes,
  animations, fractional order keys (`frac`), the entity/component store (`world`) and the
  master/layout/slide inheritance rules (`presentation`);
- `persist`: what a `.hayate` file holds and how a document is rebuilt from it;
- `pptx`, `ooxml`, `import`, `readback`: writing and reading PPTX parts (XML tokens come
  from `quick_xml`);
- editing: `textedit` (text box editing and IME), `textnav` (UTF-8/UTF-16 offsets, caret
  motion), `frame` (resize handles), `snap` (alignment snapping), `keys` (keyboard routing
  and shortcuts), `labels` (layer names), `highlight` (script highlighting), `reorder`
  (bring to front, send to back), `textcmd` (text commands: set text, size, font,
  bold/italic/underline, alignment), `slides` (slide drag and drop, slide and layout
  deletion);
- `commands` (command registry and palette search), `builtins` (the built-in command
  catalogue and running a command as one transaction), `authoring` (the AI authoring loop),
  `paths`, `media`, `xmltext` and other helpers.

`app/` holds the input and output around it: `.hayate` files in redb with JSON rows, PPTX
packages as ZIP files, the floating-point colour transforms and unit conversions, and the
drivers of the library's decision functions.
