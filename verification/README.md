# pmanga

The verified core of a browser manga reader, written in Verus.

- `src/` is the library. Every function in it is proved against its
  `requires` / `ensures` contract: the library view that groups chapters
  into volumes, chapter ordering by IEEE-754 total order, reader navigation
  across chapter boundaries, gamepad bindings and edge detection, page
  padding, the vertical-strip scroll position, portrait zoom steps, reading
  totals on the shelf, the start-up resume, the volume table parser, the file-name heuristics of
  the importer, and the text handling of the WeebCentral proxy.
- `tests/` runs the library on concrete values.
- `app/` is the browser program around it: the start-up redirects (to
  `localhost`, and to the last page read, decided by the library),
  browser storage of settings and of the last position, the proxy client,
  gamepad polling, and the floating-point geometry of the reader, which the
  library does not hold. The Dioxus views and the IndexedDB store of pages,
  chapters and progress are not part of this crate.

Chapter numbers are fractional. The library carries them as the bit
pattern of an `f32` (`u32`) and orders and compares them through integer
views of that pattern; `app/` converts with `f32::to_bits` / `f32::from_bits`.
