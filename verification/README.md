# kludgine

The logic of a 2d graphics library, written in Verus with its behaviour
stated in contracts and proved.

- `src/` is the verified library:
  - `math` — integer measurements (`Dips`, `Pixels`, `UPixels`), points,
    sizes and rectangles;
  - `pack` — a shelf packer for texture atlases, with its laws: the packer
    stays laid out (columns side by side, shelves stacked) whatever it is
    asked; a handed-out piece lies inside its run; freeing takes the run's
    area off and frees it for reuse. A request served by reusing a free run
    longer than itself leaves the rest of that run to be handed out again
    over the piece, and leaves that shelf untidy; every other shelf stays
    tidy, and a piece handed out in a tidy shelf without such a split
    overlaps no other run that lies within its column;
  - `sprite` — animations and the state of playing them, sprite sheets,
    loading Aseprite sheets from JSON text (parsed with `justjson` behind
    `json`), and the bounds of sprites joined from several texture
    rectangles;
  - `frame` — planning the draw commands of a frame in batches;
  - `buffer` — planning which ranges of a GPU buffer to rewrite, and
    applying the plan to the buffer's contents;
  - `clip` — clipping rectangles in `figures`' `UPx` unit and the stack that
    nests them (a pushed clip stays within the one below it; a pop restores
    it);
  - `render` — recording drawing operations (shared vertices, remapped
    indices, batched commands) and planning the steps that render them.
    Shared vertices are found by a linear search of a duplicate-free `Vec`
    rather than a hash map keyed by the vertex: a map's contents are only
    stated for integer keys, and a vertex is a struct of five integers;
  - `runtime` — installing the executor, and the pacing decisions of the
    window and application loops;
  - `style`, `shapes`, `color`, `time`, `sealed`, `application`.
- `app/` holds what stays outside the verified core: the panicking form of
  sheet loading, process-wide identifier counters, and the buffer update a
  caller performs.
- Other maps of the drawing code are held the same way: sprite animations
  by tag, sheet and map sprites by tile, and style components by kind are
  `Vec`s of entries, looked up from the end or kept free of duplicates.
  Paths hold their events in a `Vec`.
- `tests/` exercises the library on concrete values.
