# scrolling_layout

A scrollable-tiling window layout with nested splits and tabs, written in Verus.

Windows stand in sections along an endless strip; the view scrolls along it. Each section holds a
tree of windows: splits, tabs and stacks, nested as deep as needed. The layout keeps no window
handles. It works on records of tiles, and what the windows have to do is queued as effects that
the caller performs.

## Layout of the crate

- `src/scalar.rs`, `geometry.rs`, `axis.rs`, `order.rs`: numbers, shapes, the main axis, sorting.
- `src/tile.rs`, `tile_node.rs`, `tree_*.rs`: tiles, and trees of them.
- `src/section*.rs`, `spans.rs`: a section, its sizes, tabs, edits and resizes.
- `src/tab_bar.rs`, `tab_header.rs`, `tab_titles.rs`: tab headers.
- `src/view_offset.rs`, `fit.rs`: where the view is, and where it should be.
- `src/space*.rs`: the space of sections and everything that is done to it.
- `src/windows.rs`: which windows there are, and that operations neither lose nor duplicate any.
- `src/section_laws.rs`, `span_laws.rs`, `space_laws.rs`, `space_undo.rs`: what holds across
  operations. Other laws stand next to what they are about; their names start with `law_`.
- `app/`: a thin shell with floating-point pixels, smithay shapes and the window side.

All numbers are of a type with the trait `Scalar`. `Pixels` is one of whole pixels; the shell has
one of floating-point numbers. Laws that compare numbers ask for `ordered`, which `Pixels` is
proved to be.
