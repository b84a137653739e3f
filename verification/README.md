# bettertui_engine

The core of a terminal UI engine, written in Verus. The functions of
`src/` carry contracts that Verus proves, with one exception: eighteen
small wrappers marked `#[verifier::external_body]` make the calls into
std (the system clock, `char::from_u32`, `String::push`,
`str::to_lowercase`, `Path`), `base64`, `unicode-segmentation`,
`unicode-width` and `taffy`. Their contracts, the five declared outside
types (three of taffy, two of `std::time`) and the six named results
(`pub uninterp spec fn`) are trusted, not proved; each one's doc comment
says what it claims of the outside code.

- `framebuffer`, `painter`: cell grids, diffs between frames, text writing
  by grapheme cluster.
- `hit_grid`: which node owns each cell, with nested clip rectangles.
- `input`: events, the event bus, dispatch planning (capture, target,
  bubble), focus management, keys, mouse and clipboard input.
- `keybinding`, `keyboard`, `palette`: key parsing, keymaps with chords,
  the command palette with fuzzy matching.
- `layout`: flexbox keywords, the layout engine over a taffy tree (kept a
  forest by every operation), text measuring, scene synchronisation and
  viewport culling.
- `graphics`, `graphics_protocol`, `glyph`, `nerdfont`: drawing, the Kitty,
  Sixel and iTerm2 image escapes, glyph caches and Nerd Font tables.
- `logger`: levels, module filters, colored formatting, daily log files and
  the frame-time window.
- `plugin`: plugin lifecycle and UI slots.
- `clock`: whole nanoseconds and milliseconds since the Unix epoch.

`app/` is the ordinary Rust around it: the global logger with its tracing
subscriber and panic hook, floating-point layout computation, font
discovery on disk, and event handlers as closures.
