# Mica

A terminal emulator whose model is verified with Verus.

`src/` is the library: grid cells and what they carry beside themselves, the
terminal over `alacritty_terminal` with its damage filter, semantic prompts and
command blocks, settings and the file that documents them, how a child is
started and reaped, the glyph atlas, box drawing, frame scheduling, the
instances of a frame, and the overlays drawn over the grid. Each function states
what it returns, and Verus checks that it does. Properties that span functions
are proved as `law_…` functions beside what they speak of.

`app/` is ordinary Rust around it: the pseudoterminal's system calls, the
settings file through `serde` and `toml`, CoreText, Metal, and the caret's
physics, which is floating point.

`tests/` runs the library.
