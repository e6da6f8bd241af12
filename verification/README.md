# PalladiumOS kernel logic, verified

The library (`src/`) holds the parts of the PalladiumOS kernel that decide
things, each with a Verus contract:

- `fdfs`: the in-memory filesystem (flat node vector, node 0 is `/`), with
  `fdfs_laws` proving what holds across operations (a read gives back what a
  write wrote, writes leave other files alone, a made directory lists empty,
  a removed entry no longer resolves, every operation keeps the full
  invariant: root `/`, valid names, valid UTF-8 data, one parent per node).
- `filesystem`: paths relative to a working directory, and the operations as
  the rest of the kernel calls them.
- `editor`: the full-screen editor (byte-column cursor, 24-row window,
  rendering to rows and an 80-column status bar), with `editor_laws`
  (backspace takes back a typed character or a line break; opening and
  saving give the text back).
- `shell`: reading a typed line into a command (`help`, `echo`, `clear`,
  `about`, `reboot`, `panic`, `edit <file>`).
- `keyboard`: decoding scan codes with `pc_keyboard` (US 104-key layout, set 1).
- `console`: what each scan code and key does to the shell line or the
  editor, and what a sequence of typed keys leaves on the line.
- `qemu`: the exit codes for QEMU's debug-exit device.
- `text`: byte views of strings (UTF-8 as vstd defines it), line splitting and
  joining, and the `String` operations made at byte offsets.

`app/` runs it as a hosted program: standard input stands for the keyboard
data port (scan code set 1 bytes), the terminal for the VGA text screen.
