# marx_os

MarX-OS is a hobby x86-64 kernel with a glass-styled desktop, a read-only
archive file system on an IDE disk, a round-robin scheduler and an ELF app
loader. This crate is its core, written in Verus: the kernel's data structures,
parsers, window manager and drawing are verified functions with contracts;
the hardware glue around them (port I/O, interrupt stubs, the context
switch, TrueType text and the calculator's floating point) is ordinary
Rust.

## Layout

- `src/` — the verified library.
  - `framebuffer` — pixel buffer, drawing primitives (rectangles, gradients,
    rounded shapes, blending, image blits, the cursor) and the text console.
  - `desktop`, `events`, `chrome` — the window manager: windows, z-order,
    focus, dragging, taskbar, Start and context menus; one event-loop step
    from mouse/clock/keys/app requests to the next state; painting.
  - `app_wm`, `app`, `apps`, `sdk` — app windows (content buffers, event
    queues), the kernel services, and the bundled calculator and hello apps.
  - `elf` — static-PIE ELF64 loading with `R_X86_64_RELATIVE` relocations.
  - `fs`, `archive`, `ata` — the MARXARCH archive (reading and building) and
    the IDE register values and status decisions.
  - `input`, `interrupts`, `mouse`, `cursor` — keyboard ring buffer,
    interrupt bookkeeping, PS/2 packet decoding, cursor save/restore.
  - `task`, `memory` — scheduler and task stacks; physical frame allocation.
  - `shell`, `welcome`, `splash`, `button`, `strings`, `bytes` — the rest.
- `app/` — the kernel binary: boot sequence, port I/O, interrupt stubs,
  context switch, paging and heap, TrueType text (`ab_glyph`), the desktop
  loop, and the host-side disk-image packer.
- `tests/` — tests of the library on concrete values.

The kernel reads its console font (`font.bin`), logo (`logo.rgba`),
wallpaper (`wallpaper.rgb`) and TrueType font (`Inter-Regular.ttf`) from the
archive; images start with their width and height as little-endian 32-bit
words.
