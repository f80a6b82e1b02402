# Vorzax

The core of Vorzax, a small ARM64 teaching kernel with a desktop GUI,
written in Verus: every function in `src/` carries a contract that Verus
proves, except five small trusted wrappers whose contracts Verus takes on
trust: the `volatile::Volatile` register accesses (`new`, `read`, `write`),
UTF-8 decoding with `core::str::from_utf8`, and `core::hint::spin_loop`.

## Layout

- `src/kernel/`: processes, the round-robin scheduler, page tables and the
  kernel heap, exception classification, user accounts and their on-disk
  database.
- `src/driver/`: the framebuffer and its drawing primitives, the PL011 UART
  register logic, the block storage cache, the timer, keyboard, mouse and
  the unified input queue.
- `src/gui/`: windows and the window manager, applications, widgets, the
  event queue, the desktop and the About page with its bitmap font.
- `src/util/`: alignment helpers and shared lemmas.
- `app/`: the kernel image around the library: boot and MMU set-up,
  exception entry points, the spin-locked global state, device polling
  loops and the main loop.
- `tests/`: tests of the library on concrete values.

The library holds no global state: each subsystem is a value that the
caller owns and passes in, and `app/` keeps those values behind spin locks.
Screens are modelled as pixel buffers; storage is a sparse in-memory block
device.
