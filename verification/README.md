# busman

Shares USB devices between Linux machines over TCP in the manner of USB/IP:
a server lists its USB devices and hands one over to the kernel's
`usbip-host` driver; a client asks for the list, imports a device and attaches
it to a free port of the `vhci-hcd` virtual host controller.

## Layout

- `src/` is the library, verified with Verus:
  - `wire`, `protocol`: the framed messages exchanged by client and server,
    their byte layout, and the laws that decoding gives back what encoding
    wrote.
  - `text`, `paths`: whitespace, numerals, lines and path components as the
    sysfs files present them.
  - `sysfs`, `host`, `kernel`: device and interface directories, how their
    attribute files become device records, and the sysfs writes that export
    and release a device, and the watch that gives an exported device back
    once.
  - `vhci`: the status table of the virtual host controller, the choice of a
    free port and the attach command.
  - `engine`: what a server answers to each request and what a client makes
    of the answers.
  - `run`: sequences of outside steps (sysfs writes, module loads, messages)
    that stop at the first step that fails.
  - `error`: the library's error types.
- `app/` is the program around it: sockets, threads, file reads and writes,
  loading kernel modules. It performs what the library decides.
- `tests/` run the library on concrete values.
